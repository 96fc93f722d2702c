use forensic_vfs_engine::sniff::{
    aff4_probe, apfs_probe, apm_probe, dmg_probe, exfat_probe, ext4_probe, fat_probe, gpt_probe,
    hfsplus_probe, iso9660_probe, mbr_probe, ntfs_probe, qcow2_probe, vhd_probe, vhdx_probe,
    vmdk_probe, xfs_probe, Confidence, Window,
};

fn window(b: &[u8]) -> Window<'_> {
    Window { head: b, tail: &[] }
}

#[test]
fn probers_say_no_on_unrecognized_bytes() {
    let empty = window(&[]);
    assert_eq!(ntfs_probe(&empty), Confidence::No);
    assert_eq!(mbr_probe(&empty), Confidence::No);
    assert_eq!(gpt_probe(&empty), Confidence::No);
    // 0x55AA present but only a 0xEE protective entry -> Mbr declines (GPT's job).
    let mut prot = vec![0u8; 512];
    prot[446 + 4] = 0xEE;
    prot[446 + 12] = 1; // non-zero size
    prot[510] = 0x55;
    prot[511] = 0xaa;
    assert_eq!(mbr_probe(&window(&prot)), Confidence::No);
}

#[test]
fn dmg_decoder_format_probe_and_open_error() {
    // No koly trailer in the tail -> No (an all-zero window).
    let zeros = [0u8; 512];
    assert_eq!(dmg_probe(&Window { head: &[], tail: &zeros }), Confidence::No);
    // koly at the tail (file_len - 512) makes the tail probe say Yes.
    let mut v = vec![0u8; 1024];
    v[512..516].copy_from_slice(b"koly");
    v[512 + 224..512 + 232].copy_from_slice(&u64::MAX.to_be_bytes());
    assert_eq!(
        dmg_probe(&Window { head: &v, tail: &v }),
        Confidence::Yes { how: "DMG koly trailer" }
    );
}

#[test]
fn aff4_decoder_format_probe_and_open_error() {
    // No PK header -> No; a PK header -> Maybe (open disambiguates).
    assert_eq!(aff4_probe(&window(&[])), Confidence::No);
    assert_eq!(aff4_probe(&window(&[0x50, 0x4b, 0x03, 0x04])), Confidence::Maybe);
}

#[test]
fn iso9660_probe_kind_and_open_error() {
    assert_eq!(iso9660_probe(&window(&[])), Confidence::No);
    let mut v = vec![0u8; 40 * 1024];
    v[32769..32774].copy_from_slice(b"CD001");
    assert_eq!(
        iso9660_probe(&window(&v)),
        Confidence::Yes {
            how: "ISO 9660 CD001 volume descriptor"
        }
    );
}

#[test]
fn apfs_probe_kind_and_open_error() {
    assert_eq!(apfs_probe(&window(&[])), Confidence::No);
    let mut v = vec![0u8; 40 * 1024];
    v[32..36].copy_from_slice(b"NXSB");
    assert_eq!(
        apfs_probe(&window(&v)),
        Confidence::Yes {
            how: "APFS NXSB container superblock"
        }
    );
}

#[test]
fn hfsplus_probe_kind_and_no_on_short_window() {
    // A window shorter than 1026 bytes cannot carry the @1024 signature.
    assert_eq!(hfsplus_probe(&window(&[])), Confidence::No);
    // HFSX signature 'HX' at 1024 is also accepted.
    let mut v = vec![0u8; 40 * 1024];
    v[1024..1026].copy_from_slice(&[0x48, 0x58]);
    assert_eq!(
        hfsplus_probe(&window(&v)),
        Confidence::Yes {
            how: "HFS+/HFSX volume header"
        }
    );
}

#[test]
fn hfsplus_signature_is_accepted_too() {
    let mut v = vec![0u8; 2048];
    v[1024..1026].copy_from_slice(&[0x48, 0x2b]);
    assert_eq!(hfsplus_probe(&window(&v)), Confidence::Yes { how: "HFS+/HFSX volume header" });
    v[1025] = 0x00;
    assert_eq!(hfsplus_probe(&window(&v)), Confidence::No);
}

#[test]
fn ntfs_and_ext_signatures_are_recognized() {
    let mut v = vec![0u8; 4096];
    v[3..11].copy_from_slice(b"NTFS    ");
    assert_eq!(ntfs_probe(&window(&v)), Confidence::Yes { how: "NTFS OEM id" });
    let mut e = vec![0u8; 4096];
    e[1080] = 0x53;
    e[1081] = 0xef;
    assert_eq!(ext4_probe(&window(&e)), Confidence::Yes { how: "ext2/3/4 superblock magic" });
    assert_eq!(ext4_probe(&window(&e[..1081])), Confidence::No);
}

#[test]
fn xfs_probe_keys_on_the_superblock_magic() {
    let mut v = vec![0u8; 512];
    assert_eq!(xfs_probe(&window(&v)), Confidence::No);
    v[0..4].copy_from_slice(b"XFSB");
    assert_eq!(xfs_probe(&window(&v)), Confidence::Yes { how: "XFS XFSB superblock magic" });
}

#[test]
fn fat_and_exfat_probes_need_the_boot_signature() {
    let mut f = vec![0u8; 4096];
    f[0] = 0xEB;
    f[11..13].copy_from_slice(&512u16.to_le_bytes());
    assert_eq!(fat_probe(&window(&f)), Confidence::No);
    f[510] = 0x55;
    f[511] = 0xaa;
    assert_eq!(fat_probe(&window(&f)), Confidence::Yes { how: "FAT BPB" });
    // A bytes-per-sector that is not a power of two in 512..=4096 is refused.
    f[11..13].copy_from_slice(&1536u16.to_le_bytes());
    assert_eq!(fat_probe(&window(&f)), Confidence::No);
    f[11..13].copy_from_slice(&8192u16.to_le_bytes());
    assert_eq!(fat_probe(&window(&f)), Confidence::No);

    let mut x = vec![0u8; 4096];
    x[3..11].copy_from_slice(b"EXFAT   ");
    assert_eq!(exfat_probe(&window(&x)), Confidence::No);
    x[510] = 0x55;
    x[511] = 0xaa;
    assert_eq!(exfat_probe(&window(&x)), Confidence::Yes { how: "exFAT boot signature" });
}

#[test]
fn mbr_probe_rejects_filesystem_boot_sectors() {
    let mut d = vec![0u8; 512];
    d[446] = 0x80;
    d[446 + 4] = 0x07;
    d[446 + 12] = 4;
    d[510] = 0x55;
    d[511] = 0xaa;
    assert_eq!(mbr_probe(&window(&d)), Confidence::Yes { how: "MBR partition table" });
    // The same table under an NTFS, exFAT or FAT boot sector is a bare filesystem.
    let mut n = d.clone();
    n[3..11].copy_from_slice(b"NTFS    ");
    assert_eq!(mbr_probe(&window(&n)), Confidence::No);
    let mut x = d.clone();
    x[3..11].copy_from_slice(b"EXFAT   ");
    assert_eq!(mbr_probe(&window(&x)), Confidence::No);
    let mut f = d.clone();
    f[0] = 0xE9;
    assert_eq!(mbr_probe(&window(&f)), Confidence::No);
    // An invalid boot flag makes the entry implausible.
    let mut b = d.clone();
    b[446] = 0x12;
    assert_eq!(mbr_probe(&window(&b)), Confidence::No);
}

#[test]
fn volume_system_and_container_probes_match_their_magic() {
    let mut g = vec![0u8; 1024];
    g[512..520].copy_from_slice(b"EFI PART");
    assert_eq!(gpt_probe(&window(&g)), Confidence::Yes { how: "GPT EFI PART header" });

    let mut a = vec![0u8; 1024];
    a[0..2].copy_from_slice(b"ER");
    assert_eq!(apm_probe(&window(&a)), Confidence::No);
    a[512..514].copy_from_slice(b"PM");
    assert_eq!(apm_probe(&window(&a)), Confidence::Yes { how: "Apple Partition Map" });

    let mut c = vec![0u8; 64];
    c[0..8].copy_from_slice(b"conectix");
    assert_eq!(vhd_probe(&window(&c)), Confidence::Yes { how: "VHD conectix footer" });
    let q = [0x51u8, 0x46, 0x49, 0xfb];
    assert_eq!(qcow2_probe(&window(&q)), Confidence::Yes { how: "QCOW2 magic" });
    assert_eq!(qcow2_probe(&window(&q[..3])), Confidence::No);
    assert_eq!(vmdk_probe(&window(b"KDMV")), Confidence::Yes { how: "VMDK KDMV magic" });
    assert_eq!(vhdx_probe(&window(b"vhdxfile")), Confidence::Yes { how: "VHDX file magic" });
    assert_eq!(vhdx_probe(&window(b"vhdxfil")), Confidence::No);
}

#[test]
fn a_zero_window_is_claimed_by_no_prober() {
    let z = vec![0u8; 64 * 1024];
    let w = Window { head: &z, tail: &z[..4096] };
    assert_eq!(ntfs_probe(&w), Confidence::No);
    assert_eq!(ext4_probe(&w), Confidence::No);
    assert_eq!(xfs_probe(&w), Confidence::No);
    assert_eq!(iso9660_probe(&w), Confidence::No);
    assert_eq!(apfs_probe(&w), Confidence::No);
    assert_eq!(hfsplus_probe(&w), Confidence::No);
    assert_eq!(exfat_probe(&w), Confidence::No);
    assert_eq!(fat_probe(&w), Confidence::No);
    assert_eq!(mbr_probe(&w), Confidence::No);
    assert_eq!(gpt_probe(&w), Confidence::No);
    assert_eq!(apm_probe(&w), Confidence::No);
    assert_eq!(vhd_probe(&w), Confidence::No);
    assert_eq!(qcow2_probe(&w), Confidence::No);
    assert_eq!(vmdk_probe(&w), Confidence::No);
    assert_eq!(vhdx_probe(&w), Confidence::No);
    assert_eq!(dmg_probe(&w), Confidence::No);
    assert_eq!(aff4_probe(&w), Confidence::No);
}
