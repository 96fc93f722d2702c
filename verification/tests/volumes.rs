use forensic_vfs_engine::apm::{apm_window_len, map_volumes, ApmMap, ApmPartition, APM_MAP_CAP};
use forensic_vfs_engine::gpt::{gpt_layout, parse_gpt_entries, GptLayout};
use forensic_vfs_engine::hex::guid_hint;
use forensic_vfs_engine::mbr::parse_mbr;
use forensic_vfs_engine::volume::{saturating_sectors, select_volume, OutOfRange};

/// The bytes a source of `d` yields for a read of `len` bytes at `off`: what
/// lies in range, the rest left zero.
fn read_at(d: &[u8], off: u64, len: usize) -> Vec<u8> {
    let mut buf = vec![0u8; len];
    let off = usize::try_from(off).unwrap_or(usize::MAX);
    if off < d.len() {
        let n = (d.len() - off).min(len);
        buf[..n].copy_from_slice(&d[off..off + n]);
    }
    buf
}

#[test]
fn guid_hint_is_lowercase_hex() {
    assert_eq!(guid_hint(&[0xde, 0xad, 0xbe, 0xef]), "deadbeef");
}

#[test]
fn guid_hint_pads_each_byte_to_two_digits() {
    assert_eq!(guid_hint(&[]), "");
    assert_eq!(guid_hint(&[0x00, 0x0a, 0xf0]), "000af0");
}

#[test]
fn gpt_parse_without_signature_errors_and_mbr_volume_index_is_bounded() {
    // The header at LBA 1 of 1024 zero bytes lacks EFI PART.
    let zeros = vec![0u8; 1024];
    let err = gpt_layout(&read_at(&zeros, 512, 512)).err().expect("no signature");
    assert_eq!(err.found, vec![0u8; 8]);
    // A valid single-entry MBR; selecting a volume out of range errors.
    let mut d = vec![0u8; 512];
    d[446 + 4] = 0x07;
    d[446 + 8] = 1; // start LBA 1
    d[446 + 12] = 4; // size 4 sectors
    d[510] = 0x55;
    d[511] = 0xaa;
    let m = parse_mbr(&read_at(&d, 0, 512));
    assert_eq!(m.len(), 1);
    assert!(select_volume(&m, 0).is_ok());
    assert!(select_volume(&m, 9).is_err());
}

#[test]
fn mbr_partition_carries_type_hint_and_byte_range() {
    let mut d = vec![0u8; 512];
    d[446 + 16 + 4] = 0x83;
    d[446 + 16 + 8..446 + 16 + 12].copy_from_slice(&2048u32.to_le_bytes());
    d[446 + 16 + 12..446 + 16 + 16].copy_from_slice(&100u32.to_le_bytes());
    // Slot 2 is a protective entry, slot 3 has no size: both are skipped.
    d[446 + 32 + 4] = 0xEE;
    d[446 + 32 + 12] = 1;
    d[446 + 48 + 4] = 0x07;
    let m = parse_mbr(&d);
    assert_eq!(m.len(), 1);
    assert_eq!(m[0].index, 1);
    assert_eq!(m[0].start, 2048 * 512);
    assert_eq!(m[0].len, 100 * 512);
    assert_eq!(m[0].type_hint.as_deref(), Some("0x83"));
    assert_eq!(m[0].label, None);
    assert_eq!(select_volume(&m, 0), Ok((2048 * 512, 100 * 512)));
    assert_eq!(select_volume(&m, 1), Err(OutOfRange { index: 1, bound: 1 }));
}

#[test]
fn a_protective_mbr_yields_no_partition() {
    let mut d = vec![0u8; 512];
    d[446 + 4] = 0xEE;
    d[446 + 12] = 1;
    d[510] = 0x55;
    d[511] = 0xaa;
    assert!(parse_mbr(&d).is_empty());
    assert!(parse_mbr(&[]).is_empty());
}

#[test]
fn gpt_parse_skips_unused_and_reversed_entries() {
    let mut d = vec![0u8; 1280];
    d[512..520].copy_from_slice(b"EFI PART");
    d[512 + 72..512 + 80].copy_from_slice(&2u64.to_le_bytes()); // entries LBA 2
    d[512 + 80..512 + 84].copy_from_slice(&2u32.to_le_bytes()); // num entries
    d[512 + 84..512 + 88].copy_from_slice(&128u32.to_le_bytes()); // entry size
    // entry 0 @ 1024: valid basic-data partition, first 100 last 200
    d[1024] = 0xa2; // non-zero type GUID
    d[1024 + 32..1024 + 40].copy_from_slice(&100u64.to_le_bytes());
    d[1024 + 40..1024 + 48].copy_from_slice(&200u64.to_le_bytes());
    // entry 1 @ 1152: non-zero GUID but last<first -> skipped
    d[1152] = 0xa2;
    d[1152 + 32..1152 + 40].copy_from_slice(&500u64.to_le_bytes());
    d[1152 + 40..1152 + 48].copy_from_slice(&400u64.to_le_bytes());
    let layout = gpt_layout(&read_at(&d, 512, 512)).ok().expect("EFI PART");
    assert_eq!(
        layout,
        GptLayout {
            entries_lba: 2,
            num_entries: 2,
            entry_size: 128
        }
    );
    let arr = read_at(&d, layout.array_offset(), layout.array_len());
    let g = parse_gpt_entries(&layout, &arr);
    assert_eq!(g.len(), 1, "reversed entry 1 is skipped");
    assert_eq!(g[0].start, 100 * 512);
    assert_eq!(g[0].len, 101 * 512);
    assert_eq!(
        g[0].type_hint.as_deref(),
        Some("a2000000000000000000000000000000")
    );
    assert!(select_volume(&g, 0).is_ok());
    assert!(select_volume(&g, 7).is_err());
}

#[test]
fn gpt_layout_caps_entry_count_and_clamps_entry_size() {
    let mut h = vec![0u8; 512];
    h[0..8].copy_from_slice(b"EFI PART");
    h[72..80].copy_from_slice(&u64::MAX.to_le_bytes());
    h[80..84].copy_from_slice(&100_000u32.to_le_bytes());
    h[84..88].copy_from_slice(&16u32.to_le_bytes());
    let l = gpt_layout(&h).ok().expect("EFI PART");
    assert_eq!(l.num_entries, 256);
    assert_eq!(l.entry_size, 128);
    assert_eq!(l.array_len(), 256 * 128);
    assert_eq!(l.array_offset(), u64::MAX);
    h[84..88].copy_from_slice(&100_000u32.to_le_bytes());
    assert_eq!(gpt_layout(&h).ok().expect("EFI PART").entry_size, 512);
    // A short header reads its fields as zero.
    let short = gpt_layout(b"EFI PART").ok().expect("EFI PART");
    assert_eq!((short.entries_lba, short.num_entries, short.entry_size), (0, 0, 128));
    assert_eq!(gpt_layout(b"EFI").err().expect("short").found, Vec::<u8>::new());
}

#[test]
fn apm_maps_partitions_and_errors_on_non_apm() {
    // The map as apm-partition-core decodes the image: a 512-byte block size,
    // the map's own entry (skipped) and one Apple_HFS data partition.
    let map = ApmMap {
        block_size: 512,
        partitions: vec![
            ApmPartition {
                name: String::new(),
                part_type: "Apple_partition_map".to_string(),
                start_block: 1,
                block_count: 63,
            },
            ApmPartition {
                name: String::new(),
                part_type: "Apple_HFS".to_string(),
                start_block: 4,
                block_count: 2,
            },
        ],
    };
    let v = map_volumes(&map);
    assert_eq!(v.len(), 1); // Apple_partition_map is skipped
    assert_eq!(v[0].start, 4 * 512); // start_block 4 × 512
    assert!(select_volume(&v, 0).is_ok());
    assert!(select_volume(&v, 9).is_err());
}

#[test]
fn apm_skips_free_space_in_any_case_and_keeps_labels() {
    let map = ApmMap {
        block_size: 0,
        partitions: vec![
            ApmPartition {
                name: "Extra".to_string(),
                part_type: "apple_free".to_string(),
                start_block: 10,
                block_count: 5,
            },
            ApmPartition {
                name: String::new(),
                part_type: "APPLE_VOID".to_string(),
                start_block: 20,
                block_count: 5,
            },
            ApmPartition {
                name: "Macintosh HD".to_string(),
                part_type: "Apple_HFS".to_string(),
                start_block: 64,
                block_count: 128,
            },
        ],
    };
    let v = map_volumes(&map);
    assert_eq!(v.len(), 1);
    assert_eq!(v[0].index, 2);
    // A zero block size counts as 1.
    assert_eq!(v[0].start, 64);
    assert_eq!(v[0].len, 128);
    assert_eq!(v[0].type_hint.as_deref(), Some("Apple_HFS"));
    assert_eq!(v[0].label.as_deref(), Some("Macintosh HD"));
}

#[test]
fn apm_window_is_clamped() {
    assert_eq!(apm_window_len(0), 1);
    assert_eq!(apm_window_len(4096), 4096);
    assert_eq!(apm_window_len(u64::MAX), APM_MAP_CAP as usize);
}

#[test]
fn sector_offsets_saturate() {
    assert_eq!(saturating_sectors(3), 1536);
    assert_eq!(saturating_sectors(u64::MAX / 512 + 1), u64::MAX);
}
