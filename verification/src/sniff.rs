//! Signature probes: the bounded byte windows a prober inspects, the verdict it
//! returns, and one probe per filesystem, volume system and container format.

use vstd::prelude::*;

verus! {

/// A prober's verdict. `Yes` carries how the bytes matched.
#[derive(PartialEq, Eq, Clone, Copy, Debug)]
pub enum Confidence {
    No,
    Maybe,
    Yes { how: &'static str },
}

/// The bytes a prober may look at: a prefix of the source (`head`, starting at
/// source offset 0) and the last bytes of the source (`tail`, ending at its end).
pub struct Window<'a> {
    pub head: &'a [u8],
    pub tail: &'a [u8],
}

/// `magic` occurs in `s` at offset `off`.
pub open spec fn magic_at(s: Seq<u8>, off: int, magic: Seq<u8>) -> bool {
    0 <= off && off + magic.len() <= s.len() && s.subrange(off, off + magic.len()) == magic
}

/// `magic` occurs in the tail `from_end` bytes before the end of the source.
pub open spec fn magic_from_end(tail: Seq<u8>, from_end: int, magic: Seq<u8>) -> bool {
    0 <= from_end <= tail.len() && magic_at(tail, tail.len() - from_end, magic)
}

/// `Yes { how }` when `matched`, `No` otherwise.
pub open spec fn verdict(matched: bool, how: &'static str) -> Confidence {
    if matched {
        Confidence::Yes { how }
    } else {
        Confidence::No
    }
}

/// Whether `magic` occurs in `s` at `off` (exec form of `magic_at`).
pub(crate) fn slice_has_magic(s: &[u8], off: usize, magic: &[u8]) -> (r: bool)
    ensures
        r == magic_at(s@, off as int, magic@),
{
    if off > s.len() || magic.len() > s.len() - off {
        return false;
    }
    let mut i: usize = 0;
    while i < magic.len()
        invariant
            i <= magic.len(),
            off + magic.len() <= s.len(),
            forall|j: int| 0 <= j < i ==> s@[off + j] == magic@[j],
        decreases magic.len() - i,
    {
        if s[off + i] != magic[i] {
            assert(s@.subrange(off as int, off + magic@.len())[i as int] != magic@[i as int]);
            return false;
        }
        i += 1;
    }
    assert(s@.subrange(off as int, off + magic@.len()) =~= magic@);
    true
}

impl<'a> Window<'a> {
    /// True when the head has `magic` at `off`; false when the window is too short.
    pub fn has_magic(&self, off: usize, magic: &[u8]) -> (r: bool)
        ensures
            r == magic_at(self.head@, off as int, magic@),
    {
        slice_has_magic(self.head, off, magic)
    }

    /// True when the tail has `magic` starting `from_end` bytes before the end of
    /// the source; false when the tail is too short.
    pub fn has_magic_from_end(&self, from_end: usize, magic: &[u8]) -> (r: bool)
        ensures
            r == magic_from_end(self.tail@, from_end as int, magic@),
    {
        if from_end > self.tail.len() {
            return false;
        }
        slice_has_magic(self.tail, self.tail.len() - from_end, magic)
    }

    /// The head byte at `off`, if the head reaches it.
    pub fn byte_at(&self, off: usize) -> (r: Option<u8>)
        ensures
            r == (if off < self.head@.len() {
                Some(self.head@[off as int])
            } else {
                None::<u8>
            }),
    {
        if off < self.head.len() {
            Some(self.head[off])
        } else {
            None
        }
    }
}

/// "NTFS    "
pub open spec fn ntfs_oem_id() -> Seq<u8> {
    seq![0x4e, 0x54, 0x46, 0x53, 0x20, 0x20, 0x20, 0x20]
}

/// "EXFAT   "
pub open spec fn exfat_oem_id() -> Seq<u8> {
    seq![0x45, 0x58, 0x46, 0x41, 0x54, 0x20, 0x20, 0x20]
}

/// The 0x55AA boot-sector signature.
pub open spec fn boot_signature() -> Seq<u8> {
    seq![0x55, 0xaa]
}

/// NTFS boot sector: OEM id "NTFS    " at byte offset 3.
pub open spec fn ntfs_signature(head: Seq<u8>) -> bool {
    magic_at(head, 3, ntfs_oem_id())
}

/// ext2/3/4: `s_magic` 0xEF53 (little-endian) at absolute offset 1080.
pub open spec fn ext_signature(head: Seq<u8>) -> bool {
    magic_at(head, 1080, seq![0x53, 0xef])
}

/// ISO 9660: the standard identifier "CD001" of the volume descriptor at LBA 16.
pub open spec fn iso9660_signature(head: Seq<u8>) -> bool {
    magic_at(head, 32769, seq![0x43, 0x44, 0x30, 0x30, 0x31])
}

/// APFS: "NXSB" right after the 32-byte object header of block 0.
pub open spec fn apfs_signature(head: Seq<u8>) -> bool {
    magic_at(head, 32, seq![0x4e, 0x58, 0x53, 0x42])
}

/// HFS+ ("H+") or HFSX ("HX") volume header signature at offset 1024.
pub open spec fn hfsplus_signature(head: Seq<u8>) -> bool {
    magic_at(head, 1024, seq![0x48, 0x2b]) || magic_at(head, 1024, seq![0x48, 0x58])
}

/// exFAT: the boot signature plus "EXFAT   " at offset 3.
pub open spec fn exfat_signature(head: Seq<u8>) -> bool {
    magic_at(head, 510, boot_signature()) && magic_at(head, 3, exfat_oem_id())
}

/// An x86 jump opcode (short or near) that opens a FAT boot sector.
pub open spec fn is_jump_opcode(b: u8) -> bool {
    b == 0xeb || b == 0xe9
}

/// The bytes-per-sector field of a FAT BPB (little-endian at offset 11), or 0
/// when the head does not hold both bytes.
pub open spec fn fat_bytes_per_sector(head: Seq<u8>) -> u16 {
    if head.len() >= 13 {
        (head[11] as nat + 256 * head[12] as nat) as u16
    } else {
        0
    }
}

/// A power of two between 512 and 4096 inclusive.
pub open spec fn plausible_sector_size(bps: u16) -> bool {
    bps == 512 || bps == 1024 || bps == 2048 || bps == 4096
}

/// FAT12/16/32: boot signature, a jump instruction at offset 0, and a
/// power-of-two bytes-per-sector between 512 and 4096.
pub open spec fn fat_signature(head: Seq<u8>) -> bool {
    &&& magic_at(head, 510, boot_signature())
    &&& head.len() >= 1
    &&& is_jump_opcode(head[0])
    &&& plausible_sector_size(fat_bytes_per_sector(head))
}

/// The byte of `head` at `off`, or 0 when the head does not reach it.
pub open spec fn byte_or_zero(head: Seq<u8>, off: int) -> u8 {
    if 0 <= off < head.len() {
        head[off]
    } else {
        0
    }
}

/// The `i`-th slot of the four-entry MBR partition table is a plausible
/// partition: a boot flag of 0x00 or 0x80, a type that is neither empty nor the
/// GPT protective marker 0xEE, and a non-zero sector count.
pub open spec fn mbr_entry_plausible(head: Seq<u8>, i: int) -> bool {
    let base = 446 + 16 * i;
    let flag = byte_or_zero(head, base);
    let ptype = byte_or_zero(head, base + 4);
    &&& flag == 0x00 || flag == 0x80
    &&& ptype != 0 && ptype != 0xee
    &&& crate::bytes::spec_le_u32(head, base + 12) != 0
}

/// The boot sector of a bare filesystem: an exFAT or NTFS OEM id at offset 3, or a
/// FAT jump instruction at offset 0.
pub open spec fn filesystem_boot_sector(head: Seq<u8>) -> bool {
    magic_at(head, 3, exfat_oem_id()) || magic_at(head, 3, ntfs_oem_id()) || (head.len() >= 1
        && is_jump_opcode(head[0]))
}

/// MBR partition table: the boot signature, no filesystem boot sector, and at
/// least one plausible entry among the four table slots.
pub open spec fn mbr_signature(head: Seq<u8>) -> bool {
    &&& magic_at(head, 510, boot_signature())
    &&& !filesystem_boot_sector(head)
    &&& exists|i: int| 0 <= i < 4 && #[trigger] mbr_entry_plausible(head, i)
}

/// GPT: header signature "EFI PART" at LBA 1 (byte offset 512).
pub open spec fn gpt_signature(head: Seq<u8>) -> bool {
    magic_at(head, 512, seq![0x45, 0x46, 0x49, 0x20, 0x50, 0x41, 0x52, 0x54])
}

/// Apple Partition Map: driver descriptor "ER" at block 0 and the first
/// partition-map entry "PM" at block 1 (512-byte blocks).
pub open spec fn apm_signature(head: Seq<u8>) -> bool {
    magic_at(head, 0, seq![0x45, 0x52]) && magic_at(head, 512, seq![0x50, 0x4d])
}

/// VHD: a "conectix" footer copy at offset 0.
pub open spec fn vhd_signature(head: Seq<u8>) -> bool {
    magic_at(head, 0, seq![0x63, 0x6f, 0x6e, 0x65, 0x63, 0x74, 0x69, 0x78])
}

/// QCOW2: magic "QFI\xfb" at offset 0.
pub open spec fn qcow2_signature(head: Seq<u8>) -> bool {
    magic_at(head, 0, seq![0x51, 0x46, 0x49, 0xfb])
}

/// VMDK sparse extent: magic "KDMV" at offset 0.
pub open spec fn vmdk_signature(head: Seq<u8>) -> bool {
    magic_at(head, 0, seq![0x4b, 0x44, 0x4d, 0x56])
}

/// "vhdxfile", the VHDX file identifier.
pub open spec fn vhdx_file_magic() -> Seq<u8> {
    seq![0x76, 0x68, 0x64, 0x78, 0x66, 0x69, 0x6c, 0x65]
}

/// VHDX: the file identifier at offset 0.
pub open spec fn vhdx_signature(head: Seq<u8>) -> bool {
    magic_at(head, 0, vhdx_file_magic())
}

/// DMG (UDIF): the "koly" trailer 512 bytes before the end of the source.
pub open spec fn dmg_signature(tail: Seq<u8>) -> bool {
    magic_from_end(tail, 512, seq![0x6b, 0x6f, 0x6c, 0x79])
}

/// AFF4 is a Zip archive: the local-file-header magic "PK\x03\x04" at offset 0.
pub open spec fn zip_signature(head: Seq<u8>) -> bool {
    magic_at(head, 0, seq![0x50, 0x4b, 0x03, 0x04])
}

/// XFS superblock: the `XFSB` magic at byte 0.
pub open spec fn xfs_signature(head: Seq<u8>) -> bool {
    magic_at(head, 0, seq![0x58, 0x46, 0x53, 0x42])
}

/// `xfs::vfs::xfs_probe` over a window whose head is `head`: it answers `Yes`,
/// with its own wording, exactly when the head starts with `XFSB`, else `No`.
#[verifier::external_body]
fn xfs_crate_probe(head: &[u8]) -> (c: Confidence)
    ensures
        c == verdict(xfs_signature(head@), "XFS XFSB superblock magic"),
{
    match xfs::vfs::xfs_probe(&forensic_vfs::SniffWindow::new(0, head)) {
        forensic_vfs::Confidence::No => Confidence::No,
        forensic_vfs::Confidence::Maybe => Confidence::Maybe,
        forensic_vfs::Confidence::Yes { how } => Confidence::Yes { how },
    }
}

/// XFS prober, as the XFS reader itself defines it.
pub fn xfs_probe(w: &Window) -> (c: Confidence)
    ensures
        c == verdict(xfs_signature(w.head@), "XFS XFSB superblock magic"),
{
    xfs_crate_probe(w.head)
}

/// `vhdx::FILE_MAGIC`, the 8-byte VHDX file identifier.
#[verifier::external_body]
fn vhdx_magic() -> (r: &'static [u8])
    ensures
        r@ == vhdx_file_magic(),
{
    vhdx::FILE_MAGIC
}

/// NTFS prober.
pub fn ntfs_probe(w: &Window) -> (c: Confidence)
    ensures
        c == verdict(ntfs_signature(w.head@), "NTFS OEM id"),
{
    let magic: [u8; 8] = [0x4e, 0x54, 0x46, 0x53, 0x20, 0x20, 0x20, 0x20];
    if w.has_magic(3, &magic) {
        Confidence::Yes { how: "NTFS OEM id" }
    } else {
        Confidence::No
    }
}

/// ext2/3/4 prober.
pub fn ext4_probe(w: &Window) -> (c: Confidence)
    ensures
        c == verdict(ext_signature(w.head@), "ext2/3/4 superblock magic"),
{
    let magic: [u8; 2] = [0x53, 0xef];
    if w.has_magic(1080, &magic) {
        Confidence::Yes { how: "ext2/3/4 superblock magic" }
    } else {
        Confidence::No
    }
}

/// ISO 9660 prober.
pub fn iso9660_probe(w: &Window) -> (c: Confidence)
    ensures
        c == verdict(iso9660_signature(w.head@), "ISO 9660 CD001 volume descriptor"),
{
    let magic: [u8; 5] = [0x43, 0x44, 0x30, 0x30, 0x31];
    if w.has_magic(32769, &magic) {
        Confidence::Yes { how: "ISO 9660 CD001 volume descriptor" }
    } else {
        Confidence::No
    }
}

/// APFS prober.
pub fn apfs_probe(w: &Window) -> (c: Confidence)
    ensures
        c == verdict(apfs_signature(w.head@), "APFS NXSB container superblock"),
{
    let magic: [u8; 4] = [0x4e, 0x58, 0x53, 0x42];
    if w.has_magic(32, &magic) {
        Confidence::Yes { how: "APFS NXSB container superblock" }
    } else {
        Confidence::No
    }
}

/// HFS+/HFSX prober.
pub fn hfsplus_probe(w: &Window) -> (c: Confidence)
    ensures
        c == verdict(hfsplus_signature(w.head@), "HFS+/HFSX volume header"),
{
    let plus: [u8; 2] = [0x48, 0x2b];
    let x: [u8; 2] = [0x48, 0x58];
    if w.has_magic(1024, &plus) || w.has_magic(1024, &x) {
        Confidence::Yes { how: "HFS+/HFSX volume header" }
    } else {
        Confidence::No
    }
}

/// exFAT prober.
pub fn exfat_probe(w: &Window) -> (c: Confidence)
    ensures
        c == verdict(exfat_signature(w.head@), "exFAT boot signature"),
{
    let sig: [u8; 2] = [0x55, 0xaa];
    let oem: [u8; 8] = [0x45, 0x58, 0x46, 0x41, 0x54, 0x20, 0x20, 0x20];
    if w.has_magic(510, &sig) && w.has_magic(3, &oem) {
        Confidence::Yes { how: "exFAT boot signature" }
    } else {
        Confidence::No
    }
}

/// FAT12/16/32 prober.
pub fn fat_probe(w: &Window) -> (c: Confidence)
    ensures
        c == verdict(fat_signature(w.head@), "FAT BPB"),
{
    let sig: [u8; 2] = [0x55, 0xaa];
    if !w.has_magic(510, &sig) {
        return Confidence::No;
    }
    let jump_ok = match w.byte_at(0) {
        Some(b) => b == 0xeb || b == 0xe9,
        None => false,
    };
    let bps: u16 = match (w.byte_at(11), w.byte_at(12)) {
        (Some(lo), Some(hi)) => lo as u16 + 256 * (hi as u16),
        _ => 0,
    };
    if jump_ok && (bps == 512 || bps == 1024 || bps == 2048 || bps == 4096) {
        Confidence::Yes { how: "FAT BPB" }
    } else {
        Confidence::No
    }
}

/// MBR prober: the boot signature is necessary but not sufficient. A bare
/// exFAT/NTFS/FAT boot sector also carries it, so such a sector is declined, and
/// at least one table slot must hold a plausible partition (the 0xEE protective
/// entry is left to the GPT prober).
pub fn mbr_probe(w: &Window) -> (c: Confidence)
    ensures
        c == verdict(mbr_signature(w.head@), "MBR partition table"),
{
    let sig: [u8; 2] = [0x55, 0xaa];
    if !w.has_magic(510, &sig) {
        return Confidence::No;
    }
    let exfat: [u8; 8] = [0x45, 0x58, 0x46, 0x41, 0x54, 0x20, 0x20, 0x20];
    let ntfs: [u8; 8] = [0x4e, 0x54, 0x46, 0x53, 0x20, 0x20, 0x20, 0x20];
    let jump = match w.byte_at(0) {
        Some(b) => b == 0xeb || b == 0xe9,
        None => false,
    };
    if w.has_magic(3, &exfat) || w.has_magic(3, &ntfs) || jump {
        return Confidence::No;
    }
    let mut i: usize = 0;
    while i < 4
        invariant
            i <= 4,
            magic_at(w.head@, 510, boot_signature()),
            !filesystem_boot_sector(w.head@),
            forall|j: int| 0 <= j < i ==> !mbr_entry_plausible(w.head@, j),
        decreases 4 - i,
    {
        let base = 446 + 16 * i;
        let flag = match w.byte_at(base) {
            Some(b) => b,
            None => 0,
        };
        let ptype = match w.byte_at(base + 4) {
            Some(b) => b,
            None => 0,
        };
        let size = crate::bytes::le_u32(w.head, base + 12);
        if (flag == 0x00 || flag == 0x80) && ptype != 0 && ptype != 0xee && size != 0 {
            assert(mbr_entry_plausible(w.head@, i as int));
            return Confidence::Yes { how: "MBR partition table" };
        }
        i += 1;
    }
    Confidence::No
}

/// GPT prober.
pub fn gpt_probe(w: &Window) -> (c: Confidence)
    ensures
        c == verdict(gpt_signature(w.head@), "GPT EFI PART header"),
{
    let magic: [u8; 8] = [0x45, 0x46, 0x49, 0x20, 0x50, 0x41, 0x52, 0x54];
    if w.has_magic(512, &magic) {
        Confidence::Yes { how: "GPT EFI PART header" }
    } else {
        Confidence::No
    }
}

/// Apple Partition Map prober.
pub fn apm_probe(w: &Window) -> (c: Confidence)
    ensures
        c == verdict(apm_signature(w.head@), "Apple Partition Map"),
{
    let er: [u8; 2] = [0x45, 0x52];
    let pm: [u8; 2] = [0x50, 0x4d];
    if w.has_magic(0, &er) && w.has_magic(512, &pm) {
        Confidence::Yes { how: "Apple Partition Map" }
    } else {
        Confidence::No
    }
}

/// VHD (dynamic/differencing) prober. A fixed VHD carries its footer only at the
/// end and its head sniffs as the raw filesystem inside.
pub fn vhd_probe(w: &Window) -> (c: Confidence)
    ensures
        c == verdict(vhd_signature(w.head@), "VHD conectix footer"),
{
    let magic: [u8; 8] = [0x63, 0x6f, 0x6e, 0x65, 0x63, 0x74, 0x69, 0x78];
    if w.has_magic(0, &magic) {
        Confidence::Yes { how: "VHD conectix footer" }
    } else {
        Confidence::No
    }
}

/// QCOW2 prober.
pub fn qcow2_probe(w: &Window) -> (c: Confidence)
    ensures
        c == verdict(qcow2_signature(w.head@), "QCOW2 magic"),
{
    let magic: [u8; 4] = [0x51, 0x46, 0x49, 0xfb];
    if w.has_magic(0, &magic) {
        Confidence::Yes { how: "QCOW2 magic" }
    } else {
        Confidence::No
    }
}

/// VMDK (monolithic sparse / stream-optimized) prober.
pub fn vmdk_probe(w: &Window) -> (c: Confidence)
    ensures
        c == verdict(vmdk_signature(w.head@), "VMDK KDMV magic"),
{
    let magic: [u8; 4] = [0x4b, 0x44, 0x4d, 0x56];
    if w.has_magic(0, &magic) {
        Confidence::Yes { how: "VMDK KDMV magic" }
    } else {
        Confidence::No
    }
}

/// VHDX prober.
pub fn vhdx_probe(w: &Window) -> (c: Confidence)
    ensures
        c == verdict(vhdx_signature(w.head@), "VHDX file magic"),
{
    if w.has_magic(0, vhdx_magic()) {
        Confidence::Yes { how: "VHDX file magic" }
    } else {
        Confidence::No
    }
}

/// DMG prober: a tail probe, since the 512-byte koly trailer ends the file.
pub fn dmg_probe(w: &Window) -> (c: Confidence)
    ensures
        c == verdict(dmg_signature(w.tail@), "DMG koly trailer"),
{
    let magic: [u8; 4] = [0x6b, 0x6f, 0x6c, 0x79];
    if w.has_magic_from_end(512, &magic) {
        Confidence::Yes { how: "DMG koly trailer" }
    } else {
        Confidence::No
    }
}

/// AFF4 prober. Any Zip sniffs the same, so this is at most `Maybe`; opening the
/// container tells a real AFF4 from an unrelated Zip.
pub fn aff4_probe(w: &Window) -> (c: Confidence)
    ensures
        c == (if zip_signature(w.head@) {
            Confidence::Maybe
        } else {
            Confidence::No
        }),
{
    let magic: [u8; 4] = [0x50, 0x4b, 0x03, 0x04];
    if w.has_magic(0, &magic) {
        Confidence::Maybe
    } else {
        Confidence::No
    }
}

/// A boot sector with the 0x55AA signature, no filesystem boot sector (no
/// NTFS or exFAT OEM id at offset 3, no jump opcode at offset 0), and a table
/// slot holding a boot flag of 0x00 (inactive) or 0x80 (active), a type other
/// than 0 and 0xEE and a non-zero sector count, is claimed as an MBR: whether
/// the partition is marked active does not matter.
pub proof fn mbr_claims_active_and_inactive_slots(head: Seq<u8>, i: int)
    requires
        0 <= i < 4,
        head.len() >= 512,
        head[510] == 0x55,
        head[511] == 0xaa,
        head[0] != 0xeb && head[0] != 0xe9,
        head.subrange(3, 11) != seq![0x4eu8, 0x54, 0x46, 0x53, 0x20, 0x20, 0x20, 0x20],
        head.subrange(3, 11) != seq![0x45u8, 0x58, 0x46, 0x41, 0x54, 0x20, 0x20, 0x20],
        head[446 + 16 * i] == 0x00 || head[446 + 16 * i] == 0x80,
        head[446 + 16 * i + 4] != 0 && head[446 + 16 * i + 4] != 0xee,
        head[446 + 16 * i + 12] != 0 || head[446 + 16 * i + 13] != 0 || head[446 + 16 * i + 14] != 0
            || head[446 + 16 * i + 15] != 0,
    ensures
        mbr_signature(head),
{
    let base = 446 + 16 * i;
    assert(head.subrange(510, 512) =~= seq![0x55u8, 0xaa]);
    assert(magic_at(head, 510, boot_signature()));
    assert(!magic_at(head, 3, ntfs_oem_id()));
    assert(!magic_at(head, 3, exfat_oem_id()));
    assert(!filesystem_boot_sector(head));
    reveal_with_fuel(crate::bytes::le_value, 5);
    assert(crate::bytes::spec_le_u32(head, base + 12) == crate::bytes::le_value(head, base + 12, 4) as u32);
    let v = crate::bytes::le_value(head, base + 12, 4);
    assert(v == head[base + 12] as nat + 256 * (head[base + 13] as nat + 256 * (head[base + 14] as nat
        + 256 * head[base + 15] as nat)));
    assert(v < 0x1_0000_0000);
    assert(v != 0);
    assert(mbr_entry_plausible(head, i));
}

/// A byte window with no signature in it is claimed by no prober: a source of
/// zeros resolves to a clean unknown.
pub proof fn zero_window_is_claimed_by_no_prober(head: Seq<u8>, tail: Seq<u8>)
    requires
        forall|i: int| 0 <= i < head.len() ==> head[i] == 0,
        forall|i: int| 0 <= i < tail.len() ==> tail[i] == 0,
    ensures
        !ntfs_signature(head),
        !ext_signature(head),
        !xfs_signature(head),
        !iso9660_signature(head),
        !apfs_signature(head),
        !hfsplus_signature(head),
        !exfat_signature(head),
        !fat_signature(head),
        !mbr_signature(head),
        !gpt_signature(head),
        !apm_signature(head),
        !vhd_signature(head),
        !qcow2_signature(head),
        !vmdk_signature(head),
        !vhdx_signature(head),
        !dmg_signature(tail),
        !zip_signature(head),
{
    zero_has_no_magic(head, 3, ntfs_oem_id());
    zero_has_no_magic(head, 1080, seq![0x53, 0xef]);
    zero_has_no_magic(head, 0, seq![0x58, 0x46, 0x53, 0x42]);
    zero_has_no_magic(head, 32769, seq![0x43, 0x44, 0x30, 0x30, 0x31]);
    zero_has_no_magic(head, 32, seq![0x4e, 0x58, 0x53, 0x42]);
    zero_has_no_magic(head, 1024, seq![0x48, 0x2b]);
    zero_has_no_magic(head, 1024, seq![0x48, 0x58]);
    zero_has_no_magic(head, 510, boot_signature());
    zero_has_no_magic(head, 512, seq![0x45, 0x46, 0x49, 0x20, 0x50, 0x41, 0x52, 0x54]);
    zero_has_no_magic(head, 0, seq![0x45, 0x52]);
    zero_has_no_magic(head, 0, seq![0x63, 0x6f, 0x6e, 0x65, 0x63, 0x74, 0x69, 0x78]);
    zero_has_no_magic(head, 0, seq![0x51, 0x46, 0x49, 0xfb]);
    zero_has_no_magic(head, 0, seq![0x4b, 0x44, 0x4d, 0x56]);
    zero_has_no_magic(head, 0, vhdx_file_magic());
    zero_has_no_magic(tail, tail.len() - 512, seq![0x6b, 0x6f, 0x6c, 0x79]);
    zero_has_no_magic(head, 0, seq![0x50, 0x4b, 0x03, 0x04]);
}

/// All-zero bytes hold no magic whose first byte is non-zero.
proof fn zero_has_no_magic(s: Seq<u8>, off: int, magic: Seq<u8>)
    requires
        forall|i: int| 0 <= i < s.len() ==> s[i] == 0,
        magic.len() > 0,
        magic[0] != 0,
    ensures
        !magic_at(s, off, magic),
{
    if magic_at(s, off, magic) {
        assert(s.subrange(off, off + magic.len())[0] == s[off]);
    }
}

} // verus!
