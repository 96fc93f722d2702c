//! The classic four-slot MBR (DOS) partition table at the end of the boot sector.
//! Extended partitions (types 0x05/0x0f) are not chased.

use vstd::prelude::*;
use crate::bytes::{le_u32, spec_le_u32};
use crate::hex::{hex_byte, push_hex_byte};
use crate::sniff::{byte_or_zero, filesystem_boot_sector, mbr_entry_plausible, mbr_signature};
use crate::volume::{opt_seq, volumes_view, VolumeDesc, VolumeView};

verus! {

/// The partition in table slot `i` of `sector`, if the slot is in use: not
/// empty, not the GPT protective marker 0xEE, and of non-zero size. Start and
/// length are in 512-byte sectors; the type byte becomes the hint `0x..`.
pub open spec fn mbr_slot(sector: Seq<u8>, i: int) -> Option<VolumeView> {
    let base = 446 + 16 * i;
    let ptype = byte_or_zero(sector, base + 4);
    let start_lba = spec_le_u32(sector, base + 8);
    let size = spec_le_u32(sector, base + 12);
    if ptype == 0 || ptype == 0xee || size == 0 {
        None
    } else {
        Some(
            VolumeView {
                index: i as usize,
                start: (start_lba * 512) as u64,
                len: (size * 512) as u64,
                type_hint: Some(seq!['0', 'x'] + hex_byte(ptype)),
                label: None,
            },
        )
    }
}

/// The partitions in the first `k` table slots, in slot order.
pub open spec fn mbr_table(sector: Seq<u8>, k: int) -> Seq<VolumeView>
    decreases k,
{
    if k <= 0 {
        Seq::empty()
    } else {
        mbr_table(sector, k - 1) + opt_seq(mbr_slot(sector, k - 1))
    }
}

/// The primary partitions of an MBR boot sector.
pub open spec fn mbr_volumes(sector: Seq<u8>) -> Seq<VolumeView> {
    mbr_table(sector, 4)
}

/// Parse the primary partitions of the boot sector `sector`.
pub fn parse_mbr(sector: &[u8]) -> (v: Vec<VolumeDesc>)
    ensures
        volumes_view(v@) == mbr_volumes(sector@),
{
    let mut volumes: Vec<VolumeDesc> = Vec::new();
    let mut i: usize = 0;
    while i < 4
        invariant
            i <= 4,
            volumes_view(volumes@) == mbr_table(sector@, i as int),
        decreases 4 - i,
    {
        let base = 446 + i * 16;
        let ptype = if base + 4 < sector.len() {
            sector[base + 4]
        } else {
            0
        };
        let start_lba = le_u32(sector, base + 8);
        let size = le_u32(sector, base + 12);
        if !(ptype == 0 || ptype == 0xee || size == 0) {
            let mut hint = String::from_str("0x");
            proof {
                reveal_strlit("0x");
            }
            push_hex_byte(&mut hint, ptype);
            let d = VolumeDesc {
                index: i,
                start: start_lba as u64 * 512,
                len: size as u64 * 512,
                type_hint: Some(hint),
                label: None,
            };
            let ghost before = volumes@;
            volumes.push(d);
            proof {
                assert(hint@ =~= seq!['0', 'x'] + hex_byte(ptype));
                assert(volumes_view(volumes@) =~= volumes_view(before).push(d@));
            }
        } else {
            assert(volumes_view(volumes@) =~= mbr_table(sector@, i + 1));
        }
        i += 1;
    }
    volumes
}

/// A boot sector the MBR prober claims yields at least one partition, and no
/// table yields more than the four primary slots, in slot order, none of them the
/// GPT protective entry.
pub proof fn mbr_table_shape(sector: Seq<u8>)
    ensures
        mbr_volumes(sector).len() <= 4,
        forall|i: int, j: int|
            0 <= i < j < mbr_volumes(sector).len() ==> #[trigger] mbr_volumes(sector)[i].index
                < #[trigger] mbr_volumes(sector)[j].index,
        forall|i: int|
            0 <= i < mbr_volumes(sector).len() ==> #[trigger] mbr_volumes(sector)[i].index < 4,
        mbr_signature(sector) ==> mbr_volumes(sector).len() >= 1,
{
    mbr_table_bounds(sector, 4);
    if mbr_signature(sector) {
        let i = choose|i: int| 0 <= i < 4 && #[trigger] mbr_entry_plausible(sector, i);
        mbr_table_grows(sector, i + 1, 4);
    }
}

/// The boot sector of a bare exFAT, NTFS or FAT volume is never taken for a
/// partition table, whatever its table slots hold.
pub proof fn filesystem_boot_sector_is_no_mbr(sector: Seq<u8>)
    requires
        filesystem_boot_sector(sector),
    ensures
        !mbr_signature(sector),
{
}

/// The partition type byte of table slot `i`.
pub open spec fn slot_type(sector: Seq<u8>, i: int) -> u8 {
    byte_or_zero(sector, 446 + 16 * i + 4)
}

/// The sector count of table slot `i`.
pub open spec fn slot_sectors(sector: Seq<u8>, i: int) -> u32 {
    spec_le_u32(sector, 446 + 16 * i + 12)
}

/// A GPT protective MBR, whose slots are all empty or the 0xEE marker, is left
/// to the GPT prober: the MBR prober does not claim it and its table yields no
/// partition.
pub proof fn protective_mbr_is_left_to_gpt(sector: Seq<u8>)
    requires
        forall|i: int|
            0 <= i < 4 ==> #[trigger] slot_type(sector, i) == 0 || slot_type(sector, i) == 0xee,
    ensures
        !mbr_signature(sector),
        mbr_volumes(sector).len() == 0,
{
    assert forall|i: int| 0 <= i < 4 implies !#[trigger] mbr_entry_plausible(sector, i) by {
        assert(slot_type(sector, i) == 0 || slot_type(sector, i) == 0xee);
    }
    assert(slot_type(sector, 0) == 0 || slot_type(sector, 0) == 0xee);
    assert(slot_type(sector, 1) == 0 || slot_type(sector, 1) == 0xee);
    assert(slot_type(sector, 2) == 0 || slot_type(sector, 2) == 0xee);
    assert(slot_type(sector, 3) == 0 || slot_type(sector, 3) == 0xee);
    reveal_with_fuel(mbr_table, 5);
}

/// Every partition of an MBR table comes from a table slot in use (a type
/// other than 0 and 0xEE, a non-zero sector count) and spans exactly that
/// slot's start LBA and sector count times 512 bytes, as 64-bit values
/// without wrap-around; and every slot in use yields a partition.
pub proof fn mbr_volume_spans_its_slot(sector: Seq<u8>)
    ensures
        forall|j: int|
            0 <= j < mbr_volumes(sector).len() ==> {
                let v = #[trigger] mbr_volumes(sector)[j];
                let base = 446 + 16 * v.index;
                &&& v.index < 4
                &&& v.start == spec_le_u32(sector, base + 8) as int * 512
                &&& v.len == spec_le_u32(sector, base + 12) as int * 512
                &&& byte_or_zero(sector, base + 4) != 0 && byte_or_zero(sector, base + 4) != 0xee
                &&& spec_le_u32(sector, base + 12) != 0
            },
        forall|s: int|
            0 <= s < 4 && #[trigger] slot_type(sector, s) != 0 && slot_type(sector, s) != 0xee
                && slot_sectors(sector, s) != 0 ==> exists|j: int|
                0 <= j < mbr_volumes(sector).len() && mbr_volumes(sector)[j].index == s,
{
    mbr_table_spans(sector, 4);
}

/// The partitions of the first `k` slots, as `mbr_volume_spans_its_slot` says.
proof fn mbr_table_spans(sector: Seq<u8>, k: int)
    requires
        0 <= k <= 4,
    ensures
        forall|j: int|
            0 <= j < mbr_table(sector, k).len() ==> {
                let v = #[trigger] mbr_table(sector, k)[j];
                let base = 446 + 16 * v.index;
                &&& v.index < k
                &&& v.start == spec_le_u32(sector, base + 8) as int * 512
                &&& v.len == spec_le_u32(sector, base + 12) as int * 512
                &&& byte_or_zero(sector, base + 4) != 0 && byte_or_zero(sector, base + 4) != 0xee
                &&& spec_le_u32(sector, base + 12) != 0
            },
        forall|s: int|
            0 <= s < k && #[trigger] slot_type(sector, s) != 0 && slot_type(sector, s) != 0xee
                && slot_sectors(sector, s) != 0 ==> exists|j: int|
                0 <= j < mbr_table(sector, k).len() && mbr_table(sector, k)[j].index == s,
    decreases k,
{
    if k > 0 {
        mbr_table_spans(sector, k - 1);
        let prev = mbr_table(sector, k - 1);
        let t = mbr_table(sector, k);
        let slot = mbr_slot(sector, k - 1);
        assert(t == prev + opt_seq(slot));
        assert forall|j: int| 0 <= j < t.len() implies {
            let v = #[trigger] t[j];
            let base = 446 + 16 * v.index;
            &&& v.index < k
            &&& v.start == spec_le_u32(sector, base + 8) as int * 512
            &&& v.len == spec_le_u32(sector, base + 12) as int * 512
            &&& byte_or_zero(sector, base + 4) != 0 && byte_or_zero(sector, base + 4) != 0xee
            &&& spec_le_u32(sector, base + 12) != 0
        } by {
            if j < prev.len() {
                assert(t[j] == prev[j]);
            } else {
                assert(t[j] == slot->0);
            }
        }
        assert forall|s: int|
            0 <= s < k && #[trigger] slot_type(sector, s) != 0 && slot_type(sector, s) != 0xee
                && slot_sectors(sector, s) != 0 implies exists|j: int|
            0 <= j < t.len() && t[j].index == s by {
            if s < k - 1 {
                let j = choose|j: int| 0 <= j < prev.len() && prev[j].index == s;
                assert(t[j] == prev[j]);
            } else {
                assert(slot is Some);
                assert(t[prev.len() as int] == slot->0);
            }
        }
    }
}

/// The first `k` slots yield at most `k` partitions, with increasing indices below `k`.
proof fn mbr_table_bounds(sector: Seq<u8>, k: int)
    requires
        0 <= k <= 4,
    ensures
        mbr_table(sector, k).len() <= k,
        forall|i: int|
            0 <= i < mbr_table(sector, k).len() ==> #[trigger] mbr_table(sector, k)[i].index < k,
        forall|i: int, j: int|
            0 <= i < j < mbr_table(sector, k).len() ==> #[trigger] mbr_table(sector, k)[i].index
                < #[trigger] mbr_table(sector, k)[j].index,
    decreases k,
{
    if k > 0 {
        mbr_table_bounds(sector, k - 1);
        let prev = mbr_table(sector, k - 1);
        let t = mbr_table(sector, k);
        assert forall|i: int| 0 <= i < t.len() implies #[trigger] t[i].index < k by {
            if i < prev.len() {
                assert(t[i] == prev[i]);
            }
        }
        assert forall|i: int, j: int| 0 <= i < j < t.len() implies #[trigger] t[i].index
            < #[trigger] t[j].index by {
            assert(t[i] == prev[i]);
            if j < prev.len() {
                assert(t[j] == prev[j]);
            }
        }
    }
}

/// A plausible slot below `k` puts a partition into the first `n >= k` slots.
proof fn mbr_table_grows(sector: Seq<u8>, k: int, n: int)
    requires
        1 <= k <= n <= 4,
        mbr_entry_plausible(sector, k - 1),
    ensures
        mbr_table(sector, n).len() >= 1,
    decreases n,
{
    if n > k {
        mbr_table_grows(sector, k, n - 1);
    }
}

} // verus!
