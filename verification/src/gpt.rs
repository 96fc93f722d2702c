//! The GUID Partition Table: the `EFI PART` header at LBA 1 and its
//! partition-entry array.

use vstd::prelude::*;
use crate::bytes::{le_u32, le_u64, spec_le_u32, spec_le_u64};
use crate::hex::{guid_hint, hex_lower};
use crate::sniff::magic_at;
use crate::volume::{opt_seq, saturating_sectors, sectors_to_bytes, volumes_view, VolumeDesc, VolumeView};

verus! {

/// "EFI PART"
pub open spec fn efi_part() -> Seq<u8> {
    seq![0x45, 0x46, 0x49, 0x20, 0x50, 0x41, 0x52, 0x54]
}

/// Cap on the number of entries read from the array.
pub const MAX_ENTRIES: u32 = 256;
/// Smallest entry size accepted.
pub const MIN_ENTRY_SIZE: u32 = 128;
/// Largest entry size accepted.
pub const MAX_ENTRY_SIZE: u32 = 512;

/// Where the partition-entry array lies and how it is cut, from the header.
#[derive(PartialEq, Eq, Structural, Clone, Copy, Debug)]
pub struct GptLayout {
    /// LBA of the first entry.
    pub entries_lba: u64,
    /// Number of entries to read, capped at 256.
    pub num_entries: usize,
    /// Size of one entry, clamped to 128..=512.
    pub entry_size: usize,
}

/// The header at LBA 1 lacks its signature; `found` holds its first 8 bytes.
pub struct MissingSignature {
    pub found: Vec<u8>,
}

/// The entry count a header announces, capped at 256.
pub open spec fn spec_num_entries(header: Seq<u8>) -> usize {
    let n = spec_le_u32(header, 80);
    if n > 256 {
        256
    } else {
        n as usize
    }
}

/// The entry size a header announces, clamped to 128..=512.
pub open spec fn spec_entry_size(header: Seq<u8>) -> usize {
    let s = spec_le_u32(header, 84);
    if s < 128 {
        128
    } else if s > 512 {
        512
    } else {
        s as usize
    }
}

/// Read the array layout out of the GPT header (the 512 bytes of LBA 1).
pub fn gpt_layout(header: &[u8]) -> (r: Result<GptLayout, MissingSignature>)
    ensures
        match r {
            Ok(l) => magic_at(header@, 0, efi_part()) && l == (GptLayout {
                entries_lba: spec_le_u64(header@, 72),
                num_entries: spec_num_entries(header@),
                entry_size: spec_entry_size(header@),
            }),
            Err(e) => !magic_at(header@, 0, efi_part()) && e.found@ == (if header@.len() >= 8 {
                header@.take(8)
            } else {
                Seq::empty()
            }),
        },
{
    let magic: [u8; 8] = [0x45, 0x46, 0x49, 0x20, 0x50, 0x41, 0x52, 0x54];
    if !crate::sniff::slice_has_magic(header, 0, &magic) {
        let found = if header.len() >= 8 {
            vstd::slice::slice_to_vec(vstd::slice::slice_subrange(header, 0, 8))
        } else {
            Vec::new()
        };
        assert(header@.len() >= 8 ==> header@.subrange(0, 8) =~= header@.take(8));
        return Err(MissingSignature { found });
    }
    let entries_lba = le_u64(header, 72);
    let n = le_u32(header, 80);
    let num_entries = if n > MAX_ENTRIES {
        MAX_ENTRIES
    } else {
        n
    };
    let s = le_u32(header, 84);
    let entry_size = if s < MIN_ENTRY_SIZE {
        MIN_ENTRY_SIZE
    } else if s > MAX_ENTRY_SIZE {
        MAX_ENTRY_SIZE
    } else {
        s
    };
    Ok(GptLayout { entries_lba, num_entries: num_entries as usize, entry_size: entry_size as usize })
}

impl GptLayout {
    /// Byte offset of the entry array: the LBA times 512, saturating.
    pub fn array_offset(&self) -> (r: u64)
        ensures
            r == sectors_to_bytes(self.entries_lba),
    {
        saturating_sectors(self.entries_lba)
    }

    /// Byte length of the entry array.
    pub fn array_len(&self) -> (r: usize)
        requires
            self.num_entries <= 256,
            128 <= self.entry_size <= 512,
        ensures
            r == self.num_entries * self.entry_size,
    {
        assert(self.num_entries * self.entry_size <= 256 * 512) by (nonlinear_arith)
            requires
                self.num_entries <= 256,
                self.entry_size <= 512,
        ;
        self.num_entries * self.entry_size
    }
}

/// All bytes of `s` are zero.
pub open spec fn all_zero(s: Seq<u8>) -> bool {
    forall|i: int| 0 <= i < s.len() ==> s[i] == 0
}

/// The partition described by the entry `entry` in slot `i`, unless the entry is
/// unused (all-zero type GUID) or reversed (last LBA before first LBA). Start and
/// length are in 512-byte sectors, saturating; the hint is the type GUID in hex.
pub open spec fn gpt_entry(entry: Seq<u8>, i: int) -> Option<VolumeView> {
    let type_guid = entry.take(16);
    let first = spec_le_u64(entry, 32);
    let last = spec_le_u64(entry, 40);
    if all_zero(type_guid) || last < first {
        None
    } else {
        let span = (last - first) as u64;
        let sectors: u64 = if span == u64::MAX {
            0
        } else {
            (span + 1) as u64
        };
        Some(
            VolumeView {
                index: i as usize,
                start: sectors_to_bytes(first),
                len: sectors_to_bytes(sectors),
                type_hint: Some(hex_lower(type_guid)),
                label: None,
            },
        )
    }
}

/// The number of complete entries the array holds, at most the announced count.
pub open spec fn complete_entries(layout: GptLayout, arr_len: nat) -> int {
    let fit = arr_len as int / layout.entry_size as int;
    if fit < layout.num_entries {
        fit
    } else {
        layout.num_entries as int
    }
}

/// The partitions among the first `k` entries of the array, in slot order.
pub open spec fn gpt_table(layout: GptLayout, arr: Seq<u8>, k: int) -> Seq<VolumeView>
    decreases k,
{
    if k <= 0 {
        Seq::empty()
    } else {
        let base = (k - 1) * layout.entry_size;
        gpt_table(layout, arr, k - 1) + opt_seq(
            gpt_entry(arr.subrange(base, base + layout.entry_size), k - 1),
        )
    }
}

/// The partitions of a GPT entry array read under `layout`.
pub open spec fn gpt_volumes(layout: GptLayout, arr: Seq<u8>) -> Seq<VolumeView> {
    gpt_table(layout, arr, complete_entries(layout, arr.len()))
}

/// Parse the partitions of the entry array `arr`. Slots past the end of a
/// short array are not read.
pub fn parse_gpt_entries(layout: &GptLayout, arr: &[u8]) -> (v: Vec<VolumeDesc>)
    requires
        layout.num_entries <= 256,
        128 <= layout.entry_size <= 512,
    ensures
        volumes_view(v@) == gpt_volumes(*layout, arr@),
{
    let es = layout.entry_size;
    let mut volumes: Vec<VolumeDesc> = Vec::new();
    let mut i: usize = 0;
    while i < layout.num_entries
        invariant
            i <= layout.num_entries,
            layout.num_entries <= 256,
            128 <= es <= 512,
            es == layout.entry_size,
            i * es <= arr@.len(),
            i <= complete_entries(*layout, arr@.len()),
            volumes_view(volumes@) == gpt_table(*layout, arr@, i as int),
        ensures
            i == complete_entries(*layout, arr@.len()),
            volumes_view(volumes@) == gpt_table(*layout, arr@, i as int),
        decreases layout.num_entries - i,
    {
        assert(i * es <= 256 * 512) by (nonlinear_arith)
            requires
                i <= 256,
                es <= 512,
        ;
        let base = i * es;
        if es > arr.len() - base {
            proof {
                assert(complete_entries(*layout, arr@.len()) == i) by (nonlinear_arith)
                    requires
                        base == i * es,
                        base + es > arr@.len(),
                        base <= arr@.len(),
                        es > 0,
                        i <= complete_entries(*layout, arr@.len()),
                        complete_entries(*layout, arr@.len()) <= arr@.len() as int / es as int,
                ;
            }
            break;
        }
        let entry = vstd::slice::slice_subrange(arr, base, base + es);
        let type_guid = vstd::slice::slice_subrange(entry, 0, 16);
        let mut zero = true;
        let mut j: usize = 0;
        while j < 16
            invariant
                j <= 16,
                type_guid@.len() == 16,
                zero == (forall|t: int| 0 <= t < j ==> type_guid@[t] == 0),
            decreases 16 - j,
        {
            if type_guid[j] != 0 {
                zero = false;
            }
            j += 1;
        }
        assert(type_guid@ =~= entry@.take(16));
        let first = le_u64(entry, 32);
        let last = le_u64(entry, 40);
        let ghost before = volumes@;
        if !zero && last >= first {
            let sectors = (last - first).wrapping_add(1);
            let d = VolumeDesc {
                index: i,
                start: saturating_sectors(first),
                len: saturating_sectors(sectors),
                type_hint: Some(guid_hint(type_guid)),
                label: None,
            };
            volumes.push(d);
            proof {
                assert(volumes_view(volumes@) =~= volumes_view(before).push(d@));
            }
        } else {
            assert(volumes_view(volumes@) =~= gpt_table(*layout, arr@, i + 1));
        }
        proof {
            assert((i + 1) * es == i * es + es) by (nonlinear_arith);
            assert(i + 1 <= arr@.len() as int / es as int) by (nonlinear_arith)
                requires
                    (i + 1) * es <= arr@.len(),
                    es > 0,
            ;
        }
        i += 1;
    }
    volumes
}

/// A GPT array yields at most as many partitions as the capped entry count, each
/// in a slot below that count, in increasing slot order.
pub proof fn gpt_table_shape(layout: GptLayout, arr: Seq<u8>)
    requires
        layout.num_entries <= 256,
        128 <= layout.entry_size <= 512,
    ensures
        gpt_volumes(layout, arr).len() <= layout.num_entries,
        forall|i: int|
            0 <= i < gpt_volumes(layout, arr).len() ==> #[trigger] gpt_volumes(layout, arr)[i].index
                < layout.num_entries,
        forall|i: int, j: int|
            0 <= i < j < gpt_volumes(layout, arr).len() ==> #[trigger] gpt_volumes(layout, arr)[i].index
                < #[trigger] gpt_volumes(layout, arr)[j].index,
{
    gpt_table_bounds(layout, arr, complete_entries(layout, arr.len()));
}

/// Whatever a header announces, the entry array read for it is bounded before
/// it is allocated: at most 256 entries of 128 to 512 bytes, so at most 128 KiB.
pub proof fn gpt_array_is_bounded(header: Seq<u8>)
    ensures
        spec_num_entries(header) <= 256,
        128 <= spec_entry_size(header) <= 512,
        spec_num_entries(header) * spec_entry_size(header) <= 131072,
{
    let n = spec_num_entries(header);
    let s = spec_entry_size(header);
    assert(n * s <= 256 * 512) by (nonlinear_arith)
        requires
            n <= 256,
            s <= 512,
    ;
}

/// An entry of the array yields a partition exactly when some byte of its
/// 16-byte type GUID is non-zero (only an all-zero GUID marks an unused
/// entry) and its last LBA is not below its first; the partition then starts
/// at the entry's first LBA times 512.
pub proof fn gpt_entry_is_listed_iff_used(layout: GptLayout, arr: Seq<u8>, k: int)
    requires
        layout.num_entries <= 256,
        128 <= layout.entry_size <= 512,
        0 <= k < complete_entries(layout, arr.len()),
    ensures
        ({
            let es = layout.entry_size as int;
            let e = arr.subrange(k * es, k * es + es);
            let vs = gpt_volumes(layout, arr);
            &&& (exists|j: int| 0 <= j < vs.len() && #[trigger] vs[j].index == k) <==> ((exists|t: int|
                0 <= t < 16 && #[trigger] e[t] != 0) && spec_le_u64(e, 40) >= spec_le_u64(e, 32))
            &&& forall|j: int|
                0 <= j < vs.len() && #[trigger] vs[j].index == k ==> vs[j].start == sectors_to_bytes(
                    spec_le_u64(e, 32),
                )
        }),
{
    let es = layout.entry_size as int;
    let n = complete_entries(layout, arr.len());
    let len = arr.len() as int;
    assert((k + 1) * es <= len) by (nonlinear_arith)
        requires
            0 <= k,
            k < n,
            n <= len / es,
            es > 0,
            len >= 0,
    ;
    assert(0 <= k * es && k * es + es == (k + 1) * es) by (nonlinear_arith)
        requires
            0 <= k,
            es > 0,
    ;
    let e = arr.subrange(k * es, k * es + es);
    assert(e.len() == es);
    gpt_table_index(layout, arr, n, k);
    let g = gpt_entry(e, k);
    assert(all_zero(e.take(16)) <==> !(exists|t: int| 0 <= t < 16 && #[trigger] e[t] != 0)) by {
        if !all_zero(e.take(16)) {
            let t = choose|t: int| 0 <= t < e.take(16).len() && e.take(16)[t] != 0;
            assert(e[t] != 0);
        }
        if exists|t: int| 0 <= t < 16 && #[trigger] e[t] != 0 {
            let t = choose|t: int| 0 <= t < 16 && #[trigger] e[t] != 0;
            assert(e.take(16)[t] != 0);
        }
    }
}

/// Which partitions the first `n` entries yield for entry `k`: one, equal to
/// the entry's own, exactly when the entry is used.
proof fn gpt_table_index(layout: GptLayout, arr: Seq<u8>, n: int, k: int)
    requires
        layout.num_entries <= 256,
        128 <= layout.entry_size <= 512,
        0 <= k < n <= 256,
    ensures
        ({
            let es = layout.entry_size as int;
            let g = gpt_entry(arr.subrange(k * es, k * es + es), k);
            let t = gpt_table(layout, arr, n);
            &&& (exists|j: int| 0 <= j < t.len() && #[trigger] t[j].index == k) <==> g is Some
            &&& forall|j: int| 0 <= j < t.len() && #[trigger] t[j].index == k ==> t[j] == g->0
        }),
    decreases n,
{
    let es = layout.entry_size as int;
    let prev = gpt_table(layout, arr, n - 1);
    let t = gpt_table(layout, arr, n);
    let base = (n - 1) * es;
    let last = gpt_entry(arr.subrange(base, base + es), n - 1);
    assert(t == prev + opt_seq(last));
    if let Some(v) = last {
        assert(v.index == (n - 1) as usize);
    }
    if k < n - 1 {
        gpt_table_index(layout, arr, n - 1, k);
        assert forall|j: int| 0 <= j < t.len() && #[trigger] t[j].index == k implies j < prev.len()
            && t[j] == prev[j] by {
            if j >= prev.len() {
                assert(t[j] == last->0);
            }
        }
        let g = gpt_entry(arr.subrange(k * es, k * es + es), k);
        if g is Some {
            let j = choose|j: int| 0 <= j < prev.len() && #[trigger] prev[j].index == k;
            assert(t[j] == prev[j]);
        }
    } else {
        gpt_table_bounds(layout, arr, n - 1);
        assert forall|j: int| 0 <= j < t.len() && #[trigger] t[j].index == k implies j == prev.len()
            && t[j] == last->0 by {
            if j < prev.len() {
                assert(t[j] == prev[j]);
            }
        }
        if last is Some {
            assert(t[prev.len() as int] == last->0);
        }
    }
}

/// The first `k` slots yield at most `k` partitions, with increasing indices below `k`.
proof fn gpt_table_bounds(layout: GptLayout, arr: Seq<u8>, k: int)
    requires
        0 <= k <= 256,
    ensures
        gpt_table(layout, arr, k).len() <= k,
        forall|i: int|
            0 <= i < gpt_table(layout, arr, k).len() ==> #[trigger] gpt_table(layout, arr, k)[i].index
                < k,
        forall|i: int, j: int|
            0 <= i < j < gpt_table(layout, arr, k).len() ==> #[trigger] gpt_table(layout, arr, k)[i].index
                < #[trigger] gpt_table(layout, arr, k)[j].index,
    decreases k,
{
    if k > 0 {
        gpt_table_bounds(layout, arr, k - 1);
        let prev = gpt_table(layout, arr, k - 1);
        let t = gpt_table(layout, arr, k);
        assert forall|i: int| 0 <= i < t.len() implies #[trigger] t[i].index < k by {
            if i < prev.len() {
                assert(t[i] == prev[i]);
            }
        }
        assert forall|i: int, j: int| 0 <= i < j < t.len() implies #[trigger] t[i].index
            < #[trigger] t[j].index by {
            assert(t[i] == prev[i]);
            if j < prev.len() {
                assert(t[j] == prev[j]);
            }
        }
    }
}

} // verus!
