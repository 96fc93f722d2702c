//! The Apple Partition Map: a driver descriptor (`ER`) in block 0 and a chain of
//! partition-map entries (`PM`) from block 1, all big-endian. The map itself is
//! decoded by the `apm-partition-core` reader, whose entries are handed here as
//! plain values; this module turns them into data partitions.

use vstd::prelude::*;
use crate::volume::{opt_seq, volumes_view, VolumeDesc, VolumeView};

verus! {

/// One entry of a decoded map: name, type name, start block, block count.
pub struct ApmPartition {
    pub name: String,
    pub part_type: String,
    pub start_block: u32,
    pub block_count: u32,
}

/// A decoded map: the device block size and the entries in map order.
pub struct ApmMap {
    pub block_size: u32,
    pub partitions: Vec<ApmPartition>,
}

/// The abstract value of a decoded entry.
pub open spec fn partition_view(p: ApmPartition) -> (Seq<char>, Seq<char>, u32, u32) {
    (p.name@, p.part_type@, p.start_block, p.block_count)
}

/// The abstract value of a decoded map.
pub open spec fn map_view(m: ApmMap) -> (u32, Seq<(Seq<char>, Seq<char>, u32, u32)>) {
    (m.block_size, m.partitions@.map_values(|p: ApmPartition| partition_view(p)))
}

/// The code of `c` with ASCII upper-case letters lowered.
pub open spec fn ascii_lower(c: char) -> u32 {
    if 'A' <= c <= 'Z' {
        (c as u32 + 32) as u32
    } else {
        c as u32
    }
}

/// `a` and `b` are equal up to ASCII case.
pub open spec fn eq_ignore_ascii_case(a: Seq<char>, b: Seq<char>) -> bool {
    a.len() == b.len() && forall|i: int| 0 <= i < a.len() ==> ascii_lower(a[i]) == ascii_lower(b[i])
}

/// Exec form of [`ascii_lower`].
fn lower(c: char) -> (r: u32)
    ensures
        r == ascii_lower(c),
{
    if c >= 'A' && c <= 'Z' {
        c as u32 + 32
    } else {
        c as u32
    }
}

/// Whether `a` and `b` are equal up to ASCII case.
fn str_eq_ignore_ascii_case(a: &str, b: &str) -> (r: bool)
    ensures
        r == eq_ignore_ascii_case(a@, b@),
{
    let n = a.unicode_len();
    if n != b.unicode_len() {
        return false;
    }
    let mut i: usize = 0;
    while i < n
        invariant
            i <= n,
            n == a@.len(),
            n == b@.len(),
            forall|j: int| 0 <= j < i ==> ascii_lower(a@[j]) == ascii_lower(b@[j]),
        decreases n - i,
    {
        if lower(a.get_char(i)) != lower(b.get_char(i)) {
            return false;
        }
        i += 1;
    }
    true
}

/// "Apple_partition_map"
pub open spec fn map_type() -> Seq<char> {
    seq!['A', 'p', 'p', 'l', 'e', '_', 'p', 'a', 'r', 't', 'i', 't', 'i', 'o', 'n', '_', 'm', 'a', 'p']
}

/// "Apple_Free"
pub open spec fn free_type() -> Seq<char> {
    seq!['A', 'p', 'p', 'l', 'e', '_', 'F', 'r', 'e', 'e']
}

/// "Apple_Void"
pub open spec fn void_type() -> Seq<char> {
    seq!['A', 'p', 'p', 'l', 'e', '_', 'V', 'o', 'i', 'd']
}

/// The map itself and free or void space are not data partitions.
pub open spec fn not_data(part_type: Seq<char>) -> bool {
    eq_ignore_ascii_case(part_type, map_type()) || eq_ignore_ascii_case(part_type, free_type())
        || eq_ignore_ascii_case(part_type, void_type())
}

/// The data partition of map entry `i`, if it is one. Start and length are in
/// device blocks; the type name is the hint and a non-empty name the label.
pub open spec fn apm_entry(block_size: u32, p: (Seq<char>, Seq<char>, u32, u32), i: int) -> Option<VolumeView> {
    let bs = if block_size < 1 { 1u32 } else { block_size };
    if not_data(p.1) {
        None
    } else {
        Some(
            VolumeView {
                index: i as usize,
                start: (p.2 * bs) as u64,
                len: (p.3 * bs) as u64,
                type_hint: Some(p.1),
                label: if p.0.len() == 0 {
                    None
                } else {
                    Some(p.0)
                },
            },
        )
    }
}

/// The data partitions among the first `k` entries, in map order.
pub open spec fn apm_table(block_size: u32, parts: Seq<(Seq<char>, Seq<char>, u32, u32)>, k: int) -> Seq<VolumeView>
    decreases k,
{
    if k <= 0 {
        Seq::empty()
    } else {
        apm_table(block_size, parts, k - 1) + opt_seq(apm_entry(block_size, parts[k - 1], k - 1))
    }
}

/// The data partitions of a decoded map.
pub open spec fn apm_volumes(m: (u32, Seq<(Seq<char>, Seq<char>, u32, u32)>)) -> Seq<VolumeView> {
    apm_table(m.0, m.1, m.1.len() as int)
}

/// The data partitions of a decoded map: every entry but the map itself and
/// free/void space (type names compared ignoring ASCII case).
pub fn map_volumes(map: &ApmMap) -> (v: Vec<VolumeDesc>)
    ensures
        volumes_view(v@) == apm_volumes(map_view(*map)),
{
    let block_size: u64 = if map.block_size < 1 {
        1
    } else {
        map.block_size as u64
    };
    let ghost mv = map_view(*map);
    let mut volumes: Vec<VolumeDesc> = Vec::new();
    let mut i: usize = 0;
    while i < map.partitions.len()
        invariant
            i <= map.partitions@.len(),
            mv == map_view(*map),
            block_size == (if map.block_size < 1 { 1u32 } else { map.block_size }),
            volumes_view(volumes@) == apm_table(mv.0, mv.1, i as int),
        decreases map.partitions@.len() - i,
    {
        let part = &map.partitions[i];
        assert(mv.1[i as int] == partition_view(*part));
        let is_map = str_eq_ignore_ascii_case(part.part_type.as_str(), "Apple_partition_map");
        let is_free = str_eq_ignore_ascii_case(part.part_type.as_str(), "Apple_Free");
        let is_void = str_eq_ignore_ascii_case(part.part_type.as_str(), "Apple_Void");
        proof {
            reveal_strlit("Apple_partition_map");
            reveal_strlit("Apple_Free");
            reveal_strlit("Apple_Void");
            assert("Apple_partition_map"@ =~= map_type());
            assert("Apple_Free"@ =~= free_type());
            assert("Apple_Void"@ =~= void_type());
        }
        if is_map || is_free || is_void {
            assert(volumes_view(volumes@) =~= apm_table(mv.0, mv.1, i + 1));
        } else {
            assert(part.start_block as u64 * block_size <= u64::MAX) by (nonlinear_arith)
                requires
                    block_size <= u32::MAX,
            ;
            assert(part.block_count as u64 * block_size <= u64::MAX) by (nonlinear_arith)
                requires
                    block_size <= u32::MAX,
            ;
            let label = if part.name.as_str().is_empty() {
                None
            } else {
                Some(part.name.clone())
            };
            let d = VolumeDesc {
                index: i,
                start: part.start_block as u64 * block_size,
                len: part.block_count as u64 * block_size,
                type_hint: Some(part.part_type.clone()),
                label,
            };
            let ghost before = volumes@;
            volumes.push(d);
            proof {
                assert(volumes_view(volumes@) =~= volumes_view(before).push(d@));
            }
        }
        i += 1;
    }
    volumes
}

/// Bytes read from the device start to decode the map (driver descriptor plus
/// entries): 256 entries at a 512-byte block size with headroom.
pub const APM_MAP_CAP: u64 = 262144;

/// How many bytes to read for the map of a source of `len` bytes: `len`
/// clamped to 1..=256 KiB.
pub fn apm_window_len(len: u64) -> (r: usize)
    ensures
        r == (if len < 1 {
            1
        } else if len > APM_MAP_CAP {
            APM_MAP_CAP
        } else {
            len
        }),
{
    if len < 1 {
        1
    } else if len > APM_MAP_CAP {
        APM_MAP_CAP as usize
    } else {
        len as usize
    }
}

/// A data partition never is the map itself or free/void space, lies in map
/// order, and spans its start block times the block size.
pub proof fn apm_volumes_are_data(m: (u32, Seq<(Seq<char>, Seq<char>, u32, u32)>))
    requires
        m.1.len() <= usize::MAX,
    ensures
        apm_volumes(m).len() <= m.1.len(),
        forall|i: int|
            0 <= i < apm_volumes(m).len() ==> {
                let v = #[trigger] apm_volumes(m)[i];
                &&& v.index < m.1.len()
                &&& !not_data(m.1[v.index as int].1)
                &&& v.type_hint == Some(m.1[v.index as int].1)
            },
{
    apm_table_bounds(m.0, m.1, m.1.len() as int);
}

/// Every data partition of a decoded map spans exactly its start block and
/// block count times the block size (a zero block size counting as 1), as
/// 64-bit values without wrap-around; and every entry that is neither the map
/// itself nor free or void space yields a partition.
pub proof fn apm_volume_spans_its_blocks(m: (u32, Seq<(Seq<char>, Seq<char>, u32, u32)>))
    requires
        m.1.len() <= usize::MAX,
    ensures
        forall|j: int|
            0 <= j < apm_volumes(m).len() ==> {
                let v = #[trigger] apm_volumes(m)[j];
                let p = m.1[v.index as int];
                let bs: int = if m.0 < 1 { 1 } else { m.0 as int };
                &&& v.index < m.1.len()
                &&& v.start == p.2 as int * bs
                &&& v.len == p.3 as int * bs
            },
        forall|s: int|
            0 <= s < m.1.len() && !#[trigger] not_data(m.1[s].1) ==> exists|j: int|
                0 <= j < apm_volumes(m).len() && apm_volumes(m)[j].index == s,
{
    apm_table_spans(m.0, m.1, m.1.len() as int);
}

/// The data partitions of the first `k` entries, as `apm_volume_spans_its_blocks` says.
proof fn apm_table_spans(block_size: u32, parts: Seq<(Seq<char>, Seq<char>, u32, u32)>, k: int)
    requires
        0 <= k <= parts.len(),
        parts.len() <= usize::MAX,
    ensures
        forall|j: int|
            0 <= j < apm_table(block_size, parts, k).len() ==> {
                let v = #[trigger] apm_table(block_size, parts, k)[j];
                let p = parts[v.index as int];
                let bs: int = if block_size < 1 { 1 } else { block_size as int };
                &&& v.index < k
                &&& v.start == p.2 as int * bs
                &&& v.len == p.3 as int * bs
            },
        forall|s: int|
            0 <= s < k && !#[trigger] not_data(parts[s].1) ==> exists|j: int|
                0 <= j < apm_table(block_size, parts, k).len() && apm_table(block_size, parts, k)[j].index == s,
    decreases k,
{
    if k > 0 {
        apm_table_spans(block_size, parts, k - 1);
        let prev = apm_table(block_size, parts, k - 1);
        let t = apm_table(block_size, parts, k);
        let e = apm_entry(block_size, parts[k - 1], k - 1);
        let p = parts[k - 1];
        let bs: u32 = if block_size < 1 { 1u32 } else { block_size };
        assert(p.2 as int * bs as int <= u64::MAX) by (nonlinear_arith)
            requires
                p.2 <= u32::MAX,
                bs <= u32::MAX,
        ;
        assert(p.3 as int * bs as int <= u64::MAX) by (nonlinear_arith)
            requires
                p.3 <= u32::MAX,
                bs <= u32::MAX,
        ;
        assert(t == prev + opt_seq(e));
        assert forall|j: int| 0 <= j < t.len() implies {
            let v = #[trigger] t[j];
            let q = parts[v.index as int];
            let b: int = if block_size < 1 { 1 } else { block_size as int };
            &&& v.index < k
            &&& v.start == q.2 as int * b
            &&& v.len == q.3 as int * b
        } by {
            if j < prev.len() {
                assert(t[j] == prev[j]);
            } else {
                assert(t[j] == e->0);
                assert((k - 1) as usize == k - 1);
            }
        }
        assert forall|s: int| 0 <= s < k && !#[trigger] not_data(parts[s].1) implies exists|j: int|
            0 <= j < t.len() && t[j].index == s by {
            if s < k - 1 {
                let j = choose|j: int| 0 <= j < prev.len() && prev[j].index == s;
                assert(t[j] == prev[j]);
            } else {
                assert(t[prev.len() as int] == e->0);
            }
        }
    }
}

/// The first `k` entries yield at most `k` data partitions, each from an entry below `k`.
proof fn apm_table_bounds(block_size: u32, parts: Seq<(Seq<char>, Seq<char>, u32, u32)>, k: int)
    requires
        0 <= k <= parts.len(),
        parts.len() <= usize::MAX,
    ensures
        apm_table(block_size, parts, k).len() <= k,
        forall|i: int|
            0 <= i < apm_table(block_size, parts, k).len() ==> {
                let v = #[trigger] apm_table(block_size, parts, k)[i];
                &&& v.index < k
                &&& !not_data(parts[v.index as int].1)
                &&& v.type_hint == Some(parts[v.index as int].1)
            },
    decreases k,
{
    if k > 0 {
        apm_table_bounds(block_size, parts, k - 1);
        let prev = apm_table(block_size, parts, k - 1);
        let t = apm_table(block_size, parts, k);
        assert forall|i: int| 0 <= i < t.len() implies {
            let v = #[trigger] t[i];
            &&& v.index < k
            &&& !not_data(parts[v.index as int].1)
            &&& v.type_hint == Some(parts[v.index as int].1)
        } by {
            if i < prev.len() {
                assert(t[i] == prev[i]);
            }
        }
    }
}

} // verus!
