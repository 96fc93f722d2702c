//! Partition descriptions shared by the volume systems, and the bounded
//! selection of one volume by index.

use vstd::prelude::*;

verus! {

/// One partition of a volume system, in the parent's byte address space.
pub struct VolumeDesc {
    /// The partition's slot in its table.
    pub index: usize,
    /// Byte offset of the partition in the parent source.
    pub start: u64,
    /// Byte length of the partition.
    pub len: u64,
    /// Type GUID, type byte or type name.
    pub type_hint: Option<String>,
    /// Partition label, when the table carries one.
    pub label: Option<String>,
}

/// The abstract value of a [`VolumeDesc`].
pub struct VolumeView {
    pub index: usize,
    pub start: u64,
    pub len: u64,
    pub type_hint: Option<Seq<char>>,
    pub label: Option<Seq<char>>,
}

/// The abstract value of an optional string.
pub open spec fn opt_str(s: Option<String>) -> Option<Seq<char>> {
    match s {
        Some(v) => Some(v@),
        None => None,
    }
}

impl View for VolumeDesc {
    type V = VolumeView;

    open spec fn view(&self) -> VolumeView {
        VolumeView {
            index: self.index,
            start: self.start,
            len: self.len,
            type_hint: opt_str(self.type_hint),
            label: opt_str(self.label),
        }
    }
}

/// The abstract value of a partition list.
pub open spec fn volumes_view(v: Seq<VolumeDesc>) -> Seq<VolumeView> {
    v.map_values(|d: VolumeDesc| d@)
}

/// `Some(v)` as a one-element sequence, `None` as the empty one.
pub open spec fn opt_seq<T>(o: Option<T>) -> Seq<T> {
    match o {
        Some(v) => seq![v],
        None => Seq::empty(),
    }
}

/// A volume index past the end of the table.
#[derive(PartialEq, Eq, Structural, Clone, Copy, Debug)]
pub struct OutOfRange {
    /// The index asked for.
    pub index: u64,
    /// The number of volumes in the table.
    pub bound: u64,
}

/// The byte range (start, length) of volume `index`, or `OutOfRange` when the
/// table has no such volume.
pub fn select_volume(volumes: &[VolumeDesc], index: usize) -> (r: Result<(u64, u64), OutOfRange>)
    ensures
        match r {
            Ok((start, len)) => index < volumes@.len() && start == volumes@[index as int].start && len
                == volumes@[index as int].len,
            Err(e) => index >= volumes@.len() && e == (OutOfRange {
                index: index as u64,
                bound: volumes@.len() as u64,
            }),
        },
{
    if index < volumes.len() {
        Ok((volumes[index].start, volumes[index].len))
    } else {
        Err(OutOfRange { index: index as u64, bound: volumes.len() as u64 })
    }
}

/// `x * 512`, saturating at `u64::MAX`.
pub open spec fn sectors_to_bytes(x: u64) -> u64 {
    if x * 512 > u64::MAX {
        u64::MAX
    } else {
        (x * 512) as u64
    }
}

/// `x * 512`, saturating at `u64::MAX`.
pub fn saturating_sectors(x: u64) -> (r: u64)
    ensures
        r == sectors_to_bytes(x),
{
    match x.checked_mul(512) {
        Some(v) => v,
        None => u64::MAX,
    }
}

} // verus!
