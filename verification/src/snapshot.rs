//! APFS snapshot cohorts: which resolved evidence has snapshots to list or
//! re-open, and the time-indexed record each listed snapshot becomes.

use vstd::prelude::*;
use state_history_forensic::epoch::EpochTag;
use crate::epoch::{epoch_from_create_time, epoch_seq, epoch_tag_of};

verus! {

/// What resolving a piece of evidence found at the top of its stack.
#[derive(PartialEq, Eq, Structural, Clone, Copy, Debug)]
pub enum Found {
    /// No registered prober recognized any filesystem.
    Nothing,
    /// A mounted filesystem, APFS or not.
    Filesystem { apfs: bool },
}

/// Why a snapshot cannot be re-opened from a piece of evidence.
#[derive(PartialEq, Eq, Structural, Clone, Copy, Debug)]
pub enum SnapshotRefusal {
    /// The evidence resolves to no filesystem at all.
    NoFilesystem,
    /// The evidence resolves to a filesystem that is not APFS.
    NotApfs,
}

/// Whether the evidence has an APFS snapshot cohort to list. Anything else
/// yields an empty cohort, never an error.
pub fn lists_snapshots(found: Found) -> (r: bool)
    ensures
        r == (found == Found::Filesystem { apfs: true }),
{
    match found {
        Found::Filesystem { apfs } => apfs,
        Found::Nothing => false,
    }
}

/// Whether a snapshot can be re-opened from the evidence: only from an APFS
/// filesystem; otherwise the refusal says why.
pub fn snapshot_source(found: Found) -> (r: Result<(), SnapshotRefusal>)
    ensures
        found == Found::Nothing <==> r == Err::<(), SnapshotRefusal>(SnapshotRefusal::NoFilesystem),
        found == (Found::Filesystem { apfs: false }) <==> r == Err::<(), SnapshotRefusal>(
            SnapshotRefusal::NotApfs,
        ),
        found == (Found::Filesystem { apfs: true }) <==> r is Ok,
{
    match found {
        Found::Nothing => Err(SnapshotRefusal::NoFilesystem),
        Found::Filesystem { apfs } => if apfs {
            Ok(())
        } else {
            Err(SnapshotRefusal::NotApfs)
        },
    }
}

/// One snapshot of an APFS volume as a time-indexed state: the epoch tag of
/// its creation time, its transaction id and its name.
pub struct SnapshotRecord {
    pub epoch: EpochTag,
    pub xid: u64,
    pub name: String,
}

/// One snapshot as the volume lists it: transaction id, name, and creation
/// time in nanoseconds since the Unix epoch.
pub struct ListedSnapshot {
    pub xid: u64,
    pub name: String,
    pub create_time: u64,
}

/// The record of the snapshot `xid` named `name`, created at `create_time`.
pub fn snapshot_record(xid: u64, name: String, create_time: u64) -> (r: SnapshotRecord)
    ensures
        r.epoch == epoch_tag_of(epoch_seq(create_time)),
        r.xid == xid,
        r.name@ == name@,
{
    SnapshotRecord { epoch: epoch_from_create_time(create_time), xid, name }
}

/// The records of a listed cohort, one per snapshot, in listing order.
pub fn snapshot_records(snaps: &[ListedSnapshot]) -> (v: Vec<SnapshotRecord>)
    ensures
        v@.len() == snaps@.len(),
        forall|i: int|
            0 <= i < snaps@.len() ==> {
                &&& (#[trigger] v@[i]).xid == snaps@[i].xid
                &&& v@[i].name@ == snaps@[i].name@
                &&& v@[i].epoch == epoch_tag_of(epoch_seq(snaps@[i].create_time))
            },
{
    let mut v: Vec<SnapshotRecord> = Vec::new();
    let mut i: usize = 0;
    while i < snaps.len()
        invariant
            i <= snaps@.len(),
            v@.len() == i,
            forall|j: int|
                0 <= j < i ==> {
                    &&& (#[trigger] v@[j]).xid == snaps@[j].xid
                    &&& v@[j].name@ == snaps@[j].name@
                    &&& v@[j].epoch == epoch_tag_of(epoch_seq(snaps@[j].create_time))
                },
        decreases snaps@.len() - i,
    {
        let s = &snaps[i];
        let r = snapshot_record(s.xid, s.name.clone(), s.create_time);
        v.push(r);
        i += 1;
    }
    v
}

} // verus!
