//! How evidence at a path is mounted: the layer resolver handles sector streams
//! (containers, volume systems, filesystems); archives and logical images carry
//! a file tree instead and are surfaced by their own openers. This module fixes
//! the order in which those are tried, and how a partitioned disk is split so
//! that every partition is surfaced.

use vstd::prelude::*;

verus! {

/// What the head of the evidence says about Zip packaging.
#[derive(PartialEq, Eq, Structural, Clone, Copy, Debug)]
pub enum ZipHead {
    /// No Zip local-file header at offset 0.
    NotZip,
    /// A Zip that is no AFF4 container.
    PlainZip,
    /// An AFF4-Logical file collection.
    Aff4Logical,
    /// A physical (disk image) or encrypted AFF4 container.
    Aff4Image,
}

/// One way of mounting evidence.
#[derive(PartialEq, Eq, Structural, Clone, Copy, Debug)]
pub enum Mount {
    /// The AFF4-Logical opener.
    Aff4Logical,
    /// The zip / 7z / tar archive surface.
    Archive,
    /// The container / volume-system / filesystem layer resolver.
    Resolve,
    /// The AD1 logical-image opener.
    Ad1,
    /// The DAR archive opener.
    Dar,
}

/// The mounts tried, in order, until one yields a filesystem. An AFF4-Logical
/// collection goes to its opener first, and a plain Zip to the archive surface
/// before the resolver, whose AFF4 decoder would otherwise claim it and fail;
/// any other evidence goes to the resolver first, then the tree-carrying
/// openers.
pub open spec fn mount_plan(head: ZipHead) -> Seq<Mount> {
    match head {
        ZipHead::Aff4Logical => seq![Mount::Aff4Logical, Mount::Resolve, Mount::Archive, Mount::Ad1, Mount::Dar],
        ZipHead::PlainZip => seq![Mount::Archive, Mount::Resolve, Mount::Ad1, Mount::Dar],
        _ => seq![Mount::Resolve, Mount::Archive, Mount::Ad1, Mount::Dar],
    }
}

/// The mounts to try for evidence whose head is `head`, in order.
pub fn mount_order(head: ZipHead) -> (v: Vec<Mount>)
    ensures
        v@ == mount_plan(head),
{
    let v = match head {
        ZipHead::Aff4Logical => vec![Mount::Aff4Logical, Mount::Resolve, Mount::Archive, Mount::Ad1, Mount::Dar],
        ZipHead::PlainZip => vec![Mount::Archive, Mount::Resolve, Mount::Ad1, Mount::Dar],
        _ => vec![Mount::Resolve, Mount::Archive, Mount::Ad1, Mount::Dar],
    };
    assert(v@ =~= mount_plan(head));
    v
}

/// Every plan tries the resolver and each tree-carrying opener that can apply,
/// each exactly once; the AFF4-Logical opener only for an AFF4-Logical head.
pub proof fn mount_plan_tries_each_once(head: ZipHead)
    ensures
        forall|i: int, j: int|
            0 <= i < j < mount_plan(head).len() ==> mount_plan(head)[i] != mount_plan(head)[j],
        mount_plan(head).contains(Mount::Resolve),
        mount_plan(head).contains(Mount::Archive),
        mount_plan(head).contains(Mount::Ad1),
        mount_plan(head).contains(Mount::Dar),
        mount_plan(head).contains(Mount::Aff4Logical) <==> head == ZipHead::Aff4Logical,
{
    let p = mount_plan(head);
    if head == ZipHead::Aff4Logical {
        assert(p[1] == Mount::Resolve && p[2] == Mount::Archive && p[3] == Mount::Ad1 && p[4] == Mount::Dar);
    } else if head == ZipHead::PlainZip {
        assert(p[0] == Mount::Archive && p[1] == Mount::Resolve && p[2] == Mount::Ad1 && p[3] == Mount::Dar);
        assert(!p.contains(Mount::Aff4Logical));
    } else {
        assert(p[0] == Mount::Resolve && p[1] == Mount::Archive && p[2] == Mount::Ad1 && p[3] == Mount::Dar);
        assert(!p.contains(Mount::Aff4Logical));
    }
}

/// How a piece of evidence is split to surface every partition.
#[derive(PartialEq, Eq, Structural, Clone, Copy, Debug)]
pub enum Split {
    /// Resolved as one piece.
    Whole,
    /// Forked on the volume system registered at this position: each of its
    /// volumes is resolved on its own.
    Volumes(usize),
}

/// The first position in `claims` that holds a claim, if any.
pub open spec fn first_claim(claims: Seq<bool>) -> Option<int>
    decreases claims.len(),
{
    if claims.len() == 0 {
        None
    } else if claims[0] {
        Some(0)
    } else {
        match first_claim(claims.drop_first()) {
            Some(i) => Some(i + 1),
            None => None,
        }
    }
}

/// Evidence a filesystem prober claims is one bare volume; otherwise the first
/// volume system (in registration order) that claims it splits it; evidence no
/// volume system claims is resolved whole.
pub open spec fn split_of(fs_claimed: bool, claims: Seq<bool>) -> Split {
    if fs_claimed {
        Split::Whole
    } else {
        match first_claim(claims) {
            Some(i) => Split::Volumes(i as usize),
            None => Split::Whole,
        }
    }
}

/// How to split evidence, given whether a filesystem prober claims it and which
/// volume-system probers do (`vs_claims[i]` for the `i`-th registered one).
pub fn split_evidence(fs_claimed: bool, vs_claims: &[bool]) -> (s: Split)
    ensures
        s == split_of(fs_claimed, vs_claims@),
{
    if fs_claimed {
        return Split::Whole;
    }
    let mut i: usize = 0;
    assert(vs_claims@.skip(0) =~= vs_claims@);
    while i < vs_claims.len()
        invariant
            !fs_claimed,
            i <= vs_claims@.len(),
            first_claim(vs_claims@) == (match first_claim(vs_claims@.skip(i as int)) {
                Some(k) => Some(k + i),
                None => None::<int>,
            }),
        decreases vs_claims@.len() - i,
    {
        assert(vs_claims@.skip(i as int)[0] == vs_claims@[i as int]);
        assert(vs_claims@.skip(i as int).drop_first() =~= vs_claims@.skip(i + 1));
        if vs_claims[i] {
            assert(first_claim(vs_claims@.skip(i as int)) == Some(0int));
            assert(first_claim(vs_claims@) == Some(i as int));
            return Split::Volumes(i);
        }
        i += 1;
    }
    assert(vs_claims@.skip(i as int) =~= Seq::<bool>::empty());
    Split::Whole
}

/// The claim a split follows is the first one: a claim, with no claim before
/// it; and when there is none, no volume system claims the evidence at all.
pub proof fn first_claim_is_first(claims: Seq<bool>)
    ensures
        first_claim(claims) matches Some(i) ==> {
            &&& 0 <= i < claims.len()
            &&& claims[i]
            &&& forall|j: int| 0 <= j < i ==> !claims[j]
        },
        first_claim(claims) is None ==> forall|j: int| 0 <= j < claims.len() ==> !claims[j],
    decreases claims.len(),
{
    if claims.len() > 0 && !claims[0] {
        let rest = claims.drop_first();
        first_claim_is_first(rest);
        assert forall|j: int| 0 < j < claims.len() implies claims[j] == rest[j - 1] by {}
        if let Some(k) = first_claim(rest) {
            assert(claims[k + 1] == rest[k]);
        }
    }
}

} // verus!
