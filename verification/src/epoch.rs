//! Time-indexed identities for filesystem snapshots: a snapshot's creation time
//! (nanoseconds since the Unix epoch) becomes a 32-byte epoch tag whose high 24
//! bytes are zero and whose low 8 bytes hold the time big-endian. The encoding is
//! reversible, and a later time yields a lexicographically greater tag.

use vstd::prelude::*;
use state_history_forensic::epoch::EpochTag;

verus! {

#[verifier::external_type_specification]
#[verifier::external_body]
pub struct ExEpochTag(EpochTag);

/// The big-endian value of a byte sequence (most significant byte first).
pub open spec fn be_value(s: Seq<u8>) -> nat
    decreases s.len(),
{
    if s.len() == 0 {
        0
    } else {
        be_value(s.drop_last()) * 256 + s.last() as nat
    }
}

/// The eight big-endian bytes of `t`.
pub open spec fn be_bytes_u64(t: u64) -> Seq<u8> {
    seq![
        (t >> 56u64) as u8,
        (t >> 48u64) as u8,
        (t >> 40u64) as u8,
        (t >> 32u64) as u8,
        (t >> 24u64) as u8,
        (t >> 16u64) as u8,
        (t >> 8u64) as u8,
        t as u8,
    ]
}

/// The epoch tag bytes of a creation time: 24 zero bytes, then the time's
/// eight big-endian bytes.
pub open spec fn epoch_seq(create_time_ns: u64) -> Seq<u8> {
    Seq::new(24, |_i: int| 0u8) + be_bytes_u64(create_time_ns)
}

/// `a` sorts strictly before `b` in lexicographic byte order, as std orders
/// byte arrays of one length: they agree up to some index, where `a`'s byte is
/// the smaller.
pub open spec fn lex_less(a: Seq<u8>, b: Seq<u8>) -> bool {
    exists|k: int|
        #![trigger a[k], b[k]]
        0 <= k < a.len() && k < b.len() && a.take(k) == b.take(k) && a[k] < b[k]
}

/// The `EpochTag` built from the given 32 bytes.
pub uninterp spec fn epoch_tag_of(bytes: Seq<u8>) -> EpochTag;

/// `EpochTag::from_bytes`: the tag made of exactly `bytes`. The type is opaque
/// here, so its result is named by the bytes it was built from.
#[verifier::external_body]
fn tag_from_bytes(bytes: [u8; 32]) -> (tag: EpochTag)
    ensures
        tag == epoch_tag_of(bytes@),
{
    EpochTag::from_bytes(bytes)
}

/// The 32 epoch-tag bytes of `create_time_ns`.
pub fn epoch_bytes(create_time_ns: u64) -> (tag: [u8; 32])
    ensures
        tag@ == epoch_seq(create_time_ns),
{
    let t = create_time_ns;
    let tag: [u8; 32] = [
        0u8, 0, 0, 0, 0, 0, 0, 0, 0, 0, 0, 0, 0, 0, 0, 0, 0, 0, 0, 0, 0, 0, 0, 0,
        (t >> 56u64) as u8,
        (t >> 48u64) as u8,
        (t >> 40u64) as u8,
        (t >> 32u64) as u8,
        (t >> 24u64) as u8,
        (t >> 16u64) as u8,
        (t >> 8u64) as u8,
        t as u8,
    ];
    assert(tag@ =~= epoch_seq(create_time_ns));
    tag
}

/// The epoch tag of an APFS snapshot `create_time` (nanoseconds since
/// 1970-01-01 UTC): the tag built from [`epoch_bytes`].
pub fn epoch_from_create_time(create_time_ns: u64) -> (tag: EpochTag)
    ensures
        tag == epoch_tag_of(epoch_seq(create_time_ns)),
{
    tag_from_bytes(epoch_bytes(create_time_ns))
}

/// The eight big-endian bytes of `t` read back give `t`.
proof fn lemma_be_bytes_value(t: u64)
    ensures
        be_value(be_bytes_u64(t)) == t,
{
    let s = be_bytes_u64(t);
    reveal_with_fuel(be_value, 9);
    assert(s.drop_last().drop_last().drop_last().drop_last().drop_last().drop_last().drop_last().drop_last()
        =~= Seq::<u8>::empty());
    assert(((t >> 56u64) as u8) as int * 0x100000000000000 + ((t >> 48u64) as u8) as int
        * 0x1000000000000 + ((t >> 40u64) as u8) as int * 0x10000000000 + ((t >> 32u64) as u8) as int
        * 0x100000000 + ((t >> 24u64) as u8) as int * 0x1000000 + ((t >> 16u64) as u8) as int
        * 0x10000 + ((t >> 8u64) as u8) as int * 0x100 + (t as u8) as int == t as int)
        by (bit_vector);
}

/// Two sequences of one length with one big-endian value are equal.
proof fn lemma_be_injective(a: Seq<u8>, b: Seq<u8>)
    requires
        a.len() == b.len(),
        be_value(a) == be_value(b),
    ensures
        a == b,
    decreases a.len(),
{
    if a.len() > 0 {
        lemma_be_injective(a.drop_last(), b.drop_last());
        assert(a =~= a.drop_last().push(a.last()));
        assert(b =~= b.drop_last().push(b.last()));
    } else {
        assert(a =~= b);
    }
}

/// Among sequences of one length, a smaller big-endian value sorts first.
proof fn lemma_be_lex(a: Seq<u8>, b: Seq<u8>)
    requires
        a.len() == b.len(),
        be_value(a) < be_value(b),
    ensures
        lex_less(a, b),
    decreases a.len(),
{
    let n = a.len() - 1;
    let a1 = a.drop_last();
    let b1 = b.drop_last();
    if be_value(a1) < be_value(b1) {
        lemma_be_lex(a1, b1);
        let k = choose|k: int|
            #![trigger a1[k], b1[k]]
            0 <= k < a1.len() && k < b1.len() && a1.take(k) == b1.take(k) && a1[k] < b1[k];
        assert(a.take(k) =~= a1.take(k));
        assert(b.take(k) =~= b1.take(k));
        assert(a[k] == a1[k] && b[k] == b1[k]);
    } else if be_value(a1) == be_value(b1) {
        lemma_be_injective(a1, b1);
        assert(a.take(n) =~= a1);
        assert(b.take(n) =~= b1);
        assert(a[n] < b[n]);
    } else {
        assert(be_value(a) >= be_value(a1) * 256);
        assert(be_value(b) < be_value(b1) * 256 + 256);
    }
}

/// The tag of `t` is 24 zero bytes followed by bytes whose big-endian value is
/// `t`: the creation time round-trips out of the low eight bytes.
pub proof fn epoch_round_trips(t: u64)
    ensures
        epoch_seq(t).len() == 32,
        forall|i: int| 0 <= i < 24 ==> epoch_seq(t)[i] == 0,
        be_value(epoch_seq(t).subrange(24, 32)) == t,
{
    assert(epoch_seq(t).subrange(24, 32) =~= be_bytes_u64(t));
    lemma_be_bytes_value(t);
}

/// Distinct creation times give distinct tags.
pub proof fn epoch_is_injective(t1: u64, t2: u64)
    ensures
        epoch_seq(t1) == epoch_seq(t2) ==> t1 == t2,
{
    epoch_round_trips(t1);
    epoch_round_trips(t2);
}

/// A later creation time yields a lexicographically greater tag.
pub proof fn epoch_orders(t1: u64, t2: u64)
    requires
        t1 < t2,
    ensures
        lex_less(epoch_seq(t1), epoch_seq(t2)),
{
    let a = be_bytes_u64(t1);
    let b = be_bytes_u64(t2);
    lemma_be_bytes_value(t1);
    lemma_be_bytes_value(t2);
    lemma_be_lex(a, b);
    let k = choose|k: int|
        #![trigger a[k], b[k]]
        0 <= k < a.len() && k < b.len() && a.take(k) == b.take(k) && a[k] < b[k];
    let z = Seq::new(24, |_i: int| 0u8);
    let ea = epoch_seq(t1);
    let eb = epoch_seq(t2);
    assert(ea.take(24 + k) =~= z + a.take(k));
    assert(eb.take(24 + k) =~= z + b.take(k));
    assert(ea[24 + k] == a[k] && eb[24 + k] == b[k]);
}

} // verus!
