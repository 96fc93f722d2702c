//! Evidence paths, taken as the raw bytes of a Unix path: the file name (the
//! last component that is neither empty nor `.`), its extension (what follows
//! the last dot, when something precedes that dot), and whether the extension
//! names an EWF segment (`E01` or `Ex01`, in any ASCII case).

use vstd::prelude::*;

verus! {

/// Where the component that ends at `end` starts: just past the last `/`
/// before `end`, or 0.
pub open spec fn seg_start(p: Seq<u8>, end: int) -> int
    decreases end,
{
    if end <= 0 {
        0
    } else if p[end - 1] == 0x2f {
        end
    } else {
        seg_start(p, end - 1)
    }
}

/// Bounds of [`seg_start`], and that no `/` lies inside the component it opens.
pub proof fn lemma_seg_start(p: Seq<u8>, end: int)
    requires
        0 <= end <= p.len(),
    ensures
        0 <= seg_start(p, end) <= end,
        seg_start(p, end) > 0 ==> p[seg_start(p, end) - 1] == 0x2f,
        forall|i: int| seg_start(p, end) <= i < end ==> p[i] != 0x2f,
    decreases end,
{
    if end > 0 && p[end - 1] != 0x2f {
        lemma_seg_start(p, end - 1);
    }
}

/// The bounds of the last component of `p[0..end]` that is neither empty nor
/// `.`, if there is one.
pub open spec fn last_component(p: Seq<u8>, end: int) -> Option<(int, int)>
    decreases end,
{
    if end <= 0 || end > p.len() {
        None
    } else {
        let s = seg_start(p, end);
        let c = p.subrange(s, end);
        if c.len() == 0 || c == seq![0x2eu8] {
            if s <= 0 {
                None
            } else {
                proof {
                    lemma_seg_start(p, end);
                }
                last_component(p, s - 1)
            }
        } else {
            Some((s, end))
        }
    }
}

/// The file name of a path: its last component, unless that is `..` or the
/// path has none (the root, `.`, the empty path).
pub open spec fn file_name(p: Seq<u8>) -> Option<Seq<u8>> {
    match last_component(p, p.len() as int) {
        None => None,
        Some((s, e)) => if p.subrange(s, e) == seq![0x2eu8, 0x2eu8] {
            None
        } else {
            Some(p.subrange(s, e))
        },
    }
}

/// The index of the last `.` in `name[0..end]`, or -1.
pub open spec fn last_dot(name: Seq<u8>, end: int) -> int
    decreases end,
{
    if end <= 0 {
        -1
    } else if name[end - 1] == 0x2e {
        end - 1
    } else {
        last_dot(name, end - 1)
    }
}

/// The extension of a file name: what follows its last dot, when that dot is
/// not the name's first byte.
pub open spec fn extension(name: Seq<u8>) -> Option<Seq<u8>> {
    let d = last_dot(name, name.len() as int);
    if d <= 0 {
        None
    } else {
        Some(name.subrange(d + 1, name.len() as int))
    }
}

/// The extension of a path's file name.
pub open spec fn path_extension(p: Seq<u8>) -> Option<Seq<u8>> {
    match file_name(p) {
        None => None,
        Some(n) => extension(n),
    }
}

/// A byte with ASCII upper case folded to lower case.
pub open spec fn fold(b: u8) -> u8 {
    if 0x41 <= b <= 0x5a {
        (b + 0x20) as u8
    } else {
        b
    }
}

/// Byte strings equal up to ASCII case.
pub open spec fn eq_ignore_case(a: Seq<u8>, b: Seq<u8>) -> bool {
    a.len() == b.len() && forall|i: int| 0 <= i < a.len() ==> fold(a[i]) == fold(b[i])
}

/// `e01`.
pub open spec fn e01() -> Seq<u8> {
    seq![0x65u8, 0x30, 0x31]
}

/// `ex01`.
pub open spec fn ex01() -> Seq<u8> {
    seq![0x65u8, 0x78, 0x30, 0x31]
}

/// A path whose extension is `E01` or `Ex01`, in any ASCII case.
pub open spec fn names_ewf(p: Seq<u8>) -> bool {
    match path_extension(p) {
        None => false,
        Some(e) => eq_ignore_case(e, e01()) || eq_ignore_case(e, ex01()),
    }
}

fn fold_byte(b: u8) -> (r: u8)
    ensures
        r == fold(b),
{
    if 0x41 <= b && b <= 0x5a {
        b + 0x20
    } else {
        b
    }
}

/// Whether `s[start..end]` equals `lower` up to ASCII case; `lower` holds no
/// upper-case letter.
fn range_eq_ignore_case(s: &[u8], start: usize, end: usize, lower: &[u8]) -> (r: bool)
    requires
        start <= end <= s@.len(),
    ensures
        r == eq_ignore_case(s@.subrange(start as int, end as int), lower@),
{
    let ghost sub = s@.subrange(start as int, end as int);
    if end - start != lower.len() {
        return false;
    }
    let mut i: usize = 0;
    while i < lower.len()
        invariant
            start <= end <= s@.len(),
            end - start == lower@.len(),
            sub == s@.subrange(start as int, end as int),
            i <= lower@.len(),
            forall|j: int| 0 <= j < i ==> fold(sub[j]) == fold(lower@[j]),
        decreases lower@.len() - i,
    {
        if fold_byte(s[start + i]) != fold_byte(lower[i]) {
            assert(fold(sub[i as int]) != fold(lower@[i as int]));
            return false;
        }
        i += 1;
    }
    true
}

/// The start of the component that ends at `end`.
fn component_start(p: &[u8], end: usize) -> (s: usize)
    requires
        end <= p@.len(),
    ensures
        s == seg_start(p@, end as int),
{
    let mut s = end;
    while s > 0 && p[s - 1] != 0x2f
        invariant
            s <= end <= p@.len(),
            seg_start(p@, s as int) == seg_start(p@, end as int),
        decreases s,
    {
        s -= 1;
    }
    s
}

/// The bounds of a path's file name, or `None` when it has none.
pub fn file_name_bounds(p: &[u8]) -> (r: Option<(usize, usize)>)
    ensures
        match r {
            None => file_name(p@) is None,
            Some((s, e)) => s <= e <= p@.len() && file_name(p@) == Some(p@.subrange(s as int, e as int)),
        },
{
    let mut end = p.len();
    loop
        invariant
            end <= p@.len(),
            last_component(p@, end as int) == last_component(p@, p@.len() as int),
        decreases end,
    {
        if end == 0 {
            return None;
        }
        let s = component_start(p, end);
        proof {
            lemma_seg_start(p@, end as int);
        }
        let len = end - s;
        let is_dot = len == 1 && p[s] == 0x2e;
        if len == 0 || is_dot {
            proof {
                if is_dot {
                    assert(p@.subrange(s as int, end as int) =~= seq![0x2eu8]);
                }
            }
            if s == 0 {
                return None;
            }
            end = s - 1;
        } else {
            proof {
                if p@.subrange(s as int, end as int) == seq![0x2eu8] {
                    assert(p@.subrange(s as int, end as int)[0] == p@[s as int]);
                }
            }
            if len == 2 && p[s] == 0x2e && p[s + 1] == 0x2e {
                assert(p@.subrange(s as int, end as int) =~= seq![0x2eu8, 0x2eu8]);
                return None;
            }
            proof {
                if p@.subrange(s as int, end as int) == seq![0x2eu8, 0x2eu8] {
                    assert(p@.subrange(s as int, end as int)[0] == p@[s as int]);
                    assert(p@.subrange(s as int, end as int)[1] == p@[s + 1]);
                }
            }
            return Some((s, end));
        }
    }
}

/// Whether an evidence path names an EWF (Expert Witness) segment: its file
/// name's extension is `E01` or `Ex01`, in any ASCII case. `path` is the
/// path's raw bytes.
pub fn is_ewf(path: &[u8]) -> (r: bool)
    ensures
        r == names_ewf(path@),
{
    let (s, e) = match file_name_bounds(path) {
        None => return false,
        Some(b) => b,
    };
    let ghost name = path@.subrange(s as int, e as int);
    // The last dot of the name.
    let mut d = e;
    while d > s && path[d - 1] != 0x2e
        invariant
            s <= d <= e <= path@.len(),
            name == path@.subrange(s as int, e as int),
            last_dot(name, (d - s) as int) == last_dot(name, name.len() as int),
        decreases d,
    {
        assert(name[(d - s) - 1] == path@[d - 1]);
        d -= 1;
    }
    if d > s {
        assert(name[(d - s) - 1] == path@[d - 1]);
    }
    // No dot, or a dot that opens the name: no extension.
    if d - s <= 1 {
        return false;
    }
    let ghost ext = name.subrange((d - s) as int, name.len() as int);
    assert(path@.subrange(d as int, e as int) =~= ext);
    let lower_e01: [u8; 3] = [0x65, 0x30, 0x31];
    let lower_ex01: [u8; 4] = [0x65, 0x78, 0x30, 0x31];
    assert(lower_e01@ =~= e01());
    assert(lower_ex01@ =~= ex01());
    range_eq_ignore_case(path, d, e, &lower_e01) || range_eq_ignore_case(path, d, e, &lower_ex01)
}

} // verus!
