//! The traversal that enumerates every node of a mounted filesystem from its root:
//! depth-capped and visited-guarded against directory loops, skipping the `.`
//! and `..` entries. The caller lists directories and reads metadata; this
//! state machine decides what to list next and what each entry's path is.

use vstd::prelude::*;
use std::collections::HashSet;

verus! {

broadcast use vstd::std_specs::hash::group_hash_axioms;

/// Cap on directory recursion depth, a filesystem-loop guard.
pub const WALK_MAX_DEPTH: usize = 256;

/// A directory waiting to be listed: the path components leading to it, its
/// node key, and its depth below the root.
pub struct PendingDir {
    pub prefix: Vec<Vec<u8>>,
    pub dir: u64,
    pub depth: usize,
}

/// The abstract value of a pending directory.
pub open spec fn pending_view(p: PendingDir) -> (Seq<Seq<u8>>, u64, usize) {
    (p.prefix.deep_view(), p.dir, p.depth)
}

/// The abstract value of a stack of pending directories.
pub open spec fn stack_view(s: Seq<PendingDir>) -> Seq<(Seq<Seq<u8>>, u64, usize)> {
    s.map_values(|p: PendingDir| pending_view(p))
}

/// Popping from `stack`: drop directories past the depth cap or already
/// visited; the first other one is marked visited and handed out.
pub open spec fn pop_ready(stack: Seq<(Seq<Seq<u8>>, u64, usize)>, visited: Set<u64>) -> (
    Seq<(Seq<Seq<u8>>, u64, usize)>,
    Set<u64>,
    Option<(Seq<Seq<u8>>, u64, usize)>,
)
    decreases stack.len(),
{
    if stack.len() == 0 {
        (stack, visited, None)
    } else {
        let top = stack.last();
        let rest = stack.drop_last();
        if top.2 > WALK_MAX_DEPTH || visited.contains(top.1) {
            pop_ready(rest, visited)
        } else {
            (rest, visited.insert(top.1), Some(top))
        }
    }
}

/// Every pending directory's prefix has as many components as its depth.
pub open spec fn depths_match(pending: Seq<(Seq<Seq<u8>>, u64, usize)>) -> bool {
    forall|i: int| 0 <= i < pending.len() ==> (#[trigger] pending[i]).0.len() == pending[i].2
}

/// What a pop hands out: an undropped directory, newly marked visited; or
/// nothing, with the stack emptied and the visited set unchanged.
proof fn lemma_pop_ready(stack: Seq<(Seq<Seq<u8>>, u64, usize)>, visited: Set<u64>)
    ensures
        ({
            let (rest, v, next) = pop_ready(stack, visited);
            &&& next matches Some(d) ==> d.2 <= WALK_MAX_DEPTH && !visited.contains(d.1)
                && v == visited.insert(d.1)
            &&& next is None ==> rest.len() == 0 && v == visited
            &&& depths_match(stack) ==> depths_match(rest) && (next matches Some(d) ==> d.0.len()
                == d.2)
        }),
    decreases stack.len(),
{
    if stack.len() > 0 {
        let rest = stack.drop_last();
        assert(depths_match(stack) ==> depths_match(rest)) by {
            if depths_match(stack) {
                assert forall|i: int| 0 <= i < rest.len() implies (#[trigger] rest[i]).0.len()
                    == rest[i].2 by {
                    assert(rest[i] == stack[i]);
                }
            }
        }
        assert(depths_match(stack) ==> stack.last().0.len() == stack.last().2) by {
            if depths_match(stack) {
                assert(stack[stack.len() - 1] == stack.last());
            }
        }
        lemma_pop_ready(rest, visited);
    }
}

/// The traversal state: directories still to list, and the nodes already listed.
pub struct Walk {
    stack: Vec<PendingDir>,
    visited: HashSet<u64>,
}

impl Walk {
    /// The directories still to list, last one first.
    pub closed spec fn pending(&self) -> Seq<(Seq<Seq<u8>>, u64, usize)> {
        stack_view(self.stack@)
    }

    /// The directories already listed.
    pub closed spec fn visited(&self) -> Set<u64> {
        self.visited@
    }

    /// A walk from the root directory `root`.
    pub fn new(root: u64) -> (w: Self)
        ensures
            w.pending() == seq![(Seq::<Seq<u8>>::empty(), root, 0usize)],
            w.visited() == Set::<u64>::empty(),
            depths_match(w.pending()),
    {
        let mut stack: Vec<PendingDir> = Vec::new();
        let prefix: Vec<Vec<u8>> = Vec::new();
        assert(prefix.deep_view() =~= Seq::<Seq<u8>>::empty());
        stack.push(PendingDir { prefix, dir: root, depth: 0 });
        let w = Walk { stack, visited: HashSet::new() };
        assert(w.pending().len() == 1);
        assert(w.pending()[0] == pending_view(w.stack@[0]));
        assert(w.pending() =~= seq![(Seq::<Seq<u8>>::empty(), root, 0usize)]);
        w
    }

    /// The next directory to list, or `None` when the walk is done. Directories
    /// deeper than the cap, or listed before, are dropped.
    pub fn next_dir(&mut self) -> (r: Option<PendingDir>)
        ensures
            ({
                let (stack, visited, next) = pop_ready(old(self).pending(), old(self).visited());
                &&& final(self).pending() == stack
                &&& final(self).visited() == visited
                &&& match r {
                    Some(d) => next == Some(pending_view(d)),
                    None => next is None,
                }
            }),
            r matches Some(d) ==> d.depth <= WALK_MAX_DEPTH && !old(self).visited().contains(d.dir)
                && final(self).visited() == old(self).visited().insert(d.dir),
            r is None ==> final(self).pending().len() == 0 && final(self).visited() == old(
                self,
            ).visited(),
            depths_match(old(self).pending()) ==> depths_match(final(self).pending()) && (r matches Some(
                d,
            ) ==> d.prefix@.len() == d.depth),
    {
        let ghost goal = pop_ready(old(self).pending(), old(self).visited());
        proof {
            lemma_pop_ready(old(self).pending(), old(self).visited());
        }
        loop
            invariant
                pop_ready(stack_view(self.stack@), self.visited@) == goal,
                goal == pop_ready(old(self).pending(), old(self).visited()),
                self.visited@ == old(self).visited(),
                depths_match(old(self).pending()) ==> depths_match(goal.0) && (goal.2 matches Some(d)
                    ==> d.0.len() == d.2),
            decreases self.stack@.len(),
        {
            let ghost sv = stack_view(self.stack@);
            match self.stack.pop() {
                None => {
                    assert(sv.len() == 0);
                    return None;
                },
                Some(top) => {
                    assert(sv.drop_last() =~= stack_view(self.stack@));
                    assert(sv.last() == pending_view(top));
                    if top.depth > WALK_MAX_DEPTH {
                        continue;
                    }
                    let ghost before = self.visited@;
                    if !self.visited.insert(top.dir) {
                        assert(self.visited@ =~= before);
                        continue;
                    }
                    assert(top.prefix.deep_view().len() == top.prefix@.len());
                    return Some(top);
                },
            }
        }
    }

    /// Record the entry `name` (node key `id`) listed in directory `dir`: its path
    /// is `dir`'s prefix extended by `name`, and a subdirectory is queued one
    /// level deeper. Returns the entry's path.
    pub fn descend(&mut self, dir: &PendingDir, name: Vec<u8>, id: u64, is_dir: bool) -> (path: Vec<Vec<u8>>)
        requires
            dir.depth < usize::MAX,
        ensures
            path.deep_view() == dir.prefix.deep_view().push(name@),
            path@.len() == dir.prefix@.len() + 1,
            dir.prefix@.len() == dir.depth <= WALK_MAX_DEPTH ==> path@.len() <= WALK_MAX_DEPTH + 1,
            depths_match(old(self).pending()) && dir.prefix@.len() == dir.depth ==> depths_match(
                final(self).pending(),
            ),
            final(self).visited() == old(self).visited(),
            final(self).pending() == (if is_dir {
                old(self).pending().push((path.deep_view(), id, (dir.depth + 1) as usize))
            } else {
                old(self).pending()
            }),
    {
        let mut path = clone_path(&dir.prefix);
        let ghost p0 = path.deep_view();
        let ghost n = name@;
        proof {
            assert(name.deep_view() =~= name@);
        }
        path.push(name);
        assert(path.deep_view() =~= p0.push(n));
        if is_dir {
            let ghost before = stack_view(self.stack@);
            let queued = clone_path(&path);
            self.stack.push(PendingDir { prefix: queued, dir: id, depth: dir.depth + 1 });
            assert(stack_view(self.stack@) =~= before.push((path.deep_view(), id, (dir.depth + 1) as usize)));
        }
        path
    }
}

/// A copy of a component path.
fn clone_path(p: &Vec<Vec<u8>>) -> (r: Vec<Vec<u8>>)
    ensures
        r.deep_view() == p.deep_view(),
{
    let mut r: Vec<Vec<u8>> = Vec::new();
    let mut i: usize = 0;
    while i < p.len()
        invariant
            i <= p@.len(),
            r.deep_view() == p.deep_view().take(i as int),
        decreases p@.len() - i,
    {
        let c = vstd::slice::slice_to_vec(p[i].as_slice());
        let ghost before = r.deep_view();
        proof {
            assert(c.deep_view() =~= p@[i as int].deep_view());
        }
        r.push(c);
        assert(p.deep_view()[i as int] == p@[i as int].deep_view());
        assert(r.deep_view() =~= before.push(c.deep_view()));
        assert(p.deep_view().take(i + 1) =~= p.deep_view().take(i as int).push(p.deep_view()[i as int]));
        i += 1;
    }
    assert(p.deep_view().take(i as int) =~= p.deep_view());
    r
}

/// The self entry `.` and the parent entry `..`.
pub open spec fn is_dot(name: Seq<u8>) -> bool {
    name == seq![0x2eu8] || name == seq![0x2eu8, 0x2eu8]
}

/// Whether `name` is `.` or `..`, which a walk skips.
pub fn is_dot_entry(name: &[u8]) -> (r: bool)
    ensures
        r == is_dot(name@),
{
    if name.len() == 1 && name[0] == 0x2e {
        assert(name@ =~= seq![0x2eu8]);
        true
    } else if name.len() == 2 && name[0] == 0x2e && name[1] == 0x2e {
        assert(name@ =~= seq![0x2eu8, 0x2eu8]);
        true
    } else {
        assert(!(name@ =~= seq![0x2eu8]) && !(name@ =~= seq![0x2eu8, 0x2eu8]));
        false
    }
}

} // verus!
