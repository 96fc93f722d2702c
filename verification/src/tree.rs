//! The directory tree of a container that carries a flat member list (archive
//! entries, logical-image files): a synthetic root (node 0) plus one node per
//! member, wired parent to children by splitting each member name on `/` and
//! `\`, with intermediate directories synthesized when a producer omits them.

use vstd::prelude::*;

verus! {

/// What a tree node is.
#[derive(PartialEq, Eq, Structural, Clone, Copy, Debug)]
pub enum NodeKind {
    File,
    Dir,
}

/// One flat member as a backend lists it: its separator-delimited name, its
/// size, whether it names a directory, and the backend index to extract it by.
pub struct Member {
    pub name: Vec<u8>,
    pub size: u64,
    pub is_dir: bool,
    pub index: usize,
}

/// One node of the derived tree.
pub struct Node {
    /// Backend member index; `None` for the root and for directories implied by a
    /// path but not listed themselves.
    pub entry_idx: Option<usize>,
    /// Last path component, the name the parent lists this node under.
    pub name: Vec<u8>,
    pub kind: NodeKind,
    pub size: u64,
    /// Node ids of this node's children, in insertion order.
    pub children: Vec<u64>,
}

/// The abstract value of a [`Node`].
pub struct NodeView {
    pub entry_idx: Option<usize>,
    pub name: Seq<u8>,
    pub kind: NodeKind,
    pub size: u64,
    pub children: Seq<u64>,
}

impl View for Node {
    type V = NodeView;

    open spec fn view(&self) -> NodeView {
        NodeView {
            entry_idx: self.entry_idx,
            name: self.name@,
            kind: self.kind,
            size: self.size,
            children: self.children@,
        }
    }
}

/// The abstract value of a node table.
pub open spec fn nodes_view(nodes: Seq<Node>) -> Seq<NodeView> {
    nodes.map_values(|n: Node| n@)
}

/// A path separator: `/` or `\`.
pub open spec fn is_sep(b: u8) -> bool {
    b == 0x2f || b == 0x5c
}

/// A component that addresses something: neither empty nor `.`.
pub open spec fn kept(c: Seq<u8>) -> bool {
    c.len() > 0 && c != seq![0x2eu8]
}

/// Scanning `s` left to right: the kept components completed so far, and the
/// component still being read.
pub open spec fn scan(s: Seq<u8>) -> (Seq<Seq<u8>>, Seq<u8>)
    decreases s.len(),
{
    if s.len() == 0 {
        (Seq::empty(), Seq::empty())
    } else {
        let (done, cur) = scan(s.drop_last());
        if is_sep(s.last()) {
            (if kept(cur) { done.push(cur) } else { done }, Seq::empty())
        } else {
            (done, cur.push(s.last()))
        }
    }
}

/// The components of a member name: the separator-free runs of `s`, in order,
/// without the empty ones and without `.`.
pub open spec fn components(s: Seq<u8>) -> Seq<Seq<u8>> {
    let (done, cur) = scan(s);
    if kept(cur) {
        done.push(cur)
    } else {
        done
    }
}

/// Split a member name into its components.
pub fn split_components(name: &[u8]) -> (r: Vec<Vec<u8>>)
    ensures
        r.deep_view() == components(name@),
{
    let mut done: Vec<Vec<u8>> = Vec::new();
    let mut cur: Vec<u8> = Vec::new();
    let mut i: usize = 0;
    while i < name.len()
        invariant
            i <= name@.len(),
            (done.deep_view(), cur@) == scan(name@.take(i as int)),
        decreases name@.len() - i,
    {
        let b = name[i];
        proof {
            assert(name@.take(i + 1).drop_last() =~= name@.take(i as int));
        }
        if b == 0x2f || b == 0x5c {
            if is_kept(&cur) {
                let c = cur;
                let ghost d0 = done.deep_view();
                proof {
                    assert(c.deep_view() =~= c@);
                }
                done.push(c);
                proof {
                    assert(done.deep_view() =~= d0.push(c@));
                }
            }
            cur = Vec::new();
        } else {
            cur.push(b);
        }
        i += 1;
        proof {
            assert(done.deep_view() =~= scan(name@.take(i as int)).0);
        }
    }
    proof {
        assert(name@.take(i as int) =~= name@);
    }
    if is_kept(&cur) {
        let c = cur;
        let ghost d0 = done.deep_view();
        proof {
            assert(c.deep_view() =~= c@);
        }
        done.push(c);
        proof {
            assert(done.deep_view() =~= d0.push(c@));
        }
    }
    done
}

/// Exec form of [`kept`].
fn is_kept(c: &Vec<u8>) -> (r: bool)
    ensures
        r == kept(c@),
{
    if c.len() == 0 {
        false
    } else if c.len() == 1 && c[0] == 0x2e {
        assert(c@ =~= seq![0x2eu8]);
        false
    } else {
        assert(c@.len() != 1 ==> c@ != seq![0x2eu8]);
        true
    }
}

/// The tree under construction: the node table and, per node, its normalized
/// path (its components joined with `/`; the root's path is empty).
pub struct TreeState {
    pub nodes: Seq<NodeView>,
    pub paths: Seq<Seq<u8>>,
}

/// `comp` appended to the normalized path `acc`.
pub open spec fn join(acc: Seq<u8>, comp: Seq<u8>) -> Seq<u8> {
    if acc.len() == 0 {
        comp
    } else {
        acc + seq![0x2fu8] + comp
    }
}

/// A node with no children.
pub open spec fn fresh_node(entry_idx: Option<usize>, name: Seq<u8>, kind: NodeKind, size: u64) -> NodeView {
    NodeView { entry_idx, name, kind, size, children: Seq::empty() }
}

/// The node a member's last component creates: a directory record or a file.
pub open spec fn leaf_node(comp: Seq<u8>, m: Member) -> NodeView {
    if m.is_dir {
        fresh_node(Some(m.index), comp, NodeKind::Dir, 0)
    } else {
        fresh_node(Some(m.index), comp, NodeKind::File, m.size)
    }
}

/// `child` registered under `parent` (nothing changes for an absent parent).
pub open spec fn with_child(nodes: Seq<NodeView>, parent: int, child: u64) -> Seq<NodeView> {
    if 0 <= parent < nodes.len() {
        let n = nodes[parent];
        nodes.update(
            parent,
            NodeView {
                entry_idx: n.entry_idx,
                name: n.name,
                kind: n.kind,
                size: n.size,
                children: n.children.push(child),
            },
        )
    } else {
        nodes
    }
}

/// `n` backed by member `index`.
pub open spec fn with_entry(n: NodeView, index: usize) -> NodeView {
    NodeView { entry_idx: Some(index), name: n.name, kind: n.kind, size: n.size, children: n.children }
}

/// `node` added at the next id, with normalized path `path`, as a child of `parent`.
pub open spec fn add_node(st: TreeState, parent: int, path: Seq<u8>, node: NodeView) -> TreeState {
    TreeState {
        nodes: with_child(st.nodes.push(node), parent, st.nodes.len() as u64),
        paths: st.paths.push(path),
    }
}

/// Place the remaining components `comps` of member `m` below node `parent`,
/// whose normalized path is `acc`. An intermediate component reuses the node of
/// its path or synthesizes a directory; the last one attaches `m` to the node of
/// its path (keeping an earlier backing member) or creates the member's node.
pub open spec fn place(st: TreeState, parent: int, acc: Seq<u8>, comps: Seq<Seq<u8>>, m: Member) -> TreeState
    decreases comps.len(),
{
    if comps.len() == 0 {
        st
    } else {
        let comp = comps[0];
        let path = join(acc, comp);
        let found = st.paths.index_of_first(path);
        if comps.len() == 1 {
            match found {
                Some(e) => if st.nodes[e].entry_idx is None {
                    TreeState { nodes: st.nodes.update(e, with_entry(st.nodes[e], m.index)), paths: st.paths }
                } else {
                    st
                },
                None => add_node(st, parent, path, leaf_node(comp, m)),
            }
        } else {
            match found {
                Some(e) => place(st, e, path, comps.drop_first(), m),
                None => place(
                    add_node(st, parent, path, fresh_node(None, comp, NodeKind::Dir, 0)),
                    st.nodes.len() as int,
                    path,
                    comps.drop_first(),
                    m,
                ),
            }
        }
    }
}

/// The tree holding only the synthetic root directory.
pub open spec fn root_state() -> TreeState {
    TreeState {
        nodes: seq![fresh_node(None, Seq::empty(), NodeKind::Dir, 0)],
        paths: seq![Seq::<u8>::empty()],
    }
}

/// The tree derived from `members`, taken in order.
pub open spec fn tree_of(members: Seq<Member>) -> TreeState
    decreases members.len(),
{
    if members.len() == 0 {
        root_state()
    } else {
        let st = tree_of(members.drop_last());
        place(st, 0, Seq::empty(), components(members.last().name@), members.last())
    }
}

/// Whether two byte strings are equal.
fn bytes_equal(a: &[u8], b: &[u8]) -> (r: bool)
    ensures
        r == (a@ == b@),
{
    if a.len() != b.len() {
        return false;
    }
    let mut i: usize = 0;
    while i < a.len()
        invariant
            i <= a@.len(),
            a@.len() == b@.len(),
            forall|j: int| 0 <= j < i ==> a@[j] == b@[j],
        decreases a@.len() - i,
    {
        if a[i] != b[i] {
            return false;
        }
        i += 1;
    }
    assert(a@ =~= b@);
    true
}

/// The id of the first node whose normalized path is `p`.
fn find_path(paths: &Vec<Vec<u8>>, p: &[u8]) -> (r: Option<usize>)
    ensures
        r matches Some(i) ==> paths.deep_view().index_of_first(p@) == Some(i as int),
        r is None ==> paths.deep_view().index_of_first(p@) is None,
{
    let ghost dv = paths.deep_view();
    proof {
        dv.index_of_first_ensures(p@);
    }
    let mut i: usize = 0;
    while i < paths.len()
        invariant
            i <= paths@.len(),
            dv == paths.deep_view(),
            dv.len() == paths@.len(),
            forall|j: int| 0 <= j < i ==> dv[j] != p@,
        decreases paths@.len() - i,
    {
        assert(dv[i as int] == paths@[i as int]@);
        if bytes_equal(paths[i].as_slice(), p) {
            proof {
                dv.index_of_first_ensures(p@);
            }
            return Some(i);
        }
        i += 1;
    }
    proof {
        dv.index_of_first_ensures(p@);
        if dv.contains(p@) {
            let k = choose|k: int| 0 <= k < dv.len() && dv[k] == p@;
            assert(dv[k] != p@);
        }
    }
    None
}

/// Append `s` to `v`.
fn append_bytes(v: &mut Vec<u8>, s: &[u8])
    ensures
        final(v)@ == old(v)@ + s@,
{
    let mut i: usize = 0;
    while i < s.len()
        invariant
            i <= s@.len(),
            v@ == old(v)@ + s@.take(i as int),
        decreases s@.len() - i,
    {
        v.push(s[i]);
        i += 1;
        assert(v@ =~= old(v)@ + s@.take(i as int));
    }
    assert(s@.take(i as int) =~= s@);
}

/// The abstract value of an exec node table and its path table.
pub open spec fn state_of(nodes: Seq<Node>, paths: Vec<Vec<u8>>) -> TreeState {
    TreeState { nodes: nodes_view(nodes), paths: paths.deep_view() }
}

/// Add one member to the tree under construction.
fn add_member(nodes: &mut Vec<Node>, paths: &mut Vec<Vec<u8>>, m: &Member)
    requires
        old(nodes)@.len() == old(paths)@.len(),
    ensures
        final(nodes)@.len() == final(paths)@.len(),
        state_of(final(nodes)@, *final(paths)) == place(
            state_of(old(nodes)@, *old(paths)),
            0,
            Seq::empty(),
            components(m.name@),
            *m,
        ),
{
    let comps = split_components(m.name.as_slice());
    let ghost all = comps.deep_view();
    let ghost st0 = state_of(nodes@, *paths);
    let mut parent: usize = 0;
    let mut acc: Vec<u8> = Vec::new();
    let n = comps.len();
    let mut ci: usize = 0;
    assert(all.skip(0) =~= all);
    while ci < n
        invariant
            n == comps@.len(),
            all == comps.deep_view(),
            all.len() == n,
            ci <= n,
            nodes@.len() == paths@.len(),
            place(state_of(nodes@, *paths), parent as int, acc@, all.skip(ci as int), *m) == place(
                st0,
                0,
                Seq::empty(),
                all,
                *m,
            ),
        decreases n - ci,
    {
        let ghost st = state_of(nodes@, *paths);
        let ghost rest = all.skip(ci as int);
        let ghost acc0 = acc@;
        let comp = comps[ci].as_slice();
        assert(comp@ == all[ci as int]);
        assert(rest[0] == all[ci as int]);
        if acc.len() > 0 {
            acc.push(0x2f);
        }
        append_bytes(&mut acc, comp);
        assert(acc@ =~= join(acc0, comp@));
        let found = find_path(paths, acc.as_slice());
        proof {
            paths.deep_view().index_of_first_ensures(acc@);
        }
        if ci + 1 == n {
            assert(rest.len() == 1);
            match found {
                Some(e) => {
                    if nodes[e].entry_idx.is_none() {
                        nodes[e].entry_idx = Some(m.index);
                        assert(nodes_view(nodes@) =~= st.nodes.update(e as int, with_entry(st.nodes[e as int], m.index)));
                    }
                },
                None => {
                    let id = nodes.len() as u64;
                    let node = if m.is_dir {
                        Node { entry_idx: Some(m.index), name: vstd::slice::slice_to_vec(comp), kind: NodeKind::Dir, size: 0, children: Vec::new() }
                    } else {
                        Node { entry_idx: Some(m.index), name: vstd::slice::slice_to_vec(comp), kind: NodeKind::File, size: m.size, children: Vec::new() }
                    };
                    nodes.push(node);
                    let p = vstd::slice::slice_to_vec(acc.as_slice());
                    assert(p.deep_view() =~= acc@);
                    paths.push(p);
                    if parent < nodes.len() {
                        nodes[parent].children.push(id);
                    }
                    assert(nodes_view(nodes@) =~= with_child(st.nodes.push(leaf_node(comp@, *m)), parent as int, id));
                    assert(paths.deep_view() =~= st.paths.push(acc@));
                },
            }
            assert(all.skip(ci + 1) =~= Seq::<Seq<u8>>::empty());
        } else {
            assert(rest.drop_first() =~= all.skip(ci + 1));
            match found {
                Some(e) => {
                    parent = e;
                },
                None => {
                    let id = nodes.len();
                    nodes.push(Node { entry_idx: None, name: vstd::slice::slice_to_vec(comp), kind: NodeKind::Dir, size: 0, children: Vec::new() });
                    let p = vstd::slice::slice_to_vec(acc.as_slice());
                    assert(p.deep_view() =~= acc@);
                    paths.push(p);
                    if parent < nodes.len() {
                        nodes[parent].children.push(id as u64);
                    }
                    assert(nodes_view(nodes@) =~= with_child(st.nodes.push(fresh_node(None, comp@, NodeKind::Dir, 0)), parent as int, id as u64));
                    assert(paths.deep_view() =~= st.paths.push(acc@));
                    parent = id;
                },
            }
        }
        ci += 1;
    }
}

/// Derive the directory tree of `members` (node 0 is the synthetic root). Each
/// name is split on `/` and `\`; intermediate directories are synthesized on
/// first use and shared by normalized path, so an explicit `sub/` record and an
/// implied `sub` prefix resolve to one node.
pub fn build_tree(members: &[Member]) -> (nodes: Vec<Node>)
    ensures
        nodes_view(nodes@) == tree_of(members@).nodes,
{
    let mut nodes: Vec<Node> = Vec::new();
    nodes.push(Node { entry_idx: None, name: Vec::new(), kind: NodeKind::Dir, size: 0, children: Vec::new() });
    let mut paths: Vec<Vec<u8>> = Vec::new();
    paths.push(Vec::new());
    assert(state_of(nodes@, paths) == root_state()) by {
        assert(nodes_view(nodes@) =~= root_state().nodes);
        assert(paths@[0].deep_view() =~= Seq::<u8>::empty());
        assert(paths.deep_view() =~= root_state().paths);
    }
    let mut k: usize = 0;
    while k < members.len()
        invariant
            k <= members@.len(),
            nodes@.len() == paths@.len(),
            state_of(nodes@, paths) == tree_of(members@.take(k as int)),
        decreases members@.len() - k,
    {
        add_member(&mut nodes, &mut paths, &members[k]);
        assert(members@.take(k + 1).drop_last() =~= members@.take(k as int));
        k += 1;
    }
    assert(members@.take(k as int) =~= members@);
    nodes
}

/// The tree invariant: one normalized path per node, the synthetic root directory
/// at node 0 with the empty path, no two nodes sharing a path, and every child
/// listed under a node being a later node whose path extends its parent's path
/// by the child's name.
pub open spec fn tree_wf(st: TreeState) -> bool {
    &&& st.nodes.len() == st.paths.len()
    &&& st.nodes.len() >= 1
    &&& st.paths[0] == Seq::<u8>::empty()
    &&& st.nodes[0].name == Seq::<u8>::empty()
    &&& st.nodes[0].kind == NodeKind::Dir
    &&& st.nodes[0].entry_idx is None
    &&& st.nodes[0].size == 0
    &&& forall|i: int, j: int|
        0 <= i < st.paths.len() && 0 <= j < st.paths.len() && i != j ==> #[trigger] st.paths[i]
            != #[trigger] st.paths[j]
    &&& forall|i: int, k: int|
        #![trigger st.nodes[i].children[k]]
        0 <= i < st.nodes.len() && 0 <= k < st.nodes[i].children.len() ==> {
            let c = st.nodes[i].children[k] as int;
            &&& i < c < st.nodes.len()
            &&& st.paths[c] == join(st.paths[i], st.nodes[c].name)
        }
}

/// `comps` joined onto the normalized path `acc`, one component at a time.
pub open spec fn join_from(acc: Seq<u8>, comps: Seq<Seq<u8>>) -> Seq<u8>
    decreases comps.len(),
{
    if comps.len() == 0 {
        acc
    } else {
        join_from(join(acc, comps[0]), comps.drop_first())
    }
}

/// The normalized path of a member: its components joined with `/`.
pub open spec fn member_path(m: Member) -> Seq<u8> {
    join_from(Seq::empty(), components(m.name@))
}

/// Every completed component of a scan is kept.
proof fn scan_kept(s: Seq<u8>)
    ensures
        forall|i: int| 0 <= i < scan(s).0.len() ==> kept(#[trigger] scan(s).0[i]),
    decreases s.len(),
{
    if s.len() > 0 {
        scan_kept(s.drop_last());
        let (done, cur) = scan(s.drop_last());
        if is_sep(s.last()) && kept(cur) {
            assert forall|i: int| 0 <= i < scan(s).0.len() implies kept(#[trigger] scan(s).0[i]) by {
                if i < done.len() {
                    assert(scan(s).0[i] == done[i]);
                }
            }
        }
    }
}

/// Every component of a member name is non-empty and not `.`.
pub proof fn components_are_kept(s: Seq<u8>)
    ensures
        forall|i: int| 0 <= i < components(s).len() ==> kept(#[trigger] components(s)[i]),
{
    scan_kept(s);
}

/// A join with a non-empty component is non-empty.
proof fn join_nonempty(acc: Seq<u8>, comp: Seq<u8>)
    requires
        comp.len() > 0,
    ensures
        join(acc, comp).len() > 0,
{
}

/// Adding a node keeps the tree invariant when its path is new and `parent`'s
/// path is `acc`.
proof fn add_node_wf(st: TreeState, parent: int, acc: Seq<u8>, comp: Seq<u8>, node: NodeView)
    requires
        tree_wf(st),
        0 <= parent < st.nodes.len(),
        st.paths[parent] == acc,
        node.name == comp,
        node.children.len() == 0,
        st.paths.index_of_first(join(acc, comp)) is None,
        st.nodes.len() < u64::MAX,
    ensures
        tree_wf(add_node(st, parent, join(acc, comp), node)),
{
    let path = join(acc, comp);
    let st2 = add_node(st, parent, path, node);
    st.paths.index_of_first_ensures(path);
    let id = st.nodes.len() as int;
    assert(st2.paths[id] == path);
    assert forall|i: int, j: int|
        0 <= i < st2.paths.len() && 0 <= j < st2.paths.len() && i != j implies #[trigger] st2.paths[i]
            != #[trigger] st2.paths[j] by {
        if i == id {
            assert(st.paths[j] != path);
        } else if j == id {
            assert(st.paths[i] != path);
        }
    }
    assert forall|i: int, k: int|
        #![trigger st2.nodes[i].children[k]]
        0 <= i < st2.nodes.len() && 0 <= k < st2.nodes[i].children.len() implies {
            let c = st2.nodes[i].children[k] as int;
            &&& i < c < st2.nodes.len()
            &&& st2.paths[c] == join(st2.paths[i], st2.nodes[c].name)
        } by {
        if i == parent && k == st.nodes[parent].children.len() {
            let pushed = st.nodes.push(node);
            assert(pushed[parent] == st.nodes[parent]);
            assert(st2.nodes[parent].children == st.nodes[parent].children.push(id as u64));
            assert(st2.nodes[i].children[k] == id);
        } else if i == id {
        } else {
            assert(st2.nodes[i].children[k] == st.nodes[i].children[k]);
            let c = st.nodes[i].children[k] as int;
            assert(st2.nodes[c].name == st.nodes[c].name);
        }
    }
}

/// Placing a member's components keeps the tree invariant.
proof fn place_wf(st: TreeState, parent: int, acc: Seq<u8>, comps: Seq<Seq<u8>>, m: Member)
    requires
        tree_wf(st),
        0 <= parent < st.nodes.len(),
        st.paths[parent] == acc,
        forall|i: int| 0 <= i < comps.len() ==> (#[trigger] comps[i]).len() > 0,
        place(st, parent, acc, comps, m).nodes.len() <= u64::MAX,
    ensures
        tree_wf(place(st, parent, acc, comps, m)),
    decreases comps.len(),
{
    if comps.len() > 0 {
        let comp = comps[0];
        let path = join(acc, comp);
        join_nonempty(acc, comp);
        st.paths.index_of_first_ensures(path);
        let rest = comps.drop_first();
        assert forall|i: int| 0 <= i < rest.len() implies (#[trigger] rest[i]).len() > 0 by {
            assert(rest[i] == comps[i + 1]);
        }
        match st.paths.index_of_first(path) {
            Some(e) => {
                if comps.len() == 1 {
                    if st.nodes[e].entry_idx is None {
                        let st2 = TreeState {
                            nodes: st.nodes.update(e, with_entry(st.nodes[e], m.index)),
                            paths: st.paths,
                        };
                        assert(e != 0);
                        assert forall|i: int, k: int|
                            #![trigger st2.nodes[i].children[k]]
                            0 <= i < st2.nodes.len() && 0 <= k < st2.nodes[i].children.len() implies {
                                let c = st2.nodes[i].children[k] as int;
                                &&& i < c < st2.nodes.len()
                                &&& st2.paths[c] == join(st2.paths[i], st2.nodes[c].name)
                            } by {
                            assert(st2.nodes[i].children[k] == st.nodes[i].children[k]);
                        }
                    }
                } else {
                    place_wf(st, e, path, rest, m);
                }
            },
            None => {
                if comps.len() == 1 {
                    add_node_wf(st, parent, acc, comp, leaf_node(comp, m));
                } else {
                    let node = fresh_node(None, comp, NodeKind::Dir, 0);
                    let st2 = add_node(st, parent, path, node);
                    place_keeps(st2, st.nodes.len() as int, path, rest, m);
                    add_node_wf(st, parent, acc, comp, node);
                    place_wf(st2, st.nodes.len() as int, path, rest, m);
                }
            },
        }
    }
}

/// Placing a member never forgets: earlier paths stay in place and a node that
/// had a backing member keeps one.
proof fn place_keeps(st: TreeState, parent: int, acc: Seq<u8>, comps: Seq<Seq<u8>>, m: Member)
    requires
        st.nodes.len() == st.paths.len(),
    ensures
        ({
            let r = place(st, parent, acc, comps, m);
            &&& r.nodes.len() == r.paths.len()
            &&& r.paths.len() >= st.paths.len()
            &&& forall|i: int| 0 <= i < st.paths.len() ==> #[trigger] r.paths[i] == st.paths[i]
            &&& forall|i: int|
                0 <= i < st.nodes.len() && st.nodes[i].entry_idx is Some ==> (
                #[trigger] r.nodes[i]).entry_idx is Some
        }),
    decreases comps.len(),
{
    if comps.len() > 0 {
        let comp = comps[0];
        let path = join(acc, comp);
        st.paths.index_of_first_ensures(path);
        let rest = comps.drop_first();
        match st.paths.index_of_first(path) {
            Some(e) => {
                if comps.len() > 1 {
                    place_keeps(st, e, path, rest, m);
                }
            },
            None => {
                if comps.len() > 1 {
                    let st2 = add_node(st, parent, path, fresh_node(None, comp, NodeKind::Dir, 0));
                    place_keeps(st2, st.nodes.len() as int, path, rest, m);
                    let r = place(st2, st.nodes.len() as int, path, rest, m);
                    assert forall|i: int|
                        0 <= i < st.nodes.len() && st.nodes[i].entry_idx is Some implies (
                        #[trigger] r.nodes[i]).entry_idx is Some by {
                        assert(st2.nodes[i].entry_idx == st.nodes[i].entry_idx);
                    }
                }
            },
        }
    }
}

/// After placing a member, the node at its full path exists and is backed by a
/// member.
proof fn place_reaches(st: TreeState, parent: int, acc: Seq<u8>, comps: Seq<Seq<u8>>, m: Member)
    requires
        st.nodes.len() == st.paths.len(),
        comps.len() > 0,
    ensures
        ({
            let r = place(st, parent, acc, comps, m);
            exists|i: int|
                0 <= i < r.paths.len() && #[trigger] r.paths[i] == join_from(acc, comps)
                    && r.nodes[i].entry_idx is Some
        }),
    decreases comps.len(),
{
    let comp = comps[0];
    let path = join(acc, comp);
    st.paths.index_of_first_ensures(path);
    let rest = comps.drop_first();
    let r = place(st, parent, acc, comps, m);
    match st.paths.index_of_first(path) {
        Some(e) => {
            if comps.len() == 1 {
                assert(join_from(path, rest) == path);
                assert(r.paths[e] == path);
            } else {
                place_reaches(st, e, path, rest, m);
            }
        },
        None => {
            if comps.len() == 1 {
                let id = st.nodes.len() as int;
                assert(join_from(path, rest) == path);
                assert(r.paths[id] == path);
                assert(r.nodes[id].entry_idx is Some);
            } else {
                let st2 = add_node(st, parent, path, fresh_node(None, comp, NodeKind::Dir, 0));
                place_reaches(st2, st.nodes.len() as int, path, rest, m);
            }
        },
    }
}

/// Node and path tables of a derived tree have one entry each per node.
proof fn tree_of_keeps(members: Seq<Member>)
    ensures
        tree_of(members).nodes.len() == tree_of(members).paths.len(),
    decreases members.len(),
{
    if members.len() > 0 {
        tree_of_keeps(members.drop_last());
        let m = members.last();
        place_keeps(tree_of(members.drop_last()), 0, Seq::empty(), components(m.name@), m);
    }
}

/// The tree invariant holds of every derived tree whose node ids fit in `u64`.
proof fn tree_of_wf(members: Seq<Member>)
    requires
        tree_of(members).nodes.len() <= u64::MAX,
    ensures
        tree_wf(tree_of(members)),
    decreases members.len(),
{
    if members.len() == 0 {
        let st = root_state();
        assert(st.paths[0] == Seq::<u8>::empty());
    } else {
        let m = members.last();
        tree_of_keeps(members.drop_last());
        place_keeps(tree_of(members.drop_last()), 0, Seq::empty(), components(m.name@), m);
        tree_of_wf(members.drop_last());
        components_are_kept(m.name@);
        place_wf(tree_of(members.drop_last()), 0, Seq::empty(), components(m.name@), m);
    }
}

/// Node 0 of every derived tree is the synthetic root: an unnamed, empty-sized
/// directory backed by no member.
pub proof fn tree_root_is_a_synthetic_directory(members: Seq<Member>)
    requires
        tree_of(members).nodes.len() <= u64::MAX,
    ensures
        ({
            let root = tree_of(members).nodes[0];
            &&& tree_of(members).nodes.len() >= 1
            &&& root.kind == NodeKind::Dir
            &&& root.name == Seq::<u8>::empty()
            &&& root.entry_idx is None
            &&& root.size == 0
            &&& tree_of(members).paths[0] == Seq::<u8>::empty()
        }),
{
    tree_of_wf(members);
}

/// No two nodes of a derived tree share a normalized path: an explicit directory
/// record and a directory implied by a longer name resolve to one node.
pub proof fn tree_paths_are_unique(members: Seq<Member>, i: int, j: int)
    requires
        tree_of(members).nodes.len() <= u64::MAX,
        0 <= i < tree_of(members).nodes.len(),
        0 <= j < tree_of(members).nodes.len(),
        i != j,
    ensures
        tree_of(members).paths[i] != tree_of(members).paths[j],
{
    tree_of_wf(members);
}

/// Every child a node lists is a later node of the table (so the tree has no
/// cycle), and the child's path is its parent's path extended by its name.
pub proof fn tree_children_are_later_nodes(members: Seq<Member>, i: int, k: int)
    requires
        tree_of(members).nodes.len() <= u64::MAX,
        0 <= i < tree_of(members).nodes.len(),
        0 <= k < tree_of(members).nodes[i].children.len(),
    ensures
        ({
            let st = tree_of(members);
            let c = st.nodes[i].children[k] as int;
            &&& i < c < st.nodes.len()
            &&& st.paths[c] == join(st.paths[i], st.nodes[c].name)
        }),
{
    tree_of_wf(members);
}

/// Every member whose name has a component is reachable: some node carries its
/// normalized path and is backed by a member.
pub proof fn tree_member_is_reachable(members: Seq<Member>, k: int)
    requires
        0 <= k < members.len(),
        components(members[k].name@).len() > 0,
    ensures
        exists|i: int|
            0 <= i < tree_of(members).nodes.len() && #[trigger] tree_of(members).paths[i]
                == member_path(members[k]) && tree_of(members).nodes[i].entry_idx is Some,
    decreases members.len(),
{
    tree_of_keeps(members);
    let prev = members.drop_last();
    tree_of_keeps(prev);
    let m = members.last();
    let st = tree_of(prev);
    if k == members.len() - 1 {
        place_reaches(st, 0, Seq::empty(), components(m.name@), m);
    } else {
        assert(members[k] == prev[k]);
        tree_member_is_reachable(prev, k);
        place_keeps(st, 0, Seq::empty(), components(m.name@), m);
        let i = choose|i: int|
            0 <= i < st.nodes.len() && #[trigger] st.paths[i] == member_path(prev[k])
                && st.nodes[i].entry_idx is Some;
        assert(tree_of(members).paths[i] == member_path(members[k]));
    }
}

/// Some node lists node `c` among its children.
pub open spec fn is_listed(nodes: Seq<NodeView>, c: int) -> bool {
    exists|i: int, k: int|
        0 <= i < nodes.len() && 0 <= k < nodes[i].children.len() && #[trigger] nodes[i].children[k] == c
}

/// Every node but the root is listed as a child exactly once: some node lists
/// it, and no two listing positions (in one node or in two) name the same node.
pub open spec fn listed_once(nodes: Seq<NodeView>) -> bool {
    &&& forall|c: int| 1 <= c < nodes.len() ==> #[trigger] is_listed(nodes, c)
    &&& forall|i1: int, k1: int, i2: int, k2: int|
        0 <= i1 < nodes.len() && 0 <= k1 < nodes[i1].children.len() && 0 <= i2 < nodes.len() && 0
            <= k2 < nodes[i2].children.len() && #[trigger] nodes[i1].children[k1]
            == #[trigger] nodes[i2].children[k2] ==> i1 == i2 && k1 == k2
}

/// Adding a node as the last child of an existing node keeps every node listed once.
proof fn add_node_listed_once(st: TreeState, parent: int, path: Seq<u8>, node: NodeView)
    requires
        tree_wf(st),
        listed_once(st.nodes),
        0 <= parent < st.nodes.len(),
        node.children.len() == 0,
        st.nodes.len() < u64::MAX,
    ensures
        listed_once(add_node(st, parent, path, node).nodes),
{
    let n2 = add_node(st, parent, path, node).nodes;
    let pushed = st.nodes.push(node);
    let id = st.nodes.len() as int;
    let last = st.nodes[parent].children.len() as int;
    assert(pushed[parent] == st.nodes[parent]);
    assert(n2[parent].children == st.nodes[parent].children.push(id as u64));
    assert(n2.len() == id + 1);
    assert(n2[id].children.len() == 0);
    assert forall|i: int, k: int|
        0 <= i < n2.len() && 0 <= k < n2[i].children.len() && !(i == parent && k == last) implies {
            &&& i < id
            &&& k < st.nodes[i].children.len()
            &&& #[trigger] n2[i].children[k] == st.nodes[i].children[k]
            &&& n2[i].children[k] < id
        } by {
        if i == parent {
        } else {
            assert(n2[i] == pushed[i]);
        }
        assert(st.nodes[i].children[k] < id);
    }
    assert forall|c: int| 1 <= c < n2.len() implies #[trigger] is_listed(n2, c) by {
        if c == id {
            assert(n2[parent].children[last] == c);
        } else {
            assert(is_listed(st.nodes, c));
            let (i, k) = choose|i: int, k: int|
                0 <= i < st.nodes.len() && 0 <= k < st.nodes[i].children.len()
                    && #[trigger] st.nodes[i].children[k] == c;
            if i == parent {
                assert(n2[parent].children[k] == st.nodes[parent].children[k]);
            } else {
                assert(n2[i] == pushed[i]);
            }
            assert(n2[i].children[k] == c);
        }
    }
    assert(n2[parent].children[last] == id);
    assert forall|i1: int, k1: int, i2: int, k2: int|
        0 <= i1 < n2.len() && 0 <= k1 < n2[i1].children.len() && 0 <= i2 < n2.len() && 0 <= k2
            < n2[i2].children.len() && #[trigger] n2[i1].children[k1] == #[trigger] n2[i2].children[k2]
        implies i1 == i2 && k1 == k2 by {
        let new1 = i1 == parent && k1 == last;
        let new2 = i2 == parent && k2 == last;
        if !new1 && !new2 {
            assert(st.nodes[i1].children[k1] == st.nodes[i2].children[k2]);
        }
    }
}

/// Placing a member's components keeps every node listed once.
proof fn place_listed_once(st: TreeState, parent: int, acc: Seq<u8>, comps: Seq<Seq<u8>>, m: Member)
    requires
        tree_wf(st),
        listed_once(st.nodes),
        0 <= parent < st.nodes.len(),
        st.paths[parent] == acc,
        forall|i: int| 0 <= i < comps.len() ==> (#[trigger] comps[i]).len() > 0,
        place(st, parent, acc, comps, m).nodes.len() <= u64::MAX,
    ensures
        listed_once(place(st, parent, acc, comps, m).nodes),
    decreases comps.len(),
{
    if comps.len() > 0 {
        let comp = comps[0];
        let path = join(acc, comp);
        join_nonempty(acc, comp);
        st.paths.index_of_first_ensures(path);
        let rest = comps.drop_first();
        assert forall|i: int| 0 <= i < rest.len() implies (#[trigger] rest[i]).len() > 0 by {
            assert(rest[i] == comps[i + 1]);
        }
        match st.paths.index_of_first(path) {
            Some(e) => {
                if comps.len() == 1 {
                    if st.nodes[e].entry_idx is None {
                        let n2 = st.nodes.update(e, with_entry(st.nodes[e], m.index));
                        assert forall|i: int| 0 <= i < n2.len() implies #[trigger] n2[i].children
                            == st.nodes[i].children by {}
                        assert forall|c: int| 1 <= c < n2.len() implies #[trigger] is_listed(n2, c) by {
                            assert(is_listed(st.nodes, c));
                            let (i, k) = choose|i: int, k: int|
                                0 <= i < st.nodes.len() && 0 <= k < st.nodes[i].children.len()
                                    && #[trigger] st.nodes[i].children[k] == c;
                            assert(n2[i].children[k] == c);
                        }
                        assert(listed_once(n2));
                    }
                } else {
                    place_listed_once(st, e, path, rest, m);
                }
            },
            None => {
                if comps.len() == 1 {
                    add_node_listed_once(st, parent, path, leaf_node(comp, m));
                } else {
                    let node = fresh_node(None, comp, NodeKind::Dir, 0);
                    let st2 = add_node(st, parent, path, node);
                    place_keeps(st2, st.nodes.len() as int, path, rest, m);
                    add_node_wf(st, parent, acc, comp, node);
                    add_node_listed_once(st, parent, path, node);
                    assert(tree_wf(st2));
                    place_listed_once(st2, st.nodes.len() as int, path, rest, m);
                }
            },
        }
    }
}

/// Every derived tree whose node ids fit in `u64` lists each node once.
proof fn tree_of_listed_once(members: Seq<Member>)
    requires
        tree_of(members).nodes.len() <= u64::MAX,
    ensures
        listed_once(tree_of(members).nodes),
    decreases members.len(),
{
    if members.len() == 0 {
        let n = root_state().nodes;
        assert(n[0].children.len() == 0);
    } else {
        let m = members.last();
        let prev = members.drop_last();
        tree_of_keeps(prev);
        place_keeps(tree_of(prev), 0, Seq::empty(), components(m.name@), m);
        tree_of_wf(prev);
        tree_of_listed_once(prev);
        components_are_kept(m.name@);
        place_listed_once(tree_of(prev), 0, Seq::empty(), components(m.name@), m);
    }
}

/// Every node of a derived tree other than the root is listed by exactly one
/// parent, at exactly one position, and the root is listed by none: the nodes
/// form a tree.
pub proof fn tree_nodes_have_one_parent(members: Seq<Member>, c: int)
    requires
        tree_of(members).nodes.len() <= u64::MAX,
        0 <= c < tree_of(members).nodes.len(),
    ensures
        ({
            let n = tree_of(members).nodes;
            &&& c == 0 ==> forall|i: int, k: int|
                0 <= i < n.len() && 0 <= k < n[i].children.len() ==> #[trigger] n[i].children[k] != 0
            &&& c > 0 ==> exists|i: int, k: int|
                0 <= i < n.len() && 0 <= k < n[i].children.len() && #[trigger] n[i].children[k] == c
                    && forall|i2: int, k2: int|
                    0 <= i2 < n.len() && 0 <= k2 < n[i2].children.len() && #[trigger] n[i2].children[k2]
                        == c ==> i2 == i && k2 == k
        }),
{
    tree_of_wf(members);
    tree_of_listed_once(members);
    let n = tree_of(members).nodes;
    if c > 0 {
        assert(is_listed(n, c));
        let (i, k) = choose|i: int, k: int|
            0 <= i < n.len() && 0 <= k < n[i].children.len() && #[trigger] n[i].children[k] == c;
        assert(n[i].children[k] == c);
    }
}

/// Whether member `m` names a node: its name has a component.
pub open spec fn names_a_node(m: Member) -> bool {
    components(m.name@).len() > 0
}

/// The position of the first member whose normalized path is `p`, among the
/// members that name a node.
pub open spec fn first_with_path(members: Seq<Member>, p: Seq<u8>) -> Option<int>
    decreases members.len(),
{
    if members.len() == 0 {
        None
    } else {
        match first_with_path(members.drop_last(), p) {
            Some(j) => Some(j),
            None => if names_a_node(members.last()) && member_path(members.last()) == p {
                Some(members.len() - 1)
            } else {
                None
            },
        }
    }
}

/// The member index backing the node at path `p`: that of the first member
/// with that path, if any.
pub open spec fn backing(members: Seq<Member>, p: Seq<u8>) -> Option<usize> {
    match first_with_path(members, p) {
        Some(j) => Some(members[j].index),
        None => None,
    }
}

/// No two entries of a path table are equal.
pub open spec fn unique_paths(paths: Seq<Seq<u8>>) -> bool {
    forall|i: int, j: int|
        0 <= i < paths.len() && 0 <= j < paths.len() && i != j ==> #[trigger] paths[i] != #[trigger] paths[j]
}

/// The first member with a path is a member that names a node and has that
/// path, and no earlier one does; when there is none, no member has it.
pub proof fn first_with_path_is_first(members: Seq<Member>, p: Seq<u8>)
    ensures
        first_with_path(members, p) matches Some(j) ==> {
            &&& 0 <= j < members.len()
            &&& names_a_node(members[j])
            &&& member_path(members[j]) == p
            &&& forall|j2: int|
                0 <= j2 < j ==> !(names_a_node(#[trigger] members[j2]) && member_path(members[j2]) == p)
        },
        first_with_path(members, p) is None ==> forall|j2: int|
            0 <= j2 < members.len() ==> !(names_a_node(#[trigger] members[j2]) && member_path(
                members[j2],
            ) == p),
    decreases members.len(),
{
    if members.len() > 0 {
        let prev = members.drop_last();
        first_with_path_is_first(prev, p);
        assert forall|j2: int| 0 <= j2 < prev.len() implies #[trigger] members[j2] == prev[j2] by {}
    }
}

/// Placing member `m` below `parent` (path `acc`), when every node is backed by
/// the first of `prev` with its path and every path of `prev` has a node:
/// afterwards the node at the member's full path is backed by `m` if no member
/// of `prev` had that path, and every other node keeps its backing.
proof fn place_backs(
    st: TreeState,
    parent: int,
    acc: Seq<u8>,
    comps: Seq<Seq<u8>>,
    m: Member,
    prev: Seq<Member>,
)
    requires
        st.nodes.len() == st.paths.len(),
        unique_paths(st.paths),
        forall|i: int| 0 <= i < st.nodes.len() ==> #[trigger] st.nodes[i].entry_idx == backing(prev, st.paths[i]),
        forall|j: int|
            0 <= j < prev.len() && names_a_node(#[trigger] prev[j]) ==> st.paths.contains(member_path(prev[j])),
        comps.len() > 0,
    ensures
        ({
            let r = place(st, parent, acc, comps, m);
            let full = join_from(acc, comps);
            &&& r.nodes.len() == r.paths.len()
            &&& unique_paths(r.paths)
            &&& forall|i: int|
                0 <= i < r.nodes.len() ==> #[trigger] r.nodes[i].entry_idx == (if r.paths[i] == full
                    && backing(prev, full) is None {
                    Some(m.index)
                } else {
                    backing(prev, r.paths[i])
                })
        }),
    decreases comps.len(),
{
    let comp = comps[0];
    let path = join(acc, comp);
    st.paths.index_of_first_ensures(path);
    let rest = comps.drop_first();
    let r = place(st, parent, acc, comps, m);
    let full = join_from(acc, comps);
    assert(full == join_from(path, rest));
    // A path no node carries is the path of no member of `prev`.
    assert(!st.paths.contains(path) ==> backing(prev, path) is None) by {
        first_with_path_is_first(prev, path);
        if !st.paths.contains(path) {
            if let Some(j) = first_with_path(prev, path) {
                assert(names_a_node(prev[j]));
            }
        }
    }
    match st.paths.index_of_first(path) {
        Some(e) => {
            if comps.len() == 1 {
                assert(full == path);
                if st.nodes[e].entry_idx is None {
                    assert forall|i: int| 0 <= i < r.nodes.len() implies #[trigger] r.nodes[i].entry_idx
                        == (if r.paths[i] == full && backing(prev, full) is None {
                        Some(m.index)
                    } else {
                        backing(prev, r.paths[i])
                    }) by {
                        if i != e {
                            assert(r.nodes[i] == st.nodes[i]);
                            assert(st.paths[i] != st.paths[e]);
                        }
                    }
                } else {
                    assert forall|i: int| 0 <= i < r.nodes.len() implies #[trigger] r.nodes[i].entry_idx
                        == (if r.paths[i] == full && backing(prev, full) is None {
                        Some(m.index)
                    } else {
                        backing(prev, r.paths[i])
                    }) by {
                        if r.paths[i] == full {
                            if i != e {
                                assert(st.paths[i] != st.paths[e]);
                            }
                        }
                    }
                }
            } else {
                place_backs(st, e, path, rest, m, prev);
            }
        },
        None => {
            let id = st.nodes.len() as int;
            if comps.len() == 1 {
                assert(full == path);
                let node = leaf_node(comp, m);
                assert(r == add_node(st, parent, path, node));
                assert(r.nodes.len() == id + 1);
                assert forall|i: int, j: int|
                    0 <= i < r.paths.len() && 0 <= j < r.paths.len() && i != j implies #[trigger] r.paths[i]
                        != #[trigger] r.paths[j] by {
                    if i == id {
                        assert(st.paths.contains(st.paths[j]));
                    }
                    if j == id {
                        assert(st.paths.contains(st.paths[i]));
                    }
                }
                assert forall|i: int| 0 <= i < r.nodes.len() implies #[trigger] r.nodes[i].entry_idx
                    == (if r.paths[i] == full && backing(prev, full) is None {
                    Some(m.index)
                } else {
                    backing(prev, r.paths[i])
                }) by {
                    let pushed = st.nodes.push(node);
                    if i == id {
                        assert(r.nodes[i].entry_idx == pushed[i].entry_idx);
                    } else {
                        assert(r.nodes[i].entry_idx == pushed[i].entry_idx);
                        assert(pushed[i] == st.nodes[i]);
                        assert(r.paths[i] == st.paths[i]);
                        assert(st.paths.contains(st.paths[i]));
                    }
                }
            } else {
                let node = fresh_node(None, comp, NodeKind::Dir, 0);
                let st2 = add_node(st, parent, path, node);
                let pushed = st.nodes.push(node);
                assert forall|i: int, j: int|
                    0 <= i < st2.paths.len() && 0 <= j < st2.paths.len() && i != j implies #[trigger] st2.paths[i]
                        != #[trigger] st2.paths[j] by {
                    if j == id {
                        assert(st.paths.contains(st.paths[i]));
                    }
                    if i == id {
                        assert(st.paths.contains(st.paths[j]));
                    }
                }
                assert forall|i: int| 0 <= i < st2.nodes.len() implies #[trigger] st2.nodes[i].entry_idx
                    == backing(prev, st2.paths[i]) by {
                    assert(st2.nodes[i].entry_idx == pushed[i].entry_idx);
                    if i < id {
                        assert(pushed[i] == st.nodes[i]);
                    }
                }
                assert forall|j: int|
                    0 <= j < prev.len() && names_a_node(#[trigger] prev[j]) implies st2.paths.contains(
                    member_path(prev[j]),
                ) by {
                    let k = choose|k: int| 0 <= k < st.paths.len() && st.paths[k] == member_path(prev[j]);
                    assert(st2.paths[k] == st.paths[k]);
                }
                place_backs(st2, id, path, rest, m, prev);
            }
        },
    }
}

/// Every node of a derived tree is backed by the first member with its path,
/// the path table has one entry per node with no two equal, and every member
/// that names a node has a node at its path.
proof fn tree_of_backs(members: Seq<Member>)
    ensures
        tree_of(members).nodes.len() == tree_of(members).paths.len(),
        unique_paths(tree_of(members).paths),
        forall|i: int|
            0 <= i < tree_of(members).nodes.len() ==> #[trigger] tree_of(members).nodes[i].entry_idx
                == backing(members, tree_of(members).paths[i]),
        forall|j: int|
            0 <= j < members.len() && names_a_node(#[trigger] members[j]) ==> tree_of(members).paths.contains(
                member_path(members[j]),
            ),
    decreases members.len(),
{
    if members.len() == 0 {
        let st = root_state();
        assert(st.nodes[0].entry_idx == backing(members, st.paths[0]));
    } else {
        let prev = members.drop_last();
        let m = members.last();
        let st = tree_of(prev);
        let comps = components(m.name@);
        tree_of_backs(prev);
        let r = tree_of(members);
        assert forall|j: int| 0 <= j < prev.len() implies #[trigger] members[j] == prev[j] by {}
        assert(members[members.len() - 1] == m);
        // How one more member changes the backing of a path.
        assert forall|p: Seq<u8>| #[trigger] backing(members, p) == (if names_a_node(m) && member_path(m)
            == p && backing(prev, p) is None {
            Some(m.index)
        } else {
            backing(prev, p)
        }) by {
            match first_with_path(prev, p) {
                Some(j) => {
                    first_with_path_is_first(prev, p);
                    assert(members[j] == prev[j]);
                },
                None => {},
            }
        }
        if comps.len() == 0 {
            assert(r == st);
            assert forall|j: int|
                0 <= j < members.len() && names_a_node(#[trigger] members[j]) implies r.paths.contains(
                member_path(members[j]),
            ) by {
                if j < prev.len() {
                    assert(names_a_node(prev[j]));
                }
            }
        } else {
            place_backs(st, 0, Seq::empty(), comps, m, prev);
            place_keeps(st, 0, Seq::empty(), comps, m);
            place_reaches(st, 0, Seq::empty(), comps, m);
            assert(member_path(m) == join_from(Seq::empty(), comps));
            assert forall|j: int|
                0 <= j < members.len() && names_a_node(#[trigger] members[j]) implies r.paths.contains(
                member_path(members[j]),
            ) by {
                if j < prev.len() {
                    assert(names_a_node(prev[j]));
                    let k = choose|k: int| 0 <= k < st.paths.len() && st.paths[k] == member_path(prev[j]);
                    assert(r.paths[k] == st.paths[k]);
                } else {
                    let k = choose|k: int|
                        0 <= k < r.paths.len() && #[trigger] r.paths[k] == join_from(Seq::empty(), comps)
                            && r.nodes[k].entry_idx is Some;
                    assert(r.paths[k] == member_path(members[j]));
                }
            }
        }
    }
}

/// The node at a member's normalized path is backed by the first member with
/// that path: a later member with the same path, or a longer name passing
/// through it, never changes its backing.
pub proof fn tree_node_is_backed_by_first_member(members: Seq<Member>, k: int)
    requires
        0 <= k < members.len(),
        names_a_node(members[k]),
    ensures
        exists|i: int, j: int|
            #![trigger tree_of(members).paths[i], members[j]]
            0 <= i < tree_of(members).nodes.len() && tree_of(members).paths[i] == member_path(members[k])
                && 0 <= j <= k && member_path(members[j]) == member_path(members[k]) && names_a_node(
                members[j],
            ) && (forall|j2: int|
                0 <= j2 < j ==> !(names_a_node(#[trigger] members[j2]) && member_path(members[j2])
                    == member_path(members[k]))) && tree_of(members).nodes[i].entry_idx == Some(
                members[j].index,
            ),
{
    let p = member_path(members[k]);
    tree_of_backs(members);
    first_with_path_is_first(members, p);
    let st = tree_of(members);
    let i = choose|i: int| 0 <= i < st.paths.len() && st.paths[i] == p;
    let j = first_with_path(members, p)->0;
    assert(st.nodes[i].entry_idx == backing(members, st.paths[i]));
    assert(st.paths[i] == p && members[j] == members[j]);
}

/// Every node of a derived tree is backed exactly as the first member with its
/// path says: the root and directories no member names are backed by none.
pub proof fn tree_nodes_are_backed_by_first_members(members: Seq<Member>, i: int)
    requires
        0 <= i < tree_of(members).nodes.len(),
    ensures
        tree_of(members).nodes[i].entry_idx == backing(members, tree_of(members).paths[i]),
{
    tree_of_backs(members);
}

/// Joining components, each non-empty, onto `acc` adds at least one byte per
/// component.
proof fn join_from_grows(acc: Seq<u8>, comps: Seq<Seq<u8>>)
    requires
        forall|i: int| 0 <= i < comps.len() ==> (#[trigger] comps[i]).len() > 0,
    ensures
        join_from(acc, comps).len() >= acc.len() + comps.len(),
    decreases comps.len(),
{
    if comps.len() > 0 {
        let rest = comps.drop_first();
        assert forall|i: int| 0 <= i < rest.len() implies (#[trigger] rest[i]).len() > 0 by {
            assert(rest[i] == comps[i + 1]);
        }
        join_nonempty(acc, comps[0]);
        assert(join(acc, comps[0]).len() >= acc.len() + 1);
        join_from_grows(join(acc, comps[0]), rest);
    }
}

/// Placing a member never changes the kind or size of a node already in the
/// table.
proof fn place_keeps_shape(st: TreeState, parent: int, acc: Seq<u8>, comps: Seq<Seq<u8>>, m: Member)
    requires
        st.nodes.len() == st.paths.len(),
    ensures
        ({
            let r = place(st, parent, acc, comps, m);
            forall|i: int|
                0 <= i < st.nodes.len() ==> (#[trigger] r.nodes[i]).kind == st.nodes[i].kind
                    && r.nodes[i].size == st.nodes[i].size
        }),
    decreases comps.len(),
{
    place_keeps(st, parent, acc, comps, m);
    if comps.len() > 0 {
        let comp = comps[0];
        let path = join(acc, comp);
        st.paths.index_of_first_ensures(path);
        let rest = comps.drop_first();
        let r = place(st, parent, acc, comps, m);
        match st.paths.index_of_first(path) {
            Some(e) => {
                if comps.len() > 1 {
                    place_keeps_shape(st, e, path, rest, m);
                }
            },
            None => {
                let node = if comps.len() == 1 {
                    leaf_node(comp, m)
                } else {
                    fresh_node(None, comp, NodeKind::Dir, 0)
                };
                let st2 = add_node(st, parent, path, node);
                let pushed = st.nodes.push(node);
                assert forall|i: int| 0 <= i < st.nodes.len() implies (#[trigger] st2.nodes[i]).kind
                    == st.nodes[i].kind && st2.nodes[i].size == st.nodes[i].size by {
                    assert(pushed[i] == st.nodes[i]);
                }
                if comps.len() > 1 {
                    place_keeps_shape(st2, st.nodes.len() as int, path, rest, m);
                }
            },
        }
    }
}

/// Placing a member whose full path has no node yet creates that node from
/// the member: a directory for a directory record, otherwise a file of the
/// member's declared size, backed by the member.
proof fn place_new_leaf(st: TreeState, parent: int, acc: Seq<u8>, comps: Seq<Seq<u8>>, m: Member)
    requires
        st.nodes.len() == st.paths.len(),
        0 <= parent < st.nodes.len(),
        comps.len() > 0,
        forall|i: int| 0 <= i < comps.len() ==> (#[trigger] comps[i]).len() > 0,
        !st.paths.contains(join_from(acc, comps)),
    ensures
        ({
            let r = place(st, parent, acc, comps, m);
            exists|i: int|
                0 <= i < r.nodes.len() && #[trigger] r.paths[i] == join_from(acc, comps) && r.nodes[i].kind
                    == (if m.is_dir {
                    NodeKind::Dir
                } else {
                    NodeKind::File
                }) && r.nodes[i].size == (if m.is_dir {
                    0
                } else {
                    m.size
                }) && r.nodes[i].entry_idx == Some(m.index)
        }),
    decreases comps.len(),
{
    let comp = comps[0];
    let path = join(acc, comp);
    st.paths.index_of_first_ensures(path);
    let rest = comps.drop_first();
    let full = join_from(acc, comps);
    assert(full == join_from(path, rest));
    assert forall|i: int| 0 <= i < rest.len() implies (#[trigger] rest[i]).len() > 0 by {
        assert(rest[i] == comps[i + 1]);
    }
    let r = place(st, parent, acc, comps, m);
    let id = st.nodes.len() as int;
    if comps.len() == 1 {
        assert(full == path);
        assert(st.paths.index_of_first(path) is None);
        let node = leaf_node(comp, m);
        let pushed = st.nodes.push(node);
        assert(r == add_node(st, parent, path, node));
        assert(r.nodes[id] == pushed[id]);
        assert(r.paths[id] == path);
    } else {
        match st.paths.index_of_first(path) {
            Some(e) => {
                place_new_leaf(st, e, path, rest, m);
            },
            None => {
                let node = fresh_node(None, comp, NodeKind::Dir, 0);
                let st2 = add_node(st, parent, path, node);
                join_from_grows(path, rest);
                assert(path != full);
                assert(!st2.paths.contains(full)) by {
                    if st2.paths.contains(full) {
                        let k = choose|k: int| 0 <= k < st2.paths.len() && st2.paths[k] == full;
                        if k < id {
                            assert(st.paths[k] == full);
                        }
                    }
                }
                place_new_leaf(st2, id, path, rest, m);
            },
        }
    }
}

/// Appending a member whose path the tree has no node for creates its node
/// from the member: a directory (size 0) for a directory record, otherwise a
/// file carrying the member's declared size, whatever that size is; and no
/// node already in the tree changes kind or size.
pub proof fn new_member_node_takes_its_kind_and_size(prev: Seq<Member>, m: Member)
    requires
        names_a_node(m),
        !tree_of(prev).paths.contains(member_path(m)),
    ensures
        ({
            let t = tree_of(prev.push(m));
            &&& exists|i: int|
                0 <= i < t.nodes.len() && #[trigger] t.paths[i] == member_path(m) && t.nodes[i].kind == (
                if m.is_dir {
                    NodeKind::Dir
                } else {
                    NodeKind::File
                }) && t.nodes[i].size == (if m.is_dir {
                    0
                } else {
                    m.size
                }) && t.nodes[i].entry_idx == Some(m.index)
            &&& forall|i: int|
                0 <= i < tree_of(prev).nodes.len() ==> (#[trigger] t.nodes[i]).kind == tree_of(
                    prev,
                ).nodes[i].kind && t.nodes[i].size == tree_of(prev).nodes[i].size
        }),
{
    let members = prev.push(m);
    assert(members.drop_last() =~= prev);
    assert(members.last() == m);
    let st = tree_of(prev);
    let comps = components(m.name@);
    tree_of_keeps(prev);
    tree_of_backs(prev);
    tree_of_len_positive(prev);
    components_are_kept(m.name@);
    assert forall|i: int| 0 <= i < comps.len() implies (#[trigger] comps[i]).len() > 0 by {
        assert(kept(comps[i]));
    }
    place_new_leaf(st, 0, Seq::empty(), comps, m);
    place_keeps_shape(st, 0, Seq::empty(), comps, m);
}

/// A derived tree always holds the root.
proof fn tree_of_len_positive(members: Seq<Member>)
    ensures
        tree_of(members).nodes.len() >= 1,
    decreases members.len(),
{
    if members.len() > 0 {
        let prev = members.drop_last();
        tree_of_len_positive(prev);
        tree_of_keeps(prev);
        place_keeps(tree_of(prev), 0, Seq::empty(), components(members.last().name@), members.last());
    }
}

/// Why a tree query was refused.
#[derive(PartialEq, Eq, Structural, Clone, Copy, Debug)]
pub enum TreeError {
    /// The node id is outside the node table.
    OutOfRange(u64),
    /// A directory operation addressed a node that is not a directory.
    NotADir(u64),
}

/// One child as a directory listing shows it.
pub struct DirEntry {
    pub name: Vec<u8>,
    pub id: u64,
    pub kind: NodeKind,
}

/// The metadata a tree knows of a node.
#[derive(PartialEq, Eq, Structural, Clone, Copy, Debug)]
pub struct NodeMeta {
    pub ino: u64,
    pub kind: NodeKind,
    pub size: u64,
}

/// The listing of `children`: each child that is in the table, in order, with its
/// name and kind.
pub open spec fn listing(nodes: Seq<NodeView>, children: Seq<u64>) -> Seq<(Seq<u8>, u64, NodeKind)>
    decreases children.len(),
{
    if children.len() == 0 {
        Seq::empty()
    } else {
        let rest = listing(nodes, children.drop_last());
        let c = children.last();
        if c < nodes.len() {
            rest.push((nodes[c as int].name, c, nodes[c as int].kind))
        } else {
            rest
        }
    }
}

/// The first child in `children` that is in the table and is named `name`.
pub open spec fn first_named(nodes: Seq<NodeView>, children: Seq<u64>, name: Seq<u8>) -> Option<u64>
    decreases children.len(),
{
    if children.len() == 0 {
        None
    } else {
        let c = children[0];
        if c < nodes.len() && nodes[c as int].name == name {
            Some(c)
        } else {
            first_named(nodes, children.drop_first(), name)
        }
    }
}

/// Two children listed by one node have distinct names, so a child is found
/// by name unambiguously.
pub proof fn tree_siblings_have_distinct_names(members: Seq<Member>, i: int, k1: int, k2: int)
    requires
        tree_of(members).nodes.len() <= u64::MAX,
        0 <= i < tree_of(members).nodes.len(),
        0 <= k1 < tree_of(members).nodes[i].children.len(),
        0 <= k2 < tree_of(members).nodes[i].children.len(),
        k1 != k2,
    ensures
        ({
            let n = tree_of(members).nodes;
            n[n[i].children[k1] as int].name != n[n[i].children[k2] as int].name
        }),
{
    tree_of_wf(members);
    tree_of_listed_once(members);
    let st = tree_of(members);
    let c1 = st.nodes[i].children[k1] as int;
    let c2 = st.nodes[i].children[k2] as int;
    assert(st.nodes[i].children[k1] != st.nodes[i].children[k2]);
    assert(st.paths[c1] == join(st.paths[i], st.nodes[c1].name));
    assert(st.paths[c2] == join(st.paths[i], st.nodes[c2].name));
    assert(st.paths[c1] != st.paths[c2]);
}

/// The first entry of a listing named `name`, by its node id.
pub open spec fn find_named(entries: Seq<(Seq<u8>, u64, NodeKind)>, name: Seq<u8>) -> Option<u64>
    decreases entries.len(),
{
    if entries.len() == 0 {
        None
    } else if entries[0].0 == name {
        Some(entries[0].1)
    } else {
        find_named(entries.drop_first(), name)
    }
}

/// The listing of `children` split at its first child.
proof fn listing_front(nodes: Seq<NodeView>, children: Seq<u64>)
    requires
        children.len() > 0,
    ensures
        listing(nodes, children) == (if children[0] < nodes.len() {
            seq![(nodes[children[0] as int].name, children[0], nodes[children[0] as int].kind)]
        } else {
            Seq::empty()
        }) + listing(nodes, children.drop_first()),
    decreases children.len(),
{
    let c = children[0];
    let head: Seq<(Seq<u8>, u64, NodeKind)> = if c < nodes.len() {
        seq![(nodes[c as int].name, c, nodes[c as int].kind)]
    } else {
        Seq::empty()
    };
    if children.len() == 1 {
        assert(children.drop_last().len() == 0);
        assert(children.drop_first().len() == 0);
        assert(listing(nodes, children.drop_last()) == Seq::<(Seq<u8>, u64, NodeKind)>::empty());
        assert(listing(nodes, children.drop_first()) == Seq::<(Seq<u8>, u64, NodeKind)>::empty());
        assert(children.last() == c);
        assert(listing(nodes, children) =~= head + listing(nodes, children.drop_first()));
    } else {
        let init = children.drop_last();
        let tail = children.drop_first();
        listing_front(nodes, init);
        assert(init[0] == c);
        assert(init.drop_first() =~= tail.drop_last());
        assert(tail.last() == children.last());
        let mid = listing(nodes, tail.drop_last());
        let l = children.last();
        assert(listing(nodes, init) == head + mid);
        if l < nodes.len() {
            let e = (nodes[l as int].name, l, nodes[l as int].kind);
            assert(listing(nodes, children) == listing(nodes, init).push(e));
            assert(listing(nodes, tail) == mid.push(e));
            assert((head + mid).push(e) =~= head + mid.push(e));
        } else {
            assert(listing(nodes, children) == listing(nodes, init));
            assert(listing(nodes, tail) == mid);
        }
    }
}

/// Looking a name up among a directory's children gives the node its listing
/// shows first under that name: the tree's lookup agrees with searching its
/// directory listing by name.
pub proof fn lookup_agrees_with_listing(nodes: Seq<NodeView>, children: Seq<u64>, name: Seq<u8>)
    ensures
        first_named(nodes, children, name) == find_named(listing(nodes, children), name),
    decreases children.len(),
{
    if children.len() == 0 {
        assert(listing(nodes, children).len() == 0);
    } else {
        listing_front(nodes, children);
        lookup_agrees_with_listing(nodes, children.drop_first(), name);
        let c = children[0];
        let rest = listing(nodes, children.drop_first());
        if c < nodes.len() {
            let e = (nodes[c as int].name, c, nodes[c as int].kind);
            assert((seq![e] + rest)[0] == e);
            assert((seq![e] + rest).drop_first() =~= rest);
        } else {
            assert(Seq::<(Seq<u8>, u64, NodeKind)>::empty() + rest =~= rest);
        }
    }
}

/// When every child is in the table, the listing has one entry per child, in
/// order.
proof fn listing_in_range(nodes: Seq<NodeView>, children: Seq<u64>)
    requires
        forall|k: int| 0 <= k < children.len() ==> #[trigger] children[k] < nodes.len(),
    ensures
        listing(nodes, children).len() == children.len(),
        forall|j: int|
            0 <= j < children.len() ==> #[trigger] listing(nodes, children)[j] == (
                nodes[children[j] as int].name,
                children[j],
                nodes[children[j] as int].kind,
            ),
    decreases children.len(),
{
    if children.len() > 0 {
        let init = children.drop_last();
        assert forall|k: int| 0 <= k < init.len() implies #[trigger] init[k] < nodes.len() by {
            assert(init[k] == children[k]);
        }
        listing_in_range(nodes, init);
        assert(children[children.len() - 1] < nodes.len());
        assert forall|j: int| 0 <= j < children.len() implies #[trigger] listing(nodes, children)[j] == (
            nodes[children[j] as int].name,
            children[j],
            nodes[children[j] as int].kind,
        ) by {
            if j < init.len() {
                assert(init[j] == children[j]);
            }
        }
    }
}

/// The children of a node of a derived tree are nodes of the table, with
/// pairwise distinct names.
proof fn siblings_are_distinct(ms: Seq<Member>, i: int)
    requires
        tree_of(ms).nodes.len() <= u64::MAX,
        0 <= i < tree_of(ms).nodes.len(),
    ensures
        ({
            let nv = tree_of(ms).nodes;
            &&& forall|k: int| 0 <= k < nv[i].children.len() ==> #[trigger] nv[i].children[k] < nv.len()
            &&& forall|k1: int, k2: int|
                0 <= k1 < nv[i].children.len() && 0 <= k2 < nv[i].children.len() && k1 != k2
                    ==> nv[#[trigger] nv[i].children[k1] as int].name != nv[#[trigger] nv[i].children[k2] as int].name
        }),
{
    tree_of_wf(ms);
    let nv = tree_of(ms).nodes;
    assert forall|k1: int, k2: int|
        0 <= k1 < nv[i].children.len() && 0 <= k2 < nv[i].children.len() && k1 != k2 implies nv[#[trigger] nv[i].children[k1] as int].name
            != nv[#[trigger] nv[i].children[k2] as int].name by {
        tree_siblings_have_distinct_names(ms, i, k1, k2);
    }
}

/// The abstract value of a listing.
pub open spec fn entries_view(entries: Seq<DirEntry>) -> Seq<(Seq<u8>, u64, NodeKind)> {
    entries.map_values(|e: DirEntry| (e.name@, e.id, e.kind))
}

/// A container's derived tree, queried by node id. It is always the tree some
/// member list derives.
pub struct ContainerTree {
    nodes: Vec<Node>,
}

impl View for ContainerTree {
    type V = Seq<NodeView>;

    /// The node table.
    closed spec fn view(&self) -> Seq<NodeView> {
        nodes_view(self.nodes@)
    }
}

impl ContainerTree {
    /// The table is the tree of some member list.
    #[verifier::type_invariant]
    spec fn derived(self) -> bool {
        exists|ms: Seq<Member>|
            #[trigger] tree_of(ms).nodes == nodes_view(self.nodes@) && tree_of(ms).nodes.len()
                <= u64::MAX
    }

    /// The tree of `members`.
    pub fn new(members: &[Member]) -> (t: Self)
        ensures
            t@ == tree_of(members@).nodes,
    {
        let nodes = build_tree(members);
        assert(tree_of(members@).nodes == nodes_view(nodes@));
        assert(nodes_view(nodes@).len() == nodes@.len());
        let count = nodes.len();
        assert(count as int <= u64::MAX);
        assert(tree_of(members@).nodes.len() <= u64::MAX);
        ContainerTree { nodes }
    }

    /// The id of the root node.
    pub fn root(&self) -> (r: u64)
        ensures
            r == 0,
    {
        0
    }

    /// The node `id`, or `OutOfRange` for an id outside the table.
    pub fn node_of(&self, id: u64) -> (r: Result<&Node, TreeError>)
        ensures
            match r {
                Ok(n) => id < self@.len() && n@ == self@[id as int],
                Err(e) => id >= self@.len() && e == TreeError::OutOfRange(id),
            },
    {
        self.node_at(id)
    }

    /// The node `id`, or `OutOfRange`: its entry in the table itself.
    fn node_at(&self, id: u64) -> (r: Result<&Node, TreeError>)
        ensures
            match r {
                Ok(n) => id < self.nodes@.len() && *n == self.nodes@[id as int],
                Err(e) => id >= self.nodes@.len() && e == TreeError::OutOfRange(id),
            },
    {
        if id < self.nodes.len() as u64 {
            Ok(&self.nodes[id as usize])
        } else {
            Err(TreeError::OutOfRange(id))
        }
    }

    /// The children of directory `id`, in insertion order.
    pub fn read_dir(&self, id: u64) -> (r: Result<Vec<DirEntry>, TreeError>)
        ensures
            match r {
                Ok(entries) => id < self@.len() && self@[id as int].kind == NodeKind::Dir
                    && entries_view(entries@) == listing(self@, self@[id as int].children)
                    && forall|j1: int, j2: int|
                    0 <= j1 < j2 < entries@.len() ==> (#[trigger] entries@[j1]).name@ != (
                    #[trigger] entries@[j2]).name@,
                Err(e) => if id >= self@.len() {
                    e == TreeError::OutOfRange(id)
                } else {
                    self@[id as int].kind != NodeKind::Dir && e == TreeError::NotADir(id)
                },
            },
    {
        let node = self.node_at(id)?;
        if node.kind != NodeKind::Dir {
            return Err(TreeError::NotADir(id));
        }
        let ghost nv = nodes_view(self.nodes@);
        let mut out: Vec<DirEntry> = Vec::new();
        let mut k: usize = 0;
        while k < node.children.len()
            invariant
                k <= node.children@.len(),
                nv == nodes_view(self.nodes@),
                entries_view(out@) == listing(nv, node.children@.take(k as int)),
            decreases node.children@.len() - k,
        {
            let child = node.children[k];
            proof {
                assert(node.children@.take(k + 1).drop_last() =~= node.children@.take(k as int));
            }
            if child < self.nodes.len() as u64 {
                let c = &self.nodes[child as usize];
                let e = DirEntry { name: vstd::slice::slice_to_vec(c.name.as_slice()), id: child, kind: c.kind };
                let ghost before = out@;
                out.push(e);
                proof {
                    assert(entries_view(out@) =~= entries_view(before).push((c.name@, child, c.kind)));
                }
            } else {
                proof {
                    assert(entries_view(out@) =~= listing(nv, node.children@.take(k + 1)));
                }
            }
            k += 1;
        }
        proof {
            assert(node.children@.take(k as int) =~= node.children@);
            use_type_invariant(self);
            let ms = choose|ms: Seq<Member>|
                #[trigger] tree_of(ms).nodes == nodes_view(self.nodes@) && tree_of(ms).nodes.len()
                    <= u64::MAX;
            siblings_are_distinct(ms, id as int);
            let ch = nv[id as int].children;
            assert(ch == node.children@);
            listing_in_range(nv, ch);
            assert forall|j1: int, j2: int| 0 <= j1 < j2 < out@.len() implies (
            #[trigger] out@[j1]).name@ != (#[trigger] out@[j2]).name@ by {
                assert(entries_view(out@)[j1].0 == out@[j1].name@);
                assert(entries_view(out@)[j2].0 == out@[j2].name@);
            }
        }
        Ok(out)
    }

    /// The child of directory `parent` named `name`, if any.
    pub fn lookup(&self, parent: u64, name: &[u8]) -> (r: Result<Option<u64>, TreeError>)
        ensures
            match r {
                Ok(found) => parent < self@.len() && self@[parent as int].kind == NodeKind::Dir
                    && found == first_named(self@, self@[parent as int].children, name@),
                Err(e) => if parent >= self@.len() {
                    e == TreeError::OutOfRange(parent)
                } else {
                    self@[parent as int].kind != NodeKind::Dir && e == TreeError::NotADir(parent)
                },
            },
    {
        let node = self.node_at(parent)?;
        if node.kind != NodeKind::Dir {
            return Err(TreeError::NotADir(parent));
        }
        let ghost nv = nodes_view(self.nodes@);
        let ghost all = node.children@;
        let mut k: usize = 0;
        assert(all.skip(0) =~= all);
        while k < node.children.len()
            invariant
                k <= all.len(),
                all == node.children@,
                parent < self.nodes@.len(),
                *node == self.nodes@[parent as int],
                node.kind == NodeKind::Dir,
                nv == nodes_view(self.nodes@),
                first_named(nv, all, name@) == first_named(nv, all.skip(k as int), name@),
            decreases all.len() - k,
        {
            let child = node.children[k];
            assert(all.skip(k as int)[0] == child);
            assert(all.skip(k as int).drop_first() =~= all.skip(k + 1));
            if child < self.nodes.len() as u64 {
                if bytes_equal(self.nodes[child as usize].name.as_slice(), name) {
                    assert(nv.len() == self.nodes@.len());
                    assert(nv[child as int].name == self.nodes@[child as int].name@);
                    assert(first_named(nv, all.skip(k as int), name@) == Some(child));
                    return Ok(Some(child));
                }
            }
            k += 1;
        }
        Ok(None)
    }

    /// The metadata of node `id`.
    pub fn meta(&self, id: u64) -> (r: Result<NodeMeta, TreeError>)
        ensures
            match r {
                Ok(m) => id < self@.len() && m == (NodeMeta {
                    ino: id,
                    kind: self@[id as int].kind,
                    size: self@[id as int].size,
                }),
                Err(e) => id >= self@.len() && e == TreeError::OutOfRange(id),
            },
    {
        let node = self.node_at(id)?;
        Ok(NodeMeta { ino: id, kind: node.kind, size: node.size })
    }

    /// The length of the single logical run of node `id`: none for an empty node.
    pub fn extent_len(&self, id: u64) -> (r: Result<Option<u64>, TreeError>)
        ensures
            match r {
                Ok(run) => id < self@.len() && run == (if self@[id as int].size == 0 {
                    None
                } else {
                    Some(self@[id as int].size)
                }),
                Err(e) => id >= self@.len() && e == TreeError::OutOfRange(id),
            },
    {
        let node = self.node_at(id)?;
        if node.size == 0 {
            Ok(None)
        } else {
            Ok(Some(node.size))
        }
    }

    /// The backing member of node `id` when it is a file with data: `None` for a
    /// directory (or the root), which has nothing to read.
    pub fn file_member(&self, id: u64) -> (r: Result<Option<usize>, TreeError>)
        ensures
            match r {
                Ok(member) => id < self@.len() && member == (if self@[id as int].kind
                    == NodeKind::File {
                    self@[id as int].entry_idx
                } else {
                    None
                }),
                Err(e) => id >= self@.len() && e == TreeError::OutOfRange(id),
            },
    {
        let node = self.node_at(id)?;
        if node.kind != NodeKind::File {
            return Ok(None);
        }
        Ok(node.entry_idx)
    }
}

/// The tree members of a listing: the `i`th listed entry is member `i`.
pub open spec fn listed_members(listing: Seq<(Seq<u8>, u64, bool)>) -> Seq<(Seq<u8>, u64, bool, usize)> {
    Seq::new(listing.len(), |i: int| (listing[i].0, listing[i].1, listing[i].2, i as usize))
}

/// The abstract value of a member list.
pub open spec fn members_view(members: Seq<Member>) -> Seq<(Seq<u8>, u64, bool, usize)> {
    members.map_values(|m: Member| (m.name@, m.size, m.is_dir, m.index))
}

/// The tree members of a flat listing (name bytes, size, directory flag), each
/// keyed by its position.
pub fn listing_members(listing: &[(Vec<u8>, u64, bool)]) -> (v: Vec<Member>)
    ensures
        members_view(v@) == listed_members(listing@.map_values(|e: (Vec<u8>, u64, bool)| (e.0@, e.1, e.2))),
{
    let ghost lv = listing@.map_values(|e: (Vec<u8>, u64, bool)| (e.0@, e.1, e.2));
    let mut v: Vec<Member> = Vec::new();
    let mut i: usize = 0;
    while i < listing.len()
        invariant
            i <= listing@.len(),
            lv == listing@.map_values(|e: (Vec<u8>, u64, bool)| (e.0@, e.1, e.2)),
            members_view(v@) == listed_members(lv).take(i as int),
        decreases listing@.len() - i,
    {
        let e = &listing[i];
        let name = vstd::slice::slice_to_vec(e.0.as_slice());
        let ghost before = v@;
        v.push(Member { name, size: e.1, is_dir: e.2, index: i });
        assert(members_view(v@) =~= members_view(before).push((e.0@, e.1, e.2, i)));
        assert(listed_members(lv).take(i + 1) =~= listed_members(lv).take(i as int).push(
            listed_members(lv)[i as int],
        ));
        i += 1;
    }
    assert(listed_members(lv).take(i as int) =~= listed_members(lv));
    v
}

/// Copy the content of `data` from offset `off` into `buf`: as many bytes as both
/// have, none when `off` is at or past the end. Returns the count.
pub fn copy_from(data: &[u8], off: u64, buf: &mut [u8]) -> (n: usize)
    ensures
        n == (if off >= data@.len() {
            0
        } else {
            vstd::math::min(data@.len() - off, old(buf)@.len() as int) as usize
        }),
        final(buf)@.len() == old(buf)@.len(),
        forall|j: int| 0 <= j < n ==> #[trigger] final(buf)@[j] == data@[off + j],
        final(buf)@.subrange(n as int, final(buf)@.len() as int) == old(buf)@.subrange(n as int, old(buf)@.len() as int),
{
    if off >= data.len() as u64 {
        assert(buf@.subrange(0, buf@.len() as int) =~= buf@);
        return 0;
    }
    let start = off as usize;
    let avail = data.len() - start;
    let n = if avail < buf.len() { avail } else { buf.len() };
    let mut i: usize = 0;
    while i < n
        invariant
            i <= n,
            n <= buf@.len(),
            start + n <= data.len(),
            start == off,
            buf@.len() == old(buf)@.len(),
            forall|j: int| 0 <= j < i ==> buf@[j] == data@[start + j],
            forall|j: int| n <= j < buf@.len() ==> buf@[j] == old(buf)@[j],
        decreases n - i,
    {
        buf[i] = data[start + i];
        i += 1;
    }
    assert(buf@.subrange(n as int, buf@.len() as int) =~= old(buf)@.subrange(n as int, old(buf)@.len() as int));
    n
}

} // verus!
