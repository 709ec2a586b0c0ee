//! A device tree held as nodes keyed by path, each with the paths of its
//! children, and written out depth first as the calls a blob writer takes.
use vstd::prelude::*;

use crate::fdt::bytes::{bytes_eq, copy_bytes, is_root_path, root_path};
use crate::fdt::node::{FdtNode, FdtNodeView};
use crate::fdt::path::{all_node_paths, levels_valid, node_path, parent_path, parent_path_spec};

verus! {

/// A node of the tree and the paths of its children, in the order they
/// were linked.
pub struct TreeNode {
    pub node: FdtNode,
    pub children: Vec<Vec<u8>>,
}

/// What a tree node holds: the node and its children's paths.
pub open spec fn entry_view(t: TreeNode) -> (FdtNodeView, Seq<Seq<u8>>) {
    (t.node@, t.children@.map_values(|c: Vec<u8>| c@))
}

impl TreeNode {
    /// A node without children.
    pub fn new(node: FdtNode) -> (r: Self)
        ensures
            entry_view(r) == (node@, Seq::<Seq<u8>>::empty()),
    {
        let r = TreeNode { node, children: Vec::new() };
        assert(r.children@.map_values(|c: Vec<u8>| c@) =~= Seq::<Seq<u8>>::empty());
        r
    }
}

/// What the entries of `s` record for `k`: the last entry with key `k`.
pub open spec fn lookup(s: Seq<(Vec<u8>, TreeNode)>, k: Seq<u8>) -> Option<(FdtNodeView, Seq<Seq<u8>>)>
    decreases s.len(),
{
    if s.len() == 0 {
        None
    } else if s.last().0@ == k {
        Some(entry_view(s.last().1))
    } else {
        lookup(s.drop_last(), k)
    }
}

proof fn lemma_lookup_at(s: Seq<(Vec<u8>, TreeNode)>, k: Seq<u8>, j: int)
    requires
        0 <= j < s.len(),
        s[j].0@ == k,
        forall|i: int| j < i < s.len() ==> s[i].0@ != k,
    ensures
        lookup(s, k) == Some(entry_view(s[j].1)),
    decreases s.len(),
{
    if j < s.len() - 1 {
        lemma_lookup_at(s.drop_last(), k, j);
    }
}

proof fn lemma_lookup_none(s: Seq<(Vec<u8>, TreeNode)>, k: Seq<u8>)
    requires
        forall|i: int| 0 <= i < s.len() ==> s[i].0@ != k,
    ensures
        lookup(s, k) is None,
    decreases s.len(),
{
    if s.len() > 0 {
        lemma_lookup_none(s.drop_last(), k);
    }
}

proof fn lemma_lookup_update_other(s: Seq<(Vec<u8>, TreeNode)>, j: int, x: (Vec<u8>, TreeNode), k: Seq<u8>)
    requires
        0 <= j < s.len(),
        x.0@ == s[j].0@,
        k != x.0@,
    ensures
        lookup(s.update(j, x), k) == lookup(s, k),
    decreases s.len(),
{
    if j < s.len() - 1 {
        assert(s.update(j, x).drop_last() =~= s.drop_last().update(j, x));
        lemma_lookup_update_other(s.drop_last(), j, x, k);
    } else {
        assert(s.update(j, x).drop_last() =~= s.drop_last());
    }
}

/// The entries once the first `n` links are recorded: each link whose
/// parent has an entry adds the child's path to that entry's children.
pub open spec fn link_all(
    e: Map<Seq<u8>, (FdtNodeView, Seq<Seq<u8>>)>,
    links: Seq<(Seq<u8>, Seq<u8>)>,
    n: int,
) -> Map<Seq<u8>, (FdtNodeView, Seq<Seq<u8>>)>
    decreases n,
{
    if n <= 0 {
        e
    } else {
        let m = link_all(e, links, n - 1);
        let p = links[n - 1].0;
        if m.contains_key(p) {
            m.insert(p, (m[p].0, m[p].1.push(links[n - 1].1)))
        } else {
            m
        }
    }
}

/// The first link, from index `i` on, whose parent has no entry.
pub open spec fn first_orphan_from(
    e: Map<Seq<u8>, (FdtNodeView, Seq<Seq<u8>>)>,
    links: Seq<(Seq<u8>, Seq<u8>)>,
    i: int,
) -> Option<int>
    decreases links.len() - i,
{
    if i < 0 || i >= links.len() {
        None
    } else if !e.contains_key(links[i].0) {
        Some(i)
    } else {
        first_orphan_from(e, links, i + 1)
    }
}

proof fn lemma_link_all_keys(
    e: Map<Seq<u8>, (FdtNodeView, Seq<Seq<u8>>)>,
    links: Seq<(Seq<u8>, Seq<u8>)>,
    n: int,
)
    ensures
        link_all(e, links, n).dom() == e.dom(),
    decreases n,
{
    if n > 0 {
        lemma_link_all_keys(e, links, n - 1);
        assert(link_all(e, links, n).dom() =~= e.dom());
    }
}

/// One call to a device tree blob writer: open a node with a name, add a
/// property to the open node, or close it.
#[derive(Debug, Clone, PartialEq, Eq)]
pub enum WriteOp {
    BeginNode(Vec<u8>),
    Property(Vec<u8>, Vec<u8>),
    EndNode,
}

/// A writer call, by value.
pub enum WriteStep {
    BeginNode(Seq<u8>),
    Property(Seq<u8>, Seq<u8>),
    EndNode,
}

impl View for WriteOp {
    type V = WriteStep;

    open spec fn view(&self) -> WriteStep {
        match self {
            WriteOp::BeginNode(n) => WriteStep::BeginNode(n@),
            WriteOp::Property(n, v) => WriteStep::Property(n@, v@),
            WriteOp::EndNode => WriteStep::EndNode,
        }
    }
}

/// The calls of a list, by value.
pub open spec fn steps(ops: Seq<WriteOp>) -> Seq<WriteStep> {
    ops.map_values(|o: WriteOp| o@)
}

/// The name a node is written with: none for the root.
pub open spec fn written_name(path: Seq<u8>, n: FdtNodeView) -> Seq<u8> {
    if path == root_path() {
        Seq::empty()
    } else {
        n.name
    }
}

/// The calls that add the properties `props`, in order.
pub open spec fn property_steps(props: Seq<(Seq<u8>, Seq<u8>)>) -> Seq<WriteStep> {
    props.map_values(|p: (Seq<u8>, Seq<u8>)| WriteStep::Property(p.0, p.1))
}

/// The calls that write the node at `path` and, depth first, the nodes
/// under it, with the path at which writing stopped because no node has
/// it. Paths are at most `b` long.
pub open spec fn emit_node(
    e: Map<Seq<u8>, (FdtNodeView, Seq<Seq<u8>>)>,
    path: Seq<u8>,
    b: nat,
) -> (Seq<WriteStep>, Option<Seq<u8>>)
    decreases b - path.len(), if e.contains_key(path) { e[path].1.len() + 1 } else { 0 },
{
    if !e.contains_key(path) || path.len() > b {
        (Seq::empty(), Some(path))
    } else {
        let n = e[path].0;
        let kids = e[path].1;
        let head = seq![WriteStep::BeginNode(written_name(path, n))] + property_steps(n.properties);
        let body = emit_children(e, kids, path.len() as int, b, kids.len() as int);
        match body.1 {
            Some(x) => (head + body.0, Some(x)),
            None => (head + body.0.push(WriteStep::EndNode), None),
        }
    }
}

/// The calls that write the first `n` children `kids` of a node whose
/// path is `plen` long, with the path at which writing stopped.
pub open spec fn emit_children(
    e: Map<Seq<u8>, (FdtNodeView, Seq<Seq<u8>>)>,
    kids: Seq<Seq<u8>>,
    plen: int,
    b: nat,
    n: int,
) -> (Seq<WriteStep>, Option<Seq<u8>>)
    decreases b - plen, n,
{
    if n <= 0 {
        (Seq::empty(), None)
    } else {
        let pre = emit_children(e, kids, plen, b, n - 1);
        if pre.1 is Some {
            pre
        } else {
            let c = kids[n - 1];
            if c.len() <= plen || c.len() > b || !e.contains_key(c) {
                (pre.0, Some(c))
            } else {
                let sub = emit_node(e, c, b);
                (pre.0 + sub.0, sub.1)
            }
        }
    }
}

/// How a writer call changes the number of open nodes.
pub open spec fn step_delta(s: WriteStep) -> int {
    match s {
        WriteStep::BeginNode(_) => 1,
        WriteStep::EndNode => -1,
        WriteStep::Property(_, _) => 0,
    }
}

/// The number of nodes left open by a list of writer calls.
pub open spec fn open_depth(s: Seq<WriteStep>) -> int
    decreases s.len(),
{
    if s.len() == 0 {
        0
    } else {
        open_depth(s.drop_last()) + step_delta(s.last())
    }
}

/// Whether writer calls are well nested: no call closes a node that is
/// not open, every property goes to an open node, and every node opened
/// is closed.
pub open spec fn well_nested(s: Seq<WriteStep>) -> bool {
    &&& open_depth(s) == 0
    &&& forall|n: int| 0 <= n < s.len() ==> open_depth(#[trigger] s.subrange(0, n + 1)) >= 0
    &&& forall|n: int| 0 <= n < s.len() && #[trigger] s[n] is Property ==> open_depth(s.subrange(0, n)) >= 1
}

proof fn lemma_depth_concat(a: Seq<WriteStep>, b: Seq<WriteStep>)
    ensures
        open_depth(a + b) == open_depth(a) + open_depth(b),
    decreases b.len(),
{
    if b.len() > 0 {
        lemma_depth_concat(a, b.drop_last());
        assert((a + b).drop_last() =~= a + b.drop_last());
    }
}

/// Calls that keep the depth at or above `d` and add properties only at a
/// depth of at least one more than `d`, ending where they started.
spec fn nested_from(s: Seq<WriteStep>, d: int) -> bool {
    &&& open_depth(s) == 0
    &&& forall|n: int| 0 <= n < s.len() ==> d + open_depth(#[trigger] s.subrange(0, n + 1)) >= d
    &&& forall|n: int| 0 <= n < s.len() && #[trigger] s[n] is Property ==> d + open_depth(s.subrange(0, n)) >= d + 1
}

proof fn lemma_nested_concat(a: Seq<WriteStep>, b: Seq<WriteStep>)
    requires
        nested_from(a, 0),
        nested_from(b, 0),
    ensures
        nested_from(a + b, 0),
{
    lemma_depth_concat(a, b);
    assert forall|n: int| 0 <= n < (a + b).len() implies open_depth(#[trigger] (a + b).subrange(0, n + 1)) >= 0 by {
        if n < a.len() {
            assert((a + b).subrange(0, n + 1) =~= a.subrange(0, n + 1));
        } else {
            assert((a + b).subrange(0, n + 1) =~= a + b.subrange(0, n - a.len() + 1));
            lemma_depth_concat(a, b.subrange(0, n - a.len() + 1));
        }
    }
    assert forall|n: int| 0 <= n < (a + b).len() && #[trigger] (a + b)[n] is Property implies open_depth(
        (a + b).subrange(0, n),
    ) >= 1 by {
        if n < a.len() {
            assert((a + b).subrange(0, n) =~= a.subrange(0, n));
            assert(a[n] == (a + b)[n]);
        } else {
            assert((a + b).subrange(0, n) =~= a + b.subrange(0, n - a.len()));
            lemma_depth_concat(a, b.subrange(0, n - a.len()));
            assert(b[n - a.len()] == (a + b)[n]);
        }
    }
}

proof fn lemma_nested_wrap(name: Seq<u8>, props: Seq<(Seq<u8>, Seq<u8>)>, body: Seq<WriteStep>)
    requires
        nested_from(body, 0),
    ensures
        nested_from(seq![WriteStep::BeginNode(name)] + property_steps(props) + body.push(WriteStep::EndNode), 0),
{
    let head = seq![WriteStep::BeginNode(name)] + property_steps(props);
    let s = head + body.push(WriteStep::EndNode);
    assert forall|k: int| 0 <= k <= head.len() implies open_depth(#[trigger] head.subrange(0, k)) == if k == 0 {
        0int
    } else {
        1int
    } by {
        lemma_head_depth(name, props, k);
    }
    assert(head.subrange(0, head.len() as int) =~= head);
    lemma_depth_concat(head, body);
    assert(s.drop_last() =~= head + body);
    assert forall|n: int| 0 <= n < s.len() implies open_depth(#[trigger] s.subrange(0, n + 1)) >= 0 by {
        if n < head.len() {
            assert(s.subrange(0, n + 1) =~= head.subrange(0, n + 1));
        } else if n < head.len() + body.len() {
            assert(s.subrange(0, n + 1) =~= head + body.subrange(0, n - head.len() + 1));
            lemma_depth_concat(head, body.subrange(0, n - head.len() + 1));
        } else {
            assert(s.subrange(0, n + 1) =~= s);
        }
    }
    assert forall|n: int| 0 <= n < s.len() && #[trigger] s[n] is Property implies open_depth(s.subrange(0, n)) >= 1 by {
        if n < head.len() {
            assert(s.subrange(0, n) =~= head.subrange(0, n));
            assert(n > 0) by {
                assert(s[0] == WriteStep::BeginNode(name));
            }
        } else if n < head.len() + body.len() {
            assert(s.subrange(0, n) =~= head + body.subrange(0, n - head.len()));
            lemma_depth_concat(head, body.subrange(0, n - head.len()));
            assert(body[n - head.len()] == s[n]);
        } else {
            assert(s[n] == WriteStep::EndNode);
        }
    }
}

proof fn lemma_head_depth(name: Seq<u8>, props: Seq<(Seq<u8>, Seq<u8>)>, k: int)
    requires
        0 <= k <= 1 + props.len(),
    ensures
        open_depth((seq![WriteStep::BeginNode(name)] + property_steps(props)).subrange(0, k)) == if k == 0 {
            0int
        } else {
            1int
        },
    decreases k,
{
    let head = seq![WriteStep::BeginNode(name)] + property_steps(props);
    if k == 0 {
        assert(head.subrange(0, 0) =~= Seq::<WriteStep>::empty());
        assert(open_depth(head.subrange(0, 0)) == 0);
    } else if k == 1 {
        assert(head.subrange(0, 1).drop_last() =~= Seq::<WriteStep>::empty());
        assert(open_depth(Seq::<WriteStep>::empty()) == 0);
        assert(head[0] == WriteStep::BeginNode(name));
        assert(head.subrange(0, 1).last() == head[0]);
        assert(open_depth(head.subrange(0, 1)) == 1);
    } else {
        lemma_head_depth(name, props, k - 1);
        assert(head.subrange(0, k).drop_last() =~= head.subrange(0, k - 1));
        assert(head.subrange(0, k).last() == head[k - 1]);
        assert(head[k - 1] == property_steps(props)[k - 2]);
        assert(step_delta(head[k - 1]) == 0);
        assert(open_depth(head.subrange(0, k)) == 1);
    }
}

proof fn lemma_emit_node_nested(e: Map<Seq<u8>, (FdtNodeView, Seq<Seq<u8>>)>, path: Seq<u8>, b: nat)
    ensures
        emit_node(e, path, b).1 is None ==> nested_from(emit_node(e, path, b).0, 0),
    decreases b - path.len(), if e.contains_key(path) { e[path].1.len() + 1 } else { 0 },
{
    if e.contains_key(path) && path.len() <= b {
        let kids = e[path].1;
        lemma_emit_children_nested(e, kids, path.len() as int, b, kids.len() as int);
        let body = emit_children(e, kids, path.len() as int, b, kids.len() as int);
        if body.1 is None {
            lemma_nested_wrap(written_name(path, e[path].0), e[path].0.properties, body.0);
        }
    }
}

proof fn lemma_emit_children_nested(
    e: Map<Seq<u8>, (FdtNodeView, Seq<Seq<u8>>)>,
    kids: Seq<Seq<u8>>,
    plen: int,
    b: nat,
    n: int,
)
    ensures
        emit_children(e, kids, plen, b, n).1 is None ==> nested_from(emit_children(e, kids, plen, b, n).0, 0),
    decreases b - plen, n,
{
    if n <= 0 {
        assert(nested_from(Seq::<WriteStep>::empty(), 0));
    } else {
        lemma_emit_children_nested(e, kids, plen, b, n - 1);
        let pre = emit_children(e, kids, plen, b, n - 1);
        let c = kids[n - 1];
        if pre.1 is None && !(c.len() <= plen || c.len() > b || !e.contains_key(c)) {
            lemma_emit_node_nested(e, c, b);
            if emit_node(e, c, b).1 is None {
                lemma_nested_concat(pre.0, emit_node(e, c, b).0);
            }
        }
    }
}

/// Writing a tree that holds every node it reaches makes well-nested
/// writer calls: each node opened is closed after its properties and the
/// nodes under it, and no property goes to a closed node.
pub proof fn lemma_write_well_nested(e: Map<Seq<u8>, (FdtNodeView, Seq<Seq<u8>>)>, path: Seq<u8>, b: nat)
    requires
        emit_node(e, path, b).1 is None,
    ensures
        well_nested(emit_node(e, path, b).0),
{
    lemma_emit_node_nested(e, path, b);
}

proof fn lemma_children_stop(
    e: Map<Seq<u8>, (FdtNodeView, Seq<Seq<u8>>)>,
    kids: Seq<Seq<u8>>,
    plen: int,
    b: nat,
    m: int,
    n: int,
)
    requires
        0 <= m <= n,
        emit_children(e, kids, plen, b, m).1 is Some,
    ensures
        emit_children(e, kids, plen, b, n) == emit_children(e, kids, plen, b, m),
    decreases n - m,
{
    if n > m {
        lemma_children_stop(e, kids, plen, b, m, n - 1);
    }
}

/// Why a tree could not be completed or written.
#[derive(Debug, Clone, PartialEq, Eq)]
pub enum TreeError {
    /// A node was linked to a parent path that has no node: the parent's
    /// path, then the child's.
    ParentMissing(Vec<u8>, Vec<u8>),
    /// No node has this path.
    NotFound(Vec<u8>),
}

/// Nodes keyed by path, and the links from parents to children that are
/// still to be recorded.
pub struct Tree {
    nodes: Vec<(Vec<u8>, TreeNode)>,
    pending_links: Vec<(Vec<u8>, Vec<u8>)>,
    bound: Ghost<nat>,
}

impl Tree {
    /// The node and children's paths recorded for each path.
    pub closed spec fn entries(&self) -> Map<Seq<u8>, (FdtNodeView, Seq<Seq<u8>>)> {
        Map::new(|k: Seq<u8>| lookup(self.nodes@, k) is Some, |k: Seq<u8>| lookup(self.nodes@, k)->Some_0)
    }

    /// The links still to be recorded, as (parent path, child path), in
    /// the order they were made.
    pub closed spec fn links(&self) -> Seq<(Seq<u8>, Seq<u8>)> {
        self.pending_links@.map_values(|l: (Vec<u8>, Vec<u8>)| (l.0@, l.1@))
    }

    /// A length that no path of the tree exceeds.
    pub closed spec fn bound(&self) -> nat {
        self.bound@
    }

    /// Every path is at most `bound` long, every child path is longer
    /// than its parent's and every pending link goes from a shorter path
    /// to a longer one.
    pub open spec fn wf(&self) -> bool {
        &&& forall|k: Seq<u8>| #[trigger] self.entries().contains_key(k) ==> k.len() <= self.bound()
        &&& forall|k: Seq<u8>, i: int|
            self.entries().contains_key(k) && 0 <= i < self.entries()[k].1.len() ==> k.len()
                < (#[trigger] self.entries()[k].1[i]).len()
        &&& forall|i: int| 0 <= i < self.links().len() ==> (#[trigger] self.links()[i]).0.len() < self.links()[i].1.len()
    }

    /// An empty tree.
    pub fn new() -> (r: Self)
        ensures
            r.wf(),
            r.bound() == 0,
            r.entries() == Map::<Seq<u8>, (FdtNodeView, Seq<Seq<u8>>)>::empty(),
            r.links() == Seq::<(Seq<u8>, Seq<u8>)>::empty(),
    {
        let r = Tree { nodes: Vec::new(), pending_links: Vec::new(), bound: Ghost(0) };
        assert(r.entries() =~= Map::<Seq<u8>, (FdtNodeView, Seq<Seq<u8>>)>::empty());
        assert(r.links() =~= Seq::<(Seq<u8>, Seq<u8>)>::empty());
        r
    }

    /// The index of the entry for `path`, the last one when there are
    /// several.
    fn find(&self, path: &[u8]) -> (r: Option<usize>)
        ensures
            match r {
                Some(j) => j < self.nodes@.len() && self.nodes@[j as int].0@ == path@ && lookup(
                    self.nodes@,
                    path@,
                ) == Some(entry_view(self.nodes@[j as int].1)) && forall|i: int|
                    j < i < self.nodes@.len() ==> self.nodes@[i].0@ != path@,
                None => lookup(self.nodes@, path@) is None,
            },
    {
        let mut i: usize = self.nodes.len();
        while i > 0
            invariant
                i <= self.nodes@.len(),
                forall|m: int| i <= m < self.nodes@.len() ==> self.nodes@[m].0@ != path@,
            decreases i,
        {
            if bytes_eq(self.nodes[i - 1].0.as_slice(), path) {
                proof {
                    lemma_lookup_at(self.nodes@, path@, i - 1);
                }
                return Some(i - 1);
            }
            i = i - 1;
        }
        proof {
            lemma_lookup_none(self.nodes@, path@);
        }
        None
    }

    /// Records `node` at `path`, keeping the children already recorded
    /// there, and, when the path has a parent, a link from the parent to
    /// it.
    pub fn insert(&mut self, path: &[u8], node: FdtNode) -> (r: Result<(), TreeError>)
        requires
            old(self).wf(),
        ensures
            r is Ok,
            final(self).wf(),
            final(self).bound() == if path@.len() > old(self).bound() {
                path@.len()
            } else {
                old(self).bound()
            },
            final(self).entries() == old(self).entries().insert(
                path@,
                (
                    node@,
                    if old(self).entries().contains_key(path@) {
                        old(self).entries()[path@].1
                    } else {
                        Seq::empty()
                    },
                ),
            ),
            final(self).links() == match parent_path_spec(path@) {
                Some(p) => old(self).links().push((p, path@)),
                None => old(self).links(),
            },
    {
        let ghost old_nodes = self.nodes@;
        let ghost old_entries = self.entries();
        let ghost old_links = self.links();
        let ghost node_view = node@;
        match self.find(path) {
            Some(j) => {
                let children = copy_children(&self.nodes[j].1.children);
                let key = copy_bytes(self.nodes[j].0.as_slice());
                let entry = (key, TreeNode { node, children });
                proof {
                    assert forall|k: Seq<u8>| k != path@ implies lookup(old_nodes.update(j as int, entry), k)
                        == lookup(old_nodes, k) by {
                        lemma_lookup_update_other(old_nodes, j as int, entry, k);
                    }
                    assert(old_nodes.update(j as int, entry)[j as int] == entry);
                    lemma_lookup_at(old_nodes.update(j as int, entry), path@, j as int);
                }
                self.nodes.set(j, entry);
            },
            None => {
                let key = copy_bytes(path);
                let entry = (key, TreeNode::new(node));
                self.nodes.push(entry);
                proof {
                    assert(self.nodes@.drop_last() =~= old_nodes);
                    self.bound = Ghost(if path@.len() > self.bound@ { path@.len() } else { self.bound@ });
                }
            },
        }
        assert(self.entries() =~= old_entries.insert(
            path@,
            (node_view, if old_entries.contains_key(path@) { old_entries[path@].1 } else { Seq::empty() }),
        ));
        match parent_path(path) {
            Some(parent) => {
                proof {
                    lemma_parent_shorter(path@);
                }
                let child = copy_bytes(path);
                self.pending_links.push((parent, child));
                assert(self.links() =~= old_links.push((parent@, path@)));
            },
            None => {},
        }
        Ok(())
    }

    /// Records the pending links in order, adding each child's path to
    /// its parent's children; refused at the first link whose parent has
    /// no node, the links before it recorded. No link is left pending.
    pub fn finalize(&mut self) -> (r: Result<(), TreeError>)
        requires
            old(self).wf(),
        ensures
            final(self).wf(),
            final(self).bound() == old(self).bound(),
            final(self).links() == Seq::<(Seq<u8>, Seq<u8>)>::empty(),
            first_orphan_from(old(self).entries(), old(self).links(), 0) is None ==> r is Ok
                && final(self).entries() == link_all(
                old(self).entries(),
                old(self).links(),
                old(self).links().len() as int,
            ),
            first_orphan_from(old(self).entries(), old(self).links(), 0) matches Some(k) ==> (r matches Err(
                TreeError::ParentMissing(p, c),
            ) && p@ == old(self).links()[k].0 && c@ == old(self).links()[k].1),
            first_orphan_from(old(self).entries(), old(self).links(), 0) matches Some(k) ==> final(self).entries()
                == link_all(old(self).entries(), old(self).links(), k),
    {
        let ghost e0 = self.entries();
        let ghost l0 = self.links();
        let mut links: Vec<(Vec<u8>, Vec<u8>)> = Vec::new();
        core::mem::swap(&mut links, &mut self.pending_links);
        assert(self.links() =~= Seq::<(Seq<u8>, Seq<u8>)>::empty());
        assert(links@.map_values(|l: (Vec<u8>, Vec<u8>)| (l.0@, l.1@)) == l0);
        let mut i: usize = 0;
        while i < links.len()
            invariant
                i <= links@.len(),
                e0 == old(self).entries(),
                l0 == old(self).links(),
                self.bound() == old(self).bound(),
                links@.map_values(|l: (Vec<u8>, Vec<u8>)| (l.0@, l.1@)) == l0,
                self.pending_links@.len() == 0,
                self.wf(),
                self.entries() == link_all(e0, l0, i as int),
                self.entries().dom() == e0.dom(),
                first_orphan_from(e0, l0, 0) == first_orphan_from(e0, l0, i as int),
                forall|m: int| 0 <= m < l0.len() ==> (#[trigger] l0[m]).0.len() < l0[m].1.len(),
            decreases links@.len() - i,
        {
            assert(l0[i as int] == (links@[i as int].0@, links@[i as int].1@));
            match self.find(links[i].0.as_slice()) {
                None => {
                    assert(!self.entries().contains_key(l0[i as int].0));
                    assert(!e0.contains_key(l0[i as int].0));
                    assert(first_orphan_from(e0, l0, i as int) == Some(i as int));
                    assert(self.links() =~= Seq::<(Seq<u8>, Seq<u8>)>::empty());
                    let p = copy_bytes(links[i].0.as_slice());
                    let c = copy_bytes(links[i].1.as_slice());
                    assert(p@ == l0[i as int].0 && c@ == l0[i as int].1);
                    let r = Err(TreeError::ParentMissing(p, c));
                    return r;
                },
                Some(j) => {
                    let ghost s0 = self.nodes@;
                    let ghost before = self.entries();
                    let c = copy_bytes(links[i].1.as_slice());
                    let ghost kids = self.nodes@[j as int].1.children@;
                    self.nodes[j].1.children.push(c);
                    proof {
                        let key = l0[i as int].0;
                        let x = self.nodes@[j as int];
                        assert(self.nodes@ == s0.update(j as int, x));
                        assert(x.0@ == key);
                        assert(x.1.children@ == kids.push(c));
                        assert(x.1.children@.map_values(|v: Vec<u8>| v@) =~= kids.map_values(|v: Vec<u8>| v@).push(
                            l0[i as int].1,
                        ));
                        assert forall|k: Seq<u8>| k != key implies lookup(self.nodes@, k) == lookup(s0, k) by {
                            lemma_lookup_update_other(s0, j as int, x, k);
                        }
                        lemma_lookup_at(self.nodes@, key, j as int);
                        assert(self.entries() =~= before.insert(key, (before[key].0, before[key].1.push(l0[i as int].1))));
                        lemma_link_all_keys(e0, l0, i + 1);
                    }
                    i = i + 1;
                },
            }
        }
        Ok(())
    }

    /// Writes the node at `path` and, depth first, the nodes under it:
    /// the node is opened (the root with no name), its properties added,
    /// its children written in order and the node closed. Refused at the
    /// first path that has no node, what came before it written.
    pub fn write_node(&self, writer: &mut Vec<WriteOp>, path: &[u8]) -> (r: Result<(), TreeError>)
        requires
            self.wf(),
        ensures
            steps(final(writer)@) == steps(old(writer)@) + emit_node(self.entries(), path@, self.bound()).0,
            emit_node(self.entries(), path@, self.bound()).1 is None ==> r is Ok,
            emit_node(self.entries(), path@, self.bound()).1 matches Some(x) ==> (r matches Err(
                TreeError::NotFound(p),
            ) && p@ == x),
        decreases self.bound() - path@.len(),
    {
        let ghost e = self.entries();
        let ghost b = self.bound();
        let ghost w0 = steps(writer@);
        let j = match self.find(path) {
            None => {
                assert(steps(writer@) =~= w0 + emit_node(e, path@, b).0);
                return Err(TreeError::NotFound(copy_bytes(path)));
            },
            Some(j) => j,
        };
        let entry = &self.nodes[j].1;
        let ghost n = entry.node@;
        let ghost kids = entry.children@.map_values(|c: Vec<u8>| c@);
        assert(e.contains_key(path@) && e[path@] == (n, kids));
        let name = if is_root_path(path) {
            Vec::new()
        } else {
            copy_bytes(entry.node.name.as_slice())
        };
        writer.push(WriteOp::BeginNode(name));
        assert(steps(writer@) =~= w0 + seq![WriteStep::BeginNode(written_name(path@, n))]);
        let mut i: usize = 0;
        while i < entry.node.properties.len()
            invariant
                i <= n.properties.len(),
                n == entry.node@,
                steps(writer@) == w0 + seq![WriteStep::BeginNode(written_name(path@, n))] + property_steps(
                    n.properties,
                ).subrange(0, i as int),
            decreases n.properties.len() - i,
        {
            let prop = &entry.node.properties[i];
            let ghost before = steps(writer@);
            writer.push(WriteOp::Property(copy_bytes(prop.name.as_slice()), copy_bytes(prop.value.as_slice())));
            assert(steps(writer@) =~= before.push(WriteStep::Property(prop.name@, prop.value@)));
            i = i + 1;
            assert(property_steps(n.properties).subrange(0, i as int) =~= property_steps(n.properties).subrange(
                0,
                i - 1,
            ).push(WriteStep::Property(prop.name@, prop.value@)));
        }
        let ghost head = seq![WriteStep::BeginNode(written_name(path@, n))] + property_steps(n.properties);
        assert(property_steps(n.properties).subrange(0, i as int) =~= property_steps(n.properties));
        assert(steps(writer@) =~= w0 + head);
        let mut k: usize = 0;
        while k < entry.children.len()
            invariant
                self.wf(),
                e == self.entries(),
                b == self.bound(),
                e.contains_key(path@),
                e[path@] == (n, kids),
                w0 == steps(old(writer)@),
                head == seq![WriteStep::BeginNode(written_name(path@, n))] + property_steps(n.properties),
                path@.len() <= b,
                kids == entry.children@.map_values(|c: Vec<u8>| c@),
                k <= kids.len(),
                emit_children(e, kids, path@.len() as int, b, k as int).1 is None,
                steps(writer@) == w0 + head + emit_children(e, kids, path@.len() as int, b, k as int).0,
            decreases kids.len() - k,
        {
            let child = entry.children[k].as_slice();
            assert(child@ == kids[k as int]);
            let ghost pre = emit_children(e, kids, path@.len() as int, b, k as int);
            if self.find(child).is_none() {
                proof {
                    assert(!e.contains_key(child@));
                    assert(emit_children(e, kids, path@.len() as int, b, k + 1) == (pre.0, Some(child@)));
                    lemma_children_stop(e, kids, path@.len() as int, b, k + 1, kids.len() as int);
                    assert(emit_node(e, path@, b) == (head + pre.0, Some(child@)));
                    assert(steps(writer@) =~= w0 + (head + pre.0));
                }
                return Err(TreeError::NotFound(copy_bytes(child)));
            }
            assert(e.contains_key(child@));
            assert(path@.len() < child@.len());
            let ghost before = steps(writer@);
            let res = self.write_node(writer, child);
            let ghost sub = emit_node(e, child@, b);
            assert(emit_children(e, kids, path@.len() as int, b, k + 1) == (pre.0 + sub.0, sub.1));
            match res {
                Err(err) => {
                    proof {
                        lemma_children_stop(e, kids, path@.len() as int, b, k + 1, kids.len() as int);
                        assert(emit_node(e, path@, b) == (head + (pre.0 + sub.0), sub.1));
                        assert(steps(writer@) =~= w0 + (head + (pre.0 + sub.0)));
                    }
                    return Err(err);
                },
                Ok(()) => {},
            }
            assert(steps(writer@) =~= w0 + head + (pre.0 + sub.0));
            k = k + 1;
        }
        let ghost body = emit_children(e, kids, path@.len() as int, b, kids.len() as int);
        let ghost before = steps(writer@);
        writer.push(WriteOp::EndNode);
        proof {
            assert(steps(writer@) =~= before.push(WriteStep::EndNode));
            assert(emit_node(e, path@, b) == (head + body.0.push(WriteStep::EndNode), Option::<Seq<u8>>::None));
            assert(steps(writer@) =~= w0 + (head + body.0.push(WriteStep::EndNode)));
        }
        Ok(())
    }

    /// Writes the whole tree, from the root.
    pub fn write(&self, writer: &mut Vec<WriteOp>) -> (r: Result<(), TreeError>)
        requires
            self.wf(),
        ensures
            steps(final(writer)@) == steps(old(writer)@) + emit_node(self.entries(), root_path(), self.bound()).0,
            emit_node(self.entries(), root_path(), self.bound()).1 is None ==> r is Ok,
            emit_node(self.entries(), root_path(), self.bound()).1 matches Some(x) ==> (r matches Err(
                TreeError::NotFound(p),
            ) && p@ == x),
    {
        let root = crate::fdt::bytes::root_path_vec();
        self.write_node(writer, root.as_slice())
    }
}

/// The entries, pending links and path bound of a tree into which the
/// first `n` nodes of a walk were inserted, each at its path.
pub open spec fn built(nodes: Seq<FdtNode>, n: int) -> (
    Map<Seq<u8>, (FdtNodeView, Seq<Seq<u8>>)>,
    Seq<(Seq<u8>, Seq<u8>)>,
    nat,
)
    decreases n,
{
    if n <= 0 {
        (Map::empty(), Seq::empty(), 0)
    } else {
        let t = built(nodes, n - 1);
        let p = node_path(nodes, n - 1);
        (
            t.0.insert(p, (nodes[n - 1]@, if t.0.contains_key(p) { t.0[p].1 } else { Seq::empty() })),
            match parent_path_spec(p) {
                Some(q) => t.1.push((q, p)),
                None => t.1,
            },
            if p.len() > t.2 { p.len() } else { t.2 },
        )
    }
}

/// The writer calls that rebuild a device tree from the walk of its
/// nodes: every node is recorded at its path, every node linked to its
/// parent, and the tree written from the root. Refused at the first node
/// whose parent path has no node, or when no node is the root.
pub fn generate(all_nodes: &[FdtNode]) -> (r: Result<Vec<WriteOp>, TreeError>)
    requires
        levels_valid(all_nodes@, all_nodes@.len() as int),
    ensures
        ({
            let t = built(all_nodes@, all_nodes@.len() as int);
            let em = emit_node(link_all(t.0, t.1, t.1.len() as int), root_path(), t.2);
            match first_orphan_from(t.0, t.1, 0) {
                Some(k) => r matches Err(TreeError::ParentMissing(p, c)) && p@ == t.1[k].0 && c@ == t.1[k].1,
                None => match em.1 {
                    None => r matches Ok(ops) && steps(ops@) == em.0,
                    Some(x) => r matches Err(TreeError::NotFound(p)) && p@ == x,
                },
            }
        }),
{
    let paths = all_node_paths(all_nodes);
    let mut tree = Tree::new();
    let mut i: usize = 0;
    while i < all_nodes.len()
        invariant
            i <= all_nodes@.len(),
            paths@.len() == all_nodes@.len(),
            forall|m: int| 0 <= m < paths@.len() ==> (#[trigger] paths@[m])@ == node_path(all_nodes@, m),
            tree.wf(),
            tree.entries() == built(all_nodes@, i as int).0,
            tree.links() == built(all_nodes@, i as int).1,
            tree.bound() == built(all_nodes@, i as int).2,
        decreases all_nodes@.len() - i,
    {
        let node = all_nodes[i].copy();
        let _ = tree.insert(paths[i].as_slice(), node);
        i = i + 1;
    }
    tree.finalize()?;
    let mut ops: Vec<WriteOp> = Vec::new();
    tree.write(&mut ops)?;
    assert(steps(ops@) =~= Seq::<WriteStep>::empty() + steps(ops@));
    Ok(ops)
}

/// `k` calls that close a node.
pub open spec fn end_steps(k: int) -> Seq<WriteStep> {
    Seq::new(if k < 0 { 0 } else { k as nat }, |i: int| WriteStep::EndNode)
}

/// The level of the node before the `i`-th of a walk: none before the
/// first.
pub open spec fn level_before(nodes: Seq<FdtNode>, i: int) -> int {
    if i <= 0 {
        0
    } else {
        nodes[i - 1].level as int
    }
}

/// The calls that open the node `n`, the root with no name, and add its
/// properties.
pub open spec fn open_steps(n: FdtNode) -> Seq<WriteStep> {
    seq![WriteStep::BeginNode(if n.level == 1 { Seq::<u8>::empty() } else { n.name@ })] + property_steps(
        n@.properties,
    )
}

/// The writer calls for the first `n` nodes of a walk: before each node,
/// the nodes open at its level or deeper are closed.
pub open spec fn walk_steps(nodes: Seq<FdtNode>, n: int) -> Seq<WriteStep>
    decreases n,
{
    if n <= 0 {
        Seq::empty()
    } else {
        walk_steps(nodes, n - 1) + end_steps(level_before(nodes, n - 1) - nodes[n - 1].level + 1) + open_steps(
            nodes[n - 1],
        )
    }
}

/// The writer calls that write a walk: each node in turn, then every node
/// still open closed.
pub open spec fn walk_all_steps(nodes: Seq<FdtNode>) -> Seq<WriteStep> {
    walk_steps(nodes, nodes.len() as int) + end_steps(level_before(nodes, nodes.len() as int))
}

/// Adds `k` calls that close a node.
fn push_ends(out: &mut Vec<WriteOp>, k: usize)
    ensures
        steps(final(out)@) == steps(old(out)@) + end_steps(k as int),
{
    let ghost start = steps(out@);
    let mut j: usize = 0;
    while j < k
        invariant
            j <= k,
            steps(out@) == start + end_steps(j as int),
        decreases k - j,
    {
        let ghost pre = steps(out@);
        out.push(WriteOp::EndNode);
        assert(steps(out@) =~= pre.push(WriteStep::EndNode));
        assert(end_steps(j + 1) =~= end_steps(j as int).push(WriteStep::EndNode));
        j = j + 1;
        assert(steps(out@) =~= start + end_steps(j as int));
    }
}

/// Closes `closes` nodes, then opens `node` and adds its properties.
fn push_node(out: &mut Vec<WriteOp>, node: &FdtNode, closes: usize)
    ensures
        steps(final(out)@) == steps(old(out)@) + end_steps(closes as int) + open_steps(*node),
{
    push_ends(out, closes);
    let ghost before = steps(out@);
    let name = if node.level == 1 {
        Vec::new()
    } else {
        copy_bytes(node.name.as_slice())
    };
    out.push(WriteOp::BeginNode(name));
    let ghost head = seq![WriteStep::BeginNode(if node.level == 1 { Seq::<u8>::empty() } else { node.name@ })];
    assert(steps(out@) =~= before + head);
    let ghost n = node@;
    let mut k: usize = 0;
    while k < node.properties.len()
        invariant
            k <= n.properties.len(),
            n == node@,
            steps(out@) == before + head + property_steps(n.properties).subrange(0, k as int),
        decreases n.properties.len() - k,
    {
        let prop = &node.properties[k];
        let ghost pre = steps(out@);
        out.push(WriteOp::Property(copy_bytes(prop.name.as_slice()), copy_bytes(prop.value.as_slice())));
        assert(steps(out@) =~= pre.push(WriteStep::Property(prop.name@, prop.value@)));
        k = k + 1;
        assert(property_steps(n.properties).subrange(0, k as int) =~= property_steps(n.properties).subrange(
            0,
            k - 1,
        ).push(WriteStep::Property(prop.name@, prop.value@)));
    }
    assert(property_steps(n.properties).subrange(0, k as int) =~= property_steps(n.properties));
    assert(steps(out@) =~= before + open_steps(*node));
}

/// The writer calls that write the walk `nodes`, which must nest: before
/// each node the nodes open at its level or deeper are closed, then it is
/// opened (the root with no name) and its properties added; at the end
/// every node still open is closed.
#[verifier::rlimit(60)]
pub fn walk_write_ops(nodes: &[FdtNode]) -> (r: Vec<WriteOp>)
    requires
        crate::fdt::node::walk_nests(nodes@),
    ensures
        steps(r@) == walk_all_steps(nodes@),
{
    let mut out: Vec<WriteOp> = Vec::new();
    let mut prev: usize = 0;
    let mut i: usize = 0;
    while i < nodes.len()
        invariant
            i <= nodes@.len(),
            crate::fdt::node::walk_nests(nodes@),
            prev == level_before(nodes@, i as int),
            steps(out@) == walk_steps(nodes@, i as int),
        decreases nodes@.len() - i,
    {
        let node = &nodes[i];
        assert(1 <= nodes@[i as int].level);
        if i > 0 {
            assert(nodes@[i as int].level <= nodes@[i - 1].level + 1);
        }
        let ghost before = steps(out@);
        push_node(&mut out, node, prev - (node.level - 1));
        prev = node.level;
        i = i + 1;
        assert(steps(out@) =~= walk_steps(nodes@, i as int));
    }
    let ghost body = steps(out@);
    assert(body == walk_steps(nodes@, nodes@.len() as int));
    push_ends(&mut out, prev);
    assert(steps(out@) == body + end_steps(level_before(nodes@, nodes@.len() as int)));
    out
}

/// A copy of a list of paths.
fn copy_children(c: &Vec<Vec<u8>>) -> (r: Vec<Vec<u8>>)
    ensures
        r@.map_values(|x: Vec<u8>| x@) == c@.map_values(|x: Vec<u8>| x@),
{
    let mut out: Vec<Vec<u8>> = Vec::new();
    let mut i: usize = 0;
    while i < c.len()
        invariant
            i <= c@.len(),
            out@.map_values(|x: Vec<u8>| x@) == c@.map_values(|x: Vec<u8>| x@).subrange(0, i as int),
        decreases c@.len() - i,
    {
        let ghost before = out@.map_values(|x: Vec<u8>| x@);
        out.push(copy_bytes(c[i].as_slice()));
        assert(out@.map_values(|x: Vec<u8>| x@) =~= before.push(c@[i as int]@));
        i = i + 1;
        assert(c@.map_values(|x: Vec<u8>| x@).subrange(0, i as int) =~= before.push(c@[i - 1]@));
    }
    assert(c@.map_values(|x: Vec<u8>| x@).subrange(0, i as int) =~= c@.map_values(|x: Vec<u8>| x@));
    out
}

/// A parent's path is shorter than its child's.
proof fn lemma_parent_shorter(path: Seq<u8>)
    ensures
        parent_path_spec(path) matches Some(p) ==> p.len() < path.len(),
{
    if path != root_path() {
        lemma_last_slash_in(path);
        if path.len() == 1 && path[0] == 47u8 {
            assert(path =~= root_path());
        }
    }
}

proof fn lemma_last_slash_in(s: Seq<u8>)
    ensures
        crate::fdt::path::last_slash(s) matches Some(i) ==> 0 <= i < s.len() && s[i] == 47u8,
    decreases s.len(),
{
    if s.len() > 0 {
        lemma_last_slash_in(s.drop_last());
        if crate::fdt::path::last_slash(s) != crate::fdt::path::last_slash(s.drop_last()) {
            assert(s.last() == 47u8);
        } else {
            match crate::fdt::path::last_slash(s) {
                Some(i) => {
                    assert(s.drop_last()[i] == s[i]);
                },
                None => {},
            }
        }
    }
}

} // verus!
