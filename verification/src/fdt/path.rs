//! Node paths in a device tree, and how each node relates to the devices
//! passed through to a guest.
use vstd::prelude::*;

use crate::fdt::bytes::{
    ascii_bytes, bytes_eq, copy_bytes, count_byte, count_slashes, is_prefix, is_root_path, root_path,
    root_path_vec, slash, starts_with, starts_with_str,
};
use crate::fdt::node::FdtNode;
use crate::fdt::sorted::path_seq;

verus! {

/// The stack of names after a node at `level` named `name` is met, given
/// the stack before it: a node at level 1 starts a new stack (empty for
/// the root `/`); a deeper node drops the names at its level and below and
/// is pushed.
pub open spec fn stack_step(stack: Seq<Seq<u8>>, level: usize, name: Seq<u8>) -> Seq<Seq<u8>> {
    if level == 1 {
        if name == root_path() {
            Seq::empty()
        } else {
            seq![name]
        }
    } else {
        let keep: int = if stack.len() >= level - 1 { level - 2 } else { stack.len() as int };
        stack.subrange(0, keep).push(name)
    }
}

/// The stack of names after the first `n` nodes of a walk.
pub open spec fn stack_after(nodes: Seq<FdtNode>, n: int) -> Seq<Seq<u8>>
    decreases n,
{
    if n <= 0 {
        Seq::empty()
    } else {
        stack_step(stack_after(nodes, n - 1), nodes[n - 1].level, nodes[n - 1].name@)
    }
}

/// The names of `s` joined with `/` between them.
pub open spec fn join_slash(s: Seq<Seq<u8>>) -> Seq<u8>
    decreases s.len(),
{
    if s.len() == 0 {
        Seq::empty()
    } else if s.len() == 1 {
        s[0]
    } else {
        join_slash(s.drop_last()) + seq![slash()] + s.last()
    }
}

/// The path that a stack of names stands for.
pub open spec fn path_of_stack(stack: Seq<Seq<u8>>) -> Seq<u8> {
    if stack.len() == 0 || (stack.len() == 1 && stack[0] == root_path()) {
        root_path()
    } else {
        root_path() + join_slash(stack)
    }
}

/// Whether the first `n` nodes of a walk all have a level of at least 1.
pub open spec fn levels_valid(nodes: Seq<FdtNode>, n: int) -> bool {
    forall|i: int| 0 <= i < n && i < nodes.len() ==> (#[trigger] nodes[i]).level >= 1
}

/// The full path of node `index` of a walk.
pub open spec fn node_path(nodes: Seq<FdtNode>, index: int) -> Seq<u8> {
    let n = if index + 1 <= nodes.len() { index + 1 } else { nodes.len() as int };
    path_of_stack(stack_after(nodes, n))
}

/// The stack after one more node.
fn apply_step(stack: &mut Vec<Vec<u8>>, level: usize, name: &[u8])
    requires
        level >= 1,
    ensures
        final(stack)@.map_values(|v: Vec<u8>| v@) == stack_step(
            old(stack)@.map_values(|v: Vec<u8>| v@),
            level,
            name@,
        ),
{
    let ghost before = stack@.map_values(|v: Vec<u8>| v@);
    if level == 1 {
        stack.clear();
        if !is_root_path(name) {
            stack.push(copy_bytes(name));
        }
        assert(stack@.map_values(|v: Vec<u8>| v@) =~= stack_step(before, level, name@));
    } else {
        while stack.len() >= level - 1
            invariant
                level >= 2,
                before.len() >= stack@.len(),
                stack@.map_values(|v: Vec<u8>| v@) == before.subrange(0, stack@.len() as int),
                before.len() >= level - 1 ==> stack@.len() >= level - 2,
                before.len() < level - 1 ==> stack@.len() == before.len(),
            decreases stack@.len(),
        {
            stack.pop();
            assert(stack@.map_values(|v: Vec<u8>| v@) =~= before.subrange(0, stack@.len() as int));
        }
        stack.push(copy_bytes(name));
        assert(stack@.map_values(|v: Vec<u8>| v@) =~= stack_step(before, level, name@));
    }
}

/// The path that a stack of names stands for.
fn stack_to_path(stack: &Vec<Vec<u8>>) -> (r: Vec<u8>)
    ensures
        r@ == path_of_stack(stack@.map_values(|v: Vec<u8>| v@)),
{
    let ghost st = stack@.map_values(|v: Vec<u8>| v@);
    if stack.len() == 0 || (stack.len() == 1 && is_root_path(&stack[0])) {
        return root_path_vec();
    }
    let mut out = root_path_vec();
    let mut i: usize = 0;
    while i < stack.len()
        invariant
            st == stack@.map_values(|v: Vec<u8>| v@),
            i <= stack@.len(),
            stack@.len() >= 1,
            out@ == root_path() + join_slash(st.subrange(0, i as int)),
        decreases stack@.len() - i,
    {
        if i > 0 {
            out.push(47u8);
        }
        let name = &stack[i];
        let mut j: usize = 0;
        let ghost base = out@;
        while j < name.len()
            invariant
                j <= name@.len(),
                out@ == base + name@.subrange(0, j as int),
            decreases name@.len() - j,
        {
            out.push(name[j]);
            j = j + 1;
            assert(out@ =~= base + name@.subrange(0, j as int));
        }
        proof {
            assert(name@.subrange(0, j as int) =~= name@);
            let pre = st.subrange(0, i + 1);
            assert(pre.drop_last() =~= st.subrange(0, i as int));
            assert(pre.last() == name@);
            if i == 0 {
                assert(pre.len() == 1);
                assert(join_slash(st.subrange(0, 0)) =~= Seq::<u8>::empty());
                assert(out@ =~= root_path() + join_slash(pre));
            } else {
                assert(out@ =~= root_path() + join_slash(pre));
            }
        }
        i = i + 1;
    }
    assert(st.subrange(0, i as int) =~= st);
    out
}

/// The full path of node `target_index` of a walk of the tree, built from
/// the levels of the nodes up to it so that nodes with equal names at
/// different places get different paths.
pub fn build_node_path(all_nodes: &[FdtNode], target_index: usize) -> (r: Vec<u8>)
    requires
        target_index < usize::MAX,
        levels_valid(all_nodes@, target_index + 1),
    ensures
        r@ == node_path(all_nodes@, target_index as int),
{
    let mut stack: Vec<Vec<u8>> = Vec::new();
    let n = if target_index + 1 <= all_nodes.len() { target_index + 1 } else { all_nodes.len() };
    let mut i: usize = 0;
    while i < n
        invariant
            n <= all_nodes@.len(),
            i <= n,
            levels_valid(all_nodes@, n as int),
            stack@.map_values(|v: Vec<u8>| v@) == stack_after(all_nodes@, i as int),
        decreases n - i,
    {
        assert(all_nodes@[i as int].level >= 1);
        apply_step(&mut stack, all_nodes[i].level, &all_nodes[i].name);
        i = i + 1;
    }
    stack_to_path(&stack)
}

/// The full path of every node of a walk, in the walk's order.
pub fn all_node_paths(all_nodes: &[FdtNode]) -> (r: Vec<Vec<u8>>)
    requires
        levels_valid(all_nodes@, all_nodes@.len() as int),
    ensures
        r@.len() == all_nodes@.len(),
        forall|i: int| 0 <= i < r@.len() ==> (#[trigger] r@[i])@ == node_path(all_nodes@, i),
{
    let mut stack: Vec<Vec<u8>> = Vec::new();
    let mut out: Vec<Vec<u8>> = Vec::new();
    let mut i: usize = 0;
    while i < all_nodes.len()
        invariant
            i <= all_nodes@.len(),
            out@.len() == i,
            levels_valid(all_nodes@, all_nodes@.len() as int),
            stack@.map_values(|v: Vec<u8>| v@) == stack_after(all_nodes@, i as int),
            forall|j: int| 0 <= j < i ==> (#[trigger] out@[j])@ == node_path(all_nodes@, j),
        decreases all_nodes@.len() - i,
    {
        assert(all_nodes@[i as int].level >= 1);
        apply_step(&mut stack, all_nodes[i].level, &all_nodes[i].name);
        let p = stack_to_path(&stack);
        out.push(p);
        i = i + 1;
    }
    out
}

} // verus!

verus! {

/// The position of the last `/` in `s`, if any.
pub open spec fn last_slash(s: Seq<u8>) -> Option<int>
    decreases s.len(),
{
    if s.len() == 0 {
        None
    } else if s.last() == slash() {
        Some(s.len() - 1)
    } else {
        last_slash(s.drop_last())
    }
}

/// The path of the parent of the node at `path`: none for the root or for
/// a path without `/`; the root for a node right under it; else the path
/// up to the last `/`.
pub open spec fn parent_path_spec(path: Seq<u8>) -> Option<Seq<u8>> {
    if path == root_path() {
        None
    } else {
        match last_slash(path) {
            None => None,
            Some(idx) => if idx == 0 {
                Some(root_path())
            } else {
                Some(path.subrange(0, idx))
            },
        }
    }
}

/// The path of the parent of the node at `path`.
pub fn parent_path(path: &[u8]) -> (r: Option<Vec<u8>>)
    ensures
        match (r, parent_path_spec(path@)) {
            (None, None) => true,
            (Some(v), Some(p)) => v@ == p,
            _ => false,
        },
{
    if is_root_path(path) {
        return None;
    }
    let mut i: usize = path.len();
    assert(path@.subrange(0, i as int) =~= path@);
    while i > 0
        invariant
            i <= path@.len(),
            path@ != root_path(),
            last_slash(path@) == last_slash(path@.subrange(0, i as int)),
        decreases i,
    {
        if path[i - 1] == 47u8 {
            proof {
                let pre = path@.subrange(0, i as int);
                assert(pre.last() == slash());
                assert(last_slash(pre) == Some(i - 1));
                assert(last_slash(path@) == Some(i - 1));
            }
            if i - 1 == 0 {
                let rv = root_path_vec();
                assert(last_slash(path@) == Some(0int));
                return Some(rv);
            }
            let mut out: Vec<u8> = Vec::new();
            let mut j: usize = 0;
            while j < i - 1
                invariant
                    j <= i - 1,
                    i <= path@.len(),
                    out@ == path@.subrange(0, j as int),
                decreases i - 1 - j,
            {
                out.push(path[j]);
                j = j + 1;
                assert(out@ =~= path@.subrange(0, j as int));
            }
            return Some(out);
        }
        proof {
            assert(path@.subrange(0, i as int).drop_last() =~= path@.subrange(0, i - 1));
        }
        i = i - 1;
    }
    proof {
        assert(path@.subrange(0, 0) =~= Seq::<u8>::empty());
    }
    None
}

/// Whether the node at `node_path` and `node_level` lies under the device
/// at `p`: its path extends `p` past a `/`, and its level is deeper than
/// the device's.
pub open spec fn descends_from(node_path: Seq<u8>, node_level: usize, p: Seq<u8>) -> bool {
    &&& is_prefix(p, node_path)
    &&& node_path.len() > p.len()
    &&& (p == root_path() || node_path[p.len() as int] == slash())
    &&& ((p == root_path() && node_level >= 2) || (p != root_path() && node_level > count_byte(
        p,
        slash(),
    )))
}

/// Whether the node at `node_path` lies above the device at `p`.
pub open spec fn ascends_to(node_path: Seq<u8>, p: Seq<u8>) -> bool {
    &&& is_prefix(node_path, p)
    &&& p.len() > node_path.len()
    &&& (p[node_path.len() as int] == slash() || node_path == root_path())
}

/// Whether the node lies under one of the passthrough devices.
pub fn is_descendant_of_passthrough_device(
    node_path: &[u8],
    node_level: usize,
    passthrough_device_names: &[Vec<u8>],
) -> (r: bool)
    ensures
        r == exists|i: int|
            0 <= i < passthrough_device_names@.len() && descends_from(
                node_path@,
                node_level,
                #[trigger] passthrough_device_names@[i]@,
            ),
{
    let mut i: usize = 0;
    while i < passthrough_device_names.len()
        invariant
            i <= passthrough_device_names@.len(),
            forall|j: int|
                0 <= j < i ==> !descends_from(
                    node_path@,
                    node_level,
                    #[trigger] passthrough_device_names@[j]@,
                ),
        decreases passthrough_device_names@.len() - i,
    {
        let p = &passthrough_device_names[i];
        if starts_with(node_path, p) && node_path.len() > p.len() {
            let p_is_root = is_root_path(p);
            if p_is_root || node_path[p.len()] == 47u8 {
                let expected_parent_level = count_slashes(p);
                if (p_is_root && node_level >= 2) || (!p_is_root && node_level
                    > expected_parent_level) {
                    assert(descends_from(node_path@, node_level, passthrough_device_names@[i as int]@));
                    return true;
                }
            }
        }
        i = i + 1;
    }
    false
}

/// Whether the node lies above one of the passthrough devices.
pub fn is_ancestor_of_passthrough_device(node_path: &[u8], passthrough_device_names: &[Vec<u8>]) -> (r:
    bool)
    ensures
        r == exists|i: int|
            0 <= i < passthrough_device_names@.len() && ascends_to(
                node_path@,
                #[trigger] passthrough_device_names@[i]@,
            ),
{
    let mut i: usize = 0;
    while i < passthrough_device_names.len()
        invariant
            i <= passthrough_device_names@.len(),
            forall|j: int|
                0 <= j < i ==> !ascends_to(node_path@, #[trigger] passthrough_device_names@[j]@),
        decreases passthrough_device_names@.len() - i,
    {
        let p = &passthrough_device_names[i];
        if starts_with(p, node_path) && p.len() > node_path.len() {
            if p[node_path.len()] == 47u8 || is_root_path(node_path) {
                assert(ascends_to(node_path@, passthrough_device_names@[i as int]@));
                return true;
            }
        }
        i = i + 1;
    }
    false
}

/// What becomes of a node of the host tree in a guest's tree.
#[derive(Clone, Copy, Debug, PartialEq, Eq, Structural)]
pub enum NodeAction {
    /// The node is left out.
    Skip,
    /// The root node.
    RootNode,
    /// A node under `/cpus`, kept if its CPU is the guest's.
    CpuNode,
    /// A device passed through to the guest.
    IncludeAsPassthroughDevice,
    /// A node under a passthrough device.
    IncludeAsChildNode,
    /// A node above a passthrough device.
    IncludeAsAncestorNode,
}

/// What becomes of the node named `name` at `path` and `level`.
pub open spec fn node_action_spec(
    name: Seq<u8>,
    path: Seq<u8>,
    level: usize,
    names: Seq<Seq<u8>>,
) -> NodeAction {
    if name == root_path() {
        NodeAction::RootNode
    } else if is_prefix(ascii_bytes("memory"@), name) {
        NodeAction::Skip
    } else if is_prefix(ascii_bytes("/cpus"@), path) {
        NodeAction::CpuNode
    } else if names.contains(path) {
        NodeAction::IncludeAsPassthroughDevice
    } else if exists|i: int| 0 <= i < names.len() && descends_from(path, level, #[trigger] names[i]) {
        NodeAction::IncludeAsChildNode
    } else if exists|i: int| 0 <= i < names.len() && ascends_to(path, #[trigger] names[i]) {
        NodeAction::IncludeAsAncestorNode
    } else {
        NodeAction::Skip
    }
}

/// Whether `path` is one of `names`.
fn contains_path(names: &[Vec<u8>], path: &[u8]) -> (r: bool)
    ensures
        r == path_seq(names@).contains(path@),
{
    let mut i: usize = 0;
    while i < names.len()
        invariant
            i <= names@.len(),
            forall|j: int| 0 <= j < i ==> (#[trigger] names@[j])@ != path@,
        decreases names@.len() - i,
    {
        if bytes_eq(&names[i], path) {
            assert(path_seq(names@)[i as int] == path@);
            return true;
        }
        i = i + 1;
    }
    proof {
        if path_seq(names@).contains(path@) {
            let k = choose|k: int| 0 <= k < path_seq(names@).len() && path_seq(names@)[k] == path@;
            assert(names@[k]@ == path@);
        }
    }
    false
}

/// What becomes of `node`, at `node_path`, in a guest's tree whose
/// passthrough devices are at `passthrough_device_names`.
pub fn determine_node_action(
    node: &FdtNode,
    node_path: &[u8],
    passthrough_device_names: &[Vec<u8>],
) -> (r: NodeAction)
    ensures
        r == node_action_spec(
            node.name@,
            node_path@,
            node.level,
            path_seq(passthrough_device_names@),
        ),
{
    let ghost names = path_seq(passthrough_device_names@);
    if is_root_path(&node.name) {
        NodeAction::RootNode
    } else if starts_with_str(&node.name, "memory") {
        NodeAction::Skip
    } else if starts_with_str(node_path, "/cpus") {
        NodeAction::CpuNode
    } else if contains_path(passthrough_device_names, node_path) {
        NodeAction::IncludeAsPassthroughDevice
    } else if is_descendant_of_passthrough_device(node_path, node.level, passthrough_device_names) {
        proof {
            let i = choose|i: int|
                0 <= i < passthrough_device_names@.len() && descends_from(
                    node_path@,
                    node.level,
                    #[trigger] passthrough_device_names@[i]@,
                );
            assert(names[i] == passthrough_device_names@[i]@);
        }
        NodeAction::IncludeAsChildNode
    } else if is_ancestor_of_passthrough_device(node_path, passthrough_device_names) {
        proof {
            assert(!exists|i: int|
                0 <= i < names.len() && descends_from(node_path@, node.level, #[trigger] names[i]))
                by {
                if exists|i: int|
                    0 <= i < names.len() && descends_from(node_path@, node.level, #[trigger] names[i]) {
                    let i = choose|i: int|
                        0 <= i < names.len() && descends_from(node_path@, node.level, #[trigger] names[i]);
                    assert(descends_from(node_path@, node.level, passthrough_device_names@[i]@));
                }
            }
            let i = choose|i: int|
                0 <= i < passthrough_device_names@.len() && ascends_to(
                    node_path@,
                    #[trigger] passthrough_device_names@[i]@,
                );
            assert(names[i] == passthrough_device_names@[i]@);
        }
        NodeAction::IncludeAsAncestorNode
    } else {
        proof {
            if exists|i: int|
                0 <= i < names.len() && descends_from(node_path@, node.level, #[trigger] names[i]) {
                let i = choose|i: int|
                    0 <= i < names.len() && descends_from(node_path@, node.level, #[trigger] names[i]);
                assert(descends_from(node_path@, node.level, passthrough_device_names@[i]@));
            }
            if exists|i: int| 0 <= i < names.len() && ascends_to(node_path@, #[trigger] names[i]) {
                let i = choose|i: int| 0 <= i < names.len() && ascends_to(node_path@, #[trigger] names[i]);
                assert(ascends_to(node_path@, passthrough_device_names@[i]@));
            }
        }
        NodeAction::Skip
    }
}

/// The keys of `keys`, in order, that lie strictly under `prefix`.
pub open spec fn keys_under(keys: Seq<Seq<u8>>, prefix: Seq<u8>) -> Seq<Seq<u8>>
    decreases keys.len(),
{
    if keys.len() == 0 {
        Seq::empty()
    } else {
        let rest = keys_under(keys.drop_last(), prefix);
        if is_prefix(prefix, keys.last()) && keys.last().len() > prefix.len() {
            rest.push(keys.last())
        } else {
            rest
        }
    }
}

/// The prefix that the paths under `parent` start with: `/` for the root,
/// else the parent's path and a `/`.
pub open spec fn descendant_prefix(parent: Seq<u8>) -> Seq<u8> {
    if parent == root_path() {
        root_path()
    } else {
        parent.push(slash())
    }
}

/// The paths, in the order of `keys`, of the nodes under the node at
/// `parent_path`: children, grandchildren and so on.
pub fn get_descendant_nodes_by_path(keys: &[Vec<u8>], parent_path: &[u8]) -> (r: Vec<Vec<u8>>)
    ensures
        path_seq(r@) == keys_under(path_seq(keys@), descendant_prefix(parent_path@)),
{
    let search_prefix = if is_root_path(parent_path) {
        root_path_vec()
    } else {
        let mut p = copy_bytes(parent_path);
        p.push(47u8);
        p
    };
    let mut out: Vec<Vec<u8>> = Vec::new();
    let mut i: usize = 0;
    while i < keys.len()
        invariant
            i <= keys@.len(),
            search_prefix@ == descendant_prefix(parent_path@),
            path_seq(out@) == keys_under(path_seq(keys@).subrange(0, i as int), search_prefix@),
        decreases keys@.len() - i,
    {
        proof {
            assert(path_seq(keys@).subrange(0, i + 1).drop_last() =~= path_seq(keys@).subrange(
                0,
                i as int,
            ));
        }
        let k = &keys[i];
        let ghost before = out@;
        if starts_with(k, &search_prefix) && k.len() > search_prefix.len() {
            out.push(copy_bytes(k));
            proof {
                assert(path_seq(out@) =~= path_seq(before).push(k@));
            }
        }
        i = i + 1;
    }
    proof {
        assert(path_seq(keys@).subrange(0, i as int) =~= path_seq(keys@));
    }
    out
}

} // verus!
