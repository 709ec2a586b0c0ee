//! Which devices of the host tree a guest is given: the configured ones,
//! the nodes under them and every node they depend on through phandles,
//! less the excluded ones.
use vstd::prelude::*;

use crate::fdt::bytes::copy_bytes;
use crate::config::AxVMConfig;
use crate::fdt::cache::NodeCache;
use crate::fdt::node::{FdtNode, FdtNodeView, FdtProperty};
use crate::fdt::phandle::{
    parse_phandle_property, paths_of_refs, phandle_property_spec, phandle_refs_spec,
    DevicePropertyClassifier, PhandleMap,
};
use crate::fdt::sorted::{path_seq, sorted_paths, PathSet};

verus! {

/// The contents of a phandle map.
pub type PhandleMapView = Map<u32, (Seq<u8>, Seq<(Seq<u8>, u32)>)>;

/// The paths that one property of a device refers to.
pub open spec fn prop_deps(p: (Seq<u8>, Seq<u8>), map: PhandleMapView) -> Seq<Seq<u8>> {
    if phandle_property_spec(p.0) {
        paths_of_refs(phandle_refs_spec(p.1, p.0, map), map)
    } else {
        Seq::empty()
    }
}

/// The paths that the properties of a device refer to, in order.
pub open spec fn props_deps(props: Seq<(Seq<u8>, Seq<u8>)>, map: PhandleMapView) -> Seq<Seq<u8>>
    decreases props.len(),
{
    if props.len() == 0 {
        Seq::empty()
    } else {
        props_deps(props.drop_last(), map) + prop_deps(props.last(), map)
    }
}

/// The paths that a group of nodes refer to, in order.
pub open spec fn group_deps(nodes: Seq<FdtNodeView>, map: PhandleMapView) -> Seq<Seq<u8>>
    decreases nodes.len(),
{
    if nodes.len() == 0 {
        Seq::empty()
    } else {
        group_deps(nodes.drop_last(), map) + props_deps(nodes.last().properties, map)
    }
}

/// The nodes that a cache holds at `path`.
pub open spec fn cache_group(
    keys: Seq<Seq<u8>>,
    groups: Seq<Seq<FdtNodeView>>,
    path: Seq<u8>,
) -> Seq<FdtNodeView> {
    if keys.contains(path) {
        groups[choose|t: int| 0 <= t < keys.len() && keys[t] == path]
    } else {
        Seq::empty()
    }
}

/// The paths that the device at `path` depends on, in order.
pub open spec fn device_deps(
    keys: Seq<Seq<u8>>,
    groups: Seq<Seq<FdtNodeView>>,
    map: PhandleMapView,
    path: Seq<u8>,
) -> Seq<Seq<u8>> {
    group_deps(cache_group(keys, groups, path), map)
}

/// The paths that the device at `device_node_path` depends on through the
/// phandle properties of its nodes, in order.
pub fn find_device_dependencies(
    device_node_path: &[u8],
    phandle_map: &PhandleMap,
    node_cache: &NodeCache,
) -> (r: Vec<Vec<u8>>)
    requires
        node_cache.wf(),
    ensures
        path_seq(r@) == device_deps(
            node_cache.keys_spec(),
            node_cache.groups_spec(),
            phandle_map@,
            device_node_path@,
        ),
{
    let mut deps: Vec<Vec<u8>> = Vec::new();
    let ghost keys = node_cache.keys_spec();
    let ghost groups = node_cache.groups_spec();
    match node_cache.get(device_node_path) {
        Some(nodes) => {
            proof {
                let t = choose|t: int|
                    0 <= t < keys.len() && keys[t] == device_node_path@ && groups[t] == nodes@.map_values(
                        |x: FdtNode| x@,
                    );
                assert(keys.contains(device_node_path@));
                let c = choose|c: int| 0 <= c < keys.len() && keys[c] == device_node_path@;
                node_cache.lemma_wf();
                if c != t {
                    crate::fdt::sorted::lemma_sorted_distinct(keys, c, t);
                }
            }
            let ghost gv = nodes@.map_values(|x: FdtNode| x@);
            let mut i: usize = 0;
            while i < nodes.len()
                invariant
                    i <= nodes@.len(),
                    gv == nodes@.map_values(|x: FdtNode| x@),
                    path_seq(deps@) == group_deps(gv.subrange(0, i as int), phandle_map@),
                decreases nodes@.len() - i,
            {
                let node = &nodes[i];
                let ghost pv = node.properties@.map_values(|p: FdtProperty| p@);
                let ghost base = path_seq(deps@);
                let mut j: usize = 0;
                while j < node.properties.len()
                    invariant
                        j <= node.properties@.len(),
                        pv == node.properties@.map_values(|p: FdtProperty| p@),
                        path_seq(deps@) == base + props_deps(pv.subrange(0, j as int), phandle_map@),
                    decreases node.properties@.len() - j,
                {
                    let prop = &node.properties[j];
                    let ghost before = path_seq(deps@);
                    proof {
                        assert(pv.subrange(0, j + 1).drop_last() =~= pv.subrange(0, j as int));
                        assert(pv.subrange(0, j + 1).last() == prop@);
                    }
                    if DevicePropertyClassifier::is_phandle_property(&prop.name) {
                        let found = parse_phandle_property(&prop.value, &prop.name, phandle_map);
                        let mut k: usize = 0;
                        while k < found.len()
                            invariant
                                k <= found@.len(),
                                path_seq(deps@) == before + path_seq(found@).subrange(0, k as int),
                            decreases found@.len() - k,
                        {
                            let ghost b2 = path_seq(deps@);
                            deps.push(copy_bytes(&found[k]));
                            assert(path_seq(deps@) =~= b2.push(found@[k as int]@));
                            k = k + 1;
                            assert(path_seq(deps@) =~= before + path_seq(found@).subrange(0, k as int));
                        }
                        proof {
                            assert(path_seq(found@).subrange(0, k as int) =~= path_seq(found@));
                            assert(path_seq(found@) == found@.map_values(|v: Vec<u8>| v@));
                            assert(path_seq(deps@) =~= base + props_deps(pv.subrange(0, j + 1), phandle_map@));
                        }
                    } else {
                        proof {
                            assert(prop_deps(prop@, phandle_map@) =~= Seq::<Seq<u8>>::empty());
                            assert(path_seq(deps@) =~= base + props_deps(pv.subrange(0, j + 1), phandle_map@));
                        }
                    }
                    j = j + 1;
                }
                proof {
                    assert(pv.subrange(0, j as int) =~= pv);
                    assert(gv.subrange(0, i + 1).drop_last() =~= gv.subrange(0, i as int));
                    assert(gv.subrange(0, i + 1).last() == node@);
                    assert(node@.properties == pv);
                    assert(path_seq(deps@) =~= group_deps(gv.subrange(0, i + 1), phandle_map@));
                }
                i = i + 1;
            }
            proof {
                assert(gv.subrange(0, i as int) =~= gv);
            }
            deps
        },
        None => {
            assert(path_seq(deps@) =~= Seq::<Seq<u8>>::empty());
            deps
        },
    }
}

} // verus!

verus! {

/// The paths of `keys` under the node at `d`.
pub open spec fn descendants_of(keys: Seq<Seq<u8>>, d: Seq<u8>) -> Seq<Seq<u8>> {
    crate::fdt::path::keys_under(keys, crate::fdt::path::descendant_prefix(d))
}

/// Whether `x` is one of `names` or lies under one of them.
pub open spec fn at_or_under(keys: Seq<Seq<u8>>, names: Seq<Seq<u8>>, x: Seq<u8>) -> bool {
    names.contains(x) || exists|i: int| 0 <= i < names.len() && #[trigger] descendants_of(
        keys,
        names[i],
    ).contains(x)
}

/// The full paths of the nodes of a walk, in the walk's order.
pub open spec fn tree_paths(nodes: Seq<FdtNode>) -> Seq<Seq<u8>> {
    crate::fdt::cache::walk_paths(nodes)
}

/// The phandle map of a walk.
pub open spec fn tree_map(nodes: Seq<FdtNode>) -> PhandleMapView {
    crate::fdt::phandle::phandle_map_after(nodes, tree_paths(nodes), nodes.len() as int)
}

/// The paths that the device at `y` depends on, in order: those that the
/// phandle properties of the nodes at `y` refer to.
pub open spec fn tree_deps(nodes: Seq<FdtNode>, y: Seq<u8>) -> Seq<Seq<u8>> {
    group_deps(
        crate::fdt::cache::nodes_at(nodes, tree_paths(nodes), y, nodes.len() as int),
        tree_map(nodes),
    )
}

/// Whether `x` is one of `names` or a node of the walk under one of them.
pub open spec fn tree_under(nodes: Seq<FdtNode>, names: Seq<Seq<u8>>, x: Seq<u8>) -> bool {
    at_or_under(tree_paths(nodes), names, x)
}

/// Whether `c` is a chain of phandle dependency: it starts at a configured
/// device or a node under one, and each next entry is a dependency of the
/// one before.
pub open spec fn dep_chain(nodes: Seq<FdtNode>, initial: Seq<Seq<u8>>, c: Seq<Seq<u8>>) -> bool {
    &&& c.len() > 0
    &&& tree_under(nodes, initial, c[0])
    &&& forall|i: int| 0 <= i < c.len() - 1 ==> #[trigger] tree_deps(nodes, c[i]).contains(c[i + 1])
}

/// Whether the device at `x` is needed by the configured devices: it is
/// one of them, lies under one, or is a phandle dependency of a needed
/// device.
pub open spec fn needed(nodes: Seq<FdtNode>, initial: Seq<Seq<u8>>, x: Seq<u8>) -> bool {
    exists|c: Seq<Seq<u8>>| #[trigger] dep_chain(nodes, initial, c) && c.last() == x
}

/// Whether `x` may be passed through: it is not the root and neither is
/// nor lies under an excluded device.
pub open spec fn allowed(nodes: Seq<FdtNode>, excluded: Seq<Seq<u8>>, x: Seq<u8>) -> bool {
    !tree_under(nodes, excluded, x) && x != crate::fdt::bytes::root_path()
}

/// The entries of `s` that may be passed through, in order.
pub open spec fn keep_allowed(s: Seq<Seq<u8>>, nodes: Seq<FdtNode>, excluded: Seq<Seq<u8>>) -> Seq<
    Seq<u8>,
>
    decreases s.len(),
{
    if s.len() == 0 {
        Seq::empty()
    } else if allowed(nodes, excluded, s.last()) {
        keep_allowed(s.drop_last(), nodes, excluded).push(s.last())
    } else {
        keep_allowed(s.drop_last(), nodes, excluded)
    }
}

/// The entries of the groups, in order.
pub open spec fn flatten_paths(g: Seq<Seq<Seq<u8>>>) -> Seq<Seq<u8>>
    decreases g.len(),
{
    if g.len() == 0 {
        Seq::empty()
    } else {
        flatten_paths(g.drop_last()) + g.last()
    }
}

/// Filtering distributes over concatenation.
pub proof fn lemma_keep_concat(a: Seq<Seq<u8>>, b: Seq<Seq<u8>>, keys: Seq<FdtNode>, ex: Seq<Seq<u8>>)
    ensures
        keep_allowed(a + b, keys, ex) == keep_allowed(a, keys, ex) + keep_allowed(b, keys, ex),
    decreases b.len(),
{
    if b.len() == 0 {
        assert(a + b =~= a);
        assert(keep_allowed(a, keys, ex) + keep_allowed(b, keys, ex) =~= keep_allowed(a, keys, ex));
    } else {
        assert((a + b).drop_last() =~= a + b.drop_last());
        assert((a + b).last() == b.last());
        lemma_keep_concat(a, b.drop_last(), keys, ex);
        if allowed(keys, ex, b.last()) {
            assert(keep_allowed(a, keys, ex) + keep_allowed(b, keys, ex) =~= (keep_allowed(a, keys, ex)
                + keep_allowed(b.drop_last(), keys, ex)).push(b.last()));
        }
    }
}

/// What filtering keeps is exactly the allowed entries.
pub proof fn lemma_keep_contains(s: Seq<Seq<u8>>, keys: Seq<FdtNode>, ex: Seq<Seq<u8>>, x: Seq<u8>)
    ensures
        keep_allowed(s, keys, ex).contains(x) <==> (s.contains(x) && allowed(keys, ex, x)),
    decreases s.len(),
{
    if s.len() > 0 {
        lemma_keep_contains(s.drop_last(), keys, ex, x);
        let k0 = keep_allowed(s.drop_last(), keys, ex);
        if s.contains(x) && x != s.last() {
            let i = choose|i: int| 0 <= i < s.len() && s[i] == x;
            assert(s.drop_last()[i] == x);
        }
        if s.drop_last().contains(x) {
            let i = choose|i: int| 0 <= i < s.drop_last().len() && s.drop_last()[i] == x;
            assert(s[i] == x);
        }
        if x == s.last() {
            assert(s[s.len() - 1] == x);
        }
        if allowed(keys, ex, s.last()) {
            let k1 = k0.push(s.last());
            if k0.contains(x) {
                let i = choose|i: int| 0 <= i < k0.len() && k0[i] == x;
                assert(k1[i] == x);
            }
            if k1.contains(x) && x != s.last() {
                let i = choose|i: int| 0 <= i < k1.len() && k1[i] == x;
                assert(k0[i] == x);
            }
            assert(k1[k0.len() as int] == s.last());
        }
    }
}

/// Filtering keeps a list without repeats without repeats.
pub proof fn lemma_keep_no_duplicates(s: Seq<Seq<u8>>, keys: Seq<FdtNode>, ex: Seq<Seq<u8>>)
    requires
        s.no_duplicates(),
    ensures
        keep_allowed(s, keys, ex).no_duplicates(),
    decreases s.len(),
{
    if s.len() > 0 {
        assert(s.drop_last().no_duplicates()) by {
            assert forall|i: int, j: int|
                0 <= i < s.drop_last().len() && 0 <= j < s.drop_last().len() && i != j implies s.drop_last()[i]
                != s.drop_last()[j] by {
                assert(s[i] != s[j]);
            }
        }
        lemma_keep_no_duplicates(s.drop_last(), keys, ex);
        if allowed(keys, ex, s.last()) {
            lemma_keep_contains(s.drop_last(), keys, ex, s.last());
            if s.drop_last().contains(s.last()) {
                let i = choose|i: int| 0 <= i < s.drop_last().len() && s.drop_last()[i] == s.last();
                assert(s[i] == s[s.len() - 1]);
            }
            let k0 = keep_allowed(s.drop_last(), keys, ex);
            let k1 = k0.push(s.last());
            assert forall|i: int, j: int| 0 <= i < k1.len() && 0 <= j < k1.len() && i != j implies k1[i]
                != k1[j] by {
                if i == k0.len() {
                    assert(k0[j] == k1[j]);
                } else if j == k0.len() {
                    assert(k0[i] == k1[i]);
                }
            }
        }
    }
}

} // verus!

verus! {

/// Whether every entry of `s` is in `u`.
pub open spec fn within(s: Seq<Seq<u8>>, u: Set<Seq<u8>>) -> bool {
    forall|i: int| 0 <= i < s.len() ==> u.contains(#[trigger] s[i])
}

/// Whether every node that `map` records has its path in `u`.
pub open spec fn map_within(map: PhandleMapView, u: Set<Seq<u8>>) -> bool {
    forall|ph: u32| #[trigger] map.contains_key(ph) ==> u.contains(map[ph].0)
}

/// The phandle map of a walk records only paths of the walk.
proof fn lemma_map_paths(nodes: Seq<FdtNode>, pv: Seq<Seq<u8>>, n: int)
    requires
        0 <= n <= pv.len(),
    ensures
        map_within(crate::fdt::phandle::phandle_map_after(nodes, pv, n), pv.to_set()),
    decreases n,
{
    if n > 0 {
        lemma_map_paths(nodes, pv, n - 1);
        let m = crate::fdt::phandle::phandle_map_after(nodes, pv, n);
        assert forall|ph: u32| #[trigger] m.contains_key(ph) implies pv.to_set().contains(m[ph].0) by {
            let m0 = crate::fdt::phandle::phandle_map_after(nodes, pv, n - 1);
            match crate::fdt::phandle::props_phandle(nodes[n - 1].properties@) {
                Some(q) => {
                    if ph == q {
                        assert(pv[n - 1] == m[ph].0);
                    } else {
                        assert(m0.contains_key(ph));
                    }
                },
                None => {},
            }
        }
    }
}

proof fn lemma_concat_within(a: Seq<Seq<u8>>, b: Seq<Seq<u8>>, u: Set<Seq<u8>>)
    requires
        within(a, u),
        within(b, u),
    ensures
        within(a + b, u),
{
    assert forall|i: int| 0 <= i < (a + b).len() implies u.contains(#[trigger] (a + b)[i]) by {
        if i < a.len() {
            assert((a + b)[i] == a[i]);
        } else {
            assert((a + b)[i] == b[i - a.len()]);
        }
    }
}

proof fn lemma_refs_within(refs: Seq<(u32, Seq<u32>)>, map: PhandleMapView, u: Set<Seq<u8>>)
    requires
        map_within(map, u),
    ensures
        within(paths_of_refs(refs, map), u),
    decreases refs.len(),
{
    if refs.len() > 0 {
        lemma_refs_within(refs.drop_last(), map, u);
        let rest = paths_of_refs(refs.drop_last(), map);
        if map.contains_key(refs.last().0) {
            let s = rest.push(map[refs.last().0].0);
            assert forall|i: int| 0 <= i < s.len() implies u.contains(#[trigger] s[i]) by {
                if i < rest.len() {
                    assert(s[i] == rest[i]);
                }
            }
        }
    }
}

proof fn lemma_props_deps_within(props: Seq<(Seq<u8>, Seq<u8>)>, map: PhandleMapView, u: Set<Seq<u8>>)
    requires
        map_within(map, u),
    ensures
        within(props_deps(props, map), u),
    decreases props.len(),
{
    if props.len() > 0 {
        lemma_props_deps_within(props.drop_last(), map, u);
        let p = props.last();
        if phandle_property_spec(p.0) {
            lemma_refs_within(phandle_refs_spec(p.1, p.0, map), map, u);
        }
        lemma_concat_within(props_deps(props.drop_last(), map), prop_deps(p, map), u);
    }
}

proof fn lemma_group_deps_within(nodes: Seq<FdtNodeView>, map: PhandleMapView, u: Set<Seq<u8>>)
    requires
        map_within(map, u),
    ensures
        within(group_deps(nodes, map), u),
    decreases nodes.len(),
{
    if nodes.len() > 0 {
        lemma_group_deps_within(nodes.drop_last(), map, u);
        lemma_props_deps_within(nodes.last().properties, map, u);
        lemma_concat_within(
            group_deps(nodes.drop_last(), map),
            props_deps(nodes.last().properties, map),
            u,
        );
    }
}

/// A set that holds the starting devices and, with each device, its
/// dependencies holds every entry of a dependency chain.
proof fn lemma_closed_holds_chain(
    nodes: Seq<FdtNode>,
    initial: Seq<Seq<u8>>,
    c: Set<Seq<u8>>,
    chain: Seq<Seq<u8>>,
    i: int,
)
    requires
        forall|y: Seq<u8>| tree_under(nodes, initial, y) ==> c.contains(y),
        forall|y: Seq<u8>, k: int|
            c.contains(y) && 0 <= k < tree_deps(nodes, y).len() ==> c.contains(
                #[trigger] tree_deps(nodes, y)[k],
            ),
        dep_chain(nodes, initial, chain),
        0 <= i < chain.len(),
    ensures
        c.contains(chain[i]),
    decreases i,
{
    if i > 0 {
        lemma_closed_holds_chain(nodes, initial, c, chain, i - 1);
        assert(tree_deps(nodes, chain[i - 1]).contains(chain[(i - 1) + 1]));
        let d = tree_deps(nodes, chain[i - 1]);
        let k = choose|k: int| 0 <= k < d.len() && #[trigger] d[k] == chain[i];
        assert(c.contains(d[k]));
    }
}

/// Membership in the keys under a prefix depends only on membership in
/// the keys.
pub proof fn lemma_keys_under_contains(keys: Seq<Seq<u8>>, prefix: Seq<u8>, x: Seq<u8>)
    ensures
        crate::fdt::path::keys_under(keys, prefix).contains(x) <==> (keys.contains(x)
            && crate::fdt::bytes::is_prefix(prefix, x) && x.len() > prefix.len()),
    decreases keys.len(),
{
    if keys.len() > 0 {
        lemma_keys_under_contains(keys.drop_last(), prefix, x);
        let r0 = crate::fdt::path::keys_under(keys.drop_last(), prefix);
        if keys.contains(x) && x != keys.last() {
            let i = choose|i: int| 0 <= i < keys.len() && keys[i] == x;
            assert(keys.drop_last()[i] == x);
        }
        if keys.drop_last().contains(x) {
            let i = choose|i: int| 0 <= i < keys.drop_last().len() && keys.drop_last()[i] == x;
            assert(keys[i] == x);
        }
        if x == keys.last() {
            assert(keys[keys.len() - 1] == x);
        }
        if crate::fdt::bytes::is_prefix(prefix, keys.last()) && keys.last().len() > prefix.len() {
            let r1 = r0.push(keys.last());
            if r0.contains(x) {
                let i = choose|i: int| 0 <= i < r0.len() && r0[i] == x;
                assert(r1[i] == x);
            }
            if r1.contains(x) && x != keys.last() {
                let i = choose|i: int| 0 <= i < r1.len() && r1[i] == x;
                assert(r0[i] == x);
            }
            assert(r1[r0.len() as int] == keys.last());
        }
    }
}

/// Being at or under a list of paths depends only on the set of keys.
pub proof fn lemma_at_or_under_same_keys(
    k1: Seq<Seq<u8>>,
    k2: Seq<Seq<u8>>,
    names: Seq<Seq<u8>>,
    x: Seq<u8>,
)
    requires
        k1.to_set() == k2.to_set(),
    ensures
        at_or_under(k1, names, x) == at_or_under(k2, names, x),
{
    assert forall|i: int| 0 <= i < names.len() implies #[trigger] descendants_of(k1, names[i]).contains(x)
        == descendants_of(k2, names[i]).contains(x) by {
        let pre = crate::fdt::path::descendant_prefix(names[i]);
        lemma_keys_under_contains(k1, pre, x);
        lemma_keys_under_contains(k2, pre, x);
        assert(k1.contains(x) == k1.to_set().contains(x));
        assert(k2.contains(x) == k2.to_set().contains(x));
    }
    if exists|i: int| 0 <= i < names.len() && #[trigger] descendants_of(k1, names[i]).contains(x) {
        let i = choose|i: int| 0 <= i < names.len() && #[trigger] descendants_of(k1, names[i]).contains(x);
        assert(descendants_of(k2, names[i]).contains(x));
    }
    if exists|i: int| 0 <= i < names.len() && #[trigger] descendants_of(k2, names[i]).contains(x) {
        let i = choose|i: int| 0 <= i < names.len() && #[trigger] descendants_of(k2, names[i]).contains(x);
        assert(descendants_of(k1, names[i]).contains(x));
    }
}

/// With a cache built from the walk, the dependencies found through the
/// cache are those of the walk.
proof fn lemma_device_deps_tree(
    nodes: Seq<FdtNode>,
    keys: Seq<Seq<u8>>,
    groups: Seq<Seq<FdtNodeView>>,
    y: Seq<u8>,
)
    requires
        sorted_paths(keys),
        groups.len() == keys.len(),
        keys.to_set() == tree_paths(nodes).to_set(),
        forall|t: int|
            0 <= t < keys.len() ==> #[trigger] groups[t] == crate::fdt::cache::nodes_at(
                nodes,
                tree_paths(nodes),
                keys[t],
                nodes.len() as int,
            ),
    ensures
        device_deps(keys, groups, tree_map(nodes), y) == tree_deps(nodes, y),
{
    let pv = tree_paths(nodes);
    if keys.contains(y) {
        let t = choose|t: int| 0 <= t < keys.len() && keys[t] == y;
        assert(groups[t] == crate::fdt::cache::nodes_at(nodes, pv, keys[t], nodes.len() as int));
    } else {
        assert forall|i: int| 0 <= i < nodes.len() implies pv[i] != y by {
            if pv[i] == y {
                assert(pv.to_set().contains(y));
                assert(keys.to_set().contains(y));
            }
        }
        crate::fdt::cache::lemma_nodes_at_absent(nodes, pv, y, nodes.len() as int);
    }
}

/// The dependencies of any device are paths of the walk.
proof fn lemma_tree_deps_within(nodes: Seq<FdtNode>, y: Seq<u8>)
    ensures
        within(tree_deps(nodes, y), tree_paths(nodes).to_set()),
{
    lemma_map_paths(nodes, tree_paths(nodes), nodes.len() as int);
    lemma_group_deps_within(
        crate::fdt::cache::nodes_at(nodes, tree_paths(nodes), y, nodes.len() as int),
        tree_map(nodes),
        tree_paths(nodes).to_set(),
    );
}

/// A chain extended by a dependency of its last entry is a chain.
proof fn lemma_chain_extend(nodes: Seq<FdtNode>, initial: Seq<Seq<u8>>, c: Seq<Seq<u8>>, d: Seq<u8>)
    requires
        dep_chain(nodes, initial, c),
        tree_deps(nodes, c.last()).contains(d),
    ensures
        dep_chain(nodes, initial, c.push(d)),
        c.push(d).last() == d,
{
    let c2 = c.push(d);
    assert forall|i: int| 0 <= i < c2.len() - 1 implies #[trigger] tree_deps(nodes, c2[i]).contains(
        c2[i + 1],
    ) by {
        if i < c.len() - 1 {
            assert(c2[i] == c[i]);
            assert(c2[i + 1] == c[i + 1]);
            assert(tree_deps(nodes, c[i]).contains(c[i + 1]));
        } else {
            assert(c2[i] == c.last());
        }
    }
}

/// A starting device is needed.
proof fn lemma_seed_needed(nodes: Seq<FdtNode>, initial: Seq<Seq<u8>>, x: Seq<u8>)
    requires
        tree_under(nodes, initial, x),
    ensures
        needed(nodes, initial, x),
{
    let c = seq![x];
    assert(dep_chain(nodes, initial, c));
    assert(c.last() == x);
}

/// Whether `b` shares no entry with `a`.
pub open spec fn disjoint_from(b: Seq<Seq<u8>>, a: Seq<Seq<u8>>) -> bool {
    forall|j: int| 0 <= j < b.len() ==> !a.contains(#[trigger] b[j])
}

/// The excluded device paths of a configuration: the entries of its
/// groups, in order.
pub open spec fn excluded_paths(g: Seq<Vec<Vec<u8>>>) -> Seq<Seq<u8>> {
    flatten_paths(g.map_values(|v: Vec<Vec<u8>>| path_seq(v@)))
}

/// Appends to `out` the entries of `src` that may be passed through.
fn append_allowed(
    out: &mut Vec<Vec<u8>>,
    src: &Vec<Vec<u8>>,
    excluded: &crate::fdt::sorted::PathSet,
    Ghost(nodes): Ghost<Seq<FdtNode>>,
    Ghost(ex): Ghost<Seq<Seq<u8>>>,
)
    requires
        excluded.wf(),
        forall|x: Seq<u8>| #[trigger] excluded.contents().contains(x) == tree_under(nodes, ex, x),
    ensures
        path_seq(final(out)@) == path_seq(old(out)@) + keep_allowed(path_seq(src@), nodes, ex),
{
    let ghost sv = path_seq(src@);
    let ghost base = path_seq(out@);
    let mut i: usize = 0;
    while i < src.len()
        invariant
            i <= src@.len(),
            sv == path_seq(src@),
            excluded.wf(),
            forall|x: Seq<u8>| #[trigger] excluded.contents().contains(x) == tree_under(nodes, ex, x),
            path_seq(out@) == base + keep_allowed(sv.subrange(0, i as int), nodes, ex),
        decreases src@.len() - i,
    {
        proof {
            assert(sv.subrange(0, i + 1).drop_last() =~= sv.subrange(0, i as int));
            assert(sv.subrange(0, i + 1).last() == src@[i as int]@);
        }
        let x = &src[i];
        let ghost before = path_seq(out@);
        if !excluded.contains(x) && !crate::fdt::bytes::is_root_path(x) {
            out.push(copy_bytes(x));
            assert(path_seq(out@) =~= before.push(x@));
        }
        i = i + 1;
    }
    proof {
        assert(sv.subrange(0, i as int) =~= sv);
    }
}

} // verus!

verus! {

/// `pre` followed by the first `m` of `ds` that neither `names` nor an
/// earlier entry holds, in order.
pub open spec fn add_new(pre: Seq<Seq<u8>>, names: Seq<Seq<u8>>, ds: Seq<Seq<u8>>, m: int) -> Seq<Seq<u8>>
    decreases m,
{
    if m <= 0 {
        pre
    } else {
        let s = add_new(pre, names, ds, m - 1);
        if names.contains(ds[m - 1]) || s.contains(ds[m - 1]) {
            s
        } else {
            s.push(ds[m - 1])
        }
    }
}

/// The paths that the nodes under the first `n` of `names` add, in the
/// order met: for each name in turn, the keys under it, in key order,
/// each one that neither `names` nor an earlier one holds.
pub open spec fn descendants_added(keys: Seq<Seq<u8>>, names: Seq<Seq<u8>>, n: int) -> Seq<Seq<u8>>
    decreases n,
{
    if n <= 0 {
        Seq::empty()
    } else {
        let pre = descendants_added(keys, names, n - 1);
        let ds = descendants_of(keys, names[n - 1]);
        add_new(pre, names, ds, ds.len() as int)
    }
}

proof fn lemma_concat_contains(a: Seq<Seq<u8>>, b: Seq<Seq<u8>>, x: Seq<u8>)
    ensures
        (a + b).contains(x) == (a.contains(x) || b.contains(x)),
{
    if (a + b).contains(x) {
        let k = choose|k: int| 0 <= k < (a + b).len() && (a + b)[k] == x;
        if k < a.len() {
            assert(a[k] == x);
        } else {
            assert(b[k - a.len()] == x);
        }
    }
    if a.contains(x) {
        let k = choose|k: int| 0 <= k < a.len() && a[k] == x;
        assert((a + b)[k] == x);
    }
    if b.contains(x) {
        let k = choose|k: int| 0 <= k < b.len() && b[k] == x;
        assert((a + b)[a.len() + k] == x);
    }
}

/// Whether `x` is one of `names` or lies under one of the first `n` of them.
pub open spec fn under_first(keys: Seq<Seq<u8>>, names: Seq<Seq<u8>>, n: int, x: Seq<u8>) -> bool {
    names.contains(x) || exists|k: int| 0 <= k < n && #[trigger] descendants_of(keys, names[k]).contains(x)
}

/// The set of the paths of `names`.
fn path_set_of(names: &Vec<Vec<u8>>) -> (r: PathSet)
    ensures
        r.wf(),
        r.contents() == path_seq(names@).to_set(),
{
    let mut set = PathSet::new();
    let mut i: usize = 0;
    while i < names.len()
        invariant
            i <= names@.len(),
            set.wf(),
            set.contents() == path_seq(names@).subrange(0, i as int).to_set(),
        decreases names@.len() - i,
    {
        set.insert(&names[i]);
        proof {
            assert(path_seq(names@).subrange(0, i + 1) =~= path_seq(names@).subrange(0, i as int).push(
                names@[i as int]@,
            ));
            path_seq(names@).subrange(0, i as int).lemma_push_to_set_commute(names@[i as int]@);
        }
        i = i + 1;
    }
    assert(path_seq(names@).subrange(0, i as int) =~= path_seq(names@));
    set
}

/// Adds to `set`, which holds `names`, the paths of `keys` under each of
/// `names`; returns those it did not hold yet, in the order met.
fn add_descendants(keys: &Vec<Vec<u8>>, names: &Vec<Vec<u8>>, set: &mut PathSet) -> (added: Vec<
    Vec<u8>,
>)
    requires
        old(set).wf(),
        old(set).contents() == path_seq(names@).to_set(),
    ensures
        final(set).wf(),
        forall|x: Seq<u8>| #[trigger]
            final(set).contents().contains(x) == at_or_under(path_seq(keys@), path_seq(names@), x),
        final(set).contents() == (path_seq(names@) + path_seq(added@)).to_set(),
        path_seq(added@).no_duplicates(),
        disjoint_from(path_seq(added@), path_seq(names@)),
        path_seq(added@) == descendants_added(path_seq(keys@), path_seq(names@), names@.len() as int),
{
    let ghost nv = path_seq(names@);
    let ghost kv = path_seq(keys@);
    let mut added: Vec<Vec<u8>> = Vec::new();
    proof {
        assert(nv + path_seq(added@) =~= nv);
    }
    let mut i: usize = 0;
    while i < names.len()
        invariant
            i <= names@.len(),
            nv == path_seq(names@),
            kv == path_seq(keys@),
            set.wf(),
            forall|x: Seq<u8>| #[trigger] set.contents().contains(x) == under_first(kv, nv, i as int, x),
            set.contents() == (nv + path_seq(added@)).to_set(),
            path_seq(added@).no_duplicates(),
            disjoint_from(path_seq(added@), nv),
            path_seq(added@) == descendants_added(kv, nv, i as int),
        decreases names@.len() - i,
    {
        let descendants = crate::fdt::path::get_descendant_nodes_by_path(keys, &names[i]);
        let ghost dv = path_seq(descendants@);
        assert(dv == descendants_of(kv, nv[i as int]));
        let mut j: usize = 0;
        while j < descendants.len()
            invariant
                j <= descendants@.len(),
                i < names@.len(),
                dv == path_seq(descendants@),
                dv == descendants_of(kv, nv[i as int]),
                nv == path_seq(names@),
                set.wf(),
                forall|x: Seq<u8>| #[trigger]
                    set.contents().contains(x) == (under_first(kv, nv, i as int, x) || dv.subrange(
                        0,
                        j as int,
                    ).contains(x)),
                set.contents() == (nv + path_seq(added@)).to_set(),
                path_seq(added@).no_duplicates(),
                disjoint_from(path_seq(added@), nv),
                kv == path_seq(keys@),
                path_seq(added@) == add_new(descendants_added(kv, nv, i as int), nv, dv, j as int),
            decreases descendants@.len() - j,
        {
            let ghost before = path_seq(added@);
            let ghost s0 = set.contents();
            let ghost y = dv[j as int];
            proof {
                lemma_concat_contains(nv, before, y);
                assert(descendants@[j as int]@ == y);
            }
            if set.insert(&descendants[j]) {
                added.push(copy_bytes(&descendants[j]));
                proof {
                    assert(path_seq(added@) =~= before.push(y));
                    assert(nv + path_seq(added@) =~= (nv + before).push(y));
                    (nv + before).lemma_push_to_set_commute(y);
                    assert(!before.contains(y)) by {
                        if before.contains(y) {
                            let k = choose|k: int| 0 <= k < before.len() && before[k] == y;
                            assert((nv + before)[nv.len() + k] == y);
                            assert((nv + before).contains(y));
                        }
                    }
                    assert(!nv.contains(y)) by {
                        if nv.contains(y) {
                            let k = choose|k: int| 0 <= k < nv.len() && nv[k] == y;
                            assert((nv + before)[k] == y);
                            assert((nv + before).contains(y));
                        }
                    }
                    assert(path_seq(added@).no_duplicates()) by {
                        let s = before.push(y);
                        assert forall|a: int, b: int| 0 <= a < s.len() && 0 <= b < s.len() && a != b implies s[a]
                            != s[b] by {
                            if a == before.len() {
                                assert(s[b] == before[b]);
                            } else if b == before.len() {
                                assert(s[a] == before[a]);
                            }
                        }
                    }
                    assert(disjoint_from(path_seq(added@), nv)) by {
                        assert forall|k: int| 0 <= k < path_seq(added@).len() implies !nv.contains(
                            #[trigger] path_seq(added@)[k],
                        ) by {
                            if k < before.len() {
                                assert(path_seq(added@)[k] == before[k]);
                            }
                        }
                    }
                }
            }
            proof {
                assert forall|x: Seq<u8>| dv.subrange(0, j + 1).contains(x) == (dv.subrange(
                    0,
                    j as int,
                ).contains(x) || x == y) by {
                    if dv.subrange(0, j + 1).contains(x) && x != y {
                        let k = choose|k: int| 0 <= k < j + 1 && #[trigger] dv.subrange(0, j + 1)[k] == x;
                        assert(dv.subrange(0, j as int)[k] == x);
                    }
                    if dv.subrange(0, j as int).contains(x) {
                        let k = choose|k: int| 0 <= k < j && #[trigger] dv.subrange(0, j as int)[k] == x;
                        assert(dv.subrange(0, j + 1)[k] == x);
                    }
                    if x == y {
                        assert(dv.subrange(0, j + 1)[j as int] == x);
                    }
                }
            }
            j = j + 1;
        }
        proof {
            assert(dv.subrange(0, j as int) =~= dv);
            assert(descendants_added(kv, nv, i + 1) == add_new(descendants_added(kv, nv, i as int), nv, dv, j as int));
            assert forall|x: Seq<u8>| #[trigger] set.contents().contains(x) == under_first(
                kv,
                nv,
                i + 1,
                x,
            ) by {
                if under_first(kv, nv, i + 1, x) && !nv.contains(x) {
                    let k = choose|k: int|
                        0 <= k < i + 1 && #[trigger] descendants_of(kv, nv[k]).contains(x);
                    if k < i {
                        assert(under_first(kv, nv, i as int, x));
                    }
                }
                if dv.contains(x) {
                    assert(descendants_of(kv, nv[i as int]).contains(x));
                }
            }
        }
        i = i + 1;
    }
    added
}

} // verus!

verus! {

/// Whether a cache holds the nodes of the walk `nodes`, grouped by path.
pub open spec fn cache_of(cache: &NodeCache, nodes: Seq<FdtNode>) -> bool {
    &&& cache.wf()
    &&& cache.keys_spec().to_set() == tree_paths(nodes).to_set()
    &&& forall|t: int|
        0 <= t < cache.keys_spec().len() ==> #[trigger] cache.groups_spec()[t]
            == crate::fdt::cache::nodes_at(nodes, tree_paths(nodes), cache.keys_spec()[t], nodes.len() as int)
}

/// Adds to `configured`, which holds the configured devices and the nodes
/// under them, every device they depend on through phandles, directly or
/// not; returns the added paths in the order found.
fn collect_dependencies(
    configured: &mut PathSet,
    phandle_map: &PhandleMap,
    node_cache: &NodeCache,
    Ghost(nodes): Ghost<Seq<FdtNode>>,
    Ghost(initial): Ghost<Seq<Seq<u8>>>,
) -> (dependency: Vec<Vec<u8>>)
    requires
        old(configured).wf(),
        cache_of(node_cache, nodes),
        phandle_map@ == tree_map(nodes),
        forall|x: Seq<u8>| tree_under(nodes, initial, x) ==> #[trigger] old(configured).contents().contains(x),
        forall|x: Seq<u8>| #[trigger] old(configured).contents().contains(x) ==> needed(nodes, initial, x),
        old(configured).contents().subset_of(initial.to_set().union(tree_paths(nodes).to_set())),
    ensures
        final(configured).wf(),
        final(configured).contents() == old(configured).contents().union(path_seq(dependency@).to_set()),
        path_seq(dependency@).no_duplicates(),
        forall|j: int| 0 <= j < dependency@.len() ==> !old(configured).contents().contains(#[trigger] dependency@[j]@),
        forall|x: Seq<u8>| #[trigger] final(configured).contents().contains(x) == needed(nodes, initial, x),
{
    let ghost c0 = configured.contents();
    let ghost u = initial.to_set().union(tree_paths(nodes).to_set());
    let mut dependency: Vec<Vec<u8>> = Vec::new();
    let mut to_process = configured.to_vec();
    let mut processed = PathSet::new();
    proof {
        assert(path_seq(dependency@).to_set() =~= Set::<Seq<u8>>::empty());
        assert(c0.union(Set::empty()) =~= c0);
        assert(u.finite());
        assert forall|k: int| 0 <= k < to_process@.len() implies configured.contents().contains(
            #[trigger] to_process@[k]@,
        ) by {
            assert(path_seq(to_process@)[k] == to_process@[k]@);
        }
    }
    while to_process.len() > 0
        invariant
            configured.wf(),
            processed.wf(),
            cache_of(node_cache, nodes),
            phandle_map@ == tree_map(nodes),
            u == initial.to_set().union(tree_paths(nodes).to_set()),
            u.finite(),
            configured.contents().subset_of(u),
            configured.contents() == c0.union(path_seq(dependency@).to_set()),
            path_seq(dependency@).no_duplicates(),
            forall|j: int| 0 <= j < dependency@.len() ==> !c0.contains(#[trigger] dependency@[j]@),
            forall|x: Seq<u8>| tree_under(nodes, initial, x) ==> #[trigger] configured.contents().contains(x),
            forall|x: Seq<u8>| #[trigger] configured.contents().contains(x) ==> needed(nodes, initial, x),
            forall|k: int| 0 <= k < to_process@.len() ==> configured.contents().contains(#[trigger] to_process@[k]@),
            processed.contents().subset_of(configured.contents()),
            forall|x: Seq<u8>| #[trigger] configured.contents().contains(x) ==> processed.contents().contains(x)
                || path_seq(to_process@).contains(x),
            forall|y: Seq<u8>, k: int|
                processed.contents().contains(y) && 0 <= k < tree_deps(nodes, y).len() ==> configured.contents().contains(
                    #[trigger] tree_deps(nodes, y)[k],
                ),
        decreases u.len() - configured.contents().len(), to_process@.len(),
    {
        proof {
            vstd::set_lib::lemma_len_subset(configured.contents(), u);
        }
        let ghost t0 = path_seq(to_process@);
        let device = to_process.pop().unwrap();
        proof {
            assert(path_seq(to_process@) =~= t0.drop_last());
            assert(t0.last() == device@);
            assert(configured.contents().contains(device@)) by {
                assert(to_process@.push(device)[to_process@.len() as int] == device);
            }
            assert forall|x: Seq<u8>| t0.contains(x) && x != device@ implies path_seq(to_process@).contains(x) by {
                let k = choose|k: int| 0 <= k < t0.len() && t0[k] == x;
                assert(path_seq(to_process@)[k] == x);
            }
        }
        if processed.contains(&device) {
            continue;
        }
        processed.insert(&device);
        let deps = find_device_dependencies(&device, phandle_map, node_cache);
        let ghost dv = path_seq(deps@);
        proof {
            node_cache.lemma_wf();
            lemma_device_deps_tree(nodes, node_cache.keys_spec(), node_cache.groups_spec(), device@);
            lemma_tree_deps_within(nodes, device@);
            assert(dv == tree_deps(nodes, device@));
        }
        let ghost cs = configured.contents().len();
        let ghost tl = to_process@.len();
        let mut j: usize = 0;
        while j < deps.len()
            invariant
                j <= deps@.len(),
                dv == path_seq(deps@),
                dv == tree_deps(nodes, device@),
                within(dv, tree_paths(nodes).to_set()),
                processed.contents().contains(device@),
                configured.wf(),
                processed.wf(),
                u == initial.to_set().union(tree_paths(nodes).to_set()),
                u.finite(),
                configured.contents().subset_of(u),
                configured.contents() == c0.union(path_seq(dependency@).to_set()),
                path_seq(dependency@).no_duplicates(),
                forall|j: int| 0 <= j < dependency@.len() ==> !c0.contains(#[trigger] dependency@[j]@),
                forall|x: Seq<u8>| tree_under(nodes, initial, x) ==> #[trigger] configured.contents().contains(x),
                forall|x: Seq<u8>| #[trigger] configured.contents().contains(x) ==> needed(nodes, initial, x),
                forall|k: int| 0 <= k < to_process@.len() ==> configured.contents().contains(#[trigger] to_process@[k]@),
                processed.contents().subset_of(configured.contents()),
                forall|x: Seq<u8>| #[trigger] configured.contents().contains(x) ==> processed.contents().contains(x)
                    || path_seq(to_process@).contains(x),
                forall|y: Seq<u8>, k: int|
                    processed.contents().contains(y) && y != device@ && 0 <= k < tree_deps(nodes, y).len()
                        ==> configured.contents().contains(#[trigger] tree_deps(nodes, y)[k]),
                forall|k: int| 0 <= k < j ==> configured.contents().contains(#[trigger] dv[k]),
                configured.contents().len() >= cs,
                configured.contents().len() == cs ==> to_process@.len() == tl,
            decreases deps@.len() - j,
        {
            let ghost y = dv[j as int];
            if !configured.contains(&deps[j]) {
                let ghost before = path_seq(dependency@);
                let ghost tb = path_seq(to_process@);
                dependency.push(copy_bytes(&deps[j]));
                to_process.push(copy_bytes(&deps[j]));
                configured.insert(&deps[j]);
                proof {
                    assert(path_seq(dependency@) =~= before.push(y));
                    before.lemma_push_to_set_commute(y);
                    assert(path_seq(to_process@) =~= tb.push(y));
                    assert(path_seq(to_process@)[tb.len() as int] == y);
                    assert forall|x: Seq<u8>| tb.contains(x) implies path_seq(to_process@).contains(x) by {
                        let k = choose|k: int| 0 <= k < tb.len() && tb[k] == x;
                        assert(path_seq(to_process@)[k] == x);
                    }
                    assert(!before.contains(y));
                    assert(!c0.contains(y));
                    assert(path_seq(dependency@).no_duplicates()) by {
                        let s = before.push(y);
                        assert forall|a: int, b: int| 0 <= a < s.len() && 0 <= b < s.len() && a != b implies s[a]
                            != s[b] by {
                            if a == before.len() {
                                assert(s[b] == before[b]);
                            } else if b == before.len() {
                                assert(s[a] == before[a]);
                            }
                        }
                    }
                    assert(tree_paths(nodes).to_set().contains(dv[j as int]));
                    let ch = choose|ch: Seq<Seq<u8>>| #[trigger] dep_chain(nodes, initial, ch) && ch.last() == device@;
                    assert(dv.contains(y)) by {
                        assert(dv[j as int] == y);
                    }
                    lemma_chain_extend(nodes, initial, ch, y);
                    assert(needed(nodes, initial, y));
                }
            }
            j = j + 1;
        }
        proof {
            assert forall|y: Seq<u8>, k: int|
                processed.contents().contains(y) && 0 <= k < tree_deps(nodes, y).len() implies configured.contents().contains(
                    #[trigger] tree_deps(nodes, y)[k],
                ) by {
                if y == device@ {
                    assert(dv[k] == tree_deps(nodes, y)[k]);
                }
            }
            vstd::set_lib::lemma_len_subset(configured.contents(), u);
        }
    }
    proof {
        assert forall|x: Seq<u8>| #[trigger] configured.contents().contains(x) == needed(nodes, initial, x) by {
            if needed(nodes, initial, x) {
                let ch = choose|ch: Seq<Seq<u8>>| #[trigger] dep_chain(nodes, initial, ch) && ch.last() == x;
                assert forall|y: Seq<u8>| configured.contents().contains(y) implies processed.contents().contains(y) by {
                    assert(!path_seq(to_process@).contains(y));
                }
                lemma_closed_holds_chain(nodes, initial, configured.contents(), ch, ch.len() - 1);
            }
        }
    }
    dependency
}

} // verus!

verus! {

/// The entries of the groups, in order.
fn flatten_excluded(groups: &Vec<Vec<Vec<u8>>>) -> (r: Vec<Vec<u8>>)
    ensures
        path_seq(r@) == excluded_paths(groups@),
{
    let ghost gv = groups@.map_values(|v: Vec<Vec<u8>>| path_seq(v@));
    let mut out: Vec<Vec<u8>> = Vec::new();
    let mut i: usize = 0;
    while i < groups.len()
        invariant
            i <= groups@.len(),
            gv == groups@.map_values(|v: Vec<Vec<u8>>| path_seq(v@)),
            path_seq(out@) == flatten_paths(gv.subrange(0, i as int)),
        decreases groups@.len() - i,
    {
        let group = &groups[i];
        let ghost base = path_seq(out@);
        let mut j: usize = 0;
        while j < group.len()
            invariant
                j <= group@.len(),
                path_seq(out@) == base + path_seq(group@).subrange(0, j as int),
            decreases group@.len() - j,
        {
            let ghost b2 = path_seq(out@);
            out.push(copy_bytes(&group[j]));
            proof {
                assert(path_seq(out@) =~= b2.push(group@[j as int]@));
                assert(path_seq(out@) =~= base + path_seq(group@).subrange(0, j + 1));
            }
            j = j + 1;
        }
        proof {
            assert(path_seq(group@).subrange(0, j as int) =~= path_seq(group@));
            assert(gv.subrange(0, i + 1).drop_last() =~= gv.subrange(0, i as int));
            assert(gv.subrange(0, i + 1).last() == path_seq(group@));
        }
        i = i + 1;
    }
    proof {
        assert(gv.subrange(0, i as int) =~= gv);
    }
    out
}

/// The device tree paths that a guest is given, in the order found: the
/// configured devices, then the nodes under them, then the devices they
/// depend on through phandles, directly or not; less the root and the
/// excluded devices with the nodes under them.
pub fn find_all_passthrough_devices(vm_cfg: &AxVMConfig, all_nodes: &[FdtNode]) -> (r: Vec<Vec<u8>>)
    requires
        crate::fdt::path::levels_valid(all_nodes@, all_nodes@.len() as int),
        crate::fdt::phandle::cell_props_readable(all_nodes@),
    ensures
        forall|i: int|
            0 <= i < r@.len() ==> needed(all_nodes@, path_seq(vm_cfg.pass_through_devices@), #[trigger] r@[i]@)
                && allowed(all_nodes@, excluded_paths(vm_cfg.excluded_devices@), r@[i]@),
        forall|x: Seq<u8>|
            needed(all_nodes@, path_seq(vm_cfg.pass_through_devices@), x) && allowed(
                all_nodes@,
                excluded_paths(vm_cfg.excluded_devices@),
                x,
            ) ==> #[trigger] path_seq(r@).contains(x),
        exists|rest: Seq<Seq<u8>>|
            path_seq(r@) == keep_allowed(
                path_seq(vm_cfg.pass_through_devices@),
                all_nodes@,
                excluded_paths(vm_cfg.excluded_devices@),
            ) + rest && rest.no_duplicates() && disjoint_from(rest, path_seq(vm_cfg.pass_through_devices@)),
        exists|keys: Seq<Seq<u8>>, deps: Seq<Seq<u8>>|
            #![trigger crate::fdt::sorted::sorted_paths(keys), deps.no_duplicates()]
            {
                let first = path_seq(vm_cfg.pass_through_devices@) + descendants_added(
                    keys,
                    path_seq(vm_cfg.pass_through_devices@),
                    vm_cfg.pass_through_devices@.len() as int,
                );
                &&& crate::fdt::sorted::sorted_paths(keys)
                &&& keys.to_set() == tree_paths(all_nodes@).to_set()
                &&& path_seq(r@) == keep_allowed(first, all_nodes@, excluded_paths(vm_cfg.excluded_devices@))
                    + deps
                &&& deps.no_duplicates()
                &&& disjoint_from(deps, first)
            },
{
    let ghost nodes = all_nodes@;
    let ghost init = path_seq(vm_cfg.pass_through_devices@);
    let ghost ex = excluded_paths(vm_cfg.excluded_devices@);
    let ghost pv = tree_paths(nodes);
    let initial = vm_cfg.pass_through_devices();
    let node_cache = crate::fdt::cache::build_optimized_node_cache(all_nodes);
    let keys = node_cache.keys();
    let ghost kv = node_cache.keys_spec();

    // The configured devices and the nodes under them.
    let mut configured = path_set_of(initial);
    let additional = add_descendants(keys, initial, &mut configured);
    let ghost c1 = configured.contents();
    proof {
        assert forall|x: Seq<u8>| #[trigger] c1.contains(x) == tree_under(nodes, init, x) by {
            lemma_at_or_under_same_keys(kv, pv, init, x);
        }
        assert forall|x: Seq<u8>| #[trigger] c1.contains(x) implies needed(nodes, init, x) by {
            lemma_seed_needed(nodes, init, x);
        }
        assert forall|x: Seq<u8>| #[trigger] c1.contains(x) implies init.to_set().union(pv.to_set()).contains(x) by {
            if !init.contains(x) {
                let i = choose|i: int| 0 <= i < init.len() && #[trigger] descendants_of(pv, init[i]).contains(x);
                lemma_keys_under_contains(pv, crate::fdt::path::descendant_prefix(init[i]), x);
            }
        }
    }

    // Every device they depend on through phandles.
    let phandle_map = crate::fdt::phandle::build_phandle_map(all_nodes);
    proof {
        assert(pv =~= Seq::new(nodes.len(), |i: int| crate::fdt::path::node_path(nodes, i)));
    }
    let dependency = collect_dependencies(
        &mut configured,
        &phandle_map,
        &node_cache,
        Ghost(nodes),
        Ghost(init),
    );

    // The excluded devices and the nodes under them.
    let excluded_device_path = flatten_excluded(vm_cfg.excluded_devices());
    let mut excluded = path_set_of(&excluded_device_path);
    let _ = add_descendants(keys, &excluded_device_path, &mut excluded);
    proof {
        assert forall|x: Seq<u8>| #[trigger] excluded.contents().contains(x) == tree_under(nodes, ex, x) by {
            lemma_at_or_under_same_keys(kv, pv, ex, x);
        }
    }

    let mut all: Vec<Vec<u8>> = Vec::new();
    append_allowed(&mut all, initial, &excluded, Ghost(nodes), Ghost(ex));
    append_allowed(&mut all, &additional, &excluded, Ghost(nodes), Ghost(ex));
    append_allowed(&mut all, &dependency, &excluded, Ghost(nodes), Ghost(ex));
    proof {
        let av = path_seq(additional@);
        let dv = path_seq(dependency@);
        let s = init + av + dv;
        lemma_keep_concat(init, av, nodes, ex);
        lemma_keep_concat(init + av, dv, nodes, ex);
        lemma_keep_concat(av, dv, nodes, ex);
        let rest = keep_allowed(av + dv, nodes, ex);
        assert(path_seq(all@) =~= keep_allowed(s, nodes, ex));
        assert(path_seq(all@) =~= keep_allowed(init, nodes, ex) + rest);
        assert(configured.contents() =~= s.to_set()) by {
            vstd::seq_lib::seq_to_set_distributes_over_add(init, av);
            vstd::seq_lib::seq_to_set_distributes_over_add(init + av, dv);
        }
        assert forall|i: int| 0 <= i < all@.len() implies needed(nodes, init, #[trigger] all@[i]@) && allowed(
            nodes,
            ex,
            all@[i]@,
        ) by {
            assert(path_seq(all@)[i] == all@[i]@);
            lemma_keep_contains(s, nodes, ex, all@[i]@);
            assert(configured.contents().contains(all@[i]@));
        }
        assert forall|x: Seq<u8>| needed(nodes, init, x) && allowed(nodes, ex, x) implies #[trigger] path_seq(
            all@,
        ).contains(x) by {
            assert(configured.contents().contains(x));
            lemma_keep_contains(s, nodes, ex, x);
        }
        assert(av.no_duplicates());
        assert((av + dv).no_duplicates()) by {
            assert forall|a: int, b: int| 0 <= a < av.len() && 0 <= b < dv.len() implies av[a] != dv[b] by {
                assert(dependency@[b]@ == dv[b]);
                assert((init + av)[init.len() + a] == av[a]);
                assert(c1.contains(av[a]));
            }
            vstd::seq_lib::lemma_no_dup_in_concat(av, dv);
        }
        lemma_keep_no_duplicates(av + dv, nodes, ex);
        assert forall|j: int| 0 <= j < rest.len() implies !init.contains(#[trigger] rest[j]) by {
            assert(rest.contains(rest[j]));
            lemma_keep_contains(av + dv, nodes, ex, rest[j]);
            let k = choose|k: int| 0 <= k < (av + dv).len() && (av + dv)[k] == rest[j];
            if k < av.len() {
                assert(av[k] == rest[j]);
            } else {
                assert(dv[k - av.len()] == rest[j]);
                assert(dependency@[k - av.len()]@ == rest[j]);
                if init.contains(rest[j]) {
                    let t = choose|t: int| 0 <= t < init.len() && init[t] == rest[j];
                    assert((init + av)[t] == rest[j]);
                    assert(c1.contains(rest[j]));
                }
            }
        }
        assert(disjoint_from(rest, init));
        node_cache.lemma_wf();
        let deps = keep_allowed(dv, nodes, ex);
        let first = init + av;
        assert(path_seq(all@) =~= keep_allowed(first, nodes, ex) + deps);
        lemma_keep_no_duplicates(dv, nodes, ex);
        assert forall|j: int| 0 <= j < deps.len() implies !first.contains(#[trigger] deps[j]) by {
            assert(deps.contains(deps[j]));
            lemma_keep_contains(dv, nodes, ex, deps[j]);
            let k = choose|k: int| 0 <= k < dv.len() && dv[k] == deps[j];
            assert(dependency@[k]@ == deps[j]);
            if first.contains(deps[j]) {
                assert(c1.contains(deps[j]));
            }
        }
        assert(disjoint_from(deps, first));
        assert(crate::fdt::sorted::sorted_paths(kv) && deps.no_duplicates());
    }
    all
}

} // verus!
