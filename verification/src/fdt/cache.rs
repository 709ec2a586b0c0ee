//! The nodes of a device tree grouped by full path.
use vstd::prelude::*;

use crate::fdt::bytes::copy_bytes;
use crate::fdt::node::{FdtNode, FdtNodeView};
use crate::fdt::path::{all_node_paths, levels_valid, node_path};
use crate::fdt::sorted::{
    lemma_insert_sorted, lemma_lex_lt_irreflexive, lemma_sorted_distinct, path_seq, sorted_paths, sorted_position,
};

verus! {

/// The nodes among the first `n` of a walk whose path, by `paths`, is `k`,
/// in the walk's order.
pub open spec fn nodes_at(nodes: Seq<FdtNode>, paths: Seq<Seq<u8>>, k: Seq<u8>, n: int) -> Seq<
    FdtNodeView,
>
    decreases n,
{
    if n <= 0 {
        Seq::empty()
    } else if paths[n - 1] == k {
        nodes_at(nodes, paths, k, n - 1).push(nodes[n - 1]@)
    } else {
        nodes_at(nodes, paths, k, n - 1)
    }
}

/// The full paths of all the nodes of a walk.
pub open spec fn walk_paths(nodes: Seq<FdtNode>) -> Seq<Seq<u8>> {
    Seq::new(nodes.len(), |i: int| node_path(nodes, i))
}

/// Without a node at path `k` among the first `n`, no node is found there.
pub proof fn lemma_nodes_at_absent(nodes: Seq<FdtNode>, paths: Seq<Seq<u8>>, k: Seq<u8>, n: int)
    requires
        forall|i: int| 0 <= i < n ==> paths[i] != k,
    ensures
        nodes_at(nodes, paths, k, n) == Seq::<FdtNodeView>::empty(),
    decreases n,
{
    if n > 0 {
        lemma_nodes_at_absent(nodes, paths, k, n - 1);
    }
}

/// The nodes of a tree grouped by full path, the paths in increasing order.
pub struct NodeCache {
    keys: Vec<Vec<u8>>,
    groups: Vec<Vec<FdtNode>>,
}

impl NodeCache {
    /// The paths, in increasing order.
    pub closed spec fn keys_spec(&self) -> Seq<Seq<u8>> {
        path_seq(self.keys@)
    }

    /// The nodes at each path, in the order of [`NodeCache::keys_spec`].
    pub closed spec fn groups_spec(&self) -> Seq<Seq<FdtNodeView>> {
        self.groups@.map_values(|g: Vec<FdtNode>| g@.map_values(|x: FdtNode| x@))
    }

    /// Whether the paths increase and each has its group.
    pub closed spec fn wf(&self) -> bool {
        &&& sorted_paths(self.keys_spec())
        &&& self.keys@.len() == self.groups@.len()
    }

    /// The paths of a well-formed cache increase, and each has a group.
    pub proof fn lemma_wf(&self)
        requires
            self.wf(),
        ensures
            sorted_paths(self.keys_spec()),
            self.groups_spec().len() == self.keys_spec().len(),
    {
    }

    /// The paths, in increasing order.
    pub fn keys(&self) -> (r: &Vec<Vec<u8>>)
        ensures
            path_seq(r@) == self.keys_spec(),
    {
        &self.keys
    }

    /// The nodes at `path`, if any.
    pub fn get(&self, path: &[u8]) -> (r: Option<&Vec<FdtNode>>)
        requires
            self.wf(),
        ensures
            match r {
                Some(g) => exists|t: int|
                    0 <= t < self.keys_spec().len() && self.keys_spec()[t] == path@
                        && self.groups_spec()[t] == g@.map_values(|x: FdtNode| x@),
                None => !self.keys_spec().contains(path@),
            },
    {
        let (pos, found) = sorted_position(&self.keys, path);
        if found {
            assert(self.keys_spec()[pos as int] == path@);
            assert(self.groups_spec()[pos as int] == self.groups@[pos as int]@.map_values(
                |x: FdtNode| x@,
            ));
            Some(&self.groups[pos])
        } else {
            proof {
                if self.keys_spec().contains(path@) {
                    let k = choose|k: int|
                        0 <= k < self.keys_spec().len() && self.keys_spec()[k] == path@;
                    assert(self.keys@[k]@ == path@);
                    lemma_lex_lt_irreflexive(path@);
                }
            }
            None
        }
    }
}

/// The nodes of a tree grouped by full path: the paths of the nodes, each
/// once and in increasing order, each with its nodes in the walk's order.
pub fn build_optimized_node_cache(all_nodes: &[FdtNode]) -> (r: NodeCache)
    requires
        levels_valid(all_nodes@, all_nodes@.len() as int),
    ensures
        r.wf(),
        r.keys_spec().to_set() == walk_paths(all_nodes@).to_set(),
        forall|t: int|
            0 <= t < r.keys_spec().len() ==> #[trigger] r.groups_spec()[t] == nodes_at(
                all_nodes@,
                walk_paths(all_nodes@),
                r.keys_spec()[t],
                all_nodes@.len() as int,
            ),
{
    let paths = all_node_paths(all_nodes);
    let ghost pv = walk_paths(all_nodes@);
    let mut cache = NodeCache { keys: Vec::new(), groups: Vec::new() };
    let mut n: usize = 0;
    while n < all_nodes.len()
        invariant
            n <= all_nodes@.len(),
            paths@.len() == all_nodes@.len(),
            pv.len() == all_nodes@.len(),
            forall|k: int| 0 <= k < paths@.len() ==> (#[trigger] paths@[k])@ == pv[k],
            pv == walk_paths(all_nodes@),
            cache.wf(),
            forall|i: int| 0 <= i < n ==> cache.keys_spec().contains(#[trigger] pv[i]),
            forall|t: int|
                0 <= t < cache.keys_spec().len() ==> exists|i: int|
                    0 <= i < n && pv[i] == #[trigger] cache.keys_spec()[t],
            forall|t: int|
                0 <= t < cache.keys_spec().len() ==> #[trigger] cache.groups_spec()[t] == nodes_at(
                    all_nodes@,
                    pv,
                    cache.keys_spec()[t],
                    n as int,
                ),
        decreases all_nodes@.len() - n,
    {
        let p = &paths[n];
        assert(p@ == pv[n as int]);
        let (pos, found) = sorted_position(&cache.keys, p);
        let ghost keys0 = cache.keys_spec();
        let ghost groups0 = cache.groups_spec();
        let node = all_nodes[n].copy();
        let ghost nv = all_nodes@[n as int]@;
        if found {
            let mut g = cache.groups.remove(pos);
            let ghost g0 = g@.map_values(|x: FdtNode| x@);
            assert(g0 == groups0[pos as int]);
            g.push(node);
            let ghost g1 = g@.map_values(|x: FdtNode| x@);
            assert(g1 =~= g0.push(nv));
            cache.groups.insert(pos, g);
            proof {
                assert(cache.groups_spec() =~= groups0.update(pos as int, g1));
                assert(cache.keys_spec() == keys0);
                assert forall|t: int|
                    0 <= t < cache.keys_spec().len() implies #[trigger] cache.groups_spec()[t]
                    == nodes_at(all_nodes@, pv, cache.keys_spec()[t], n + 1) by {
                    assert(groups0[t] == nodes_at(all_nodes@, pv, keys0[t], n as int));
                    if t == pos {
                        assert(keys0[t] == pv[n as int]);
                    } else {
                        if keys0[t] == pv[n as int] {
                            lemma_sorted_distinct(keys0, t, pos as int);
                        }
                    }
                }
                assert forall|i: int| 0 <= i < n + 1 implies cache.keys_spec().contains(
                    #[trigger] pv[i],
                ) by {
                    if i == n {
                        assert(cache.keys_spec()[pos as int] == pv[i]);
                    }
                }
                assert forall|t: int| 0 <= t < cache.keys_spec().len() implies exists|i: int|
                    0 <= i < n + 1 && pv[i] == #[trigger] cache.keys_spec()[t] by {
                    let i = choose|i: int| 0 <= i < n && pv[i] == keys0[t];
                    assert(pv[i] == cache.keys_spec()[t]);
                }
            }
        } else {
            proof {
                assert forall|i: int| 0 <= i < n implies pv[i] != pv[n as int] by {
                    if pv[i] == pv[n as int] {
                        assert(keys0.contains(pv[i]));
                        let t = choose|t: int| 0 <= t < keys0.len() && keys0[t] == pv[i];
                        assert(cache.keys@[t]@ == pv[i]);
                        if t < pos {
                        } else {
                        }
                        crate::fdt::sorted::lemma_lex_lt_irreflexive(pv[i]);
                    }
                }
                lemma_nodes_at_absent(all_nodes@, pv, pv[n as int], n as int);
                assert forall|i: int| 0 <= i < pos implies crate::fdt::sorted::lex_lt(
                    #[trigger] keys0[i],
                    p@,
                ) by {
                    assert(keys0[i] == cache.keys@[i]@);
                }
                assert forall|i: int| pos <= i < keys0.len() implies crate::fdt::sorted::lex_lt(
                    p@,
                    #[trigger] keys0[i],
                ) by {
                    assert(keys0[i] == cache.keys@[i]@);
                }
                lemma_insert_sorted(keys0, pos as int, p@);
            }
            cache.keys.insert(pos, copy_bytes(p));
            let mut g: Vec<FdtNode> = Vec::new();
            g.push(node);
            let ghost g1 = g@.map_values(|x: FdtNode| x@);
            assert(g1 =~= seq![nv]);
            cache.groups.insert(pos, g);
            proof {
                assert(cache.keys_spec() =~= keys0.insert(pos as int, p@));
                assert(cache.groups_spec() =~= groups0.insert(pos as int, g1));
                assert forall|t: int|
                    0 <= t < cache.keys_spec().len() implies #[trigger] cache.groups_spec()[t]
                    == nodes_at(all_nodes@, pv, cache.keys_spec()[t], n + 1) by {
                    if t == pos {
                        assert(nodes_at(all_nodes@, pv, p@, n + 1) =~= seq![nv]);
                    } else {
                        let t0 = if t < pos { t } else { t - 1 };
                        assert(cache.keys_spec()[t] == keys0[t0]);
                        assert(groups0[t0] == nodes_at(all_nodes@, pv, keys0[t0], n as int));
                        if keys0[t0] == pv[n as int] {
                            let i = choose|i: int| 0 <= i < n && pv[i] == keys0[t0];
                            assert(pv[i] != pv[n as int]);
                        }
                    }
                }
                assert forall|i: int| 0 <= i < n + 1 implies cache.keys_spec().contains(
                    #[trigger] pv[i],
                ) by {
                    if i == n {
                        assert(cache.keys_spec()[pos as int] == pv[i]);
                    } else {
                        assert(keys0.contains(pv[i]));
                        let t = choose|t: int| 0 <= t < keys0.len() && keys0[t] == pv[i];
                        if t < pos {
                            assert(cache.keys_spec()[t] == pv[i]);
                        } else {
                            assert(cache.keys_spec()[t + 1] == pv[i]);
                        }
                    }
                }
                assert forall|t: int| 0 <= t < cache.keys_spec().len() implies exists|i: int|
                    0 <= i < n + 1 && pv[i] == #[trigger] cache.keys_spec()[t] by {
                    if t == pos {
                        assert(pv[n as int] == cache.keys_spec()[t]);
                    } else {
                        let t0 = if t < pos { t } else { t - 1 };
                        assert(cache.keys_spec()[t] == keys0[t0]);
                        let i = choose|i: int| 0 <= i < n && pv[i] == keys0[t0];
                        assert(pv[i] == cache.keys_spec()[t]);
                    }
                }
            }
        }
        n = n + 1;
    }
    proof {
        assert(cache.keys_spec().to_set() =~= pv.to_set()) by {
            assert forall|x: Seq<u8>| cache.keys_spec().to_set().contains(x) <==> pv.to_set().contains(
                x,
            ) by {
                if cache.keys_spec().contains(x) {
                    let t = choose|t: int| 0 <= t < cache.keys_spec().len() && cache.keys_spec()[t] == x;
                    assert(cache.keys_spec()[t] == x);
                }
                if pv.contains(x) {
                    let i = choose|i: int| 0 <= i < pv.len() && pv[i] == x;
                    assert(cache.keys_spec().contains(pv[i]));
                }
            }
        }
    }
    cache
}

} // verus!
