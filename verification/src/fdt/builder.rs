//! Editing the host device tree into a guest's: dropping the CPUs the
//! guest does not get, replacing the memory nodes, and filling in the
//! `/chosen` node.
use vstd::prelude::*;

use crate::fdt::node::{FdtNode, FdtNodeView};

verus! {

/// The contents of the nodes of a walk, in order.
pub open spec fn node_views(nodes: Seq<FdtNode>) -> Seq<FdtNodeView> {
    nodes.map_values(|n: FdtNode| n@)
}

/// Whether node `j` of a walk lies in the subtree of node `i`: it is `i`
/// or comes after it before the walk climbs back to `i`'s level.
pub open spec fn in_subtree(nodes: Seq<FdtNode>, i: int, j: int) -> bool {
    &&& 0 <= i <= j < nodes.len()
    &&& forall|k: int| i < k <= j ==> #[trigger] nodes[k].level > nodes[i].level
}

/// Whether node `j` goes when the selected nodes go with their subtrees.
pub open spec fn removed(nodes: Seq<FdtNode>, sel: Seq<bool>, j: int) -> bool {
    exists|i: int| 0 <= i <= j && sel[i] && #[trigger] in_subtree(nodes, i, j)
}

/// The contents of the first `n` nodes that stay when the selected nodes go
/// with their subtrees.
pub open spec fn kept_nodes(nodes: Seq<FdtNode>, sel: Seq<bool>, n: int) -> Seq<FdtNodeView>
    decreases n,
{
    if n <= 0 {
        Seq::empty()
    } else if removed(nodes, sel, n - 1) {
        kept_nodes(nodes, sel, n - 1)
    } else {
        kept_nodes(nodes, sel, n - 1).push(nodes[n - 1]@)
    }
}

/// The nodes of a walk without the selected nodes and their subtrees.
pub fn remove_subtrees(nodes: &[FdtNode], sel: &[bool]) -> (r: Vec<FdtNode>)
    requires
        sel@.len() == nodes@.len(),
    ensures
        node_views(r@) == kept_nodes(nodes@, sel@, nodes@.len() as int),
{
    let ghost ns = nodes@;
    let ghost ss = sel@;
    let mut out: Vec<FdtNode> = Vec::new();
    let mut skip: Option<usize> = None;
    let mut j: usize = 0;
    proof {
        assert(node_views(out@) =~= Seq::<FdtNodeView>::empty());
    }
    while j < nodes.len()
        invariant
            j <= ns.len(),
            ns == nodes@,
            ss == sel@,
            ss.len() == ns.len(),
            node_views(out@) == kept_nodes(ns, ss, j as int),
            skip is None && j > 0 ==> forall|i: int|
                0 <= i < j && ss[i] ==> !#[trigger] in_subtree(ns, i, j - 1),
            skip is Some ==> j > 0 && (exists|i: int|
                0 <= i < j && ss[i] && #[trigger] in_subtree(ns, i, j - 1) && ns[i].level == skip->0)
                && forall|i: int|
                0 <= i < j && ss[i] && #[trigger] in_subtree(ns, i, j - 1) ==> ns[i].level >= skip->0,
        decreases ns.len() - j,
    {
        let lv = nodes[j].level;
        let ghost before = node_views(out@);
        let mut gone = false;
        match skip {
            Some(l) => {
                if lv > l {
                    gone = true;
                    proof {
                        let w = choose|i: int|
                            0 <= i < j && ss[i] && #[trigger] in_subtree(ns, i, j - 1) && ns[i].level == l;
                        assert(in_subtree(ns, w, j as int));
                        assert(removed(ns, ss, j as int));
                    }
                } else {
                    skip = None;
                    proof {
                        assert forall|i: int| 0 <= i < j && ss[i] implies !#[trigger] in_subtree(ns, i, j as int) by {
                            if in_subtree(ns, i, j as int) {
                                assert(in_subtree(ns, i, j - 1));
                                assert(ns[i].level >= l);
                                assert(ns[j as int].level > ns[i].level);
                            }
                        }
                    }
                }
            },
            None => {
                proof {
                    assert forall|i: int| 0 <= i < j && ss[i] implies !#[trigger] in_subtree(ns, i, j as int) by {
                        if in_subtree(ns, i, j as int) {
                            assert(in_subtree(ns, i, j - 1));
                        }
                    }
                }
            },
        }
        if !gone {
            if sel[j] {
                skip = Some(lv);
                proof {
                    assert(in_subtree(ns, j as int, j as int));
                    assert(removed(ns, ss, j as int));
                }
            } else {
                out.push(nodes[j].copy());
                proof {
                    assert(node_views(out@) =~= before.push(ns[j as int]@));
                    if removed(ns, ss, j as int) {
                        let i = choose|i: int| 0 <= i <= j && ss[i] && #[trigger] in_subtree(ns, i, j as int);
                        assert(i != j);
                    }
                }
            }
        }
        proof {
            if skip is Some {
                let l = skip->0;
                if gone {
                    assert forall|i: int| 0 <= i < j + 1 && ss[i] && #[trigger] in_subtree(ns, i, j as int) implies ns[i].level >= l by {
                        if i < j {
                            assert(in_subtree(ns, i, j - 1));
                        }
                    }
                    let w = choose|i: int|
                        0 <= i < j && ss[i] && #[trigger] in_subtree(ns, i, j - 1) && ns[i].level == l;
                    assert(in_subtree(ns, w, j as int));
                } else {
                    assert(in_subtree(ns, j as int, j as int));
                    assert forall|i: int| 0 <= i < j + 1 && ss[i] && #[trigger] in_subtree(ns, i, j as int) implies ns[i].level >= l by {
                    }
                }
            }
        }
        j = j + 1;
    }
    out
}

} // verus!

verus! {

/// The value of the first property named `name`, if any.
pub open spec fn find_prop(props: Seq<(Seq<u8>, Seq<u8>)>, name: Seq<u8>) -> Option<Seq<u8>>
    decreases props.len(),
{
    if props.len() == 0 {
        None
    } else if props[0].0 == name {
        Some(props[0].1)
    } else {
        find_prop(props.drop_first(), name)
    }
}

/// The value of the first property of `node` named `lit`, if any.
pub fn find_property<'a>(node: &'a FdtNode, lit: &str) -> (r: Option<&'a Vec<u8>>)
    ensures
        match find_prop(node@.properties, crate::fdt::bytes::ascii_bytes(lit@)) {
            Some(v) => r is Some && r->0@ == v,
            None => r is None,
        },
{
    let ghost ps = node@.properties;
    let ghost name = crate::fdt::bytes::ascii_bytes(lit@);
    let mut i: usize = 0;
    assert(ps.subrange(0, ps.len() as int) =~= ps);
    while i < node.properties.len()
        invariant
            i <= ps.len(),
            ps == node@.properties,
            name == crate::fdt::bytes::ascii_bytes(lit@),
            find_prop(ps, name) == find_prop(ps.subrange(i as int, ps.len() as int), name),
        decreases ps.len() - i,
    {
        let p = &node.properties[i];
        proof {
            assert(ps.subrange(i as int, ps.len() as int)[0] == p@);
            assert(ps.subrange(i as int, ps.len() as int).drop_first() =~= ps.subrange(i + 1, ps.len() as int));
        }
        if crate::fdt::bytes::bytes_eq_str(&p.name, lit) {
            return Some(&p.value);
        }
        i = i + 1;
    }
    None
}

/// The big-endian number in the first four bytes of `v`.
pub open spec fn be32_at(v: Seq<u8>, off: int) -> int {
    v[off] * 0x100_0000 + v[off + 1] * 0x1_0000 + v[off + 2] * 0x100 + v[off + 3]
}

/// The first address of a `reg` value with addresses of `cells` cells:
/// one or two big-endian 32-bit cells; none for other cell counts or a
/// value too short.
pub open spec fn reg_address(v: Seq<u8>, cells: u32) -> Option<u64> {
    if cells == 1 && v.len() >= 4 {
        Some(be32_at(v, 0) as u64)
    } else if cells == 2 && v.len() >= 8 {
        Some((be32_at(v, 0) * 0x1_0000_0000 + be32_at(v, 4)) as u64)
    } else {
        None
    }
}

/// The first address of a `reg` value with addresses of `cells` cells.
pub fn first_reg_address(v: &[u8], cells: u32) -> (r: Option<u64>)
    ensures
        r == reg_address(v@, cells),
{
    if cells == 1 && v.len() >= 4 {
        Some((v[0] as u64) * 0x100_0000 + (v[1] as u64) * 0x1_0000 + (v[2] as u64) * 0x100 + v[3] as u64)
    } else if cells == 2 && v.len() >= 8 {
        let hi = (v[0] as u64) * 0x100_0000 + (v[1] as u64) * 0x1_0000 + (v[2] as u64) * 0x100 + v[3] as u64;
        let lo = (v[4] as u64) * 0x100_0000 + (v[5] as u64) * 0x1_0000 + (v[6] as u64) * 0x100 + v[7] as u64;
        Some(hi * 0x1_0000_0000 + lo)
    } else {
        None
    }
}

/// The number of cells of the addresses of a node's children: its
/// `#address-cells`, 2 when it has none or too short a one.
pub open spec fn address_cells_of(node: FdtNodeView) -> u32 {
    match find_prop(node.properties, crate::fdt::bytes::ascii_bytes("#address-cells"@)) {
        Some(v) => if v.len() >= 4 { be32_at(v, 0) as u32 } else { 2 },
        None => 2,
    }
}

/// The number of cells of the addresses of a node's children.
pub fn address_cells(node: &FdtNode) -> (r: u32)
    ensures
        r == address_cells_of(node@),
{
    match find_property(node, "#address-cells") {
        Some(v) => if v.len() >= 4 {
            (v[0] as u32) * 0x100_0000 + (v[1] as u32) * 0x1_0000 + (v[2] as u32) * 0x100 + v[3] as u32
        } else {
            2
        },
        None => 2,
    }
}

} // verus!

verus! {

/// Whether a node at `path` is found by a search for `pattern`: its path
/// starts with the pattern and has no further `/` after it (so `/cpus/cpu`
/// finds `/cpus/cpu@0` but not `/cpus/cpu@0/cache`).
pub open spec fn matches_path(path: Seq<u8>, pattern: Seq<u8>) -> bool {
    &&& crate::fdt::bytes::is_prefix(pattern, path)
    &&& !path.subrange(pattern.len() as int, path.len() as int).contains(crate::fdt::bytes::slash())
}

/// Whether a node at `path` is found by a search for the text `lit`.
pub fn matches_path_str(path: &[u8], lit: &str) -> (r: bool)
    ensures
        r == matches_path(path@, crate::fdt::bytes::ascii_bytes(lit@)),
{
    let pattern = crate::fdt::bytes::str_to_bytes(lit);
    if !crate::fdt::bytes::starts_with(path, &pattern) {
        return false;
    }
    let ghost tail = path@.subrange(pattern@.len() as int, path@.len() as int);
    let mut i: usize = pattern.len();
    while i < path.len()
        invariant
            pattern@.len() <= i <= path@.len(),
            pattern@ == crate::fdt::bytes::ascii_bytes(lit@),
            crate::fdt::bytes::is_prefix(pattern@, path@),
            tail == path@.subrange(pattern@.len() as int, path@.len() as int),
            forall|k: int| 0 <= k < i - pattern@.len() ==> tail[k] != 47u8,
        decreases path@.len() - i,
    {
        if path[i] == 47u8 {
            assert(tail[i - pattern@.len()] == 47u8);
            assert(tail.contains(crate::fdt::bytes::slash()));
            return false;
        }
        i = i + 1;
    }
    true
}

/// The index of the first node from `k` on whose path is `path`, if any.
pub open spec fn first_at_path(nodes: Seq<FdtNode>, path: Seq<u8>, k: int) -> Option<int>
    decreases nodes.len() - k,
{
    if k < 0 || k >= nodes.len() {
        None
    } else if crate::fdt::path::node_path(nodes, k) == path {
        Some(k)
    } else {
        first_at_path(nodes, path, k + 1)
    }
}

/// The index of the first node whose path is the text `lit`, if any.
fn find_node_at(paths: &Vec<Vec<u8>>, lit: &str, Ghost(nodes): Ghost<Seq<FdtNode>>) -> (r: Option<usize>)
    requires
        paths@.len() == nodes.len(),
        forall|i: int| 0 <= i < paths@.len() ==> (#[trigger] paths@[i])@ == crate::fdt::path::node_path(nodes, i),
    ensures
        match first_at_path(nodes, crate::fdt::bytes::ascii_bytes(lit@), 0) {
            Some(i) => r == Some(i as usize),
            None => r is None,
        },
{
    let ghost target = crate::fdt::bytes::ascii_bytes(lit@);
    let mut i: usize = 0;
    while i < paths.len()
        invariant
            i <= paths@.len(),
            paths@.len() == nodes.len(),
            forall|k: int| 0 <= k < paths@.len() ==> (#[trigger] paths@[k])@ == crate::fdt::path::node_path(nodes, k),
            target == crate::fdt::bytes::ascii_bytes(lit@),
            first_at_path(nodes, target, 0) == first_at_path(nodes, target, i as int),
        decreases paths@.len() - i,
    {
        assert(paths@[i as int]@ == crate::fdt::path::node_path(nodes, i as int));
        if crate::fdt::bytes::bytes_eq_str(&paths[i], lit) {
            return Some(i);
        }
        i = i + 1;
    }
    None
}

/// The number of address cells under the node at the text path `lit`: 2
/// when there is no such node.
pub open spec fn cells_at(nodes: Seq<FdtNode>, lit: Seq<char>) -> u32 {
    match first_at_path(nodes, crate::fdt::bytes::ascii_bytes(lit), 0) {
        Some(i) => address_cells_of(nodes[i]@),
        None => 2,
    }
}

/// Whether a walk's node `j` is a CPU node that a guest with vCPUs on
/// `hard_ids` does not get: a node found by `/cpus/cpu` whose first `reg`
/// address is none of them, or that has no address.
pub open spec fn cpu_dropped(nodes: Seq<FdtNode>, hard_ids: Seq<crate::cpu::CpuHardId>, j: int) -> bool {
    &&& matches_path(crate::fdt::path::node_path(nodes, j), crate::fdt::bytes::ascii_bytes("/cpus/cpu"@))
    &&& !(match find_prop(nodes[j]@.properties, crate::fdt::bytes::ascii_bytes("reg"@)) {
        Some(v) => match reg_address(v, cells_at(nodes, "/cpus"@)) {
            Some(a) => hard_ids.contains(crate::cpu::CpuHardId(a as usize)),
            None => false,
        },
        None => false,
    })
}

/// Whether `ids` holds `id`.
fn contains_hard_id(ids: &[crate::cpu::CpuHardId], id: crate::cpu::CpuHardId) -> (r: bool)
    ensures
        r == ids@.contains(id),
{
    let mut i: usize = 0;
    while i < ids.len()
        invariant
            i <= ids@.len(),
            forall|k: int| 0 <= k < i ==> ids@[k] != id,
        decreases ids@.len() - i,
    {
        if ids[i].0 == id.0 {
            assert(ids@[i as int] == id);
            return true;
        }
        i = i + 1;
    }
    false
}

/// The host device tree being edited into a guest's, as a depth-first walk.
pub struct FdtBuilder {
    nodes: Vec<FdtNode>,
}

/// Why a guest device tree could not be built.
#[derive(Debug, Clone, Copy, PartialEq, Eq, Structural)]
pub enum FdtBuildError {
    /// The host has no device tree.
    NoFdt,
    /// The tree has no `/chosen` node.
    NoChosen,
}

impl FdtBuilder {
    /// The walk being edited.
    pub closed spec fn nodes_spec(&self) -> Seq<FdtNode> {
        self.nodes@
    }

    /// Whether every node of the walk has a level of at least 1.
    pub open spec fn wf(&self) -> bool {
        crate::fdt::path::levels_valid(self.nodes_spec(), self.nodes_spec().len() as int)
    }

    /// A builder over the host tree, refused when the host has none.
    pub fn new(host: Option<Vec<FdtNode>>) -> (r: Result<Self, FdtBuildError>)
        ensures
            match host {
                Some(nodes) => r is Ok && r->Ok_0.nodes_spec() == nodes@,
                None => r == Err::<Self, FdtBuildError>(FdtBuildError::NoFdt),
            },
    {
        match host {
            Some(nodes) => Ok(FdtBuilder { nodes }),
            None => Err(FdtBuildError::NoFdt),
        }
    }

    /// The edited walk, to be encoded as a device tree blob.
    pub fn build(self) -> (r: Vec<FdtNode>)
        ensures
            r@ == self.nodes_spec(),
    {
        self.nodes
    }

    /// Drops every CPU node whose first address is not the hardware
    /// identifier of one of the guest's vCPUs, with the nodes under it.
    pub fn setup_cpus(&mut self, vcpu_hard_ids: &[crate::cpu::CpuHardId])
        requires
            old(self).wf(),
        ensures
            final(self).wf(),
            node_views(final(self).nodes_spec()) == kept_nodes(
                old(self).nodes_spec(),
                Seq::new(
                    old(self).nodes_spec().len(),
                    |j: int| cpu_dropped(old(self).nodes_spec(), vcpu_hard_ids@, j),
                ),
                old(self).nodes_spec().len() as int,
            ),
    {
        let ghost ns = self.nodes@;
        let paths = crate::fdt::path::all_node_paths(&self.nodes);
        proof {
            lemma_first_at_path(ns, crate::fdt::bytes::ascii_bytes("/cpus"@), 0);
        }
        let found = find_node_at(&paths, "/cpus", Ghost(ns));
        let cells = match found {
            Some(i) => address_cells(&self.nodes[i]),
            None => 2,
        };
        proof {
            let fp = first_at_path(ns, crate::fdt::bytes::ascii_bytes("/cpus"@), 0);
            match fp {
                Some(i) => {
                    assert(ns.len() == self.nodes.len());
                    assert(found == Some(i as usize));
                    assert(cells == address_cells_of(ns[i]@));
                },
                None => {
                    assert(found is None);
                },
            }
        }
        assert(cells == cells_at(ns, "/cpus"@));
        let ghost want = Seq::new(ns.len(), |j: int| cpu_dropped(ns, vcpu_hard_ids@, j));
        let mut sel: Vec<bool> = Vec::new();
        let mut j: usize = 0;
        while j < self.nodes.len()
            invariant
                j <= ns.len(),
                ns == self.nodes@,
                paths@.len() == ns.len(),
                forall|i: int| 0 <= i < paths@.len() ==> (#[trigger] paths@[i])@ == crate::fdt::path::node_path(ns, i),
                cells == cells_at(ns, "/cpus"@),
                want == Seq::new(ns.len(), |j: int| cpu_dropped(ns, vcpu_hard_ids@, j)),
                sel@ == want.subrange(0, j as int),
            decreases ns.len() - j,
        {
            assert(paths@[j as int]@ == crate::fdt::path::node_path(ns, j as int));
            let mut drop = false;
            if matches_path_str(&paths[j], "/cpus/cpu") {
                drop = true;
                match find_property(&self.nodes[j], "reg") {
                    Some(v) => match first_reg_address(v, cells) {
                        Some(a) => {
                            if contains_hard_id(vcpu_hard_ids, crate::cpu::CpuHardId(a as usize)) {
                                drop = false;
                            }
                        },
                        None => {},
                    },
                    None => {},
                }
            }
            sel.push(drop);
            j = j + 1;
            assert(sel@ =~= want.subrange(0, j as int));
        }
        assert(want.subrange(0, j as int) =~= want);
        let kept = remove_subtrees(&self.nodes, &sel);
        proof {
            lemma_kept_levels(ns, want, ns.len() as int);
        }
        self.nodes = kept;
        proof {
            lemma_views_levels(self.nodes@);
        }
    }
}

/// The nodes kept from a walk whose levels are all at least 1 have levels
/// of at least 1.
proof fn lemma_kept_levels(nodes: Seq<FdtNode>, sel: Seq<bool>, n: int)
    requires
        crate::fdt::path::levels_valid(nodes, nodes.len() as int),
        n <= nodes.len(),
    ensures
        forall|k: int| 0 <= k < kept_nodes(nodes, sel, n).len() ==> (#[trigger] kept_nodes(nodes, sel, n)[k]).level >= 1,
    decreases n,
{
    if n > 0 {
        lemma_kept_levels(nodes, sel, n - 1);
        assert(nodes[n - 1].level >= 1);
        let prev = kept_nodes(nodes, sel, n - 1);
        let cur = kept_nodes(nodes, sel, n);
        assert forall|k: int| 0 <= k < cur.len() implies (#[trigger] cur[k]).level >= 1 by {
            if k < prev.len() {
                assert(cur[k] == prev[k]);
            }
        }
    }
}

/// A node found from index `k` on lies from `k` on and has the path.
proof fn lemma_first_at_path(nodes: Seq<FdtNode>, path: Seq<u8>, k: int)
    requires
        0 <= k,
    ensures
        first_at_path(nodes, path, k) matches Some(i) ==> k <= i < nodes.len()
            && crate::fdt::path::node_path(nodes, i) == path,
    decreases nodes.len() - k,
{
    if k < nodes.len() && crate::fdt::path::node_path(nodes, k) != path {
        lemma_first_at_path(nodes, path, k + 1);
    }
}

/// Levels read through the contents of the nodes are the nodes' levels.
proof fn lemma_views_levels(nodes: Seq<FdtNode>)
    requires
        forall|k: int| 0 <= k < node_views(nodes).len() ==> (#[trigger] node_views(nodes)[k]).level >= 1,
    ensures
        crate::fdt::path::levels_valid(nodes, nodes.len() as int),
{
    assert forall|k: int| 0 <= k < nodes.len() implies (#[trigger] nodes[k]).level >= 1 by {
        assert(node_views(nodes)[k].level == nodes[k].level);
    }
}

} // verus!

verus! {

/// The decimal digits of `n`, most significant first.
pub open spec fn decimal(n: nat) -> Seq<u8>
    decreases n,
{
    if n < 10 {
        seq![(48 + n) as u8]
    } else {
        decimal(n / 10).push((48 + n % 10) as u8)
    }
}

/// The decimal digits of `n`.
pub fn decimal_bytes(n: usize) -> (r: Vec<u8>)
    ensures
        r@ == decimal(n as nat),
{
    let mut m = n;
    let mut tail: Vec<u8> = Vec::new();
    while m >= 10
        invariant
            decimal(n as nat) == decimal(m as nat) + tail@,
        decreases m,
    {
        let d = (48 + m % 10) as u8;
        let ghost before = tail@;
        tail.insert(0, d);
        proof {
            assert(decimal(m as nat) == decimal((m / 10) as nat).push(d));
            assert(decimal((m / 10) as nat) + tail@ =~= decimal((m / 10) as nat).push(d) + before);
        }
        m = m / 10;
    }
    let mut out: Vec<u8> = Vec::new();
    out.push((48 + m) as u8);
    let mut i: usize = 0;
    while i < tail.len()
        invariant
            i <= tail@.len(),
            out@ == seq![(48 + m) as u8] + tail@.subrange(0, i as int),
        decreases tail@.len() - i,
    {
        out.push(tail[i]);
        i = i + 1;
        assert(out@ =~= seq![(48 + m) as u8] + tail@.subrange(0, i as int));
    }
    assert(tail@.subrange(0, i as int) =~= tail@);
    assert(decimal(m as nat) == seq![(48 + m) as u8]);
    out
}

/// The `n` bytes of `x`, big-endian, keeping its low `8 * n` bits.
pub open spec fn be_bytes(x: int, n: nat) -> Seq<u8>
    decreases n,
{
    if n == 0 {
        Seq::empty()
    } else {
        be_bytes(x / 256, (n - 1) as nat).push((x % 256) as u8)
    }
}

/// The bytes of `x` as `cells` big-endian 32-bit cells: one cell when
/// `cells` is 1, else two.
pub open spec fn cells_bytes(x: u64, cells: u32) -> Seq<u8> {
    if cells == 1 {
        be_bytes(x as int, 4)
    } else {
        be_bytes(x as int, 8)
    }
}

/// The bytes of `x` as `cells` big-endian 32-bit cells.
pub fn encode_cells(x: u64, cells: u32) -> (r: Vec<u8>)
    ensures
        r@ == cells_bytes(x, cells),
{
    let n: usize = if cells == 1 { 4 } else { 8 };
    let mut k: usize = 0;
    let mut shift_div: u64 = x;
    let mut digits: Vec<u8> = Vec::new();
    while k < n
        invariant
            k <= n,
            n == 4 || n == 8,
            (n == 4) == (cells == 1),
            be_bytes(x as int, n as nat) == be_bytes(shift_div as int, (n - k) as nat) + digits@,
        decreases n - k,
    {
        let d = (shift_div % 256) as u8;
        let ghost before = digits@;
        digits.insert(0, d);
        proof {
            assert(be_bytes(shift_div as int, (n - k) as nat) == be_bytes(shift_div as int / 256, (n - k - 1) as nat).push(d));
            assert(be_bytes((shift_div / 256) as int, (n - k - 1) as nat) + digits@ =~= be_bytes(shift_div as int / 256, (n - k - 1) as nat).push(d) + before);
        }
        shift_div = shift_div / 256;
        k = k + 1;
    }
    assert(be_bytes(shift_div as int, 0) + digits@ =~= digits@);
    digits
}

/// The number of size cells of a node's children: its `#size-cells`, 2
/// when it has none or too short a one.
pub open spec fn size_cells_of(node: FdtNodeView) -> u32 {
    match find_prop(node.properties, crate::fdt::bytes::ascii_bytes("#size-cells"@)) {
        Some(v) => if v.len() >= 4 { be32_at(v, 0) as u32 } else { 2 },
        None => 2,
    }
}

/// The number of size cells of a node's children.
pub fn size_cells(node: &FdtNode) -> (r: u32)
    ensures
        r == size_cells_of(node@),
{
    match find_property(node, "#size-cells") {
        Some(v) => if v.len() >= 4 {
            (v[0] as u32) * 0x100_0000 + (v[1] as u32) * 0x1_0000 + (v[2] as u32) * 0x100 + v[3] as u32
        } else {
            2
        },
        None => 2,
    }
}

/// The node `memory@<i>` describing a region of `size` bytes at `gpa`,
/// with the root's address and size cells.
pub open spec fn memory_node_view(i: nat, gpa: u64, size: u64, ac: u32, sc: u32) -> FdtNodeView {
    FdtNodeView {
        level: 2,
        name: crate::fdt::bytes::ascii_bytes("memory@"@) + decimal(i),
        properties: seq![
            (crate::fdt::bytes::ascii_bytes("device_type"@), crate::fdt::bytes::ascii_bytes("memory"@).push(0u8)),
            (crate::fdt::bytes::ascii_bytes("reg"@), cells_bytes(gpa, ac) + cells_bytes(size, sc)),
        ],
    }
}

} // verus!

verus! {

/// The `memory@<i>` nodes for the regions of `mems`, in order.
pub open spec fn memory_nodes(mems: Seq<crate::vm::addrspace::GuestMemory>, ac: u32, sc: u32) -> Seq<FdtNodeView> {
    Seq::new(
        mems.len(),
        |i: int| memory_node_view(i as nat, mems[i].gpa_spec() as u64, mems[i].size_spec() as u64, ac, sc),
    )
}

/// A node named `name` at `level` with the given properties.
fn new_node(level: usize, name: Vec<u8>, properties: Vec<crate::fdt::node::FdtProperty>) -> (r: FdtNode)
    ensures
        r.level == level,
        r.name@ == name@,
        r.properties@ == properties@,
{
    FdtNode { level, name, properties }
}

impl FdtBuilder {
    /// Replaces the memory nodes: drops every node found by `/memory`,
    /// with the nodes under it, and adds under the root a node
    /// `memory@<i>` for each region of `memories`, in order, with its
    /// `device_type` and its `reg` in the root's cells.
    pub fn setup_memory(&mut self, memories: &[crate::vm::addrspace::GuestMemory])
        requires
            old(self).wf(),
        ensures
            final(self).wf(),
            node_views(final(self).nodes_spec()) == kept_nodes(
                old(self).nodes_spec(),
                Seq::new(
                    old(self).nodes_spec().len(),
                    |j: int| matches_path(
                        crate::fdt::path::node_path(old(self).nodes_spec(), j),
                        crate::fdt::bytes::ascii_bytes("/memory"@),
                    ),
                ),
                old(self).nodes_spec().len() as int,
            ) + memory_nodes(
                memories@,
                cells_at(old(self).nodes_spec(), "/"@),
                match first_at_path(old(self).nodes_spec(), crate::fdt::bytes::ascii_bytes("/"@), 0) {
                    Some(i) => size_cells_of(old(self).nodes_spec()[i]@),
                    None => 2,
                },
            ),
    {
        let ghost ns = self.nodes@;
        let paths = crate::fdt::path::all_node_paths(&self.nodes);
        proof {
            lemma_first_at_path(ns, crate::fdt::bytes::ascii_bytes("/"@), 0);
            assert(ns.len() == self.nodes.len());
        }
        let root = find_node_at(&paths, "/", Ghost(ns));
        let (ac, sc) = match root {
            Some(i) => (address_cells(&self.nodes[i]), size_cells(&self.nodes[i])),
            None => (2, 2),
        };
        let ghost want = Seq::new(
            ns.len(),
            |j: int| matches_path(crate::fdt::path::node_path(ns, j), crate::fdt::bytes::ascii_bytes("/memory"@)),
        );
        let mut sel: Vec<bool> = Vec::new();
        let mut j: usize = 0;
        while j < self.nodes.len()
            invariant
                j <= ns.len(),
                ns == self.nodes@,
                paths@.len() == ns.len(),
                forall|i: int| 0 <= i < paths@.len() ==> (#[trigger] paths@[i])@ == crate::fdt::path::node_path(ns, i),
                want == Seq::new(
                    ns.len(),
                    |j: int| matches_path(crate::fdt::path::node_path(ns, j), crate::fdt::bytes::ascii_bytes("/memory"@)),
                ),
                sel@ == want.subrange(0, j as int),
            decreases ns.len() - j,
        {
            assert(paths@[j as int]@ == crate::fdt::path::node_path(ns, j as int));
            sel.push(matches_path_str(&paths[j], "/memory"));
            j = j + 1;
            assert(sel@ =~= want.subrange(0, j as int));
        }
        assert(want.subrange(0, j as int) =~= want);
        let mut out = remove_subtrees(&self.nodes, &sel);
        let ghost kept = node_views(out@);
        proof {
            lemma_kept_levels(ns, want, ns.len() as int);
        }
        let mut i: usize = 0;
        while i < memories.len()
            invariant
                i <= memories@.len(),
                node_views(out@) == kept + memory_nodes(memories@.subrange(0, i as int), ac, sc),
                forall|k: int| 0 <= k < node_views(out@).len() ==> (#[trigger] node_views(out@)[k]).level >= 1,
            decreases memories@.len() - i,
        {
            let m = &memories[i];
            let mut name = crate::fdt::bytes::str_to_bytes("memory@");
            let digits = decimal_bytes(i);
            let mut k: usize = 0;
            let ghost base = name@;
            while k < digits.len()
                invariant
                    k <= digits@.len(),
                    name@ == base + digits@.subrange(0, k as int),
                decreases digits@.len() - k,
            {
                name.push(digits[k]);
                k = k + 1;
                assert(name@ =~= base + digits@.subrange(0, k as int));
            }
            assert(digits@.subrange(0, k as int) =~= digits@);
            let mut memory_value = crate::fdt::bytes::str_to_bytes("memory");
            memory_value.push(0u8);
            let mut reg = encode_cells(m.gpa().0 as u64, ac);
            let size_bytes = encode_cells(m.size() as u64, sc);
            let ghost rb = reg@;
            let mut t: usize = 0;
            while t < size_bytes.len()
                invariant
                    t <= size_bytes@.len(),
                    reg@ == rb + size_bytes@.subrange(0, t as int),
                decreases size_bytes@.len() - t,
            {
                reg.push(size_bytes[t]);
                t = t + 1;
                assert(reg@ =~= rb + size_bytes@.subrange(0, t as int));
            }
            assert(size_bytes@.subrange(0, t as int) =~= size_bytes@);
            let mut props: Vec<crate::fdt::node::FdtProperty> = Vec::new();
            props.push(crate::fdt::node::FdtProperty {
                name: crate::fdt::bytes::str_to_bytes("device_type"),
                value: memory_value,
            });
            props.push(crate::fdt::node::FdtProperty { name: crate::fdt::bytes::str_to_bytes("reg"), value: reg });
            let node = new_node(2, name, props);
            let ghost before = node_views(out@);
            out.push(node);
            proof {
                assert(node@.properties =~= memory_node_view(
                    i as nat,
                    memories@[i as int].gpa_spec() as u64,
                    memories@[i as int].size_spec() as u64,
                    ac,
                    sc,
                ).properties);
                assert(node@ == memory_node_view(
                    i as nat,
                    memories@[i as int].gpa_spec() as u64,
                    memories@[i as int].size_spec() as u64,
                    ac,
                    sc,
                ));
                assert(node_views(out@) =~= before.push(node@));
                assert(memory_nodes(memories@.subrange(0, i + 1), ac, sc) =~= memory_nodes(
                    memories@.subrange(0, i as int),
                    ac,
                    sc,
                ).push(node@));
                assert(node_views(out@) =~= kept + memory_nodes(memories@.subrange(0, i + 1), ac, sc));
                assert forall|k: int| 0 <= k < node_views(out@).len() implies (#[trigger] node_views(out@)[k]).level >= 1 by {
                    if k < before.len() {
                        assert(node_views(out@)[k] == before[k]);
                    }
                }
            }
            i = i + 1;
        }
        assert(memories@.subrange(0, i as int) =~= memories@);
        proof {
            match first_at_path(ns, crate::fdt::bytes::ascii_bytes("/"@), 0) {
                Some(r) => {
                    assert(root == Some(r as usize));
                },
                None => {},
            }
        }
        self.nodes = out;
        proof {
            lemma_views_levels(self.nodes@);
        }
    }
}

} // verus!

verus! {

/// The index of the first property from `k` on named `name`, if any.
pub open spec fn prop_index(props: Seq<(Seq<u8>, Seq<u8>)>, name: Seq<u8>, k: int) -> Option<int>
    decreases props.len() - k,
{
    if k < 0 || k >= props.len() {
        None
    } else if props[k].0 == name {
        Some(k)
    } else {
        prop_index(props, name, k + 1)
    }
}

/// The properties with the first one named `name` given `value`, or with
/// a property `name` of that value added when there is none.
pub open spec fn with_prop(props: Seq<(Seq<u8>, Seq<u8>)>, name: Seq<u8>, value: Seq<u8>) -> Seq<(Seq<u8>, Seq<u8>)> {
    match prop_index(props, name, 0) {
        Some(i) => props.update(i, (name, value)),
        None => props.push((name, value)),
    }
}

/// The properties without those named `name`.
pub open spec fn without_prop(props: Seq<(Seq<u8>, Seq<u8>)>, name: Seq<u8>) -> Seq<(Seq<u8>, Seq<u8>)>
    decreases props.len(),
{
    if props.len() == 0 {
        Seq::empty()
    } else if props.last().0 == name {
        without_prop(props.drop_last(), name)
    } else {
        without_prop(props.drop_last(), name).push(props.last())
    }
}

/// The contents of a list of properties.
pub open spec fn prop_views(props: Seq<crate::fdt::node::FdtProperty>) -> Seq<(Seq<u8>, Seq<u8>)> {
    props.map_values(|p: crate::fdt::node::FdtProperty| p@)
}

proof fn lemma_prop_index(props: Seq<(Seq<u8>, Seq<u8>)>, name: Seq<u8>, k: int)
    requires
        0 <= k,
    ensures
        prop_index(props, name, k) matches Some(i) ==> k <= i < props.len() && props[i].0 == name,
    decreases props.len() - k,
{
    if k < props.len() && props[k].0 != name {
        lemma_prop_index(props, name, k + 1);
    }
}

/// Gives the first property named `lit` the value `value`, or adds it.
fn set_property(props: &mut Vec<crate::fdt::node::FdtProperty>, lit: &str, value: Vec<u8>)
    ensures
        prop_views(final(props)@) == with_prop(prop_views(old(props)@), crate::fdt::bytes::ascii_bytes(lit@), value@),
{
    let ghost pv = prop_views(props@);
    let ghost name = crate::fdt::bytes::ascii_bytes(lit@);
    let mut i: usize = 0;
    while i < props.len()
        invariant
            i <= props@.len(),
            pv == prop_views(props@),
            props@ == old(props)@,
            name == crate::fdt::bytes::ascii_bytes(lit@),
            prop_index(pv, name, 0) == prop_index(pv, name, i as int),
        decreases props@.len() - i,
    {
        if crate::fdt::bytes::bytes_eq_str(&props[i].name, lit) {
            assert(pv[i as int].0 == name);
            let n = crate::fdt::bytes::str_to_bytes(lit);
            props[i] = crate::fdt::node::FdtProperty { name: n, value };
            proof {
                assert(prop_views(props@) =~= pv.update(i as int, (name, value@)));
            }
            return;
        }
        i = i + 1;
    }
    let n = crate::fdt::bytes::str_to_bytes(lit);
    props.push(crate::fdt::node::FdtProperty { name: n, value });
    proof {
        assert(prop_views(props@) =~= pv.push((name, value@)));
    }
}

/// Drops every property named `lit`.
fn remove_property(props: &mut Vec<crate::fdt::node::FdtProperty>, lit: &str)
    ensures
        prop_views(final(props)@) == without_prop(prop_views(old(props)@), crate::fdt::bytes::ascii_bytes(lit@)),
{
    let ghost pv = prop_views(props@);
    let ghost name = crate::fdt::bytes::ascii_bytes(lit@);
    let mut out: Vec<crate::fdt::node::FdtProperty> = Vec::new();
    let mut i: usize = 0;
    while i < props.len()
        invariant
            i <= props@.len(),
            pv == prop_views(props@),
            name == crate::fdt::bytes::ascii_bytes(lit@),
            prop_views(out@) == without_prop(pv.subrange(0, i as int), name),
        decreases props@.len() - i,
    {
        proof {
            assert(pv.subrange(0, i + 1).drop_last() =~= pv.subrange(0, i as int));
            assert(pv.subrange(0, i + 1).last() == pv[i as int]);
        }
        if !crate::fdt::bytes::bytes_eq_str(&props[i].name, lit) {
            let ghost before = prop_views(out@);
            out.push(props[i].copy());
            assert(prop_views(out@) =~= before.push(pv[i as int]));
        }
        i = i + 1;
    }
    assert(pv.subrange(0, i as int) =~= pv);
    *props = out;
}

/// The command line a guest kernel gets when the tree gives none.
pub open spec fn default_bootargs() -> Seq<char> {
    "earlycon=sbi console=ttyS0,115200 init=/init root=/dev/vda rw"@
}

/// The properties of `/chosen` after it is filled in: the initial ramdisk
/// bounds set (as one cell when the root has two address cells, as a
/// 64-bit value otherwise) or removed, then the default command line and
/// console added where they are missing.
pub open spec fn chosen_props(
    props: Seq<(Seq<u8>, Seq<u8>)>,
    initrd: Option<(crate::addr::GuestPhysAddr, usize)>,
    ac: u32,
) -> Seq<(Seq<u8>, Seq<u8>)> {
    let start_name = crate::fdt::bytes::ascii_bytes("linux,initrd-start"@);
    let end_name = crate::fdt::bytes::ascii_bytes("linux,initrd-end"@);
    let p1 = match initrd {
        Some((gpa, size)) => {
            let s = gpa.0 as int;
            let e = gpa.0 + size;
            let (vs, ve) = if ac == 2 {
                (be_bytes(s % 0x1_0000_0000, 4), be_bytes(e % 0x1_0000_0000, 4))
            } else {
                (be_bytes(s, 8), be_bytes(e, 8))
            };
            with_prop(with_prop(props, start_name, vs), end_name, ve)
        },
        None => without_prop(without_prop(props, start_name), end_name),
    };
    let boot_name = crate::fdt::bytes::ascii_bytes("bootargs"@);
    let p2 = if find_prop(p1, boot_name) is None {
        p1.push((boot_name, crate::fdt::bytes::ascii_bytes(default_bootargs()).push(0u8)))
    } else {
        p1
    };
    let out_name = crate::fdt::bytes::ascii_bytes("stdout-path"@);
    if find_prop(p2, out_name) is None {
        p2.push((out_name, crate::fdt::bytes::ascii_bytes("/soc/serial@10000000"@).push(0u8)))
    } else {
        p2
    }
}

} // verus!

verus! {

impl FdtBuilder {
    /// Fills in `/chosen`: sets the initial ramdisk bounds when there is a
    /// ramdisk (in the root's address cells) and removes them when there
    /// is none, then adds the default command line and console where the
    /// tree gives none. Refused when the tree has no `/chosen`.
    pub fn setup_chosen(&mut self, initrd: Option<(crate::addr::GuestPhysAddr, usize)>) -> (r: Result<(), FdtBuildError>)
        requires
            old(self).wf(),
            initrd matches Some((g, s)) ==> g.0 + s <= usize::MAX,
        ensures
            final(self).wf(),
            match first_at_path(old(self).nodes_spec(), crate::fdt::bytes::ascii_bytes("/chosen"@), 0) {
                None => r == Err::<(), FdtBuildError>(FdtBuildError::NoChosen) && final(self).nodes_spec()
                    == old(self).nodes_spec(),
                Some(c) => r is Ok && node_views(final(self).nodes_spec()) == node_views(old(self).nodes_spec()).update(
                    c,
                    FdtNodeView {
                        level: old(self).nodes_spec()[c].level,
                        name: old(self).nodes_spec()[c].name@,
                        properties: chosen_props(
                            old(self).nodes_spec()[c]@.properties,
                            initrd,
                            cells_at(old(self).nodes_spec(), "/"@),
                        ),
                    },
                ),
            },
    {
        let ghost ns = self.nodes@;
        let paths = crate::fdt::path::all_node_paths(&self.nodes);
        proof {
            lemma_first_at_path(ns, crate::fdt::bytes::ascii_bytes("/chosen"@), 0);
            lemma_first_at_path(ns, crate::fdt::bytes::ascii_bytes("/"@), 0);
            assert(ns.len() == self.nodes.len());
        }
        let chosen = find_node_at(&paths, "/chosen", Ghost(ns));
        let c = match chosen {
            Some(c) => c,
            None => {
                return Err(FdtBuildError::NoChosen);
            },
        };
        let root = find_node_at(&paths, "/", Ghost(ns));
        let ac = match root {
            Some(i) => address_cells(&self.nodes[i]),
            None => 2,
        };
        proof {
            match first_at_path(ns, crate::fdt::bytes::ascii_bytes("/"@), 0) {
                Some(i) => {
                    assert(root == Some(i as usize));
                },
                None => {},
            }
            assert(ac == cells_at(ns, "/"@));
        }
        let mut node = self.nodes[c].copy();
        let ghost p0 = prop_views(node.properties@);
        assert(p0 == ns[c as int]@.properties);
        match initrd {
            Some((gpa, size)) => {
                let start = gpa.0;
                let end = gpa.0 + size;
                let (vs, ve) = if ac == 2 {
                    (encode_cells((start as u64) % 0x1_0000_0000, 1), encode_cells((end as u64) % 0x1_0000_0000, 1))
                } else {
                    (encode_cells(start as u64, 2), encode_cells(end as u64, 2))
                };
                set_property(&mut node.properties, "linux,initrd-start", vs);
                set_property(&mut node.properties, "linux,initrd-end", ve);
            },
            None => {
                remove_property(&mut node.properties, "linux,initrd-start");
                remove_property(&mut node.properties, "linux,initrd-end");
            },
        }
        if find_property(&node, "bootargs").is_none() {
            let mut v = crate::fdt::bytes::str_to_bytes("earlycon=sbi console=ttyS0,115200 init=/init root=/dev/vda rw");
            v.push(0u8);
            let ghost before = prop_views(node.properties@);
            node.properties.push(crate::fdt::node::FdtProperty { name: crate::fdt::bytes::str_to_bytes("bootargs"), value: v });
            assert(prop_views(node.properties@) =~= before.push((crate::fdt::bytes::ascii_bytes("bootargs"@), crate::fdt::bytes::ascii_bytes(default_bootargs()).push(0u8))));
        }
        if find_property(&node, "stdout-path").is_none() {
            let mut v = crate::fdt::bytes::str_to_bytes("/soc/serial@10000000");
            v.push(0u8);
            let ghost before = prop_views(node.properties@);
            node.properties.push(crate::fdt::node::FdtProperty { name: crate::fdt::bytes::str_to_bytes("stdout-path"), value: v });
            assert(prop_views(node.properties@) =~= before.push((crate::fdt::bytes::ascii_bytes("stdout-path"@), crate::fdt::bytes::ascii_bytes("/soc/serial@10000000"@).push(0u8))));
        }
        let ghost nv = node@;
        self.nodes[c] = node;
        proof {
            assert(node_views(self.nodes@) =~= node_views(ns).update(c as int, nv));
            assert forall|k: int| 0 <= k < self.nodes@.len() implies (#[trigger] self.nodes@[k]).level >= 1 by {
                if k != c {
                    assert(self.nodes@[k] == ns[k]);
                }
            }
        }
        Ok(())
    }
}

} // verus!

verus! {

/// Whether a `status` value says the device is disabled.
pub open spec fn is_disabled_value(v: Seq<u8>) -> bool {
    v == crate::fdt::bytes::ascii_bytes("disabled"@) || v == crate::fdt::bytes::ascii_bytes("disabled"@).push(0u8)
}

/// Whether node `j` of a walk is an enabled host CPU: found by
/// `/cpus/cpu`, with `cpu@` in its name, and not disabled.
pub open spec fn cpu_selected(nodes: Seq<FdtNode>, j: int) -> bool {
    &&& matches_path(crate::fdt::path::node_path(nodes, j), crate::fdt::bytes::ascii_bytes("/cpus/cpu"@))
    &&& crate::fdt::bytes::occurs_in(crate::fdt::bytes::ascii_bytes("cpu@"@), nodes[j].name@)
    &&& !(match find_prop(nodes[j]@.properties, crate::fdt::bytes::ascii_bytes("status"@)) {
        Some(v) => is_disabled_value(v),
        None => false,
    })
}

/// The first `reg` address of node `j`, in the cells of `/cpus`.
pub open spec fn cpu_address(nodes: Seq<FdtNode>, j: int) -> Option<u64> {
    match find_prop(nodes[j]@.properties, crate::fdt::bytes::ascii_bytes("reg"@)) {
        Some(v) => reg_address(v, cells_at(nodes, "/cpus"@)),
        None => None,
    }
}

/// The addresses of the enabled host CPUs among the first `n` nodes.
pub open spec fn cpu_addresses(nodes: Seq<FdtNode>, n: int) -> Seq<usize>
    decreases n,
{
    if n <= 0 {
        Seq::empty()
    } else if cpu_selected(nodes, n - 1) {
        cpu_addresses(nodes, n - 1).push(cpu_address(nodes, n - 1)->0 as usize)
    } else {
        cpu_addresses(nodes, n - 1)
    }
}

/// Whether a `status` value says the device is disabled.
pub(crate) fn value_is_disabled(v: &[u8]) -> (r: bool)
    ensures
        r == is_disabled_value(v@),
{
    proof {
        reveal_strlit("disabled");
    }
    if crate::fdt::bytes::bytes_eq_str(v, "disabled") {
        return true;
    }
    if v.len() == 9 && v[8] == 0u8 {
        let head = crate::fdt::bytes::copy_bytes(v);
        let mut h = head;
        h.pop();
        proof {
            assert(v@ == h@.push(0u8));
        }
        let r = crate::fdt::bytes::bytes_eq_str(&h, "disabled");
        proof {
            if v@ == crate::fdt::bytes::ascii_bytes("disabled"@).push(0u8) {
                assert(h@ =~= v@.drop_last());
                assert(crate::fdt::bytes::ascii_bytes("disabled"@).push(0u8).drop_last() =~= crate::fdt::bytes::ascii_bytes(
                    "disabled"@,
                ));
                assert(h@ == crate::fdt::bytes::ascii_bytes("disabled"@));
            }
            if r {
                assert(v@ =~= crate::fdt::bytes::ascii_bytes("disabled"@).push(0u8));
            }
        }
        return r;
    }
    proof {
        if v@ == crate::fdt::bytes::ascii_bytes("disabled"@).push(0u8) {
            assert(v@.len() == 9);
            assert(v@[8] == 0u8);
        }
    }
    false
}

/// The hardware identifiers of the enabled host CPUs that the host device
/// tree lists, in order; none without a tree. Each such CPU node has an
/// address.
pub fn cpu_list(host: Option<&[FdtNode]>) -> (r: Option<Vec<usize>>)
    requires
        host matches Some(nodes) ==> crate::fdt::path::levels_valid(nodes@, nodes@.len() as int) && forall|j: int|
            0 <= j < nodes@.len() && cpu_selected(nodes@, j) ==> cpu_address(nodes@, j) is Some,
    ensures
        match host {
            Some(nodes) => r is Some && r->0@ == cpu_addresses(nodes@, nodes@.len() as int),
            None => r is None,
        },
{
    let nodes = match host {
        Some(nodes) => nodes,
        None => {
            return None;
        },
    };
    let ghost ns = nodes@;
    let paths = crate::fdt::path::all_node_paths(nodes);
    proof {
        lemma_first_at_path(ns, crate::fdt::bytes::ascii_bytes("/cpus"@), 0);
        assert(ns.len() == nodes.len());
    }
    let found = find_node_at(&paths, "/cpus", Ghost(ns));
    let cells = match found {
        Some(i) => address_cells(&nodes[i]),
        None => 2,
    };
    proof {
        match first_at_path(ns, crate::fdt::bytes::ascii_bytes("/cpus"@), 0) {
            Some(i) => {
                assert(found == Some(i as usize));
            },
            None => {},
        }
        assert(cells == cells_at(ns, "/cpus"@));
    }
    let mut out: Vec<usize> = Vec::new();
    let mut j: usize = 0;
    while j < nodes.len()
        invariant
            j <= ns.len(),
            ns == nodes@,
            paths@.len() == ns.len(),
            forall|i: int| 0 <= i < paths@.len() ==> (#[trigger] paths@[i])@ == crate::fdt::path::node_path(ns, i),
            cells == cells_at(ns, "/cpus"@),
            forall|k: int| 0 <= k < ns.len() && cpu_selected(ns, k) ==> cpu_address(ns, k) is Some,
            out@ == cpu_addresses(ns, j as int),
        decreases ns.len() - j,
    {
        assert(paths@[j as int]@ == crate::fdt::path::node_path(ns, j as int));
        let node = &nodes[j];
        let mut selected = false;
        if matches_path_str(&paths[j], "/cpus/cpu") && crate::fdt::bytes::contains_str(&node.name, "cpu@") {
            selected = match find_property(node, "status") {
                Some(v) => !value_is_disabled(v),
                None => true,
            };
        }
        if selected {
            assert(cpu_selected(ns, j as int));
            let reg = find_property(node, "reg");
            match reg {
                Some(v) => match first_reg_address(v, cells) {
                    Some(a) => {
                        out.push(a as usize);
                    },
                    None => {
                        assert(false);
                    },
                },
                None => {
                    assert(false);
                },
            }
        }
        j = j + 1;
    }
    Some(out)
}

/// Whether a guest with vCPUs on `phys_cpu_ids` gets the node at
/// `node_path`: every node but a CPU node, and a CPU node whose first
/// address (in `address_cells` cells) is one of them.
pub fn need_cpu_node(
    phys_cpu_ids: &[crate::cpu::CpuHardId],
    node: &FdtNode,
    node_path: &[u8],
    address_cells: u32,
) -> (r: bool)
    ensures
        r == (!crate::fdt::bytes::is_prefix(crate::fdt::bytes::ascii_bytes("/cpus/cpu@"@), node_path@) || match find_prop(
            node@.properties,
            crate::fdt::bytes::ascii_bytes("reg"@),
        ) {
            Some(v) => match reg_address(v, address_cells) {
                Some(a) => phys_cpu_ids@.contains(crate::cpu::CpuHardId(a as usize)),
                None => false,
            },
            None => false,
        }),
{
    if !crate::fdt::bytes::starts_with_str(node_path, "/cpus/cpu@") {
        return true;
    }
    match find_property(node, "reg") {
        Some(v) => match first_reg_address(v, address_cells) {
            Some(a) => contains_hard_id(phys_cpu_ids, crate::cpu::CpuHardId(a as usize)),
            None => false,
        },
        None => false,
    }
}

} // verus!
