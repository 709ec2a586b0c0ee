//! The nodes of a flattened device tree, as plain values.
use vstd::prelude::*;

use crate::fdt::bytes::copy_bytes;

verus! {

/// One property of a node: its name and its raw value.
#[derive(Clone, Debug)]
pub struct FdtProperty {
    pub name: Vec<u8>,
    pub value: Vec<u8>,
}

/// One node, as a depth-first walk of the tree meets it: its depth (the
/// root is at level 1), its name and its properties.
#[derive(Clone, Debug)]
pub struct FdtNode {
    pub level: usize,
    pub name: Vec<u8>,
    pub properties: Vec<FdtProperty>,
}

/// The contents of a node.
pub struct FdtNodeView {
    pub level: usize,
    pub name: Seq<u8>,
    pub properties: Seq<(Seq<u8>, Seq<u8>)>,
}

impl View for FdtProperty {
    type V = (Seq<u8>, Seq<u8>);

    open spec fn view(&self) -> (Seq<u8>, Seq<u8>) {
        (self.name@, self.value@)
    }
}

impl View for FdtNode {
    type V = FdtNodeView;

    open spec fn view(&self) -> FdtNodeView {
        FdtNodeView {
            level: self.level,
            name: self.name@,
            properties: self.properties@.map_values(|p: FdtProperty| p@),
        }
    }
}

impl FdtProperty {
    /// A copy of the property.
    pub fn copy(&self) -> (r: Self)
        ensures
            r@ == self@,
    {
        FdtProperty { name: copy_bytes(&self.name), value: copy_bytes(&self.value) }
    }
}

impl FdtNode {
    /// A copy of the node.
    pub fn copy(&self) -> (r: Self)
        ensures
            r@ == self@,
    {
        let mut props: Vec<FdtProperty> = Vec::new();
        let mut i: usize = 0;
        while i < self.properties.len()
            invariant
                i <= self.properties@.len(),
                props@.map_values(|p: FdtProperty| p@) == self.properties@.map_values(
                    |p: FdtProperty| p@,
                ).subrange(0, i as int),
            decreases self.properties@.len() - i,
        {
            let ghost before = props@.map_values(|p: FdtProperty| p@);
            props.push(self.properties[i].copy());
            assert(props@.map_values(|p: FdtProperty| p@) =~= before.push(self.properties@[i as int]@));
            i = i + 1;
            assert(props@.map_values(|p: FdtProperty| p@) =~= self.properties@.map_values(
                |p: FdtProperty| p@,
            ).subrange(0, i as int));
        }
        assert(self.properties@.map_values(|p: FdtProperty| p@).subrange(0, i as int)
            =~= self.properties@.map_values(|p: FdtProperty| p@));
        FdtNode { level: self.level, name: copy_bytes(&self.name), properties: props }
    }
}

/// Whether a walk nests as a tree written depth first: the first node is
/// the root, at level 1, and each node is at least at level 1 and at most
/// one level below the node before it.
pub open spec fn walk_nests(nodes: Seq<FdtNode>) -> bool {
    forall|i: int|
        0 <= i < nodes.len() ==> 1 <= (#[trigger] nodes[i]).level && nodes[i].level <= if i == 0 {
            1
        } else {
            nodes[i - 1].level + 1
        }
}

/// Whether the walk `nodes` nests as a tree written depth first, so that
/// a writer can open each node after closing those at its level or below.
pub fn nests(nodes: &[FdtNode]) -> (r: bool)
    ensures
        r == walk_nests(nodes@),
{
    let mut i: usize = 0;
    while i < nodes.len()
        invariant
            i <= nodes@.len(),
            forall|k: int|
                0 <= k < i ==> 1 <= (#[trigger] nodes@[k]).level && nodes@[k].level <= if k == 0 {
                    1
                } else {
                    nodes@[k - 1].level + 1
                },
        decreases nodes@.len() - i,
    {
        let level = nodes[i].level;
        if level == 0 {
            return false;
        }
        if i == 0 {
            if level > 1 {
                return false;
            }
        } else if level - 1 > nodes[i - 1].level {
            return false;
        }
        i = i + 1;
    }
    true
}

} // verus!
