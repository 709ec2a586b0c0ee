use axvm::fdt::node::{nests, FdtNode, FdtProperty};
use axvm::fdt::tree::{generate, walk_write_ops, Tree, TreeError, TreeNode, WriteOp};

fn node(level: usize, name: &str, props: &[(&str, &[u8])]) -> FdtNode {
    FdtNode {
        level,
        name: name.as_bytes().to_vec(),
        properties: props
            .iter()
            .map(|(n, v)| FdtProperty { name: n.as_bytes().to_vec(), value: v.to_vec() })
            .collect(),
    }
}

fn begin(name: &str) -> WriteOp {
    WriteOp::BeginNode(name.as_bytes().to_vec())
}

#[test]
fn walk_is_written_back_depth_first() {
    let walk = vec![
        node(1, "", &[("#address-cells", &[0, 0, 0, 2])]),
        node(2, "cpus", &[]),
        node(3, "cpu@0", &[("reg", &[0, 0, 0, 0])]),
        node(2, "memory@0", &[]),
    ];
    let ops = generate(&walk).unwrap();
    assert_eq!(
        ops,
        vec![
            begin(""),
            WriteOp::Property(b"#address-cells".to_vec(), vec![0, 0, 0, 2]),
            begin("cpus"),
            begin("cpu@0"),
            WriteOp::Property(b"reg".to_vec(), vec![0, 0, 0, 0]),
            WriteOp::EndNode,
            WriteOp::EndNode,
            begin("memory@0"),
            WriteOp::EndNode,
            WriteOp::EndNode,
        ]
    );
}

#[test]
fn reinserting_a_path_keeps_its_children() {
    let mut tree = Tree::new();
    tree.insert(b"/", node(1, "", &[])).unwrap();
    tree.insert(b"/soc", node(2, "soc", &[])).unwrap();
    tree.finalize().unwrap();
    tree.insert(b"/", node(1, "", &[("model", b"x\0")])).unwrap();
    let mut ops = Vec::new();
    tree.write(&mut ops).unwrap();
    assert_eq!(
        ops,
        vec![
            begin(""),
            WriteOp::Property(b"model".to_vec(), b"x\0".to_vec()),
            begin("soc"),
            WriteOp::EndNode,
            WriteOp::EndNode,
        ]
    );
}

#[test]
fn link_to_a_missing_parent_is_refused() {
    let mut tree = Tree::new();
    tree.insert(b"/", node(1, "", &[])).unwrap();
    tree.insert(b"/a/b", node(3, "b", &[])).unwrap();
    assert_eq!(
        tree.finalize(),
        Err(TreeError::ParentMissing(b"/a".to_vec(), b"/a/b".to_vec()))
    );
}

#[test]
fn writing_a_missing_node_is_refused() {
    let tree = Tree::new();
    let mut ops = Vec::new();
    assert_eq!(tree.write(&mut ops), Err(TreeError::NotFound(b"/".to_vec())));
    assert!(ops.is_empty());
    let mut tree = Tree::new();
    tree.insert(b"/", node(1, "", &[])).unwrap();
    tree.finalize().unwrap();
    assert_eq!(
        tree.write_node(&mut ops, b"/nope"),
        Err(TreeError::NotFound(b"/nope".to_vec()))
    );
}

#[test]
fn a_fresh_tree_node_has_no_children() {
    let t = TreeNode::new(node(2, "uart@0", &[]));
    assert!(t.children.is_empty());
    assert_eq!(t.node.name, b"uart@0".to_vec());
}

#[test]
fn a_walk_nests_only_one_level_at_a_time() {
    let good = vec![node(1, "", &[]), node(2, "soc", &[]), node(3, "uart@0", &[]), node(2, "cpus", &[])];
    assert!(nests(&good));
    assert!(nests(&[]));
    assert!(!nests(&[node(2, "soc", &[])]));
    assert!(!nests(&[node(1, "", &[]), node(3, "deep", &[])]));
    assert!(!nests(&[node(1, "", &[]), node(0, "none", &[])]));
}

#[test]
fn a_walk_is_written_with_its_closes() {
    let walk = vec![
        node(1, "/", &[("model", b"x\0")]),
        node(2, "soc", &[]),
        node(3, "uart@0", &[]),
        node(2, "cpus", &[]),
    ];
    assert_eq!(
        walk_write_ops(&walk),
        vec![
            begin(""),
            WriteOp::Property(b"model".to_vec(), b"x\0".to_vec()),
            begin("soc"),
            begin("uart@0"),
            WriteOp::EndNode,
            WriteOp::EndNode,
            begin("cpus"),
            WriteOp::EndNode,
            WriteOp::EndNode,
        ]
    );
}
