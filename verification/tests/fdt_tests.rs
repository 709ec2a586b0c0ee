use axvm::config::AxVMConfig;
use axvm::cpu::CpuHardId;
use axvm::fdt::builder::{
    cpu_list, decimal_bytes, encode_cells, need_cpu_node, remove_subtrees, FdtBuildError,
    FdtBuilder,
};
use axvm::fdt::cache::build_optimized_node_cache;
use axvm::fdt::node::{FdtNode, FdtProperty};
use axvm::fdt::passthrough::find_all_passthrough_devices;
use axvm::fdt::path::{all_node_paths, build_node_path, parent_path};
use axvm::fdt::phandle::{build_phandle_map, parse_phandle_property, DevicePropertyClassifier};
use axvm::vm::addrspace::GuestMemory;
use axvm::{GuestPhysAddr, HostPhysAddr};

fn prop(name: &str, value: &[u8]) -> FdtProperty {
    FdtProperty { name: name.as_bytes().to_vec(), value: value.to_vec() }
}

fn node(level: usize, name: &str, properties: Vec<FdtProperty>) -> FdtNode {
    FdtNode { level, name: name.as_bytes().to_vec(), properties }
}

fn host_tree() -> Vec<FdtNode> {
    vec![
        node(1, "/", vec![prop("#address-cells", &[0, 0, 0, 2]), prop("#size-cells", &[0, 0, 0, 2])]),
        node(2, "soc", vec![]),
        node(3, "uart@1000", vec![prop("interrupt-parent", &[0, 0, 0, 2])]),
        node(3, "intc@2000", vec![prop("phandle", &[0, 0, 0, 2]), prop("#interrupt-cells", &[0, 0, 0, 1])]),
        node(2, "cpus", vec![prop("#address-cells", &[0, 0, 0, 1])]),
        node(3, "cpu@0", vec![prop("reg", &[0, 0, 0, 0])]),
        node(3, "cpu@1", vec![prop("reg", &[0, 0, 0, 1]), prop("status", b"disabled\0")]),
        node(3, "cpu@2", vec![prop("reg", &[0, 0, 0, 2])]),
        node(2, "memory@40000000", vec![prop("device_type", b"memory\0")]),
        node(2, "chosen", vec![prop("bootargs", b"console=hvc0\0")]),
    ]
}

fn strings(v: &[Vec<u8>]) -> Vec<String> {
    v.iter().map(|p| String::from_utf8(p.clone()).unwrap()).collect()
}

fn config(passthrough: &[&str], excluded: &[&[&str]]) -> AxVMConfig {
    AxVMConfig {
        pass_through_devices: passthrough.iter().map(|p| p.as_bytes().to_vec()).collect(),
        excluded_devices: excluded
            .iter()
            .map(|g| g.iter().map(|p| p.as_bytes().to_vec()).collect())
            .collect(),
        ..Default::default()
    }
}

#[test]
fn node_paths_follow_levels() {
    let tree = host_tree();
    assert_eq!(build_node_path(&tree, 0), b"/".to_vec());
    assert_eq!(build_node_path(&tree, 3), b"/soc/intc@2000".to_vec());
    assert_eq!(build_node_path(&tree, 5), b"/cpus/cpu@0".to_vec());
    let all = strings(&all_node_paths(&tree));
    assert_eq!(all[8], "/memory@40000000");
    assert_eq!(all[9], "/chosen");
}

#[test]
fn parent_of_paths() {
    assert_eq!(parent_path(b"/"), None);
    assert_eq!(parent_path(b"/soc"), Some(b"/".to_vec()));
    assert_eq!(parent_path(b"/soc/uart@1000"), Some(b"/soc".to_vec()));
    assert_eq!(parent_path(b"soc"), None);
}

#[test]
fn phandle_references_resolve_to_paths() {
    let tree = host_tree();
    let map = build_phandle_map(&tree);
    let deps = parse_phandle_property(&[0, 0, 0, 2], b"interrupt-parent", &map);
    assert_eq!(strings(&deps), vec!["/soc/intc@2000".to_string()]);
    let none = parse_phandle_property(&[0, 0, 0, 9], b"interrupt-parent", &map);
    assert!(none.is_empty());
    assert!(DevicePropertyClassifier::is_phandle_property(b"vdd-supply"));
    assert!(DevicePropertyClassifier::is_phandle_property(b"clocks"));
    assert!(!DevicePropertyClassifier::is_phandle_property(b"#clock-cells"));
    assert!(!DevicePropertyClassifier::is_phandle_property(b"compatible"));
}

#[test]
fn node_cache_groups_by_sorted_path() {
    let tree = host_tree();
    let cache = build_optimized_node_cache(&tree);
    let keys = strings(cache.keys());
    assert_eq!(
        keys,
        vec!["/", "/chosen", "/cpus", "/cpus/cpu@0", "/cpus/cpu@1", "/cpus/cpu@2", "/memory@40000000", "/soc", "/soc/intc@2000", "/soc/uart@1000"]
    );
}

#[test]
fn passthrough_adds_phandle_dependencies() {
    let tree = host_tree();
    let r = find_all_passthrough_devices(&config(&["/soc/uart@1000"], &[]), &tree);
    assert_eq!(strings(&r), vec!["/soc/uart@1000", "/soc/intc@2000"]);
}

#[test]
fn passthrough_adds_descendants_in_path_order() {
    let tree = host_tree();
    let r = find_all_passthrough_devices(&config(&["/soc"], &[]), &tree);
    assert_eq!(strings(&r), vec!["/soc", "/soc/intc@2000", "/soc/uart@1000"]);
}

#[test]
fn passthrough_drops_excluded_devices() {
    let tree = host_tree();
    let r = find_all_passthrough_devices(&config(&["/soc"], &[&["/soc/intc@2000"]]), &tree);
    assert_eq!(strings(&r), vec!["/soc", "/soc/uart@1000"]);
    let r = find_all_passthrough_devices(&config(&["/soc/uart@1000"], &[&["/soc"]]), &tree);
    assert!(r.is_empty());
}

#[test]
fn passthrough_never_gives_the_root() {
    let tree = host_tree();
    let r = find_all_passthrough_devices(&config(&["/"], &[]), &tree);
    assert_eq!(
        strings(&r),
        vec!["/chosen", "/cpus", "/cpus/cpu@0", "/cpus/cpu@1", "/cpus/cpu@2", "/memory@40000000", "/soc", "/soc/intc@2000", "/soc/uart@1000"]
    );
}

#[test]
fn subtrees_go_with_their_root() {
    let tree = host_tree();
    let sel = vec![false, true, false, false, false, false, false, false, false, false];
    let kept = remove_subtrees(&tree, &sel);
    let names: Vec<String> = kept.iter().map(|n| String::from_utf8(n.name.clone()).unwrap()).collect();
    assert_eq!(names, vec!["/", "cpus", "cpu@0", "cpu@1", "cpu@2", "memory@40000000", "chosen"]);
}

#[test]
fn decimal_and_cells_encodings() {
    assert_eq!(decimal_bytes(0), b"0".to_vec());
    assert_eq!(decimal_bytes(1203), b"1203".to_vec());
    assert_eq!(encode_cells(0x1_2345_6789, 1), vec![0x23, 0x45, 0x67, 0x89]);
    assert_eq!(encode_cells(0x1_2345_6789, 2), vec![0, 0, 0, 1, 0x23, 0x45, 0x67, 0x89]);
}

#[test]
fn builder_needs_a_host_tree() {
    assert_eq!(FdtBuilder::new(None).err(), Some(FdtBuildError::NoFdt));
}

#[test]
fn setup_cpus_keeps_only_the_guest_cpus() {
    let mut b = FdtBuilder::new(Some(host_tree())).unwrap();
    b.setup_cpus(&[CpuHardId::new(2)]);
    let names: Vec<String> = b.build().iter().map(|n| String::from_utf8(n.name.clone()).unwrap()).collect();
    assert_eq!(names, vec!["/", "soc", "uart@1000", "intc@2000", "cpus", "cpu@2", "memory@40000000", "chosen"]);
}

#[test]
fn setup_memory_replaces_memory_nodes() {
    let mut b = FdtBuilder::new(Some(host_tree())).unwrap();
    let mems = vec![GuestMemory::new(GuestPhysAddr::from(0x8000_0000), HostPhysAddr::from(0x8000_0000), 0x1000_0000)];
    b.setup_memory(&mems);
    let nodes = b.build();
    let last = nodes.last().unwrap();
    assert_eq!(last.level, 2);
    assert_eq!(last.name, b"memory@0".to_vec());
    assert_eq!(last.properties[0].value, b"memory\0".to_vec());
    assert_eq!(last.properties[1].value, vec![0, 0, 0, 0, 0x80, 0, 0, 0, 0, 0, 0, 0, 0x10, 0, 0, 0]);
    assert!(!nodes.iter().any(|n| n.name == b"memory@40000000".to_vec()));
}

#[test]
fn setup_chosen_fills_in_defaults_and_ramdisk() {
    let mut b = FdtBuilder::new(Some(host_tree())).unwrap();
    b.setup_chosen(Some((GuestPhysAddr::from(0x9000_0000), 0x1000))).unwrap();
    let nodes = b.build();
    let chosen = &nodes[9];
    let get = |n: &str| chosen.properties.iter().find(|p| p.name == n.as_bytes().to_vec()).map(|p| p.value.clone());
    assert_eq!(get("bootargs"), Some(b"console=hvc0\0".to_vec()));
    assert_eq!(get("stdout-path"), Some(b"/soc/serial@10000000\0".to_vec()));
    assert_eq!(get("linux,initrd-start"), Some(vec![0x90, 0, 0, 0]));
    assert_eq!(get("linux,initrd-end"), Some(vec![0x90, 0, 0x10, 0]));
}

#[test]
fn setup_chosen_needs_a_chosen_node() {
    let mut tree = host_tree();
    tree.pop();
    let mut b = FdtBuilder::new(Some(tree)).unwrap();
    assert_eq!(b.setup_chosen(None), Err(FdtBuildError::NoChosen));
}

#[test]
fn cpu_list_skips_disabled_cpus() {
    let tree = host_tree();
    assert_eq!(cpu_list(Some(&tree)), Some(vec![0, 2]));
    assert_eq!(cpu_list(None), None);
}

#[test]
fn need_cpu_node_checks_cpu_addresses() {
    let tree = host_tree();
    let ids = [CpuHardId::new(0)];
    assert!(need_cpu_node(&ids, &tree[5], b"/cpus/cpu@0", 1));
    assert!(!need_cpu_node(&ids, &tree[7], b"/cpus/cpu@2", 1));
    assert!(need_cpu_node(&ids, &tree[2], b"/soc/uart@1000", 1));
}
