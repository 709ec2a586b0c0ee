use axvm::config::{AxVMConfig, MemoryKind, VMImage, VMImagesConfig};
use axvm::vm::addrspace::{
    check_guest_alignment, dtb_load_gpa, ivc_channel_size, dtb_memory_kind, guest_read_plan, guest_write_plan,
    kernel_placement, page_limit, plan_copy, plic_pending_write, CopyStep, GuestAccessError,
    GuestMemory, KernelLoadError, MmioRegions, Region, VmAddrSpace, VmRegion, VmRegionKind,
};
use axvm::vm::devices::{device_reg_entries, passthrough_device_regions, RegEntry};
use axvm::fdt::node::{FdtNode, FdtProperty};
use axvm::vm::exit::AccessWidth;
use axvm::{GuestPhysAddr, HostPhysAddr, HostVirtAddr};

fn step(buffer: usize, buffer_offset: usize, data_offset: usize, len: usize) -> CopyStep {
    CopyStep { buffer, buffer_offset, data_offset, len }
}

fn mem(gpa: usize, size: usize) -> GuestMemory {
    GuestMemory::new(GuestPhysAddr::from(gpa), HostPhysAddr::from(gpa), size)
}

#[test]
fn copies_fill_buffers_in_order() {
    assert_eq!(plan_copy(&[4, 4, 4], 2, 7), vec![step(0, 2, 0, 2), step(1, 0, 2, 4), step(2, 0, 6, 1)]);
    assert_eq!(plan_copy(&[4, 0, 4], 4, 3), vec![step(2, 0, 0, 3)]);
    assert!(plan_copy(&[4], 8, 3).is_empty());
    assert!(plan_copy(&[4, 4], 0, 0).is_empty());
}

#[test]
fn guest_memory_copies_at_an_offset() {
    let m = mem(0, 0x20);
    assert_eq!(m.copy_from_slice(0x10, 8, &[0x10, 0x10]), vec![step(1, 0, 0, 8)]);
    assert_eq!(m.copy_from_slice(0xC, 8, &[0x10, 0x10]), vec![step(0, 0xC, 0, 4), step(1, 0, 4, 4)]);
}

#[test]
fn kernels_go_where_configured_or_2mib_into_a_region() {
    let mems = vec![mem(0x8000_0000, 0x100_0000), mem(0x9000_0000, 0x1000_0000)];
    assert_eq!(kernel_placement(&mems, Some(GuestPhysAddr::from(0x9000_1000)), 0x10), Ok((1, GuestPhysAddr::from(0x9000_1000))));
    assert_eq!(
        kernel_placement(&mems, Some(GuestPhysAddr::from(0x7000_0000)), 0x10),
        Err(KernelLoadError::NotInRegion(GuestPhysAddr::from(0x7000_0000)))
    );
    assert_eq!(kernel_placement(&mems, None, 0x200_0000), Ok((1, GuestPhysAddr::from(0x9020_0000))));
    assert_eq!(kernel_placement(&mems, None, 0x10), Ok((0, GuestPhysAddr::from(0x8020_0000))));
    assert_eq!(kernel_placement(&mems, None, 0x2000_0000), Err(KernelLoadError::NoSuitableRegion));
}

#[test]
fn address_space_records_memory_and_kernel() {
    let (mut space, size) = VmAddrSpace::new(GuestPhysAddr::from(0)..GuestPhysAddr::from(0x1_0000_0000));
    assert_eq!(size, 0x1_0000_0000);
    assert_eq!(space.new_memory(&MemoryKind::Identical { size: 0x40_1001 }, HostPhysAddr::from(0x8000_0000)), 0x40_2000);
    assert_eq!(
        space.new_memory(&MemoryKind::Vmem { gpa: GuestPhysAddr::from(0x4000_0000), size: 0x1000 }, HostPhysAddr::from(0x7777_0000)),
        0x1000
    );
    assert_eq!(
        space.new_memory(&MemoryKind::Passthrough { hpa: HostPhysAddr::from(0x1000_0000), size: 0x10 }, HostPhysAddr::from(0)),
        0x1000
    );
    let mems = space.memories();
    assert_eq!(mems[0].gpa().as_usize(), 0x8000_0000);
    assert_eq!(mems[1].gpa().as_usize(), 0x4000_0000);
    assert_eq!(mems[1].hpa().as_usize(), 0x7777_0000);
    assert_eq!(mems[2].gpa().as_usize(), 0x1000_0000);
    let config = AxVMConfig {
        image_config: VMImagesConfig { kernel: VMImage { gpa: None, data: vec![0u8; 16] }, ..Default::default() },
        ..Default::default()
    };
    assert_eq!(space.load_kernel_image(&config), Ok((0, 0x20_0000)));
    assert_eq!(space.kernel_entry().as_usize(), 0x8020_0000);
}

#[test]
fn device_trees_go_high_in_the_first_region() {
    assert_eq!(dtb_load_gpa(&mem(0x4000_0000, 0x800_0000), 0x1800).as_usize(), 0x47FF_E000);
    assert_eq!(dtb_load_gpa(&mem(0x8000_0000, 0x4000_0000), 0x100).as_usize(), 0x9FFF_F000);
    assert_eq!(dtb_memory_kind(None, 5), MemoryKind::Identical { size: 5 });
    assert_eq!(
        dtb_memory_kind(Some(GuestPhysAddr::from(0x100)), 5),
        MemoryKind::Vmem { gpa: GuestPhysAddr::from(0x100), size: 5 }
    );
}

#[test]
fn translations_reach_the_end_of_the_page() {
    assert_eq!(page_limit(0x1234), 0xDCC);
    assert_eq!(page_limit(0x2000), 0x1000);
    assert_eq!(page_limit(0x2FFF), 1);
}

#[test]
fn plic_pending_bits() {
    assert_eq!(plic_pending_write(33), (0x0c00_1004, 2));
    assert_eq!(plic_pending_write(0), (0x0c00_1000, 1));
    assert_eq!(plic_pending_write(31), (0x0c00_1000, 0x8000_0000));
}

#[test]
fn device_accesses_find_their_region() {
    let mut regions = MmioRegions::new();
    regions.add_region(mem(0x1000, 0x100));
    regions.add_region(mem(0x2000, 0x1000));
    assert_eq!(regions.find_access(GuestPhysAddr::from(0x2010), AccessWidth::Dword), Some((1, 0x10)));
    assert_eq!(regions.find_access(GuestPhysAddr::from(0x10FC), AccessWidth::Dword), Some((0, 0xFC)));
    assert_eq!(regions.find_access(GuestPhysAddr::from(0x10FE), AccessWidth::Dword), None);
    assert_eq!(regions.find_access(GuestPhysAddr::from(0x3000), AccessWidth::Byte), None);
}

#[test]
fn guest_objects_read_and_write_through_chunks() {
    assert_eq!(check_guest_alignment(GuestPhysAddr::from(0x1003), 4), Err(GuestAccessError::Unaligned));
    assert_eq!(check_guest_alignment(GuestPhysAddr::from(0x1004), 4), Ok(()));
    assert_eq!(guest_read_plan(&[2, 8], 6), Ok(vec![step(0, 0, 0, 2), step(1, 0, 2, 4)]));
    assert_eq!(guest_read_plan(&[2], 6), Err(GuestAccessError::InsufficientData));
    assert_eq!(guest_write_plan(&[3, 5], 8), vec![step(0, 0, 0, 3), step(1, 0, 3, 5)]);
}

#[test]
fn regions_and_their_ranges() {
    let r = VmRegion { gpa: GuestPhysAddr::from(0x1000), size: 0x2000, kind: VmRegionKind::Passthrough };
    let range = r.range();
    assert_eq!(range.end.as_usize(), 0x3000);
    assert!(r.overwritable());
    let c = r.clone_with_range(GuestPhysAddr::from(0x1800)..GuestPhysAddr::from(0x2000));
    assert_eq!((c.gpa.as_usize(), c.size, c.kind), (0x1800, 0x800, VmRegionKind::Passthrough));
    let m = VmRegion { gpa: GuestPhysAddr::from(0), size: 1, kind: VmRegionKind::Memory };
    assert!(!m.overwritable());
}

#[test]
fn regions_own_allocated_memory_only() {
    let p = Region::new(
        &MemoryKind::Passthrough { hpa: HostPhysAddr::from(0x9000_0000), size: 0x1000 },
        HostVirtAddr::from(0xffff_0000_9000_0000),
        HostPhysAddr::from(0x9000_0000),
    );
    assert_eq!(p.gpa.as_usize(), 0xffff_0000_9000_0000);
    assert!(!p.own);
    let i = Region::new(&MemoryKind::Identical { size: 0x1000 }, HostVirtAddr::from(0xffff_1000), HostPhysAddr::from(0x1000));
    assert_eq!(i.gpa.as_usize(), 0x1000);
    assert!(i.own);
}

#[test]
fn device_regions_are_rounded_sorted_and_merged() {
    let entries = vec![
        RegEntry { address: 0x1000_0800, size: Some(0x100), name: b"uart".to_vec() },
        RegEntry { address: 0x1000_0000, size: Some(0x1000), name: b"gic".to_vec() },
        RegEntry { address: 0x3000_0000, size: Some(0x10), name: b"pci".to_vec() },
        RegEntry { address: 0x5000_0000, size: None, name: b"x".to_vec() },
        RegEntry { address: 0x6000_0000, size: Some(0), name: b"y".to_vec() },
        RegEntry { address: 0x1000_1000, size: Some(0x1000), name: b"timer".to_vec() },
    ];
    let merged = passthrough_device_regions(&entries);
    let plain: Vec<(usize, usize, Vec<u8>)> = merged.iter().map(|r| (r.gpa, r.len, r.name.clone())).collect();
    assert_eq!(
        plain,
        vec![(0x1000_0000, 0x2000, b"uart".to_vec()), (0x3000_0000, 0x1000, b"uart".to_vec())]
    );
}

fn region_spans(space: &VmAddrSpace) -> Vec<(usize, usize)> {
    space.regions().iter().map(|r| (r.gpa.as_usize(), r.size)).collect()
}

#[test]
fn overlapping_memory_regions_merge_in_the_region_set() {
    let (mut space, _) = VmAddrSpace::new(GuestPhysAddr::from(0)..GuestPhysAddr::from(0x1_0000_0000));
    assert!(space.regions().is_empty());
    space.new_memory(&MemoryKind::Vmem { gpa: GuestPhysAddr::from(0x1000), size: 0x2000 }, HostPhysAddr::from(0x9000_0000));
    assert_eq!(region_spans(&space), vec![(0x1000, 0x2000)]);
    space.new_memory(&MemoryKind::Vmem { gpa: GuestPhysAddr::from(0x8000), size: 0x1000 }, HostPhysAddr::from(0x9100_0000));
    assert_eq!(region_spans(&space), vec![(0x1000, 0x2000), (0x8000, 0x1000)]);
    space.new_memory(&MemoryKind::Vmem { gpa: GuestPhysAddr::from(0x2000), size: 0x3000 }, HostPhysAddr::from(0x9200_0000));
    assert_eq!(region_spans(&space), vec![(0x1000, 0x4000), (0x8000, 0x1000)]);
    assert_eq!(space.memories().len(), 3);
}

#[test]
fn ivc_channels_are_whole_pages() {
    assert_eq!(ivc_channel_size(1), 0x1000);
    assert_eq!(ivc_channel_size(0x1000), 0x1000);
    assert_eq!(ivc_channel_size(0x1001), 0x2000);
    assert_eq!(ivc_channel_size(0), 0);
}

fn fdt_node(level: usize, name: &str, props: &[(&str, &[u8])]) -> FdtNode {
    FdtNode {
        level,
        name: name.as_bytes().to_vec(),
        properties: props.iter().map(|(n, v)| FdtProperty { name: n.as_bytes().to_vec(), value: v.to_vec() }).collect(),
    }
}

#[test]
fn device_ranges_are_read_with_their_parents_cells() {
    let nodes = vec![
        fdt_node(1, "", &[("#address-cells", &[0, 0, 0, 2]), ("#size-cells", &[0, 0, 0, 1])]),
        fdt_node(2, "uart@10000000", &[("reg", &[0, 0, 0, 0, 0x10, 0, 0, 0, 0, 0, 0x01, 0])]),
        fdt_node(2, "soc", &[("#address-cells", &[0, 0, 0, 1]), ("#size-cells", &[0, 0, 0, 0])]),
        fdt_node(3, "intc@c000000", &[("reg", &[0x0c, 0, 0, 0, 0x0d, 0, 0, 0])]),
        fdt_node(2, "gpio@2000", &[("reg", &[0, 0, 0, 0, 0, 0, 0x20, 0, 0, 0, 0x10, 0]), ("status", b"disabled\0")]),
    ];
    let entries = device_reg_entries(&nodes);
    let got: Vec<(usize, Option<usize>, Vec<u8>)> = entries.iter().map(|e| (e.address, e.size, e.name.clone())).collect();
    assert_eq!(
        got,
        vec![
            (0x1000_0000, Some(0x100), b"uart@10000000".to_vec()),
            (0x0c00_0000, None, b"intc@c000000".to_vec()),
            (0x0d00_0000, None, b"intc@c000000".to_vec()),
        ]
    );
}
