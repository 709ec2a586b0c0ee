use axvm::config::{AxVMConfig, MemoryKind, VMImage, VMImagesConfig};
use axvm::cpu::{CpuHardId, CpuId};
use axvm::percpu::HCpu;
use axvm::vm::paging::{
    calculate_addrspace_info, default_riscv_paging, determine_page_table_config,
    extend_pa_range, get_mode_name, limit_to_cpus, next_power_of_two, required_pa_max,
    riscv_paging_for, PagingError, PagingHandlerImpl, RiscvPaging,
};
use axvm::GuestPhysAddr;

fn hcpu(levels: usize, pa_end: usize, bits: usize) -> HCpu {
    HCpu {
        id: CpuId::new(0),
        hard_id: CpuHardId::new(0),
        max_guest_page_table_levels: levels,
        pa_range_end: pa_end,
        pa_bits: bits,
    }
}

#[test]
fn modes_by_range() {
    assert_eq!(determine_page_table_config(1 << 30), (3, "Sv39x4", 1 << 41));
    assert_eq!(determine_page_table_config((1 << 41) + 1), (4, "Sv48x4", 1 << 50));
    assert_eq!(determine_page_table_config(1 << 59), (5, "Sv57x4", 1 << 59));
    assert_eq!(get_mode_name(4), "Sv48x4");
    assert_eq!(get_mode_name(7), "Unknown");
}

#[test]
fn riscv_paging_starts_at_sv39x4_and_follows_the_cpus() {
    let d = default_riscv_paging();
    assert_eq!(d, RiscvPaging { pt_levels: 3, pa_max: 1 << 41, pa_bits: 41 });
    assert_eq!(limit_to_cpus(d, &[hcpu(4, 1 << 40, 40)]), RiscvPaging { pt_levels: 3, pa_max: 1 << 40, pa_bits: 40 });
    let wide = RiscvPaging { pt_levels: 5, pa_max: 1 << 58, pa_bits: 58 };
    assert_eq!(limit_to_cpus(wide, &[]), RiscvPaging { pt_levels: 5, pa_max: 1 << 56, pa_bits: 56 });
    let mid = RiscvPaging { pt_levels: 5, pa_max: 1 << 45, pa_bits: 45 };
    assert_eq!(limit_to_cpus(mid, &[]), RiscvPaging { pt_levels: 4, pa_max: 1 << 45, pa_bits: 45 });
}

#[test]
fn powers_of_two() {
    assert_eq!(next_power_of_two(0), 1);
    assert_eq!(next_power_of_two(1), 1);
    assert_eq!(next_power_of_two(5), 8);
    assert_eq!(next_power_of_two(0x8000_0000_0000_0000), 0x8000_0000_0000_0000);
}

fn config_with(regions: Vec<MemoryKind>, kernel_gpa: Option<usize>, kernel_len: usize) -> AxVMConfig {
    AxVMConfig {
        memory_regions: regions,
        image_config: VMImagesConfig {
            kernel: VMImage { gpa: kernel_gpa.map(GuestPhysAddr::from), data: vec![0u8; kernel_len] },
            ..Default::default()
        },
        ..Default::default()
    }
}

#[test]
fn required_range_covers_memory_and_kernel() {
    let c = config_with(vec![MemoryKind::Vmem { gpa: GuestPhysAddr::from(0x8000_0000), size: 0x1000_0000 }], None, 0x100);
    assert_eq!(required_pa_max(&c), 0x1_0000_0000);
    let k = config_with(vec![MemoryKind::Identical { size: 0x1000 }], Some(0x3_0000_0000), 0x10);
    assert_eq!(required_pa_max(&k), 0x4_0000_0000);
}

#[test]
fn ranges_extend_with_deeper_tables() {
    let p = RiscvPaging { pt_levels: 3, pa_max: 1 << 41, pa_bits: 41 };
    assert_eq!(extend_pa_range(p, 1 << 45), Ok(RiscvPaging { pt_levels: 4, pa_max: 1 << 45, pa_bits: 41 }));
    assert_eq!(extend_pa_range(p, 1 << 30), Ok(p));
    let shallow = RiscvPaging { pt_levels: 3, pa_max: 1 << 45, pa_bits: 45 };
    assert_eq!(extend_pa_range(shallow, 0), Err(PagingError::TooFewLevels { needed: 4, configured: 3 }));
}

#[test]
fn riscv_machine_paging() {
    let c = config_with(vec![MemoryKind::Vmem { gpa: GuestPhysAddr::from(0x8000_0000), size: 0x1000_0000 }], None, 0x100);
    assert_eq!(
        riscv_paging_for(&c, &[hcpu(5, 1 << 50, 50)]),
        Ok(RiscvPaging { pt_levels: 3, pa_max: 1 << 41, pa_bits: 41 })
    );
    let far = config_with(vec![MemoryKind::Vmem { gpa: GuestPhysAddr::from(1 << 44), size: 0x1000 }], None, 0x100);
    assert_eq!(
        riscv_paging_for(&far, &[hcpu(5, 1 << 50, 50)]),
        Ok(RiscvPaging { pt_levels: 4, pa_max: 1 << 45, pa_bits: 41 })
    );
}

#[test]
fn address_space_shared_by_all_cpus() {
    let info = calculate_addrspace_info(&[hcpu(3, 1 << 44, 44), hcpu(4, 1 << 48, 48)]);
    assert_eq!((info.pt_levels, info.pa_max, info.pa_bits), (3, 0x80_0000_0000, 44));
    let four = calculate_addrspace_info(&[hcpu(4, 1 << 44, 44)]);
    assert_eq!((four.pt_levels, four.pa_max, four.pa_bits), (4, 1 << 44, 44));
    let none = calculate_addrspace_info(&[]);
    assert_eq!((none.pt_levels, none.pa_max, none.pa_bits), (4, usize::MAX, usize::MAX));
}

#[test]
fn frame_alignment_orders() {
    assert_eq!(PagingHandlerImpl::align_frames_pow2(0x4000), 2);
    assert_eq!(PagingHandlerImpl::align_frames_pow2(0x1000), 0);
    assert_eq!(PagingHandlerImpl::align_frames_pow2(0x20_0000), 9);
}
