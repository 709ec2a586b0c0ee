use axvm::cpu::{CpuHardId, CpuId, HCpuAllocator, HCpuExclusive};
use axvm::percpu::{count, list, CpuListCache, HCpu, HCpuOp, PreCpuSet};

#[test]
fn host_cpus_are_taken_exclusively() {
    let mut alloc = HCpuAllocator::new();
    assert!(HCpuExclusive::try_new(&mut alloc, None).is_none());
    alloc.add_cpus(4);
    let two = HCpuExclusive::try_new(&mut alloc, Some(CpuId::new(2))).unwrap();
    assert_eq!(two.id(), CpuId::new(2));
    assert!(HCpuExclusive::try_new(&mut alloc, Some(CpuId::new(2))).is_none());
    let low = HCpuExclusive::try_new(&mut alloc, None).unwrap();
    assert_eq!(low.cpu_id(), CpuId::new(0));
    assert!(HCpuExclusive::try_new(&mut alloc, Some(CpuId::new(7))).is_none());
    alloc.release(two);
    let again = HCpuExclusive::try_new(&mut alloc, Some(CpuId::new(2))).unwrap();
    assert_eq!(again.id().raw(), 2);
    let next = HCpuExclusive::try_new(&mut alloc, None).unwrap();
    assert_eq!(next.id().raw(), 1);
}

fn hcpu(id: usize, hard: usize) -> HCpu {
    HCpu {
        id: CpuId::new(id),
        hard_id: CpuHardId::new(hard),
        max_guest_page_table_levels: 4,
        pa_range_end: 1 << 40,
        pa_bits: 40,
    }
}

#[test]
fn per_cpu_data_reads_back_what_was_set() {
    let mut set: PreCpuSet<HCpu> = PreCpuSet::new();
    set.init(&[CpuHardId::new(0x100), CpuHardId::new(0x0)]);
    set.set(CpuHardId::new(0x100), hcpu(1, 0x100));
    set.set(CpuHardId::new(0x0), hcpu(0, 0x0));
    assert_eq!(set.get(CpuHardId::new(0x100)).unwrap().id, CpuId::new(1));
    assert_eq!(set.current(CpuHardId::new(0x0)).hard_id(), CpuHardId::new(0));
    assert!(set.get(CpuHardId::new(0x200)).is_none());
    let order: Vec<usize> = set.iter().iter().map(|(h, _)| h.raw()).collect();
    assert_eq!(order, vec![0x0, 0x100]);
}

#[test]
fn exclusive_cpus_know_their_hardware_id() {
    let mut set: PreCpuSet<HCpu> = PreCpuSet::new();
    set.set(CpuHardId::new(0x81), hcpu(1, 0x81));
    set.set(CpuHardId::new(0x80), hcpu(0, 0x80));
    let mut alloc = HCpuAllocator::new();
    alloc.add_cpus(2);
    let c = HCpuExclusive::try_new(&mut alloc, Some(CpuId::new(1))).unwrap();
    assert_eq!(c.hard_id(&set), CpuHardId::new(0x81));
}

#[test]
fn host_cpu_list_is_probed_once() {
    let mut cache = CpuListCache::new();
    let first = list(&mut cache, || vec![CpuHardId::new(0x0), CpuHardId::new(0x100)]);
    assert_eq!(first, vec![CpuHardId::new(0x0), CpuHardId::new(0x100)]);
    let second = list(&mut cache, || vec![CpuHardId::new(0x7)]);
    assert_eq!(second, first);
    assert_eq!(count(&mut cache, || Vec::new()), 2);
    let mut fresh = CpuListCache::new();
    assert_eq!(count(&mut fresh, || vec![CpuHardId::new(3)]), 1);
    assert_eq!(list(&mut fresh, || Vec::new()), vec![CpuHardId::new(3)]);
}
