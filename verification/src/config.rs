//! The configuration from which a virtual machine is built.
use vstd::prelude::*;

use crate::addr::{GuestPhysAddr, HostPhysAddr};
use crate::cpu::CpuId;

verus! {

/// The entry addresses of the vCPUs of a machine.
#[derive(Clone, Copy, Debug, Default)]
pub struct AxVCpuConfig {
    /// The entry address in guest physical memory of the bootstrap processor.
    pub bsp_entry: GuestPhysAddr,
    /// The entry address in guest physical memory of the application processors.
    pub ap_entry: GuestPhysAddr,
}

/// The guest physical addresses at which the images of a machine load.
#[derive(Clone, Copy, Debug, Default)]
pub struct VMImageConfig {
    /// Where the kernel image loads.
    pub kernel_load_gpa: GuestPhysAddr,
    /// Where the BIOS image loads, if there is one.
    pub bios_load_gpa: Option<GuestPhysAddr>,
    /// Where the device tree blob loads, if there is one.
    pub dtb_load_gpa: Option<GuestPhysAddr>,
    /// Where the ramdisk loads, if there is one.
    pub ramdisk_load_gpa: Option<GuestPhysAddr>,
}

/// One image to load into a machine: its bytes and, if it is fixed, the
/// guest physical address to load it at.
#[derive(Clone, Debug, Default)]
pub struct VMImage {
    pub gpa: Option<GuestPhysAddr>,
    pub data: Vec<u8>,
}

/// The images of a machine.
#[derive(Clone, Debug, Default)]
pub struct VMImagesConfig {
    /// The kernel image.
    pub kernel: VMImage,
    /// The BIOS image, if the machine uses one.
    pub bios: Option<VMImage>,
    /// The device tree blob, if one is given.
    pub dtb: Option<VMImage>,
    /// The ramdisk image, if the machine uses one.
    pub ramdisk: Option<VMImage>,
}

/// How a region of guest memory is backed.
#[derive(Clone, Copy, Debug, PartialEq, Eq, Structural)]
pub enum MemoryKind {
    /// Host memory allocated for the guest and mapped at the guest
    /// physical address equal to its host physical address.
    Identical { size: usize },
    /// Host physical memory at `hpa`, mapped at the same guest address.
    Passthrough { hpa: HostPhysAddr, size: usize },
    /// Memory allocated on demand and mapped at the guest address `gpa`.
    Vmem { gpa: GuestPhysAddr, size: usize },
}

/// The size of a memory region.
pub open spec fn memory_kind_size(kind: MemoryKind) -> nat {
    match kind {
        MemoryKind::Identical { size } => size as nat,
        MemoryKind::Passthrough { size, .. } => size as nat,
        MemoryKind::Vmem { size, .. } => size as nat,
    }
}

/// The total size of a sequence of memory regions.
pub open spec fn total_memory_size(regions: Seq<MemoryKind>) -> nat
    decreases regions.len(),
{
    if regions.len() == 0 {
        0
    } else {
        total_memory_size(regions.drop_last()) + memory_kind_size(regions.last())
    }
}

impl MemoryKind {
    /// The size of the region.
    pub fn size(&self) -> (r: usize)
        ensures
            r == memory_kind_size(*self),
    {
        match self {
            MemoryKind::Identical { size } => *size,
            MemoryKind::Passthrough { size, .. } => *size,
            MemoryKind::Vmem { size, .. } => *size,
        }
    }
}

/// How the vCPUs of a machine are chosen.
#[derive(Clone, Debug)]
pub enum CpuNumType {
    /// This many vCPUs, each bound to any free host CPU.
    Alloc(usize),
    /// One vCPU bound to each of these host CPUs.
    Fixed(Vec<CpuId>),
}

/// The number of vCPUs that a choice of vCPUs gives.
pub open spec fn cpu_num_spec(c: CpuNumType) -> nat {
    match c {
        CpuNumType::Alloc(n) => n as nat,
        CpuNumType::Fixed(ids) => ids@.len(),
    }
}

impl CpuNumType {
    /// The number of vCPUs.
    pub fn num(&self) -> (r: usize)
        ensures
            r == cpu_num_spec(*self),
    {
        match self {
            CpuNumType::Alloc(num) => *num,
            CpuNumType::Fixed(ids) => ids.len(),
        }
    }
}

impl Default for CpuNumType {
    fn default() -> (r: Self)
        ensures
            r matches CpuNumType::Alloc(n) && n == 1,
    {
        CpuNumType::Alloc(1)
    }
}

/// How interrupts reach the guest.
#[derive(Clone, Copy, Debug, PartialEq, Eq, Default, Structural)]
pub enum InterruptMode {
    /// The guest gets no interrupts.
    NoIrq,
    /// Interrupts are emulated by the hypervisor.
    #[default]
    Emulated,
    /// Host interrupts and timers are passed through to the guest.
    Passthrough,
}

/// A region of host device memory mapped at the same guest address.
#[derive(Clone, Copy, Debug, PartialEq, Eq, Structural)]
pub struct PassThroughAddress {
    pub base_gpa: usize,
    pub length: usize,
}

/// The configuration of one virtual machine.
#[derive(Clone, Debug, Default)]
pub struct AxVMConfig {
    pub id: usize,
    pub name: String,
    pub cpu_num: CpuNumType,
    pub image_config: VMImagesConfig,
    pub memory_regions: Vec<MemoryKind>,
    pub interrupt_mode: InterruptMode,
    /// The device tree paths of the devices passed through to the guest.
    pub pass_through_devices: Vec<Vec<u8>>,
    /// Groups of device tree paths kept from the guest.
    pub excluded_devices: Vec<Vec<Vec<u8>>>,
    /// Host device memory mapped into the guest.
    pub passthrough_addresses: Vec<PassThroughAddress>,
}

impl AxVMConfig {
    /// The machine's identifier.
    pub fn id(&self) -> (r: usize)
        ensures
            r == self.id,
    {
        self.id
    }

    /// The machine's name.
    pub fn name(&self) -> (r: &str)
        ensures
            r@ == self.name@,
    {
        self.name.as_str()
    }

    /// The images of the machine.
    pub fn image_config(&self) -> (r: &VMImagesConfig)
        ensures
            *r == self.image_config,
    {
        &self.image_config
    }

    /// How interrupts reach the guest.
    pub fn interrupt_mode(&self) -> (r: InterruptMode)
        ensures
            r == self.interrupt_mode,
    {
        self.interrupt_mode
    }

    /// The device tree paths of the devices passed through to the guest.
    pub fn pass_through_devices(&self) -> (r: &Vec<Vec<u8>>)
        ensures
            *r == self.pass_through_devices,
    {
        &self.pass_through_devices
    }

    /// The groups of device tree paths kept from the guest.
    pub fn excluded_devices(&self) -> (r: &Vec<Vec<Vec<u8>>>)
        ensures
            *r == self.excluded_devices,
    {
        &self.excluded_devices
    }

    /// The total size of the memory regions of the machine.
    pub fn memory_size(&self) -> (r: usize)
        requires
            total_memory_size(self.memory_regions@) <= usize::MAX,
        ensures
            r == total_memory_size(self.memory_regions@),
    {
        let mut total: usize = 0;
        let mut i: usize = 0;
        while i < self.memory_regions.len()
            invariant
                i <= self.memory_regions@.len(),
                total == total_memory_size(self.memory_regions@.subrange(0, i as int)),
                total_memory_size(self.memory_regions@) <= usize::MAX,
            decreases self.memory_regions@.len() - i,
        {
            proof {
                lemma_total_memory_size_prefix_le(self.memory_regions@, i as int + 1);
                assert(self.memory_regions@.subrange(0, i as int + 1).drop_last()
                    =~= self.memory_regions@.subrange(0, i as int));
            }
            total = total + self.memory_regions[i].size();
            i = i + 1;
        }
        proof {
            assert(self.memory_regions@.subrange(0, i as int) =~= self.memory_regions@);
        }
        total
    }

    /// The number of vCPUs of the machine.
    pub fn vcpu_num(&self) -> (r: usize)
        ensures
            r == cpu_num_spec(self.cpu_num),
    {
        self.cpu_num.num()
    }
}

/// The total size of a prefix is at most that of the whole sequence.
proof fn lemma_total_memory_size_prefix_le(regions: Seq<MemoryKind>, n: int)
    requires
        0 <= n <= regions.len(),
    ensures
        total_memory_size(regions.subrange(0, n)) <= total_memory_size(regions),
    decreases regions.len() - n,
{
    if n < regions.len() {
        lemma_total_memory_size_prefix_le(regions, n + 1);
        assert(regions.subrange(0, n + 1).drop_last() =~= regions.subrange(0, n));
    } else {
        assert(regions.subrange(0, n) =~= regions);
    }
}

/// The physical CPUs that the vCPUs of a machine run on.
#[derive(Clone, Debug, Default)]
pub struct PhysCpuList {
    /// The number of vCPUs.
    pub cpu_num: usize,
    /// For each vCPU in order, the physical identifier it takes, if given.
    pub phys_cpu_ids: Option<Vec<usize>>,
    /// For each vCPU in order, the mask of the physical CPUs it may run on,
    /// if given.
    pub phys_cpu_sets: Option<Vec<usize>>,
}

/// The affinity and physical identifier of vCPU `i`: the mask given for it,
/// if any, and the identifier given for it, else `i`.
pub open spec fn vcpu_affinity(list: PhysCpuList, i: int) -> (usize, Option<usize>, usize) {
    let mask = match list.phys_cpu_sets {
        Some(sets) => if i < sets@.len() { Some(sets@[i]) } else { None },
        None => None,
    };
    let phys = match list.phys_cpu_ids {
        Some(ids) => if i < ids@.len() { ids@[i] } else { i as usize },
        None => i as usize,
    };
    (i as usize, mask, phys)
}

impl PhysCpuList {
    /// The number of vCPUs.
    pub fn cpu_num(&self) -> (r: usize)
        ensures
            r == self.cpu_num,
    {
        self.cpu_num
    }

    /// The physical identifiers given for the vCPUs.
    pub fn phys_cpu_ids(&self) -> (r: &Option<Vec<usize>>)
        ensures
            *r == self.phys_cpu_ids,
    {
        &self.phys_cpu_ids
    }

    /// The affinity masks given for the vCPUs.
    pub fn phys_cpu_sets(&self) -> (r: &Option<Vec<usize>>)
        ensures
            *r == self.phys_cpu_sets,
    {
        &self.phys_cpu_sets
    }

    /// For each vCPU in order: its identifier, the mask of the physical
    /// CPUs it may run on (`None`: any), and its physical identifier (its
    /// own identifier where none is given).
    pub fn get_vcpu_affinities_pcpu_ids(&self) -> (r: Vec<(usize, Option<usize>, usize)>)
        ensures
            r@.len() == self.cpu_num,
            forall|i: int| 0 <= i < r@.len() ==> #[trigger] r@[i] == vcpu_affinity(*self, i),
    {
        let mut res: Vec<(usize, Option<usize>, usize)> = Vec::new();
        let mut i: usize = 0;
        while i < self.cpu_num
            invariant
                i <= self.cpu_num,
                res@.len() == i,
                forall|j: int| 0 <= j < i ==> #[trigger] res@[j] == vcpu_affinity(*self, j),
            decreases self.cpu_num - i,
        {
            let mask = match &self.phys_cpu_sets {
                Some(sets) => if i < sets.len() { Some(sets[i]) } else { None },
                None => None,
            };
            let phys = match &self.phys_cpu_ids {
                Some(ids) => if i < ids.len() { ids[i] } else { i },
                None => i,
            };
            res.push((i, mask, phys));
            i = i + 1;
        }
        res
    }
}

} // verus!
