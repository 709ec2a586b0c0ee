//! The vCPUs of a machine that wait to be started, and what a vCPU boots
//! with.
use std::collections::BTreeMap;
use vstd::prelude::*;

use crate::addr::{GuestPhysAddr, HostPhysAddr};
use crate::config::InterruptMode;
use crate::cpu::CpuHardId;

verus! {

broadcast use {vstd::laws_cmp::group_laws_cmp, vstd::std_specs::btree::group_btree_axioms};

/// What a vCPU boots with.
#[derive(Clone, Copy, Debug, Default)]
pub struct CpuBootInfo {
    /// Where the guest kernel starts.
    pub kernel_entry: GuestPhysAddr,
    /// Where the device tree blob lies in guest memory.
    pub dtb_addr: GuestPhysAddr,
    /// The root of the stage-2 page table.
    pub gpt_root: HostPhysAddr,
    /// The number of levels of the stage-2 page table.
    pub pt_levels: usize,
    /// The number of bits of a guest physical address.
    pub pa_bits: usize,
    /// How interrupts reach the guest.
    pub irq_mode: InterruptMode,
    /// The argument handed to a secondary vCPU when it is started.
    pub secondary_boot_arg: Option<usize>,
}

/// What a secondary vCPU boots with when it is started at `entry` with
/// `arg`: what it had, with the entry and the argument replaced.
pub open spec fn secondary_boot_spec(info: CpuBootInfo, entry: GuestPhysAddr, arg: usize) -> CpuBootInfo {
    CpuBootInfo {
        kernel_entry: entry,
        dtb_addr: info.dtb_addr,
        gpt_root: info.gpt_root,
        pt_levels: info.pt_levels,
        pa_bits: info.pa_bits,
        irq_mode: info.irq_mode,
        secondary_boot_arg: Some(arg),
    }
}

/// What a secondary vCPU boots with when it is started at `entry` with
/// `arg`: what it had, with the entry and the argument replaced.
pub fn secondary_boot_info(info: &CpuBootInfo, entry: GuestPhysAddr, arg: usize) -> (r: CpuBootInfo)
    ensures
        r == secondary_boot_spec(*info, entry, arg),
        r.kernel_entry == entry,
        r.secondary_boot_arg == Some(arg),
        r.dtb_addr == info.dtb_addr,
        r.gpt_root == info.gpt_root,
        r.pt_levels == info.pt_levels,
        r.pa_bits == info.pa_bits,
        r.irq_mode == info.irq_mode,
{
    CpuBootInfo { kernel_entry: entry, secondary_boot_arg: Some(arg), ..*info }
}

/// What every vCPU of a machine boots with first: the kernel entry, the
/// device tree, the stage-2 page table and its limits, the interrupt mode,
/// and no secondary argument.
pub fn initial_boot_info(
    kernel_entry: GuestPhysAddr,
    dtb_addr: GuestPhysAddr,
    pt_levels: usize,
    pa_bits: usize,
    irq_mode: InterruptMode,
    gpt_root: HostPhysAddr,
) -> (r: CpuBootInfo)
    ensures
        r == (CpuBootInfo {
            kernel_entry,
            dtb_addr,
            gpt_root,
            pt_levels,
            pa_bits,
            irq_mode,
            secondary_boot_arg: None,
        }),
{
    CpuBootInfo { kernel_entry, dtb_addr, gpt_root, pt_levels, pa_bits, irq_mode, secondary_boot_arg: None }
}

/// How a vCPU is set up from its boot information.
#[derive(Clone, Copy, Debug)]
pub struct VCpuSetup {
    /// Where the vCPU starts.
    pub entry: GuestPhysAddr,
    /// The device tree address handed to the guest.
    pub dtb_addr: GuestPhysAddr,
    /// The stage-2 page table levels and physical address bits.
    pub pt_level: usize,
    pub pa_bits: usize,
    /// Whether host interrupts and the timer are passed through.
    pub passthrough_interrupt: bool,
    pub passthrough_timer: bool,
    /// The root of the stage-2 page table.
    pub ept_root: HostPhysAddr,
    /// The value of register 0, for a secondary vCPU.
    pub gpr0: Option<usize>,
}

/// How a vCPU is set up to boot with `info`: its entry, device tree and
/// page table as given, interrupts and timer passed through exactly in
/// the pass-through mode, and register 0 set to the secondary argument
/// when there is one.
pub fn vcpu_setup(info: &CpuBootInfo) -> (r: VCpuSetup)
    ensures
        r.entry == info.kernel_entry,
        r.dtb_addr == info.dtb_addr,
        r.pt_level == info.pt_levels,
        r.pa_bits == info.pa_bits,
        r.passthrough_interrupt == (info.irq_mode == InterruptMode::Passthrough),
        r.passthrough_timer == (info.irq_mode == InterruptMode::Passthrough),
        r.ept_root == info.gpt_root,
        r.gpr0 == info.secondary_boot_arg,
{
    let passthrough = match info.irq_mode {
        InterruptMode::Passthrough => true,
        _ => false,
    };
    VCpuSetup {
        entry: info.kernel_entry,
        dtb_addr: info.dtb_addr,
        pt_level: info.pt_levels,
        pa_bits: info.pa_bits,
        passthrough_interrupt: passthrough,
        passthrough_timer: passthrough,
        ept_root: info.gpt_root,
        gpr0: info.secondary_boot_arg,
    }
}

/// Why a vCPU could not be started.
#[derive(Debug, Clone, Copy, PartialEq, Eq, Structural)]
pub enum CpuUpError {
    /// No vCPU waits on the hardware CPU with this identifier.
    NotFound(CpuHardId),
}

/// The map from hardware CPU identifier to vCPU that a list of vCPUs
/// gives, a later vCPU on the same hardware CPU replacing an earlier one.
pub open spec fn vcpu_map<V>(vcpus: Seq<(CpuHardId, V)>) -> Map<usize, V>
    decreases vcpus.len(),
{
    if vcpus.len() == 0 {
        Map::empty()
    } else {
        vcpu_map(vcpus.drop_last()).insert(vcpus.last().0.0, vcpus.last().1)
    }
}

/// The vCPUs of a machine that wait to be started, by the hardware CPU
/// they are bound to.
pub struct VCpuList<V> {
    vcpus: BTreeMap<usize, V>,
}

impl<V> View for VCpuList<V> {
    type V = Map<usize, V>;

    closed spec fn view(&self) -> Map<usize, V> {
        self.vcpus@
    }
}

impl<V> VCpuList<V> {
    /// The vCPUs of `vcpus`, each on the hardware CPU it is paired with.
    pub fn new(vcpus: Vec<(CpuHardId, V)>) -> (r: Self)
        ensures
            r@ == vcpu_map(vcpus@),
    {
        let mut map: BTreeMap<usize, V> = BTreeMap::new();
        let ghost all = vcpus@;
        let mut rest = vcpus;
        proof {
            assert(all.subrange(0, 0) =~= Seq::<(CpuHardId, V)>::empty());
            assert(rest@ =~= all.subrange(0, all.len() as int));
        }
        while rest.len() > 0
            invariant
                rest@.len() <= all.len(),
                rest@ =~= all.subrange(all.len() - rest@.len(), all.len() as int),
                map@ == vcpu_map(all.subrange(0, all.len() - rest@.len())),
            decreases rest@.len(),
        {
            let ghost n = all.len() - rest@.len();
            let (hard_id, vcpu) = rest.remove(0);
            proof {
                assert(all.subrange(0, n + 1).drop_last() =~= all.subrange(0, n));
                assert(all.subrange(0, n + 1).last() == all[n]);
                assert(rest@ =~= all.subrange(n + 1, all.len() as int));
            }
            map.insert(hard_id.0, vcpu);
        }
        proof {
            assert(all.subrange(0, all.len() as int) =~= all);
        }
        VCpuList { vcpus: map }
    }

    /// Takes out the vCPU that waits on the hardware CPU `target_cpu`, to
    /// be started; refused when none waits there.
    pub fn cpu_up(&mut self, target_cpu: CpuHardId) -> (r: Result<V, CpuUpError>)
        ensures
            old(self)@.contains_key(target_cpu.0) ==> r == Ok::<V, CpuUpError>(old(self)@[target_cpu.0])
                && final(self)@ == old(self)@.remove(target_cpu.0),
            !old(self)@.contains_key(target_cpu.0) ==> r == Err::<V, CpuUpError>(
                CpuUpError::NotFound(target_cpu),
            ) && final(self)@ == old(self)@,
    {
        match self.vcpus.remove(&target_cpu.0) {
            Some(vcpu) => Ok(vcpu),
            None => {
                proof {
                    assert(self.vcpus@ =~= old(self).vcpus@);
                }
                Err(CpuUpError::NotFound(target_cpu))
            },
        }
    }
}

impl<V> VCpuList<(V, CpuBootInfo)> {
    /// Takes out the vCPU that waits on the hardware CPU `target_cpu`, with
    /// the boot information it is to be started with: what it had, with
    /// the entry `entry_point` and the argument `arg`; refused when none
    /// waits there.
    pub fn boot_secondary(&mut self, target_cpu: CpuHardId, entry_point: GuestPhysAddr, arg: usize) -> (r:
        Result<(V, CpuBootInfo), CpuUpError>)
        ensures
            old(self)@.contains_key(target_cpu.0) ==> r == Ok::<(V, CpuBootInfo), CpuUpError>(
                (
                    old(self)@[target_cpu.0].0,
                    secondary_boot_spec(old(self)@[target_cpu.0].1, entry_point, arg),
                ),
            ) && final(self)@ == old(self)@.remove(target_cpu.0),
            !old(self)@.contains_key(target_cpu.0) ==> r == Err::<(V, CpuBootInfo), CpuUpError>(
                CpuUpError::NotFound(target_cpu),
            ) && final(self)@ == old(self)@,
    {
        match self.cpu_up(target_cpu) {
            Ok((vcpu, info)) => {
                let boot = secondary_boot_info(&info, entry_point, arg);
                Ok((vcpu, boot))
            },
            Err(e) => Err(e),
        }
    }
}

/// Whether a vCPU thread that waits for its machine may enter the guest:
/// only once the machine's status has reached Running.
pub fn ready_to_run(status: crate::vm::define::VMStatus) -> (r: bool)
    ensures
        r == (crate::vm::define::status_rank(status) >= crate::vm::define::status_rank(
            crate::vm::define::VMStatus::Running,
        )),
{
    !status.precedes(crate::vm::define::VMStatus::Running)
}

/// A running machine: the vCPUs that wait to be started.
pub struct VmMachineRunning<V> {
    pub cpus: VCpuList<V>,
}

impl<V> VmMachineRunning<V> {
    /// Takes out the vCPU on the hardware CPU `target_cpu` to start it at
    /// `entry_point` with `arg` in its first register; refused when no
    /// vCPU waits there.
    pub fn cpu_up(&mut self, target_cpu: CpuHardId, entry_point: GuestPhysAddr, arg: u64) -> (r:
        Result<(V, GuestPhysAddr, u64), CpuUpError>)
        ensures
            old(self).cpus@.contains_key(target_cpu.0) ==> r == Ok::<
                (V, GuestPhysAddr, u64),
                CpuUpError,
            >((old(self).cpus@[target_cpu.0], entry_point, arg)) && final(self).cpus@ == old(
                self,
            ).cpus@.remove(target_cpu.0),
            !old(self).cpus@.contains_key(target_cpu.0) ==> r == Err::<
                (V, GuestPhysAddr, u64),
                CpuUpError,
            >(CpuUpError::NotFound(target_cpu)) && final(self).cpus@ == old(self).cpus@,
    {
        match self.cpus.cpu_up(target_cpu) {
            Ok(vcpu) => Ok((vcpu, entry_point, arg)),
            Err(e) => Err(e),
        }
    }
}

} // verus!

verus! {

/// The host CPU that each vCPU of a machine is to be bound to, in order:
/// none for each of `n` allocated vCPUs, or each fixed host CPU.
pub open spec fn bind_plan_spec(cpu_num: crate::config::CpuNumType) -> Seq<Option<crate::cpu::CpuId>> {
    match cpu_num {
        crate::config::CpuNumType::Alloc(n) => Seq::new(n as nat, |i: int| None),
        crate::config::CpuNumType::Fixed(ids) => ids@.map_values(|id: crate::cpu::CpuId| Some(id)),
    }
}

/// The host CPU that each vCPU of a machine is to be bound to, in the
/// order the vCPUs are created: `None` lets the allocator choose.
pub fn vcpu_bind_plan(cpu_num: &crate::config::CpuNumType) -> (r: Vec<Option<crate::cpu::CpuId>>)
    ensures
        r@ == bind_plan_spec(*cpu_num),
{
    let mut plan: Vec<Option<crate::cpu::CpuId>> = Vec::new();
    match cpu_num {
        crate::config::CpuNumType::Alloc(num) => {
            let mut i: usize = 0;
            while i < *num
                invariant
                    i <= *num,
                    plan@ == Seq::new(i as nat, |k: int| None::<crate::cpu::CpuId>),
                decreases *num - i,
            {
                plan.push(None);
                i = i + 1;
                assert(plan@ =~= Seq::new(i as nat, |k: int| None::<crate::cpu::CpuId>));
            }
        },
        crate::config::CpuNumType::Fixed(ids) => {
            let mut i: usize = 0;
            while i < ids.len()
                invariant
                    i <= ids@.len(),
                    plan@ == ids@.subrange(0, i as int).map_values(|id: crate::cpu::CpuId| Some(id)),
                decreases ids@.len() - i,
            {
                plan.push(Some(ids[i]));
                i = i + 1;
                assert(plan@ =~= ids@.subrange(0, i as int).map_values(|id: crate::cpu::CpuId| Some(id)));
            }
            assert(ids@.subrange(0, i as int) =~= ids@);
        },
    }
    plan
}

/// What a vCPU thread does once its vCPU stops running.
#[derive(Debug, Clone, PartialEq, Eq)]
pub struct VCpuExit {
    /// The number of vCPUs still running.
    pub remaining: usize,
    /// The error to stop the machine with, if the vCPU failed.
    pub exit_with_error: Option<crate::vm::define::RunError>,
    /// Whether the machine is to stop because no vCPU runs any more.
    pub stop_machine: bool,
}

/// What follows when a vCPU stops, with `running` vCPUs running before
/// it: the machine stops with the vCPU's error if it failed, and stops
/// once the last vCPU has stopped.
pub fn on_vcpu_exit(running: usize, result: Result<(), crate::vm::define::RunError>) -> (r: VCpuExit)
    requires
        running > 0,
    ensures
        r.remaining == running - 1,
        r.stop_machine == (running == 1),
        match result {
            Ok(()) => r.exit_with_error is None,
            Err(e) => r.exit_with_error == Some(e),
        },
{
    let remaining = running - 1;
    let exit_with_error = match result {
        Ok(()) => None,
        Err(e) => Some(e),
    };
    VCpuExit { remaining, exit_with_error, stop_machine: remaining == 0 }
}

/// Why an initialised machine could not start.
#[derive(Debug, Clone, Copy, PartialEq, Eq, Structural)]
pub enum StartError {
    /// It has no vCPU to run.
    NoVCpu,
}

/// Splits the vCPUs of a machine that starts into the one that runs first
/// and the ones that wait; refused when there are none.
pub fn split_main_vcpu<V>(vcpus: Vec<V>) -> (r: Result<(V, Vec<V>), StartError>)
    ensures
        vcpus@.len() == 0 ==> r == Err::<(V, Vec<V>), StartError>(StartError::NoVCpu),
        vcpus@.len() > 0 ==> r is Ok && r->Ok_0.0 == vcpus@[0] && r->Ok_0.1@ == vcpus@.drop_first(),
{
    if vcpus.len() == 0 {
        return Err(StartError::NoVCpu);
    }
    let mut rest = vcpus;
    let main = rest.remove(0);
    Ok((main, rest))
}

/// A vCPU is started at most once: once taken out, no vCPU waits on its
/// hardware CPU, so a second start of it is refused; the others still
/// wait.
pub proof fn lemma_cpu_up_once<V>(waiting: Map<usize, V>, target: usize, other: usize)
    requires
        other != target,
    ensures
        !waiting.remove(target).contains_key(target),
        waiting.remove(target).contains_key(other) == waiting.contains_key(other),
{
}

} // verus!
