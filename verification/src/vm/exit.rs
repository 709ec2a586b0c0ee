//! What a vCPU does when the guest exits to the hypervisor: the decisions
//! of the run loop, and the value an emulated device read puts in a guest
//! register.
use vstd::prelude::*;

use crate::addr::GuestPhysAddr;
use crate::cpu::CpuHardId;
use crate::vm::define::RunError;

verus! {

/// The width of a guest access.
#[derive(Debug, Clone, Copy, PartialEq, Eq, Structural)]
pub enum AccessWidth {
    Byte,
    Word,
    Dword,
    Qword,
}

/// The number of bits of an access of width `w`.
pub open spec fn width_bits(w: AccessWidth) -> nat {
    match w {
        AccessWidth::Byte => 8,
        AccessWidth::Word => 16,
        AccessWidth::Dword => 32,
        AccessWidth::Qword => 64,
    }
}

/// The value of the low `bits` bits of `v`, with the top one of them
/// copied into every higher bit of a 64-bit register when `signed`.
pub open spec fn extend_value(v: int, bits: nat, signed: bool) -> int {
    let low = v % vstd::arithmetic::power2::pow2(bits) as int;
    if bits >= 64 || !signed {
        v % 0x1_0000_0000_0000_0000
    } else if low >= vstd::arithmetic::power2::pow2((bits - 1) as nat) {
        low + 0x1_0000_0000_0000_0000 - vstd::arithmetic::power2::pow2(bits)
    } else {
        low
    }
}

/// The register value that a device read of `value` gives: the value
/// itself, or, for a sign-extending load, its low byte, half word or word
/// sign-extended to 64 bits.
pub fn mmio_read_result(value: u64, width: AccessWidth, signed_ext: bool) -> (r: u64)
    ensures
        r == (if signed_ext {
            extend_value(value as int, width_bits(width), true)
        } else {
            value as int
        }),
{
    proof {
        vstd::arithmetic::power2::lemma2_to64();
    }
    if signed_ext {
        match width {
            AccessWidth::Byte => {
                let low = value & 0xFF;
                assert(low == value % 0x100) by (bit_vector)
                    requires
                        low == value & 0xFF,
                ;
                if low >= 0x80 {
                    let r = low | 0xFFFF_FFFF_FFFF_FF00;
                    assert(r == low + 0xFFFF_FFFF_FFFF_FF00) by (bit_vector)
                        requires
                            r == low | 0xFFFF_FFFF_FFFF_FF00,
                            low < 0x100,
                    ;
                    r
                } else {
                    low
                }
            },
            AccessWidth::Word => {
                let low = value & 0xFFFF;
                assert(low == value % 0x1_0000) by (bit_vector)
                    requires
                        low == value & 0xFFFF,
                ;
                if low >= 0x8000 {
                    let r = low | 0xFFFF_FFFF_FFFF_0000;
                    assert(r == low + 0xFFFF_FFFF_FFFF_0000) by (bit_vector)
                        requires
                            r == low | 0xFFFF_FFFF_FFFF_0000,
                            low < 0x1_0000,
                    ;
                    r
                } else {
                    low
                }
            },
            AccessWidth::Dword => {
                let low = value & 0xFFFF_FFFF;
                assert(low == value % 0x1_0000_0000) by (bit_vector)
                    requires
                        low == value & 0xFFFF_FFFF,
                ;
                if low >= 0x8000_0000 {
                    let r = low | 0xFFFF_FFFF_0000_0000;
                    assert(r == low + 0xFFFF_FFFF_0000_0000) by (bit_vector)
                        requires
                            r == low | 0xFFFF_FFFF_0000_0000,
                            low < 0x1_0000_0000,
                    ;
                    r
                } else {
                    low
                }
            },
            AccessWidth::Qword => value,
        }
    } else {
        value
    }
}

} // verus!

verus! {

/// Why the guest left a vCPU.
#[derive(Debug, Clone, Copy, PartialEq, Eq, Structural)]
pub enum ExitReason {
    /// A hypercall with number `nr`.
    Hypercall { nr: u64 },
    /// A load from emulated device memory into register `reg`.
    MmioRead { addr: usize, width: AccessWidth, reg: usize, signed_ext: bool },
    /// A store of `data` to emulated device memory.
    MmioWrite { addr: usize, width: AccessWidth, data: u64 },
    /// A read from an I/O port.
    IoRead { port: u16, width: AccessWidth },
    /// A write of `data` to an I/O port.
    IoWrite { port: u16, width: AccessWidth, data: u64 },
    /// A read of a system register into register `reg`.
    SysRegRead { addr: usize, reg: usize },
    /// A write of `value` to a system register.
    SysRegWrite { addr: usize, value: u64 },
    /// A host interrupt arrived.
    ExternalInterrupt { vector: u64 },
    /// The guest asks to start the CPU `target_cpu` at `entry_point` with
    /// `arg`.
    CpuUp { target_cpu: usize, entry_point: usize, arg: u64 },
    /// The guest stops a CPU.
    CpuDown,
    /// The guest asks to shut the machine down.
    SystemDown,
    /// Nothing to do.
    Nothing,
    /// The vCPU halted.
    Halt,
    /// A guest access missed the stage-2 page table.
    NestedPageFault { addr: usize },
    /// Any other reason.
    Other,
}

/// What a RISC-V vCPU's run loop does after an exit.
#[derive(Debug, Clone, Copy, PartialEq, Eq, Structural)]
pub enum ExitAction {
    /// Read the device, then write [`mmio_read_result`] of the value to
    /// register `reg`.
    ReadMmio { addr: GuestPhysAddr, width: AccessWidth, reg: usize, signed_ext: bool },
    /// Write `data` to the device.
    WriteMmio { addr: GuestPhysAddr, width: AccessWidth, data: u64 },
    /// Let the host handle the interrupt and pass a claimed device
    /// interrupt on to the guest.
    HandleIrq { vector: u64 },
    /// Start the vCPU on `target` at `entry` with `arg`, then clear
    /// register 0.
    StartCpu { target: CpuHardId, entry: GuestPhysAddr, arg: u64 },
    /// Stop the machine and go on.
    StopMachine,
    /// Enter the guest again.
    Resume,
    /// Leave the run loop.
    Leave,
    /// An exit the run loop does not handle; it stops there.
    Unhandled,
}

/// What a RISC-V vCPU's run loop does after an exit for `reason`.
pub open spec fn exit_action_spec(reason: ExitReason) -> ExitAction {
    match reason {
        ExitReason::MmioRead { addr, width, reg, signed_ext } => ExitAction::ReadMmio {
            addr: GuestPhysAddr(addr),
            width,
            reg,
            signed_ext,
        },
        ExitReason::MmioWrite { addr, width, data } => ExitAction::WriteMmio {
            addr: GuestPhysAddr(addr),
            width,
            data,
        },
        ExitReason::ExternalInterrupt { vector } => ExitAction::HandleIrq { vector },
        ExitReason::CpuUp { target_cpu, entry_point, arg } => ExitAction::StartCpu {
            target: CpuHardId(target_cpu),
            entry: GuestPhysAddr(entry_point),
            arg,
        },
        ExitReason::SystemDown => ExitAction::StopMachine,
        ExitReason::Nothing => ExitAction::Resume,
        ExitReason::Halt => ExitAction::Leave,
        _ => ExitAction::Unhandled,
    }
}

/// What a RISC-V vCPU's run loop does after an exit for `reason`.
pub fn riscv_exit_action(reason: &ExitReason) -> (r: ExitAction)
    ensures
        r == exit_action_spec(*reason),
{
    match *reason {
        ExitReason::MmioRead { addr, width, reg, signed_ext } => ExitAction::ReadMmio {
            addr: GuestPhysAddr(addr),
            width,
            reg,
            signed_ext,
        },
        ExitReason::MmioWrite { addr, width, data } => ExitAction::WriteMmio {
            addr: GuestPhysAddr(addr),
            width,
            data,
        },
        ExitReason::ExternalInterrupt { vector } => ExitAction::HandleIrq { vector },
        ExitReason::CpuUp { target_cpu, entry_point, arg } => ExitAction::StartCpu {
            target: CpuHardId(target_cpu),
            entry: GuestPhysAddr(entry_point),
            arg,
        },
        ExitReason::SystemDown => ExitAction::StopMachine,
        ExitReason::Nothing => ExitAction::Resume,
        ExitReason::Halt => ExitAction::Leave,
        _ => ExitAction::Unhandled,
    }
}

/// What the generic run loop of a vCPU does after an exit.
#[derive(Debug, Clone, Copy, PartialEq, Eq, Structural)]
pub enum RunStep {
    /// An emulated device access: do it and enter the guest again.
    Device,
    /// A stage-2 fault: enter the guest again if the address space handles
    /// it, else return the exit.
    PageFault,
    /// Return the exit to the caller.
    Return,
}

/// What the generic run loop of a vCPU does after an exit for `reason`.
pub open spec fn run_step_spec(reason: ExitReason) -> RunStep {
    match reason {
        ExitReason::MmioRead { .. } | ExitReason::MmioWrite { .. } | ExitReason::IoRead { .. }
        | ExitReason::IoWrite { .. } | ExitReason::SysRegRead { .. }
        | ExitReason::SysRegWrite { .. } => RunStep::Device,
        ExitReason::NestedPageFault { .. } => RunStep::PageFault,
        _ => RunStep::Return,
    }
}

/// What the generic run loop of a vCPU does after an exit for `reason`:
/// device accesses of every kind are emulated and the guest resumes,
/// stage-2 faults go to the address space, and every other exit goes back
/// to the caller.
pub fn run_step(reason: &ExitReason) -> (r: RunStep)
    ensures
        r == run_step_spec(*reason),
{
    match *reason {
        ExitReason::MmioRead { .. } | ExitReason::MmioWrite { .. } | ExitReason::IoRead { .. }
        | ExitReason::IoWrite { .. } | ExitReason::SysRegRead { .. } | ExitReason::SysRegWrite {
            ..
        } => RunStep::Device,
        ExitReason::NestedPageFault { .. } => RunStep::PageFault,
        _ => RunStep::Return,
    }
}

/// Why a vCPU could not be run.
#[derive(Debug, Clone, Copy, PartialEq, Eq, Structural)]
pub enum RunVcpuError {
    /// The machine has no vCPU with this identifier.
    InvalidInput,
}

/// The vCPU to run, by its identifier among the machine's `vcpu_num`
/// vCPUs: refused when there is no such vCPU.
pub fn vcpu_to_run(vcpu_id: usize, vcpu_num: usize) -> (r: Result<usize, RunVcpuError>)
    ensures
        r is Ok <==> vcpu_id < vcpu_num,
        vcpu_id < vcpu_num ==> r == Ok::<usize, RunVcpuError>(vcpu_id),
        vcpu_id >= vcpu_num ==> r == Err::<usize, RunVcpuError>(RunVcpuError::InvalidInput),
{
    if vcpu_id < vcpu_num {
        Ok(vcpu_id)
    } else {
        Err(RunVcpuError::InvalidInput)
    }
}

/// What the run loop of a vCPU does next.
#[derive(Debug, Clone, Copy, PartialEq, Eq, Structural)]
pub enum VcpuLoopAction {
    /// Enter the guest again.
    Reenter,
    /// Leave the loop and return the exit.
    Finish,
}

/// The next move of the run loop of a vCPU, once the exit for `reason`
/// has been served: after a device access the guest is entered again;
/// after a stage-2 fault it is entered again when the address space
/// handled the fault (`fault_handled`), and the exit is returned when it
/// did not; every other exit is returned.
pub open spec fn loop_action_spec(reason: ExitReason, fault_handled: bool) -> VcpuLoopAction {
    match run_step_spec(reason) {
        RunStep::Device => VcpuLoopAction::Reenter,
        RunStep::PageFault => if fault_handled {
            VcpuLoopAction::Reenter
        } else {
            VcpuLoopAction::Finish
        },
        RunStep::Return => VcpuLoopAction::Finish,
    }
}

/// The next move of the run loop of a vCPU after the exit for `reason`;
/// `fault_handled` says whether the address space handled a stage-2
/// fault, and counts for no other exit.
pub fn vcpu_loop_action(reason: &ExitReason, fault_handled: bool) -> (r: VcpuLoopAction)
    ensures
        r == loop_action_spec(*reason, fault_handled),
{
    match run_step(reason) {
        RunStep::Device => VcpuLoopAction::Reenter,
        RunStep::PageFault => if fault_handled {
            VcpuLoopAction::Reenter
        } else {
            VcpuLoopAction::Finish
        },
        RunStep::Return => VcpuLoopAction::Finish,
    }
}

/// The run loop returns no device access and no stage-2 fault that the
/// address space handled: it enters the guest again after those.
pub proof fn lemma_loop_returns_unhandled(reason: ExitReason, fault_handled: bool)
    requires
        loop_action_spec(reason, fault_handled) == VcpuLoopAction::Finish,
    ensures
        run_step_spec(reason) != RunStep::Device,
        reason is NestedPageFault ==> !fault_handled,
{
}

/// What the run loop of a vCPU does after an exit has been carried out.
#[derive(Debug, PartialEq, Eq)]
pub enum LoopNext {
    /// Enter the guest again.
    Reenter,
    /// Leave the loop with this result.
    Return(Result<(), RunError>),
}

/// The outcome of carrying out an exit's action: the register to write
/// before going on, if any, and what the loop does next.
#[derive(Debug, PartialEq, Eq)]
pub struct LoopStep {
    pub set_reg: Option<(usize, u64)>,
    pub next: LoopNext,
}

/// The loop goes on while the machine is active and returns once it is
/// not.
pub open spec fn go_on(active: bool) -> LoopNext {
    if active {
        LoopNext::Reenter
    } else {
        LoopNext::Return(Ok(()))
    }
}

/// Whether the run loop enters the guest: only while the machine is
/// active; it returns `Ok` once the machine is not.
pub fn loop_entry(active: bool) -> (r: LoopNext)
    ensures
        r == go_on(active),
{
    if active {
        LoopNext::Reenter
    } else {
        LoopNext::Return(Ok(()))
    }
}

/// What the run loop of a vCPU does once the action for an exit has been
/// carried out. `outside` is what carrying it out gave: the value a device
/// read returned, or whether the device write, the start of the other
/// vCPU or the stop of the machine succeeded, with the error's message
/// when it failed; `active` is whether the machine is still active.
/// - a device read writes the value, sign-extended when asked, to the
///   target register; a failed read, device write, vCPU start or machine
///   stop ends the run with that error;
/// - a started vCPU clears register 0 of the vCPU that asked;
/// - a halt leaves the loop with `Ok`;
/// - otherwise the loop goes on while the machine is active.
///
/// Exits the loop does not handle are left out: the loop stops there
/// without a result.
pub fn exit_loop_step(action: &ExitAction, outside: Result<u64, String>, active: bool) -> (r: LoopStep)
    requires
        !(action is Unhandled),
    ensures
        match *action {
            ExitAction::ReadMmio { width, reg, signed_ext, .. } => match outside {
                Ok(v) => r.set_reg matches Some((g, x)) && g == reg && x == (if signed_ext {
                    extend_value(v as int, width_bits(width), true)
                } else {
                    v as int
                }) && r.next == go_on(active),
                Err(m) => r.set_reg is None && r.next == LoopNext::Return(Err(RunError::ExitWithError(m))),
            },
            ExitAction::WriteMmio { .. } | ExitAction::StopMachine => match outside {
                Ok(_) => r.set_reg is None && r.next == go_on(active),
                Err(m) => r.set_reg is None && r.next == LoopNext::Return(Err(RunError::ExitWithError(m))),
            },
            ExitAction::StartCpu { .. } => match outside {
                Ok(_) => r.set_reg == Some((0usize, 0u64)) && r.next == go_on(active),
                Err(m) => r.set_reg is None && r.next == LoopNext::Return(Err(RunError::ExitWithError(m))),
            },
            ExitAction::HandleIrq { .. } | ExitAction::Resume => r.set_reg is None && r.next == go_on(active),
            ExitAction::Leave => r.set_reg is None && r.next == LoopNext::Return(Ok(())),
            ExitAction::Unhandled => false,
        },
{
    match action {
        ExitAction::ReadMmio { width, reg, signed_ext, .. } => match outside {
            Ok(v) => LoopStep {
                set_reg: Some((*reg, mmio_read_result(v, *width, *signed_ext))),
                next: loop_entry(active),
            },
            Err(m) => LoopStep { set_reg: None, next: LoopNext::Return(Err(RunError::ExitWithError(m))) },
        },
        ExitAction::WriteMmio { .. } | ExitAction::StopMachine => match outside {
            Ok(_) => LoopStep { set_reg: None, next: loop_entry(active) },
            Err(m) => LoopStep { set_reg: None, next: LoopNext::Return(Err(RunError::ExitWithError(m))) },
        },
        ExitAction::StartCpu { .. } => match outside {
            Ok(_) => LoopStep { set_reg: Some((0, 0)), next: loop_entry(active) },
            Err(m) => LoopStep { set_reg: None, next: LoopNext::Return(Err(RunError::ExitWithError(m))) },
        },
        ExitAction::HandleIrq { .. } | ExitAction::Resume => LoopStep { set_reg: None, next: loop_entry(active) },
        ExitAction::Leave => LoopStep { set_reg: None, next: LoopNext::Return(Ok(())) },
        ExitAction::Unhandled => LoopStep { set_reg: None, next: LoopNext::Return(Ok(())) },
    }
}

} // verus!

verus! {

impl AccessWidth {
    /// The number of bytes of an access of this width.
    pub fn size(&self) -> (r: usize)
        ensures
            r as nat * 8 == width_bits(*self),
    {
        match self {
            AccessWidth::Byte => 1,
            AccessWidth::Word => 2,
            AccessWidth::Dword => 4,
            AccessWidth::Qword => 8,
        }
    }
}

} // verus!
