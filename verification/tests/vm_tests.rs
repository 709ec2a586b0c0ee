use axvm::config::CpuNumType;
use axvm::cpu::{CpuHardId, CpuId};
use axvm::vm::define::{RunError, VMStatus as CoarseStatus};
use axvm::vm::exit::{
    exit_loop_step, loop_entry, mmio_read_result, riscv_exit_action, run_step, vcpu_loop_action, vcpu_to_run,
    AccessWidth, ExitAction, ExitReason, LoopNext, LoopStep, RunStep, RunVcpuError, VcpuLoopAction,
};
use axvm::vm::lifecycle::{run_failed, FlagError, StageError, VmFlags, VmLifecycle};
use axvm::vm::machine::VMStatus;
use axvm::vm::vcpu::{
    initial_boot_info, on_vcpu_exit, ready_to_run, secondary_boot_info, vcpu_setup, split_main_vcpu, vcpu_bind_plan, CpuBootInfo, CpuUpError,
    StartError, VCpuList, VmMachineRunning,
};
use axvm::vm::worker::{
    wait_step, CommandError, CommandMailbox, MachineCommand, VmMachine, WaitStep,
};
use axvm::config::InterruptMode;
use axvm::{GuestPhysAddr, HostPhysAddr};

#[test]
fn lifecycle_moves_through_its_stages() {
    let mut vm: VmLifecycle<&str, u32, u64> = VmLifecycle::new("config");
    assert_eq!(vm.status(), CoarseStatus::Uninit);
    assert!(vm.is_active());
    assert_eq!(vm.begin_init(), Ok("config"));
    vm.finish_init(7);
    assert_eq!(vm.status(), CoarseStatus::Initialized);
    assert_eq!(vm.begin_boot(), Ok(7));
    vm.finish_boot(99);
    assert_eq!(vm.status(), CoarseStatus::Running);
    vm.set_exit(None);
    assert_eq!(vm.status(), CoarseStatus::Stopping);
    assert!(!vm.is_active());
    vm.set_exit(Some(RunError::ExitWithError("late".to_string())));
    assert_eq!(vm.status(), CoarseStatus::Stopping);
    assert_eq!(vm.set_stopped(), Some(99));
    assert_eq!(vm.status(), CoarseStatus::Stopped);
    assert!(!vm.exit_failed());
}

#[test]
fn lifecycle_refuses_moves_from_the_wrong_stage() {
    let mut vm: VmLifecycle<&str, u32, u64> = VmLifecycle::new("config");
    assert_eq!(vm.begin_boot(), Err(StageError::NotInitialized));
    assert_eq!(vm.status(), CoarseStatus::Uninit);
    assert_eq!(vm.begin_init(), Ok("config"));
    vm.finish_init(7);
    assert_eq!(vm.begin_init(), Err(StageError::NotUninit));
    assert_eq!(vm.status(), CoarseStatus::Initialized);
    assert_eq!(vm.begin_boot(), Ok(7));
    vm.finish_boot(99);
    assert_eq!(vm.begin_init(), Err(StageError::NotUninit));
    assert_eq!(vm.begin_boot(), Err(StageError::NotInitialized));
    assert_eq!(vm.status(), CoarseStatus::Running);
    vm.set_exit(None);
    assert_eq!(vm.set_stopped(), Some(99));
}

#[test]
fn lifecycle_records_a_failed_init() {
    let mut vm: VmLifecycle<&str, u32, u64> = VmLifecycle::new("config");
    assert_eq!(vm.begin_init(), Ok("config"));
    vm.fail(RunError::ExitWithError("no memory".to_string()));
    assert_eq!(vm.status(), CoarseStatus::Stopped);
    assert!(vm.exit_failed());
    vm.set_exit(None);
    assert_eq!(vm.status(), CoarseStatus::Stopped);
}

#[test]
fn recorded_exits_that_count_as_failures() {
    assert!(!run_failed(&None));
    assert!(!run_failed(&Some(RunError::Exit)));
    assert!(run_failed(&Some(RunError::ExitWithError("x".to_string()))));
}

#[test]
fn flags_boot_once_and_shut_down_once() {
    let mut f = VmFlags::new();
    assert_eq!(f.boot(false), Err(FlagError::Unsupported));
    assert_eq!(f.boot(true), Ok(()));
    assert_eq!(f.boot(true), Err(FlagError::BadState));
    assert_eq!(f.shutdown(), Ok(()));
    assert_eq!(f.shutdown(), Err(FlagError::BadState));
    assert!(f.running && f.shutting_down);
    let mut g = VmFlags::new();
    assert_eq!(g.shutdown(), Ok(()));
    assert_eq!(g.boot(true), Err(FlagError::BadState));
    assert!(!g.running);
}

fn command_id(c: MachineCommand<u32>) -> (bool, u32) {
    match c {
        MachineCommand::Start { responder } => (true, responder),
        MachineCommand::Shutdown { responder } => (false, responder),
    }
}

#[test]
fn mailbox_hands_commands_out_in_order() {
    let mut mb: CommandMailbox<u32> = CommandMailbox::new();
    assert_eq!(mb.send_command(true, MachineCommand::Start { responder: 1 }), Ok(()));
    mb.push(MachineCommand::Shutdown { responder: 2 });
    assert_eq!(mb.send_command(false, MachineCommand::Start { responder: 3 }), Err(CommandError::WorkerStopped));
    assert_eq!(command_id(mb.pop().unwrap()), (true, 1));
    assert_eq!(command_id(mb.pop().unwrap()), (false, 2));
    assert!(mb.pop().is_none());
}

#[test]
fn worker_starts_and_stops_its_machine() {
    let mut m: VmMachine<&str, u32, u64> = VmMachine::new("init");
    assert_eq!(m.status(), VMStatus::Loaded);
    assert_eq!(m.begin_shutdown(), Err(CommandError::NotStoppable));
    assert_eq!(m.begin_start(), Ok("init"));
    m.finish_start(Ok(5));
    assert_eq!(m.status(), VMStatus::Running);
    assert_eq!(m.begin_start(), Err(CommandError::NotStartable));
    assert_eq!(m.begin_shutdown(), Ok(5));
    m.finish_shutdown(Err(5));
    assert_eq!(m.status(), VMStatus::Running);
    assert_eq!(m.begin_shutdown(), Ok(5));
    m.finish_shutdown(Ok(6));
    assert_eq!(m.status(), VMStatus::Stopping);
    assert!(!m.is_active());
    m.finish_run();
    assert_eq!(m.status(), VMStatus::Stopped);
}

#[test]
fn a_failed_start_leaves_the_machine_waiting() {
    let mut m: VmMachine<&str, u32, u64> = VmMachine::new("init");
    assert_eq!(m.begin_start(), Ok("init"));
    m.finish_start(Err("init"));
    assert_eq!(m.status(), VMStatus::Loaded);
    assert_eq!(m.begin_start(), Ok("init"));
}

#[test]
fn senders_wait_until_answered_or_the_worker_is_gone() {
    assert_eq!(wait_step(true, false), WaitStep::Answered);
    assert_eq!(wait_step(false, false), WaitStep::WorkerGone);
    assert_eq!(wait_step(false, true), WaitStep::Keep);
}

#[test]
fn vcpus_start_once_each() {
    let mut list = VCpuList::new(vec![(CpuHardId::new(1), 'a'), (CpuHardId::new(2), 'b'), (CpuHardId::new(1), 'c')]);
    assert_eq!(list.cpu_up(CpuHardId::new(1)), Ok('c'));
    assert_eq!(list.cpu_up(CpuHardId::new(1)), Err(CpuUpError::NotFound(CpuHardId::new(1))));
    let mut running = VmMachineRunning { cpus: list };
    let entry = GuestPhysAddr::from(0x8020_0000);
    assert_eq!(running.cpu_up(CpuHardId::new(2), entry, 7), Ok(('b', entry, 7)));
    assert_eq!(running.cpu_up(CpuHardId::new(2), entry, 7), Err(CpuUpError::NotFound(CpuHardId::new(2))));
}

#[test]
fn secondary_vcpus_boot_at_their_entry() {
    let info = CpuBootInfo { pt_levels: 4, pa_bits: 48, ..Default::default() };
    let s = secondary_boot_info(&info, GuestPhysAddr::from(0x1000), 3);
    assert_eq!(s.kernel_entry.as_usize(), 0x1000);
    assert_eq!(s.secondary_boot_arg, Some(3));
    assert_eq!(s.pt_levels, 4);
    assert_eq!(s.pa_bits, 48);
}

#[test]
fn vcpu_exits_count_down_to_a_stop() {
    let last = on_vcpu_exit(1, Ok(()));
    assert_eq!(last.remaining, 0);
    assert!(last.stop_machine);
    assert!(last.exit_with_error.is_none());
    let failed = on_vcpu_exit(3, Err(RunError::ExitWithError("fault".to_string())));
    assert_eq!(failed.remaining, 2);
    assert!(!failed.stop_machine);
    assert_eq!(failed.exit_with_error, Some(RunError::ExitWithError("fault".to_string())));
}

#[test]
fn the_first_vcpu_runs_first() {
    assert_eq!(split_main_vcpu::<u8>(vec![]).err(), Some(StartError::NoVCpu));
    assert_eq!(split_main_vcpu(vec![1, 2, 3]).ok(), Some((1, vec![2, 3])));
}

#[test]
fn vcpus_bind_as_configured() {
    assert_eq!(vcpu_bind_plan(&CpuNumType::Alloc(2)), vec![None, None]);
    assert_eq!(
        vcpu_bind_plan(&CpuNumType::Fixed(vec![CpuId::new(3), CpuId::new(5)])),
        vec![Some(CpuId::new(3)), Some(CpuId::new(5))]
    );
    assert_eq!(CpuNumType::default().num(), 1);
}

#[test]
fn loads_sign_extend_by_width() {
    assert_eq!(mmio_read_result(0x80, AccessWidth::Byte, true), 0xFFFF_FFFF_FFFF_FF80);
    assert_eq!(mmio_read_result(0x17f, AccessWidth::Byte, true), 0x7f);
    assert_eq!(mmio_read_result(0x1234_8000, AccessWidth::Word, true), 0xFFFF_FFFF_FFFF_8000);
    assert_eq!(mmio_read_result(0x1_8000_0000, AccessWidth::Dword, true), 0xFFFF_FFFF_8000_0000);
    assert_eq!(mmio_read_result(0xABCD, AccessWidth::Word, false), 0xABCD);
    assert_eq!(mmio_read_result(0x8000_0000_0000_0000, AccessWidth::Qword, true), 0x8000_0000_0000_0000);
    assert_eq!(AccessWidth::Dword.size(), 4);
}

#[test]
fn run_loop_decisions() {
    assert_eq!(
        riscv_exit_action(&ExitReason::CpuUp { target_cpu: 3, entry_point: 0x8020_0000, arg: 9 }),
        ExitAction::StartCpu { target: CpuHardId::new(3), entry: GuestPhysAddr::from(0x8020_0000), arg: 9 }
    );
    assert_eq!(
        riscv_exit_action(&ExitReason::MmioRead { addr: 0x1000, width: AccessWidth::Byte, reg: 5, signed_ext: true }),
        ExitAction::ReadMmio { addr: GuestPhysAddr::from(0x1000), width: AccessWidth::Byte, reg: 5, signed_ext: true }
    );
    assert_eq!(riscv_exit_action(&ExitReason::Halt), ExitAction::Leave);
    assert_eq!(riscv_exit_action(&ExitReason::SystemDown), ExitAction::StopMachine);
    assert_eq!(riscv_exit_action(&ExitReason::Nothing), ExitAction::Resume);
    assert_eq!(riscv_exit_action(&ExitReason::Hypercall { nr: 1 }), ExitAction::Unhandled);
    assert_eq!(run_step(&ExitReason::IoRead { port: 0x3f8, width: AccessWidth::Byte }), RunStep::Device);
    assert_eq!(run_step(&ExitReason::NestedPageFault { addr: 0x5000 }), RunStep::PageFault);
    assert_eq!(run_step(&ExitReason::Halt), RunStep::Return);
}

#[test]
fn run_vcpu_refuses_a_missing_vcpu_and_loops_until_an_unhandled_exit() {
    assert_eq!(vcpu_to_run(1, 2), Ok(1));
    assert_eq!(vcpu_to_run(2, 2), Err(RunVcpuError::InvalidInput));
    let io = ExitReason::IoWrite { port: 0x3f8, width: AccessWidth::Byte, data: 0x41 };
    assert_eq!(vcpu_loop_action(&io, false), VcpuLoopAction::Reenter);
    let fault = ExitReason::NestedPageFault { addr: 0x5000 };
    assert_eq!(vcpu_loop_action(&fault, true), VcpuLoopAction::Reenter);
    assert_eq!(vcpu_loop_action(&fault, false), VcpuLoopAction::Finish);
    assert_eq!(vcpu_loop_action(&ExitReason::Halt, true), VcpuLoopAction::Finish);
}

#[test]
fn run_loop_ends_on_failed_outside_work_and_when_inactive() {
    let read = riscv_exit_action(&ExitReason::MmioRead { addr: 0x1000, width: AccessWidth::Byte, reg: 5, signed_ext: true });
    assert_eq!(
        exit_loop_step(&read, Ok(0x80), true),
        LoopStep { set_reg: Some((5, 0xffff_ffff_ffff_ff80)), next: LoopNext::Reenter }
    );
    assert_eq!(
        exit_loop_step(&read, Err("no device".to_string()), true),
        LoopStep { set_reg: None, next: LoopNext::Return(Err(RunError::ExitWithError("no device".to_string()))) }
    );
    let up = riscv_exit_action(&ExitReason::CpuUp { target_cpu: 1, entry_point: 0x8000_0000, arg: 7 });
    assert_eq!(exit_loop_step(&up, Ok(0), true), LoopStep { set_reg: Some((0, 0)), next: LoopNext::Reenter });
    assert_eq!(
        exit_loop_step(&up, Err("busy".to_string()), true),
        LoopStep { set_reg: None, next: LoopNext::Return(Err(RunError::ExitWithError("busy".to_string()))) }
    );
    let down = riscv_exit_action(&ExitReason::SystemDown);
    assert_eq!(exit_loop_step(&down, Ok(0), false), LoopStep { set_reg: None, next: LoopNext::Return(Ok(())) });
    assert_eq!(exit_loop_step(&ExitAction::Leave, Ok(0), true), LoopStep { set_reg: None, next: LoopNext::Return(Ok(())) });
    assert_eq!(loop_entry(true), LoopNext::Reenter);
    assert_eq!(loop_entry(false), LoopNext::Return(Ok(())));
}

#[test]
fn secondary_vcpus_start_with_their_boot_info_and_wait_for_running() {
    let info = CpuBootInfo { pt_levels: 3, pa_bits: 41, ..Default::default() };
    let mut list = VCpuList::new(vec![(CpuHardId::new(1), ('a', info)), (CpuHardId::new(2), ('b', info))]);
    let (v, boot) = list.boot_secondary(CpuHardId::new(2), GuestPhysAddr::from(0x8020_0000), 9).unwrap();
    assert_eq!(v, 'b');
    assert_eq!(boot.kernel_entry.as_usize(), 0x8020_0000);
    assert_eq!(boot.secondary_boot_arg, Some(9));
    assert_eq!(boot.pt_levels, 3);
    assert!(list.boot_secondary(CpuHardId::new(2), GuestPhysAddr::from(0), 0).is_err());
    assert!(!ready_to_run(CoarseStatus::Initialized));
    assert!(ready_to_run(CoarseStatus::Running));
    assert!(ready_to_run(CoarseStatus::Stopped));
}

#[test]
fn every_vcpu_boots_with_the_machine_setup() {
    let info = initial_boot_info(
        GuestPhysAddr::from(0x8020_0000),
        GuestPhysAddr::from(0x9000_0000),
        3,
        41,
        InterruptMode::Passthrough,
        HostPhysAddr::from(0x1234_0000),
    );
    assert_eq!(info.secondary_boot_arg, None);
    let setup = vcpu_setup(&info);
    assert_eq!(setup.entry.as_usize(), 0x8020_0000);
    assert_eq!(setup.dtb_addr.as_usize(), 0x9000_0000);
    assert!(setup.passthrough_interrupt && setup.passthrough_timer);
    assert_eq!(setup.ept_root.as_usize(), 0x1234_0000);
    assert_eq!(setup.gpr0, None);
    let second = vcpu_setup(&secondary_boot_info(&info, GuestPhysAddr::from(0x8000_0000), 5));
    assert_eq!(second.gpr0, Some(5));
    let emulated = initial_boot_info(GuestPhysAddr::from(0), GuestPhysAddr::from(0), 4, 48, InterruptMode::Emulated, HostPhysAddr::from(0));
    assert!(!vcpu_setup(&emulated).passthrough_interrupt);
}
