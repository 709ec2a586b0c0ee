//! The worker that owns a machine: the commands sent to it, in order, and
//! the moves that starting and shutting the machine down make.
use std::collections::VecDeque;
use vstd::prelude::*;

use crate::vm::machine::{state_rank, VMStatus};

verus! {

/// A command for a machine's worker, with what the sender waits on for
/// the answer.
#[derive(Debug)]
pub enum MachineCommand<T> {
    Start { responder: T },
    Shutdown { responder: T },
}

/// Why a command was refused.
#[derive(Debug, Clone, Copy, PartialEq, Eq, Structural)]
pub enum CommandError {
    /// The worker has stopped; nothing takes commands any more.
    WorkerStopped,
    /// The machine is not waiting to start.
    NotStartable,
    /// The machine is not running.
    NotStoppable,
}

/// The commands sent to a worker, oldest first.
pub struct CommandMailbox<T> {
    queue: VecDeque<MachineCommand<T>>,
}

impl<T> View for CommandMailbox<T> {
    type V = Seq<MachineCommand<T>>;

    closed spec fn view(&self) -> Seq<MachineCommand<T>> {
        self.queue@
    }
}

impl<T> CommandMailbox<T> {
    /// An empty mailbox.
    pub fn new() -> (r: Self)
        ensures
            r@ == Seq::<MachineCommand<T>>::empty(),
    {
        CommandMailbox { queue: VecDeque::new() }
    }

    /// Adds `cmd` after the commands already waiting.
    pub fn push(&mut self, cmd: MachineCommand<T>)
        ensures
            final(self)@ == old(self)@.push(cmd),
    {
        self.queue.push_back(cmd);
    }

    /// Takes out the oldest command, if any.
    pub fn pop(&mut self) -> (r: Option<MachineCommand<T>>)
        ensures
            old(self)@.len() == 0 ==> r is None && final(self)@ == old(self)@,
            old(self)@.len() > 0 ==> r == Some(old(self)@[0]) && final(self)@ == old(self)@.subrange(
                1,
                old(self)@.len() as int,
            ),
    {
        self.queue.pop_front()
    }

    /// Sends `cmd` to a worker that is still alive; refused once it has
    /// stopped, and then nothing is queued.
    pub fn send_command(&mut self, worker_alive: bool, cmd: MachineCommand<T>) -> (r: Result<
        (),
        CommandError,
    >)
        ensures
            worker_alive ==> r is Ok && final(self)@ == old(self)@.push(cmd),
            !worker_alive ==> r == Err::<(), CommandError>(CommandError::WorkerStopped) && final(self)@
                == old(self)@,
    {
        if !worker_alive {
            return Err(CommandError::WorkerStopped);
        }
        self.push(cmd);
        Ok(())
    }
}

/// Commands leave a mailbox in the order they were sent: after `cmd` is
/// sent to a mailbox holding `q`, the commands of `q` come out first, and
/// `cmd` comes out once they have.
pub proof fn lemma_mailbox_fifo<T>(q: Seq<MachineCommand<T>>, cmd: MachineCommand<T>, k: int)
    requires
        0 <= k <= q.len(),
    ensures
        q.push(cmd).subrange(k, q.len() as int + 1) == q.subrange(k, q.len() as int).push(cmd),
        k < q.len() ==> q.push(cmd).subrange(k, q.len() as int + 1)[0] == q[k],
        q.push(cmd).subrange(q.len() as int, q.len() as int + 1)[0] == cmd,
{
    assert(q.push(cmd).subrange(k, q.len() as int + 1) =~= q.subrange(k, q.len() as int).push(cmd));
}

/// The stage of a machine that a worker owns.
pub enum VmMachineState<I, R, S> {
    Init(I),
    Running(R),
    Stopping(S),
    Stopped,
}

/// The worker's machine and the status it publishes.
pub struct VmMachine<I, R, S> {
    vm: Option<VmMachineState<I, R, S>>,
    status: VMStatus,
}

impl<I, R, S> VmMachine<I, R, S> {
    /// The stage, absent while a command moves the machine.
    pub closed spec fn stage(&self) -> Option<VmMachineState<I, R, S>> {
        self.vm
    }

    /// The published status.
    pub closed spec fn status_spec(&self) -> VMStatus {
        self.status
    }

    /// A worker for the machine `vm`, loaded and waiting to start.
    pub fn new(vm: I) -> (r: Self)
        ensures
            r.stage() == Some(VmMachineState::<I, R, S>::Init(vm)),
            r.status_spec() == VMStatus::Loaded,
    {
        VmMachine { vm: Some(VmMachineState::Init(vm)), status: VMStatus::Loaded }
    }

    /// The published status.
    pub fn status(&self) -> (r: VMStatus)
        ensures
            r == self.status_spec(),
    {
        self.status
    }

    /// Whether the machine has not begun to stop.
    pub fn is_active(&self) -> (r: bool)
        ensures
            r == (state_rank(self.status_spec()) < state_rank(VMStatus::Stopping)),
    {
        self.status.precedes(VMStatus::Stopping)
    }

    /// Takes out a machine waiting to start, for it to be started; any
    /// other stage stays and the command is refused.
    pub fn begin_start(&mut self) -> (r: Result<I, CommandError>)
        requires
            old(self).stage() is Some,
        ensures
            final(self).status_spec() == old(self).status_spec(),
            match old(self).stage()->0 {
                VmMachineState::Init(i) => r == Ok::<I, CommandError>(i) && final(self).stage() is None,
                _ => r == Err::<I, CommandError>(CommandError::NotStartable) && final(self).stage()
                    == old(self).stage(),
            },
    {
        match self.vm.take() {
            Some(VmMachineState::Init(vm)) => Ok(vm),
            other => {
                self.vm = other;
                Err(CommandError::NotStartable)
            },
        }
    }

    /// Puts the outcome of a start in place: the running machine, published
    /// as running, or the machine that failed to start, still waiting.
    pub fn finish_start(&mut self, outcome: Result<R, I>)
        requires
            old(self).stage() is None,
        ensures
            match outcome {
                Ok(run) => final(self).stage() == Some(VmMachineState::<I, R, S>::Running(run))
                    && final(self).status_spec() == VMStatus::Running,
                Err(init) => final(self).stage() == Some(VmMachineState::<I, R, S>::Init(init))
                    && final(self).status_spec() == old(self).status_spec(),
            },
    {
        match outcome {
            Ok(run) => {
                self.vm = Some(VmMachineState::Running(run));
                self.status = VMStatus::Running;
            },
            Err(init) => {
                self.vm = Some(VmMachineState::Init(init));
            },
        }
    }

    /// Takes out a running machine, for it to be stopped; any other stage
    /// stays and the command is refused.
    pub fn begin_shutdown(&mut self) -> (r: Result<R, CommandError>)
        requires
            old(self).stage() is Some,
        ensures
            final(self).status_spec() == old(self).status_spec(),
            match old(self).stage()->0 {
                VmMachineState::Running(run) => r == Ok::<R, CommandError>(run) && final(self).stage() is None,
                _ => r == Err::<R, CommandError>(CommandError::NotStoppable) && final(self).stage()
                    == old(self).stage(),
            },
    {
        match self.vm.take() {
            Some(VmMachineState::Running(run)) => Ok(run),
            other => {
                self.vm = other;
                Err(CommandError::NotStoppable)
            },
        }
    }

    /// Puts the outcome of a stop in place: the stopping machine, published
    /// as stopping, or the machine that failed to stop, still running.
    pub fn finish_shutdown(&mut self, outcome: Result<S, R>)
        requires
            old(self).stage() is None,
        ensures
            match outcome {
                Ok(stopping) => final(self).stage() == Some(VmMachineState::<I, R, S>::Stopping(stopping))
                    && final(self).status_spec() == VMStatus::Stopping,
                Err(run) => final(self).stage() == Some(VmMachineState::<I, R, S>::Running(run))
                    && final(self).status_spec() == old(self).status_spec(),
            },
    {
        match outcome {
            Ok(stopping) => {
                self.vm = Some(VmMachineState::Stopping(stopping));
                self.status = VMStatus::Stopping;
            },
            Err(run) => {
                self.vm = Some(VmMachineState::Running(run));
            },
        }
    }

    /// Publishes that the worker's loop has ended: the machine is stopped.
    pub fn finish_run(&mut self)
        ensures
            final(self).stage() == old(self).stage(),
            final(self).status_spec() == VMStatus::Stopped,
    {
        self.status = VMStatus::Stopped;
    }
}

} // verus!

verus! {

/// What a sender waiting for the answer to a command does next.
#[derive(Debug, Clone, Copy, PartialEq, Eq, Structural)]
pub enum WaitStep {
    /// The answer is there: take it.
    Answered,
    /// The worker stopped before answering: the command failed.
    WorkerGone,
    /// Yield and look again.
    Keep,
}

/// What a sender does next, given whether the answer is ready and whether
/// the worker is alive: a ready answer is taken even from a worker that has
/// since stopped.
pub fn wait_step(ready: bool, worker_alive: bool) -> (r: WaitStep)
    ensures
        ready ==> r == WaitStep::Answered,
        !ready && !worker_alive ==> r == WaitStep::WorkerGone,
        !ready && worker_alive ==> r == WaitStep::Keep,
{
    if ready {
        WaitStep::Answered
    } else if !worker_alive {
        WaitStep::WorkerGone
    } else {
        WaitStep::Keep
    }
}

} // verus!
