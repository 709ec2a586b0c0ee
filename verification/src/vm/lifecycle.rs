//! The stages a machine goes through, what it holds in each, and the moves
//! between them.
use vstd::prelude::*;

use crate::vm::define::{status_rank, RunError, VMStatus};

verus! {

/// The stage of a machine with what the stage holds: the configuration
/// before initialisation (`C`), the initialised state (`I`), the running
/// state (`R`) and the error the machine stops with.
pub enum Machine<C, I, R> {
    Uninit(C),
    Initialized(I),
    Running(R),
    /// Between two stages, while a move is under way.
    Switch,
    Stopping { run: Option<R>, err: Option<RunError> },
    Stopped(Option<RunError>),
}

/// Why a move between stages was refused.
#[derive(Debug, Clone, Copy, PartialEq, Eq, Structural)]
pub enum StageError {
    /// The machine was not waiting to be initialised.
    NotUninit,
    /// The machine was not initialised and waiting to boot.
    NotInitialized,
    /// The machine was not running.
    NotRunning,
}

/// The stage that a status is published for.
pub open spec fn stage_matches<C, I, R>(m: Machine<C, I, R>, s: VMStatus) -> bool {
    match m {
        Machine::Uninit(_) => s == VMStatus::Uninit,
        Machine::Initialized(_) => s == VMStatus::Initialized,
        Machine::Running(_) => s == VMStatus::Running,
        Machine::Switch => s == VMStatus::Uninit || s == VMStatus::Initialized,
        Machine::Stopping { .. } => s == VMStatus::Stopping,
        Machine::Stopped(_) => s == VMStatus::Stopped,
    }
}

/// The stage after a request to exit with `err`: a stopping or stopped
/// machine stays as it is; any other begins to stop, keeping its running
/// state if it has one.
pub open spec fn after_exit<C, I, R>(m: Machine<C, I, R>, err: Option<RunError>) -> Machine<C, I, R> {
    match m {
        Machine::Stopping { .. } => m,
        Machine::Stopped(_) => m,
        Machine::Running(r) => Machine::Stopping { run: Some(r), err },
        _ => Machine::Stopping { run: None, err },
    }
}

/// The status after a request to exit.
pub open spec fn status_after_exit<C, I, R>(m: Machine<C, I, R>, s: VMStatus) -> VMStatus {
    match m {
        Machine::Stopping { .. } => s,
        Machine::Stopped(_) => s,
        _ => VMStatus::Stopping,
    }
}

/// A machine's stage together with the status it publishes to the threads
/// that watch it.
pub struct VmLifecycle<C, I, R> {
    machine: Machine<C, I, R>,
    status: VMStatus,
}

impl<C, I, R> VmLifecycle<C, I, R> {
    /// The stage.
    pub closed spec fn stage(&self) -> Machine<C, I, R> {
        self.machine
    }

    /// The published status.
    pub closed spec fn status_spec(&self) -> VMStatus {
        self.status
    }

    /// Whether the published status fits the stage.
    pub open spec fn wf(&self) -> bool {
        stage_matches(self.stage(), self.status_spec())
    }

    /// A machine waiting to be initialised from `config`.
    pub fn new(config: C) -> (r: Self)
        ensures
            r.wf(),
            r.stage() == Machine::<C, I, R>::Uninit(config),
            r.status_spec() == VMStatus::Uninit,
    {
        VmLifecycle { machine: Machine::Uninit(config), status: VMStatus::Uninit }
    }

    /// The published status.
    pub fn status(&self) -> (r: VMStatus)
        ensures
            r == self.status_spec(),
    {
        self.status
    }

    /// Whether the machine has not begun to stop.
    pub fn is_active(&self) -> (r: bool)
        ensures
            r == (status_rank(self.status_spec()) < status_rank(VMStatus::Stopping)),
    {
        self.status.precedes(VMStatus::Stopping)
    }

    /// Takes the configuration out of a machine waiting to be initialised,
    /// which is between stages afterwards; a machine at any other stage
    /// refuses and stays as it is.
    pub fn begin_init(&mut self) -> (r: Result<C, StageError>)
        ensures
            old(self).wf() ==> final(self).wf(),
            final(self).status_spec() == old(self).status_spec(),
            match old(self).stage() {
                Machine::Uninit(c) => r == Ok::<C, StageError>(c) && final(self).stage() == Machine::<
                    C,
                    I,
                    R,
                >::Switch,
                _ => r == Err::<C, StageError>(StageError::NotUninit) && final(self).stage() == old(
                    self,
                ).stage(),
            },
    {
        let mut old = Machine::Switch;
        core::mem::swap(&mut old, &mut self.machine);
        match old {
            Machine::Uninit(config) => Ok(config),
            other => {
                self.machine = other;
                Err(StageError::NotUninit)
            },
        }
    }

    /// Puts the initialised state in place.
    pub fn finish_init(&mut self, inited: I)
        requires
            old(self).stage() is Switch,
            old(self).status_spec() == VMStatus::Uninit,
        ensures
            final(self).wf(),
            final(self).stage() == Machine::<C, I, R>::Initialized(inited),
            final(self).status_spec() == VMStatus::Initialized,
    {
        self.machine = Machine::Initialized(inited);
        self.status = VMStatus::Initialized;
    }

    /// Takes the initialised state out of a machine waiting to boot, which
    /// is between stages afterwards; a machine at any other stage refuses
    /// and stays as it is.
    pub fn begin_boot(&mut self) -> (r: Result<I, StageError>)
        ensures
            old(self).wf() ==> final(self).wf(),
            final(self).status_spec() == old(self).status_spec(),
            match old(self).stage() {
                Machine::Initialized(i) => r == Ok::<I, StageError>(i) && final(self).stage() == Machine::<
                    C,
                    I,
                    R,
                >::Switch,
                _ => r == Err::<I, StageError>(StageError::NotInitialized) && final(self).stage() == old(
                    self,
                ).stage(),
            },
    {
        let mut old = Machine::Switch;
        core::mem::swap(&mut old, &mut self.machine);
        match old {
            Machine::Initialized(inited) => Ok(inited),
            other => {
                self.machine = other;
                Err(StageError::NotInitialized)
            },
        }
    }

    /// Puts the running state in place.
    pub fn finish_boot(&mut self, running: R)
        requires
            old(self).stage() is Switch,
            old(self).status_spec() == VMStatus::Initialized,
        ensures
            final(self).wf(),
            final(self).stage() == Machine::<C, I, R>::Running(running),
            final(self).status_spec() == VMStatus::Running,
    {
        self.machine = Machine::Running(running);
        self.status = VMStatus::Running;
    }

    /// Asks the machine to exit with `err`: unless it is already stopping
    /// or stopped, it begins to stop, keeping its running state if it has
    /// one so that its vCPUs can be joined.
    pub fn set_exit(&mut self, err: Option<RunError>)
        ensures
            final(self).stage() == after_exit(old(self).stage(), err),
            final(self).status_spec() == status_after_exit(old(self).stage(), old(self).status_spec()),
            old(self).wf() ==> final(self).wf(),
    {
        match &self.machine {
            Machine::Stopping { .. } => {
                return ;
            },
            Machine::Stopped(_) => {
                return ;
            },
            _ => {},
        }
        let mut old = Machine::Switch;
        core::mem::swap(&mut old, &mut self.machine);
        match old {
            Machine::Running(running) => {
                self.machine = Machine::Stopping { run: Some(running), err };
            },
            _ => {
                self.machine = Machine::Stopping { run: None, err };
            },
        }
        self.status = VMStatus::Stopping;
    }

    /// Records that initialising or booting failed with `err`: the machine
    /// is stopped with the error.
    pub fn fail(&mut self, err: RunError)
        requires
            old(self).stage() is Switch,
        ensures
            final(self).wf(),
            final(self).stage() == Machine::<C, I, R>::Stopped(Some(err)),
            final(self).status_spec() == VMStatus::Stopped,
    {
        self.machine = Machine::Stopped(Some(err));
        self.status = VMStatus::Stopped;
    }

    /// Records that the machine has stopped, keeping the error it was
    /// stopping with; returns the running state it still held, for its
    /// vCPUs to be joined.
    pub fn set_stopped(&mut self) -> (r: Option<R>)
        ensures
            final(self).wf(),
            final(self).status_spec() == VMStatus::Stopped,
            match old(self).stage() {
                Machine::Stopping { run, err } => r == run && final(self).stage() == Machine::<
                    C,
                    I,
                    R,
                >::Stopped(err),
                Machine::Stopped(err) => r is None && final(self).stage() == Machine::<C, I, R>::Stopped(err),
                _ => r is None && final(self).stage() == Machine::<C, I, R>::Stopped(None),
            },
    {
        let mut old = Machine::Switch;
        core::mem::swap(&mut old, &mut self.machine);
        let (run, err) = match old {
            Machine::Stopping { run, err } => (run, err),
            Machine::Stopped(err) => (None, err),
            _ => (None, None),
        };
        self.machine = Machine::Stopped(err);
        self.status = VMStatus::Stopped;
        run
    }

    /// Whether the machine stopped with an error recorded; what a wait for
    /// the machine reports once it is stopped.
    pub fn exit_failed(&self) -> (r: bool)
        ensures
            r == (self.stage() is Stopped && self.stage()->Stopped_0 is Some),
    {
        match &self.machine {
            Machine::Stopped(Some(_)) => true,
            _ => false,
        }
    }
}

/// Whether a recorded exit is a failure: an exit with an error, not a
/// normal exit.
pub fn run_failed(err: &Option<RunError>) -> (r: bool)
    ensures
        r == (err matches Some(RunError::ExitWithError(_))),
{
    match err {
        Some(RunError::ExitWithError(_)) => true,
        _ => false,
    }
}

/// Asking a machine to exit a second time changes neither its stage nor
/// its status.
pub proof fn lemma_set_exit_idempotent<C, I, R>(
    m: Machine<C, I, R>,
    s: VMStatus,
    first: Option<RunError>,
    second: Option<RunError>,
)
    ensures
        after_exit(after_exit(m, first), second) == after_exit(m, first),
        status_after_exit(after_exit(m, first), status_after_exit(m, s)) == status_after_exit(m, s),
{
}

/// A machine asked to exit is no longer active, and its running state, if
/// it had one, is kept for the vCPUs to be joined.
pub proof fn lemma_exit_deactivates<C, I, R>(m: Machine<C, I, R>, s: VMStatus, err: Option<RunError>)
    requires
        stage_matches(m, s),
    ensures
        status_rank(status_after_exit(m, s)) >= status_rank(VMStatus::Stopping),
        stage_matches(after_exit(m, err), status_after_exit(m, s)),
        m is Running ==> after_exit(m, err) == (Machine::<C, I, R>::Stopping {
            run: Some(m->Running_0),
            err,
        }),
{
}

/// Asking a machine to exit never moves its published status back.
pub proof fn lemma_exit_status_monotone<C, I, R>(m: Machine<C, I, R>, s: VMStatus, err: Option<RunError>)
    requires
        stage_matches(m, s),
    ensures
        status_rank(status_after_exit(m, s)) >= status_rank(s),
{
}

} // verus!

verus! {

/// Why booting or shutting down a machine by its flags was refused.
#[derive(Debug, Clone, Copy, PartialEq, Eq, Structural)]
pub enum FlagError {
    /// The hardware cannot run virtual machines.
    Unsupported,
    /// The machine is already running, or already shutting down.
    BadState,
}

/// Whether a machine has been booted and whether it is shutting down. A
/// machine boots once; once it shuts down it cannot boot again.
#[derive(Debug, Clone, Copy, PartialEq, Eq, Structural)]
pub struct VmFlags {
    pub running: bool,
    pub shutting_down: bool,
}

impl VmFlags {
    /// A machine that has neither booted nor begun to shut down.
    pub fn new() -> (r: Self)
        ensures
            !r.running && !r.shutting_down,
    {
        VmFlags { running: false, shutting_down: false }
    }

    /// Boots the machine: refused without hardware support, or when it is
    /// already running or has begun to shut down, since a machine boots
    /// once and never after it shuts down.
    pub fn boot(&mut self, hardware_support: bool) -> (r: Result<(), FlagError>)
        ensures
            !hardware_support ==> r == Err::<(), FlagError>(FlagError::Unsupported) && *final(self) == *old(self),
            hardware_support && (old(self).running || old(self).shutting_down) ==> r == Err::<(), FlagError>(
                FlagError::BadState,
            ) && *final(self) == *old(self),
            hardware_support && !old(self).running && !old(self).shutting_down ==> r is Ok && final(self).running
                && final(self).shutting_down == old(self).shutting_down,
    {
        if !hardware_support {
            Err(FlagError::Unsupported)
        } else if self.running || self.shutting_down {
            Err(FlagError::BadState)
        } else {
            self.running = true;
            Ok(())
        }
    }

    /// Begins to shut the machine down: refused when it is already shutting
    /// down.
    pub fn shutdown(&mut self) -> (r: Result<(), FlagError>)
        ensures
            old(self).shutting_down ==> r == Err::<(), FlagError>(FlagError::BadState) && *final(self) == *old(self),
            !old(self).shutting_down ==> r is Ok && final(self).shutting_down && final(self).running
                == old(self).running,
    {
        if self.shutting_down {
            Err(FlagError::BadState)
        } else {
            self.shutting_down = true;
            Ok(())
        }
    }
}

} // verus!
