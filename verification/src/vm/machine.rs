//! The user-facing status of a machine and the worker that applies the
//! commands sent to it.
use core::sync::atomic::{AtomicU8, Ordering};
use vstd::prelude::*;

use crate::vm::define::VmId;

verus! {

/// The lifecycle of a machine as callers of the management API see it.
#[derive(Debug, Clone, Copy, PartialEq, Eq, PartialOrd, Ord, Structural)]
pub enum VMStatus {
    Loading,
    Loaded,
    Running,
    Suspended,
    Stopping,
    Stopped,
}

/// The position of a status in the lifecycle; it is also the byte that
/// stands for it in an [`AtomicState`].
pub open spec fn state_rank(s: VMStatus) -> nat {
    match s {
        VMStatus::Loading => 0,
        VMStatus::Loaded => 1,
        VMStatus::Running => 2,
        VMStatus::Suspended => 3,
        VMStatus::Stopping => 4,
        VMStatus::Stopped => 5,
    }
}

/// The lower-case name of a status.
pub open spec fn state_name(s: VMStatus) -> Seq<char> {
    match s {
        VMStatus::Loading => "loading"@,
        VMStatus::Loaded => "loaded"@,
        VMStatus::Running => "running"@,
        VMStatus::Suspended => "suspended"@,
        VMStatus::Stopping => "stopping"@,
        VMStatus::Stopped => "stopped"@,
    }
}

/// The name of a status preceded by an icon and a space.
pub open spec fn state_name_with_icon(s: VMStatus) -> Seq<char> {
    match s {
        VMStatus::Loading => "🔄 loading"@,
        VMStatus::Loaded => "📦 loaded"@,
        VMStatus::Running => "🚀 running"@,
        VMStatus::Suspended => "🛑 suspended"@,
        VMStatus::Stopping => "⏹️ stopping"@,
        VMStatus::Stopped => "💤 stopped"@,
    }
}

impl Default for VMStatus {
    fn default() -> (r: Self)
        ensures
            r == VMStatus::Loading,
    {
        VMStatus::Loading
    }
}

impl VMStatus {
    /// The status that the byte `raw` stands for; every byte above the
    /// last status stands for [`VMStatus::Stopped`].
    pub fn from_u8(raw: u8) -> (r: Self)
        ensures
            raw <= 5 ==> state_rank(r) == raw,
            raw > 5 ==> r == VMStatus::Stopped,
    {
        match raw {
            0 => VMStatus::Loading,
            1 => VMStatus::Loaded,
            2 => VMStatus::Running,
            3 => VMStatus::Suspended,
            4 => VMStatus::Stopping,
            _ => VMStatus::Stopped,
        }
    }

    /// The byte that stands for this status.
    pub fn to_u8(self) -> (r: u8)
        ensures
            r == state_rank(self),
    {
        match self {
            VMStatus::Loading => 0,
            VMStatus::Loaded => 1,
            VMStatus::Running => 2,
            VMStatus::Suspended => 3,
            VMStatus::Stopping => 4,
            VMStatus::Stopped => 5,
        }
    }

    /// Whether this status comes before `other` in the lifecycle.
    pub fn precedes(self, other: VMStatus) -> (r: bool)
        ensures
            r == (state_rank(self) < state_rank(other)),
    {
        self.to_u8() < other.to_u8()
    }

    /// The lower-case name of the status.
    pub fn as_str(&self) -> (r: &'static str)
        ensures
            r@ == state_name(*self),
    {
        match self {
            VMStatus::Loading => "loading",
            VMStatus::Loaded => "loaded",
            VMStatus::Running => "running",
            VMStatus::Suspended => "suspended",
            VMStatus::Stopping => "stopping",
            VMStatus::Stopped => "stopped",
        }
    }

    /// The name of the status preceded by an icon, for display in a shell.
    pub fn as_str_with_icon(&self) -> (r: &'static str)
        ensures
            r@ == state_name_with_icon(*self),
    {
        match self {
            VMStatus::Loading => "🔄 loading",
            VMStatus::Loaded => "📦 loaded",
            VMStatus::Running => "🚀 running",
            VMStatus::Suspended => "🛑 suspended",
            VMStatus::Stopping => "⏹️ stopping",
            VMStatus::Stopped => "💤 stopped",
        }
    }

    /// The text with which the status is displayed: its name.
    pub fn to_display_string(&self) -> (r: String)
        ensures
            r@ == state_name(*self),
    {
        String::from_str(self.as_str())
    }

    /// The user-facing status that a low-level machine status maps to.
    pub fn from_machine_status(status: Status) -> (r: Self)
        ensures
            r == status_of_machine(status),
    {
        match status {
            Status::Idle => VMStatus::Loaded,
            Status::Running => VMStatus::Running,
            Status::ShuttingDown => VMStatus::Stopping,
            Status::PoweredOff => VMStatus::Stopped,
        }
    }
}

/// The status that an architecture-specific machine reports.
#[derive(Debug, Clone, Copy, PartialEq, Eq, Structural)]
pub enum Status {
    Idle,
    Running,
    ShuttingDown,
    PoweredOff,
}

/// The user-facing status of each low-level machine status.
pub open spec fn status_of_machine(s: Status) -> VMStatus {
    match s {
        Status::Idle => VMStatus::Loaded,
        Status::Running => VMStatus::Running,
        Status::ShuttingDown => VMStatus::Stopping,
        Status::PoweredOff => VMStatus::Stopped,
    }
}

/// The user-facing status of a machine, stored so that management threads
/// can read it without taking a lock.
pub struct AtomicState(AtomicU8);

impl AtomicState {
    /// A cell that holds `state`.
    pub fn new(state: VMStatus) -> (r: Self) {
        AtomicState(AtomicU8::new(state.to_u8()))
    }

    /// The status last stored. Another thread may store at any time, so
    /// nothing fixes which status comes back.
    pub fn load(&self) -> (r: VMStatus) {
        let raw = self.0.load(Ordering::Acquire);
        VMStatus::from_u8(raw)
    }

    /// Stores `new_state`.
    pub fn store(&self, new_state: VMStatus) {
        let raw = new_state.to_u8();
        self.0.store(raw, Ordering::Release);
    }
}

/// The identifier and the name of a machine, shared by the management side
/// and the worker thread.
#[derive(Debug, Clone)]
pub struct VmCommon {
    pub id: VmId,
    pub name: String,
}

/// Distinct statuses have distinct bytes, so reading back the byte of a
/// status gives the status.
pub proof fn lemma_state_rank_injective(a: VMStatus, b: VMStatus)
    ensures
        state_rank(a) == state_rank(b) ==> a == b,
        state_rank(a) < 6,
{
}

} // verus!
