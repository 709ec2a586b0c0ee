//! Identifiers, the coarse lifecycle status of a machine and the error a
//! machine stops with.
use core::sync::atomic::{AtomicU8, AtomicUsize, Ordering};
use vstd::prelude::*;

verus! {

/// The identifier of a virtual machine.
#[derive(Debug, Clone, Copy, PartialEq, Eq, Hash, Structural)]
pub struct VmId(pub usize);

impl VmId {
    /// Wraps a raw identifier.
    pub fn new(id: usize) -> (r: Self)
        ensures
            r.0 == id,
    {
        VmId(id)
    }

    /// The raw identifier.
    pub fn raw(&self) -> (r: usize)
        ensures
            r == self.0,
    {
        self.0
    }
}

impl From<usize> for VmId {
    fn from(raw: usize) -> (r: Self) {
        VmId(raw)
    }
}

impl vstd::std_specs::convert::FromSpecImpl<usize> for VmId {
    open spec fn obeys_from_spec() -> bool {
        true
    }

    open spec fn from_spec(v: usize) -> Self {
        VmId(v)
    }
}

/// The identifier and the human readable name of a machine.
#[derive(Debug, Clone)]
pub struct VmInfo {
    pub id: VmId,
    pub name: String,
}

/// The coarse lifecycle status of a machine, in the order in which a
/// machine goes through them.
#[derive(Debug, Clone, Copy, PartialEq, Eq, PartialOrd, Ord, Default, Structural)]
pub enum VMStatus {
    #[default]
    Uninit,
    Initialized,
    Running,
    Stopping,
    Stopped,
}

/// The position of a status in the lifecycle order; it is also the byte
/// that stands for the status in an [`AtomicStatus`].
pub open spec fn status_rank(s: VMStatus) -> nat {
    match s {
        VMStatus::Uninit => 0,
        VMStatus::Initialized => 1,
        VMStatus::Running => 2,
        VMStatus::Stopping => 3,
        VMStatus::Stopped => 4,
    }
}

impl VMStatus {
    /// The status that the byte `value` stands for. Only the bytes that
    /// [`VMStatus::to_u8`] produces stand for a status.
    pub fn from_u8(value: u8) -> (r: Self)
        requires
            value < 5,
        ensures
            status_rank(r) == value,
    {
        match value {
            0 => VMStatus::Uninit,
            1 => VMStatus::Initialized,
            2 => VMStatus::Running,
            3 => VMStatus::Stopping,
            _ => VMStatus::Stopped,
        }
    }

    /// The byte that stands for this status.
    pub fn to_u8(self) -> (r: u8)
        ensures
            r == status_rank(self),
    {
        match self {
            VMStatus::Uninit => 0,
            VMStatus::Initialized => 1,
            VMStatus::Running => 2,
            VMStatus::Stopping => 3,
            VMStatus::Stopped => 4,
        }
    }

    /// Whether this status comes before `other` in the lifecycle.
    pub fn precedes(self, other: VMStatus) -> (r: bool)
        ensures
            r == (status_rank(self) < status_rank(other)),
    {
        self.to_u8() < other.to_u8()
    }
}

/// Why a machine stopped running.
#[derive(Debug, Clone, PartialEq, Eq)]
pub enum RunError {
    /// The machine exited normally.
    Exit,
    /// The machine exited with the error described by the message.
    ExitWithError(String),
}

/// The status of a machine, stored so that management threads can read it
/// without taking a lock.
pub struct AtomicStatus(AtomicU8);

impl AtomicStatus {
    /// A cell that holds `state`.
    pub fn new(state: VMStatus) -> (r: Self) {
        AtomicStatus(AtomicU8::new(state.to_u8()))
    }

    /// The status last stored. Another thread may store at any time, so
    /// nothing fixes which status comes back; a byte that stands for no
    /// status reads as [`VMStatus::Stopped`].
    pub fn load(&self) -> (r: VMStatus) {
        let raw = self.0.load(Ordering::Acquire);
        status_from_raw(raw)
    }

    /// Stores `new_state`.
    pub fn store(&self, new_state: VMStatus) {
        let raw = new_state.to_u8();
        self.0.store(raw, Ordering::Release);
    }
}

/// The status that a byte read from an [`AtomicStatus`] stands for; the
/// bytes that no status produces read as [`VMStatus::Stopped`].
pub fn status_from_raw(raw: u8) -> (r: VMStatus)
    ensures
        raw < 5 ==> status_rank(r) == raw,
        raw >= 5 ==> r == VMStatus::Stopped,
{
    if raw < 5 {
        VMStatus::from_u8(raw)
    } else {
        VMStatus::Stopped
    }
}

/// Counters shared by a machine and every handle to it.
pub struct VmStatisticsInner {
    pub status: AtomicStatus,
    pub running_vcpu_count: AtomicUsize,
}

impl VmStatisticsInner {
    /// Statistics of a machine that has not been initialized and runs no
    /// vCPU.
    pub fn new() -> (r: Self) {
        VmStatisticsInner {
            status: AtomicStatus::new(VMStatus::Uninit),
            running_vcpu_count: AtomicUsize::new(0),
        }
    }
}

/// Distinct statuses have distinct bytes, so reading back the byte of a
/// status gives the status.
pub proof fn lemma_status_rank_injective(a: VMStatus, b: VMStatus)
    ensures
        status_rank(a) == status_rank(b) ==> a == b,
        status_rank(a) < 5,
{
}

} // verus!
