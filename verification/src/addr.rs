//! Guest and host address types.
use vstd::prelude::*;

verus! {

/// A guest physical address.
#[derive(Clone, Copy, Debug, PartialEq, Eq, PartialOrd, Ord, Hash, Default, Structural)]
pub struct GuestPhysAddr(pub usize);

/// A host physical address.
#[derive(Clone, Copy, Debug, PartialEq, Eq, PartialOrd, Ord, Hash, Default, Structural)]
pub struct HostPhysAddr(pub usize);

/// A host virtual address.
#[derive(Clone, Copy, Debug, PartialEq, Eq, PartialOrd, Ord, Hash, Default, Structural)]
pub struct HostVirtAddr(pub usize);

impl GuestPhysAddr {
    /// Builds an address from its numeric value.
    pub fn from_usize(raw: usize) -> (r: Self)
        ensures
            r.0 == raw,
    {
        GuestPhysAddr(raw)
    }

    /// The numeric value of the address.
    pub fn as_usize(&self) -> (r: usize)
        ensures
            r == self.0,
    {
        self.0
    }
}

impl HostPhysAddr {
    /// Builds an address from its numeric value.
    pub fn from_usize(raw: usize) -> (r: Self)
        ensures
            r.0 == raw,
    {
        HostPhysAddr(raw)
    }

    /// The numeric value of the address.
    pub fn as_usize(&self) -> (r: usize)
        ensures
            r == self.0,
    {
        self.0
    }
}

impl HostVirtAddr {
    /// Builds an address from its numeric value.
    pub fn from_usize(raw: usize) -> (r: Self)
        ensures
            r.0 == raw,
    {
        HostVirtAddr(raw)
    }

    /// The numeric value of the address.
    pub fn as_usize(&self) -> (r: usize)
        ensures
            r == self.0,
    {
        self.0
    }
}

impl From<usize> for GuestPhysAddr {
    fn from(raw: usize) -> (r: Self) {
        GuestPhysAddr(raw)
    }
}

impl vstd::std_specs::convert::FromSpecImpl<usize> for GuestPhysAddr {
    open spec fn obeys_from_spec() -> bool {
        true
    }

    open spec fn from_spec(v: usize) -> Self {
        GuestPhysAddr(v)
    }
}

impl From<usize> for HostPhysAddr {
    fn from(raw: usize) -> (r: Self) {
        HostPhysAddr(raw)
    }
}

impl vstd::std_specs::convert::FromSpecImpl<usize> for HostPhysAddr {
    open spec fn obeys_from_spec() -> bool {
        true
    }

    open spec fn from_spec(v: usize) -> Self {
        HostPhysAddr(v)
    }
}

impl From<usize> for HostVirtAddr {
    fn from(raw: usize) -> (r: Self) {
        HostVirtAddr(raw)
    }
}

impl vstd::std_specs::convert::FromSpecImpl<usize> for HostVirtAddr {
    open spec fn obeys_from_spec() -> bool {
        true
    }

    open spec fn from_spec(v: usize) -> Self {
        HostVirtAddr(v)
    }
}

/// The size of a 4 KiB page.
pub const PAGE_SIZE_4K: usize = 0x1000;

/// `addr` rounded down to a multiple of 4 KiB.
pub open spec fn spec_align_down_4k(addr: int) -> int {
    addr - addr % 4096
}

/// `addr` rounded up to a multiple of 4 KiB.
pub open spec fn spec_align_up_4k(addr: int) -> int {
    if addr % 4096 == 0 { addr } else { addr - addr % 4096 + 4096 }
}

/// Rounds `addr` down to a 4 KiB boundary with `memory_addr::align_down_4k`,
/// which clears the low twelve bits: the result is `addr - addr % 4096`.
#[verifier::external_body]
pub(crate) fn align_down_4k(addr: usize) -> (r: usize)
    ensures
        r == spec_align_down_4k(addr as int),
{
    memory_addr::align_down_4k(addr)
}

/// Rounds `addr` up to a 4 KiB boundary with `memory_addr::align_up_4k`,
/// which computes `(addr + 4096 - 1) & !4095`: the least multiple of 4096
/// not below `addr`. The addition `addr + 4096` comes first and overflows
/// above `usize::MAX - 4096`, which `requires` leaves out.
#[verifier::external_body]
pub(crate) fn align_up_4k(addr: usize) -> (r: usize)
    requires
        addr + 4096 <= usize::MAX,
    ensures
        r == spec_align_up_4k(addr as int),
{
    memory_addr::align_up_4k(addr)
}

} // verus!
