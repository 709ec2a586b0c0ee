//! Verified resource management for the virtual machines of a hypervisor.
//!
//! The crate holds the decisions that a hypervisor makes when it creates,
//! boots and stops a virtual machine: configuration, CPU allocation, the
//! lifecycle state machine, the guest address-space bookkeeping and the
//! device-tree work that decides what a guest may see.
use vstd::prelude::*;

pub mod addr;
pub mod config;
pub mod cpu;
pub mod fdt;
pub mod laws;
pub mod percpu;
pub mod timer;
pub mod vm;

pub use addr::{GuestPhysAddr, HostPhysAddr, HostVirtAddr};

verus! {

} // verus!
