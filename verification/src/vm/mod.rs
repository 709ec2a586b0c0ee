//! Virtual machine objects: identifiers, lifecycle states and the guest
//! address-space bookkeeping.
pub mod addrspace;
pub mod define;
pub mod devices;
pub mod exit;
pub mod lifecycle;
pub mod machine;
pub mod paging;
pub mod vcpu;
pub mod worker;
