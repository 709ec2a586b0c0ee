//! The device-tree work of the hypervisor: which nodes of the host device
//! tree a guest sees and which devices it is given.
pub mod builder;
pub mod bytes;
pub mod node;
pub mod path;
pub mod phandle;
pub mod sorted;
pub mod cache;
pub mod passthrough;
pub mod tree;
