//! Kernel memory allocation.

pub mod growth;
pub mod linked_list;
pub mod phys;
