//! The kernel: capabilities, threads, scheduling, paging and traps.

pub mod boot;
pub mod capability;
pub mod dispatch;
pub mod elf;
pub mod hart_local;
pub mod inherit;
pub mod ipc;
pub mod kalloc;
pub mod order;
pub mod paging;
pub mod physmem;
pub mod plic;
pub mod proc;
pub mod registers;
pub mod sched;
pub mod slots;
pub mod state;
pub mod sync;
pub mod syslog;
pub mod threads;
pub mod trampoline;
pub mod trap;
