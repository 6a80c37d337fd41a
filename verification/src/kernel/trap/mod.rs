//! Traps: what happens when a thread or a device asks for the kernel.

pub mod calls;
pub mod dispatch;
pub mod endpoints;
pub mod interrupts;
pub mod signals;
pub mod soundness;
pub mod syscalls;
pub mod thread_calls;
