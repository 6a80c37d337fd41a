//! River: the logic of a capability-based RISC-V microkernel and of the
//! library through which its userspace talks to it.
//!
//! The target is RV64. Machine words and addresses are `u64` throughout, so
//! that what is stated of them does not depend on the host's `usize`.

pub mod addr;
pub mod capability;
pub mod elf;
pub mod init;
pub mod io_traits;
pub mod kernel;
pub mod symbol;
pub mod syscalls;
pub mod units;
