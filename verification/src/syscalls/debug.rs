//! Syscalls for low-level debugging of capabilities.

use vstd::prelude::*;

use super::{Ecall, SyscallNumber};

verus! {

/// Print the debug representation of a capability to the kernel console. The
/// reply has no value.
pub fn debug_cap_slot(index: u64) -> (r: Ecall)
    ensures
        r == Ecall::of(SyscallNumber::DebugCapSlot, index, 0, 0),
{
    Ecall::new(SyscallNumber::DebugCapSlot, index, 0, 0)
}

/// Print the debug representation of this thread's root captbl to the kernel
/// console. This never fails.
pub fn debug_dump_root() -> (r: Ecall)
    ensures
        r == Ecall::of(SyscallNumber::DebugDumpRoot, 0, 0, 0),
{
    Ecall::new(SyscallNumber::DebugDumpRoot, 0, 0, 0)
}

/// Print a string of `len` bytes at an address to the kernel console. This
/// never fails for valid strings.
pub fn debug_print_string(addr: u64, len: u64) -> (r: Ecall)
    ensures
        r == Ecall::of(SyscallNumber::DebugPrint, addr, len, 0),
{
    Ecall::new(SyscallNumber::DebugPrint, addr, len, 0)
}

/// Get the capability type of a capability in the given slot. The reply is that
/// of [`super::Reply::capability_type`].
pub fn debug_cap_identify(index: u64) -> (r: Ecall)
    ensures
        r == Ecall::of(SyscallNumber::DebugCapIdentify, index, 0, 0),
{
    Ecall::new(SyscallNumber::DebugCapIdentify, index, 0, 0)
}

} // verus!
