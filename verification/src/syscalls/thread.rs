//! Syscalls relating to threads. Each is answered by a reply without a value.

use vstd::prelude::*;

use super::{Ecall, SyscallNumber};

verus! {

/// Suspend a thread.
pub fn suspend(thread: u64) -> (r: Ecall)
    ensures
        r == Ecall::of(SyscallNumber::ThreadSuspend, thread, 0, 0),
{
    Ecall::new(SyscallNumber::ThreadSuspend, thread, 0, 0)
}

/// Let a thread run.
pub fn resume(thread: u64) -> (r: Ecall)
    ensures
        r == Ecall::of(SyscallNumber::ThreadResume, thread, 0, 0),
{
    Ecall::new(SyscallNumber::ThreadResume, thread, 0, 0)
}

/// Give a thread a page table and a buffer.
pub fn configure(thread: u64, pgtbl: u64, ipc_buffer: u64) -> (r: Ecall)
    ensures
        r == Ecall::of(SyscallNumber::ThreadConfigure, thread, pgtbl, ipc_buffer),
{
    Ecall::new(SyscallNumber::ThreadConfigure, thread, pgtbl, ipc_buffer)
}

/// Give a thread the registers at an address.
pub fn write_registers(thread: u64, registers: u64) -> (r: Ecall)
    ensures
        r == Ecall::of(SyscallNumber::ThreadWriteRegisters, thread, registers, 0),
{
    Ecall::new(SyscallNumber::ThreadWriteRegisters, thread, registers, 0)
}

} // verus!
