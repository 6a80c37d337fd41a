//! Syscalls available for all captrs. Each is answered by a reply without a value.

use vstd::prelude::*;

use super::{Ecall, SyscallNumber};

verus! {

/// Delete the capability in a slot.
pub fn delete(index: u64) -> (r: Ecall)
    ensures
        r == Ecall::of(SyscallNumber::CaptrDelete, index, 0, 0),
{
    Ecall::new(SyscallNumber::CaptrDelete, index, 0, 0)
}

} // verus!
