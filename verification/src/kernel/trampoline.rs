//! The page through which the kernel is entered from and left to userspace.

use vstd::prelude::*;

verus! {

/// The address at which the trampoline page is mapped: the last page of the
/// address space.
pub const TRAMPOLINE_PAGE: u64 = 0xFFFF_FFFF_FFFF_F000;

/// The address of `ret_user` in the trampoline page, given where the linker
/// placed it and the start of that page.
pub fn ret_user(fn_ret_user: u64, trampoline_start: u64) -> (r: u64)
    requires
        trampoline_start <= fn_ret_user,
        fn_ret_user - trampoline_start < 4096,
    ensures
        r == TRAMPOLINE_PAGE + (fn_ret_user - trampoline_start),
{
    let offset: u64 = fn_ret_user - trampoline_start;
    TRAMPOLINE_PAGE + offset
}

/// The address of `trampoline` in the trampoline page, given where the linker
/// placed it and the start of that page.
pub fn trampoline(fn_trampoline: u64, trampoline_start: u64) -> (r: u64)
    requires
        trampoline_start <= fn_trampoline,
        fn_trampoline - trampoline_start < 4096,
    ensures
        r == TRAMPOLINE_PAGE + (fn_trampoline - trampoline_start),
{
    let offset: u64 = fn_trampoline - trampoline_start;
    TRAMPOLINE_PAGE + offset
}

/// The registers of a thread while it is in the kernel, and what the
/// trampoline needs in order to enter the kernel.
#[derive(Copy, Clone, Debug, PartialEq, Eq, Structural)]
pub struct Trapframe {
    pub ra: u64,
    pub sp: u64,
    pub gp: u64,
    pub tp: u64,
    pub t0: u64,
    pub t1: u64,
    pub t2: u64,
    pub s0: u64,
    pub s1: u64,
    pub a0: u64,
    pub a1: u64,
    pub a2: u64,
    pub a3: u64,
    pub a4: u64,
    pub a5: u64,
    pub a6: u64,
    pub a7: u64,
    pub s2: u64,
    pub s3: u64,
    pub s4: u64,
    pub s5: u64,
    pub s6: u64,
    pub s7: u64,
    pub s8: u64,
    pub s9: u64,
    pub s10: u64,
    pub s11: u64,
    pub t3: u64,
    pub t4: u64,
    pub t5: u64,
    pub t6: u64,
    pub kernel_sp: u64,
    pub kernel_tp: u64,
    pub kernel_trap: u64,
    pub kernel_satp: u64,
    pub user_epc: u64,
}

impl Trapframe {
    /// A trapframe of zeroes.
    pub open spec fn zeroed() -> Trapframe {
        Trapframe {
            ra: 0,
            sp: 0,
            gp: 0,
            tp: 0,
            t0: 0,
            t1: 0,
            t2: 0,
            s0: 0,
            s1: 0,
            a0: 0,
            a1: 0,
            a2: 0,
            a3: 0,
            a4: 0,
            a5: 0,
            a6: 0,
            a7: 0,
            s2: 0,
            s3: 0,
            s4: 0,
            s5: 0,
            s6: 0,
            s7: 0,
            s8: 0,
            s9: 0,
            s10: 0,
            s11: 0,
            t3: 0,
            t4: 0,
            t5: 0,
            t6: 0,
            kernel_sp: 0,
            kernel_tp: 0,
            kernel_trap: 0,
            kernel_satp: 0,
            user_epc: 0,
        }
    }
}

impl Default for Trapframe {
    fn default() -> (r: Self)
        ensures
            r == Trapframe::zeroed(),
    {
        Trapframe {
            ra: 0,
            sp: 0,
            gp: 0,
            tp: 0,
            t0: 0,
            t1: 0,
            t2: 0,
            s0: 0,
            s1: 0,
            a0: 0,
            a1: 0,
            a2: 0,
            a3: 0,
            a4: 0,
            a5: 0,
            a6: 0,
            a7: 0,
            s2: 0,
            s3: 0,
            s4: 0,
            s5: 0,
            s6: 0,
            s7: 0,
            s8: 0,
            s9: 0,
            s10: 0,
            s11: 0,
            t3: 0,
            t4: 0,
            t5: 0,
            t6: 0,
            kernel_sp: 0,
            kernel_tp: 0,
            kernel_trap: 0,
            kernel_satp: 0,
            user_epc: 0,
        }
    }
}

} // verus!
