//! Syscalls for paging. Each is answered by a reply without a value.

use vstd::prelude::*;

use super::{Ecall, SyscallNumber};
use crate::addr::{Identity, VirtualConst, Vpn};
use crate::capability::paging::PageTableFlags;

verus! {

/// Unmap what a page number stands for from a page table.
pub fn pgtbl_unmap(from_pgtbl: u64, vpn: Vpn) -> (r: Ecall)
    ensures
        r == Ecall::of(SyscallNumber::PageTableUnmap, from_pgtbl, vpn@ as u64, 0),
{
    Ecall::new(SyscallNumber::PageTableUnmap, from_pgtbl, vpn.into_usize(), 0)
}

/// Map a page into a page table.
pub fn page_map(
    from_page: u64,
    into_pgtbl: u64,
    vaddr: VirtualConst<u8, Identity>,
    flags: PageTableFlags,
) -> (r: Ecall)
    ensures
        r == (Ecall {
            a4: flags.bits as u64,
            ..Ecall::of(SyscallNumber::PageMap, from_page, into_pgtbl, vaddr@)
        }),
{
    Ecall {
        a4: flags.bits as u64,
        ..Ecall::new(SyscallNumber::PageMap, from_page, into_pgtbl, vaddr.into_usize())
    }
}

} // verus!
