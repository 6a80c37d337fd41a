//! The part of the address space that the heap grows into.

use vstd::prelude::*;

use super::runs;
use super::table;
use super::table::GIB;
use crate::addr::virt;
use crate::addr::{Identity, Physical, PhysicalConst, VirtualConst};
use crate::kernel::paging;
use crate::kernel::paging::{PageSize, PageTable, PageTableFlags};
use crate::kernel::physmem::{Mem, PhysicalMemory};

verus! {

/// Where the heap begins.
pub const KHEAP_VMEM_OFFSET: u64 = 0xFFFF_FFE0_0000_0000;

/// How much of the address space the heap can grow into: 64 GiB.
pub const KHEAP_VMEM_SIZE: u64 = 0x10_0000_0000;

/// Memory once the first `n` gibibytes of the heap have been set aside: they
/// lead nowhere.
pub open spec fn reserved(m: Mem, root: int, n: int) -> Mem
    decreases n,
{
    if n <= 0 {
        m
    } else {
        paging::mapped(
            reserved(m, root, n - 1),
            root,
            (KHEAP_VMEM_OFFSET + GIB * (n - 1)) as u64,
            paging::map_entry(0, 0),
            PageSize::Giga,
        )
    }
}

/// What is set aside for the heap leads nowhere, and all other addresses lead
/// where they did.
pub proof fn law_heap_is_unmapped(m: Mem, root: int, n: int, va: u64)
    requires
        m.wf(),
        paging::tree_wf(m, root),
        paging::unshared(m, root),
        0 <= n <= 64,
    ensures
        ({
            let after = reserved(m, root, n);
            &&& after.wf()
            &&& paging::tree_wf(after, root)
            &&& paging::unshared(after, root)
            &&& after.same_extent(m)
            &&& paging::translate(after, root, va) == if 384 <= virt::vpn(va, 2) < 384 + n {
                None
            } else {
                paging::translate(m, root, va)
            }
            &&& !(384 <= virt::vpn(va, 2) < 384 + n) ==> paging::missing(after, root, va)
                == paging::missing(m, root, va)
        }),
    decreases n,
{
    if n > 0 {
        let before = reserved(m, root, n - 1);
        let last = (KHEAP_VMEM_OFFSET + GIB * (n - 1)) as u64;
        law_heap_is_unmapped(m, root, n - 1, va);
        table::lemma_gib_numbers(KHEAP_VMEM_OFFSET, n - 1);
        assert(virt::vpn(KHEAP_VMEM_OFFSET, 2) == 384);
        table::lemma_one_gib(before, root, 0, last, 0, va);
        assert(paging::leaf_only(paging::map_entry(0, 0), PageSize::Giga) is None) by {
            paging::law_entry_round_trip(0, 0);
            reveal(paging::flags_valid);
        }
        if !(384 <= virt::vpn(va, 2) < 384 + n) {
            assert(!paging::is_branch(paging::map_entry(0, 0)) && !paging::is_leaf(
                paging::map_entry(0, 0),
            )) by {
                paging::law_entry_round_trip(0, 0);
                reveal(paging::flags_valid);
            }
            paging::law_other_tables(before, root, last, paging::map_entry(0, 0), va);
        }
    }
}

/// Set the part of the address space aside that the heap grows into.
pub fn reserve_heap(mem: &mut PhysicalMemory, pgtbl: PageTable)
    requires
        old(mem)@.wf(),
        paging::tree_wf(old(mem)@, pgtbl.root as int),
        paging::unshared(old(mem)@, pgtbl.root as int),
    ensures
        final(mem)@ == reserved(old(mem)@, pgtbl.root as int, 64),
        final(mem)@.wf(),
        paging::tree_wf(final(mem)@, pgtbl.root as int),
        paging::unshared(final(mem)@, pgtbl.root as int),
{
    let ghost m = mem@;
    let ghost root = pgtbl.root as int;
    let mut offset: u64 = 0;
    while offset < 64
        invariant
            offset <= 64,
            root == pgtbl.root,
            m.wf(),
            paging::tree_wf(m, root),
            paging::unshared(m, root),
            mem@ == reserved(m, root, offset as int),
            mem@.wf(),
        decreases 64 - offset,
    {
        proof {
            law_heap_is_unmapped(m, root, offset as int, 0);
            runs::lemma_canonical_half((KHEAP_VMEM_OFFSET + GIB * offset) as u64);
        }
        // The mapping is not valid, so it does not matter what it leads to.
        let phys: PhysicalConst<u8, Identity> = Physical::from_usize_unchecked(0);
        let virt: VirtualConst<u8, Identity> = VirtualConst::from_usize_unchecked(
            KHEAP_VMEM_OFFSET + GIB * offset,
        );
        pgtbl.map_gib(mem, phys, virt, PageTableFlags { bits: 0 });
        offset += 1;
    }
    proof {
        law_heap_is_unmapped(m, root, 64, 0);
    }
}

} // verus!
