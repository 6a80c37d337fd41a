//! The memory behind the heap: frames that are mapped at its end.

use vstd::prelude::*;

use crate::kernel::boot::{runs, window};
use crate::kernel::paging;
use crate::kernel::paging::{PageTable, PageTableFlags};
use crate::kernel::physmem::{Mem, PhysicalMemory};

verus! {

/// How the heap is mapped: valid, accessed, dirty, readable and writable.
pub const HEAP_FLAGS: u8 = 199;

/// Memory once `n` frames have been handed out and mapped at the pages from `to`
/// on.
pub open spec fn grown(m: Mem, root: int, to: u64, n: int) -> Mem {
    runs::run_mapped(m.grow_by(n), root, (m.next() * 4096) as u64, to, HEAP_FLAGS, n)
}

/// Whether `n` frames can be handed out and mapped at the pages from `to` on:
/// nothing is mapped there, and there is memory for the frames and for the
/// tables that are missing.
pub open spec fn growable(m: Mem, root: int, to: u64, n: int) -> bool {
    &&& m.wf()
    &&& paging::tree_wf(m, root)
    &&& paging::unshared(m, root)
    &&& to % 4096 == 0
    &&& 0 <= n <= runs::PAGES
    &&& to + 4096 * n <= u64::MAX
    &&& runs::in_one_half(to, n)
    &&& m.available() >= n + runs::tables_missing(m, root, to, n)
    &&& forall|i: int|
        0 <= i < n ==> paging::translate(m, root, #[trigger] runs::nth(to, i)) is None
}

/// Frames that have been handed out can be mapped, and lead nowhere yet.
proof fn lemma_growable(m: Mem, root: int, to: u64, n: int)
    requires
        growable(m, root, to, n),
    ensures
        runs::run_mappable(
            m.grow_by(n),
            root,
            (m.next() * 4096) as u64,
            to,
            HEAP_FLAGS,
            n,
        ),
        paging::tree_wf(m.grow_by(n), root),
        paging::flags_lead(HEAP_FLAGS),
        forall|va: u64| #[trigger]
            paging::walk_spec(m.grow_by(n), root, va) == paging::walk_spec(m, root, va),
{
    let g = m.grow_by(n);
    runs::lemma_missing(m, root, to, 0, n);
    window::lemma_from_grow(m, m.next(), n);
    window::lemma_tree_before(g, m, root);
    assert(g.frames() == m.frames() + n);
    runs::lemma_fewer_missing(m, g, root, to, n);
    reveal(paging::flags_valid);
    reveal(paging::flags_access);
    assert forall|i: int| 0 <= i < n implies paging::translate(
        g,
        root,
        #[trigger] runs::nth(to, i),
    ) is None by {
        let va = runs::nth(to, i);
        assert(paging::walk_spec(g, root, va) == paging::walk_spec(m, root, va));
    }
}

/// Whether every address from `base` on, as far as `len` bytes, is mapped as the
/// heap is.
pub open spec fn is_mapped(m: Mem, root: int, base: int, len: int) -> bool {
    forall|va: u64|
        base <= va < base + len ==> ((#[trigger] paging::walk_spec(m, root, va)) matches Some(
            (_, flags),
        ) && flags == HEAP_FLAGS)
}

/// The pages that have been mapped at the end of a part of the address space
/// make it larger; what was mapped stays.
pub proof fn lemma_grown(m: Mem, root: int, base: int, len: int, n: int)
    requires
        0 <= base,
        base % 4096 == 0,
        0 <= len,
        len % 4096 == 0,
        len / 4096 + n <= runs::PAGES,
        growable(m, root, (base + len) as u64, n),
        base + len + 4096 * n <= u64::MAX,
        is_mapped(m, root, base, len),
    ensures
        ({
            let after = grown(m, root, (base + len) as u64, n);
            &&& after.wf()
            &&& paging::tree_wf(after, root)
            &&& paging::unshared(after, root)
            &&& is_mapped(after, root, base, len + 4096 * n)
        }),
{
    let to = (base + len) as u64;
    let from = (m.next() * 4096) as u64;
    let after = grown(m, root, to, n);
    let g = m.grow_by(n);
    lemma_growable(m, root, to, n);
    runs::law_run_walk(g, root, from, to, HEAP_FLAGS, n, 0);
    assert forall|va: u64| base <= va < base + len + 4096 * n implies ((
    #[trigger] paging::walk_spec(after, root, va)) matches Some((_, flags)) && flags
        == HEAP_FLAGS) by {
        runs::law_run_walk(g, root, from, to, HEAP_FLAGS, n, va);
        let k = (va - base) / 4096;
        runs::lemma_page_of(base as u64, va, k);
        if va < base + len {
            assert forall|i: int| 0 <= i < n implies runs::page(va) != runs::page(
                #[trigger] runs::nth(to, i),
            ) by {
                runs::lemma_run_pages(base as u64, k, len / 4096 + i);
                assert(runs::nth(base as u64, len / 4096 + i) == runs::nth(to, i));
            }
            assert(paging::walk_spec(after, root, va) == paging::walk_spec(g, root, va));
            assert(paging::walk_spec(g, root, va) == paging::walk_spec(m, root, va));
        } else {
            let i = (va - to) / 4096;
            runs::lemma_page_of(to, va, i);
            assert(runs::page(va) == runs::page(runs::nth(to, i)));
        }
    }
}

/// Hand out `n` frames and map them at the pages from `to` on.
pub fn grow(mem: &mut PhysicalMemory, pgtbl: PageTable, to: u64, n: u64)
    requires
        growable(old(mem)@, pgtbl.root as int, to, n as int),
    ensures
        final(mem)@ == grown(old(mem)@, pgtbl.root as int, to, n as int),
        final(mem)@.wf(),
        paging::tree_wf(final(mem)@, pgtbl.root as int),
        paging::unshared(final(mem)@, pgtbl.root as int),
{
    proof {
        lemma_growable(mem@, pgtbl.root as int, to, n as int);
        runs::lemma_missing(mem@, pgtbl.root as int, to, 0, n as int);
    }
    let page: u64 = mem.allocate_run(n);
    runs::map_run(mem, pgtbl, page * 4096, to, PageTableFlags { bits: HEAP_FLAGS }, n);
}

} // verus!
