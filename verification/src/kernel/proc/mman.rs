//! The memory of a process.

use std::collections::BTreeMap;
use vstd::prelude::*;

use crate::addr::{Identity, PhysicalConst, VirtualConst};
use crate::kernel::boot::runs;
use crate::kernel::kalloc::phys;
use crate::kernel::paging;
use crate::kernel::paging::{PageSize, PageTable, PageTableFlags};
use crate::kernel::physmem::PhysicalMemory;

verus! {

/// The memory of a process: its page table, and what lies where in its address
/// space, by the address behind it.
pub struct UserMemoryManager {
    pub table: PageTable,
    pub map: BTreeMap<u64, VmemRegion>,
}

/// What is at some addresses.
pub enum VmemRegion {
    /// The addresses from `start` up to `end` are in use.
    Mapped { region: MemRegion, start: u64, end: u64, flags: PageTableFlags },
    Unoccupied,
}

/// What is behind addresses that are in use.
pub enum MemRegion {
    Guard,
    Backed(PmemRegion),
}

/// The physical memory behind addresses.
pub enum PmemRegion {
    /// In one piece, from this address on.
    Contiguous(u64),
    /// Page by page.
    Sparse(Vec<u64>),
}

/// What memory is asked for.
#[derive(Copy, Clone, Debug, PartialEq, Eq, Structural)]
pub struct RegionRequest {
    pub n_pages: u64,
    pub contiguous: bool,
    pub flags: PageTableFlags,
    pub purpose: RegionPurpose,
}

/// What memory is for.
#[derive(Copy, Clone, Debug, PartialEq, Eq, Structural)]
pub enum RegionPurpose {
    UserMapped,
    Guard,
    Trapframe,
    Trampoline,
    Stack,
    Unknown,
}

/// There was not enough memory.
#[derive(Copy, Clone, Debug, PartialEq, Eq, Structural)]
pub struct AllocError;

/// Addresses from `start` up to, not including, `end`.
#[derive(Copy, Clone, Debug, PartialEq, Eq, Structural)]
pub struct Span {
    pub start: u64,
    pub end: u64,
}

impl UserMemoryManager {
    /// The memory of a process that has none yet.
    pub fn new(mem: &mut PhysicalMemory) -> (r: Self)
        requires
            old(mem)@.wf(),
            old(mem)@.available() > 0,
        ensures
            final(mem)@ == old(mem)@.grow(),
            final(mem)@.wf(),
            r.map@ == Map::<u64, VmemRegion>::empty(),
            r.table.root == old(mem)@.next(),
            paging::tree_wf(final(mem)@, r.table.root as int),
            paging::unshared(final(mem)@, r.table.root as int),
            forall|va: u64| #[trigger]
                paging::translate(final(mem)@, r.table.root as int, va) is None,
    {
        let table = PageTable::new(mem);
        let map: BTreeMap<u64, VmemRegion> = BTreeMap::new();
        UserMemoryManager { table, map }
    }

    /// Allocate memory in one piece, and map it from an address on. As many pages are
    /// taken as the order of the allocation has. Returns the addresses; an error if
    /// there is not enough memory.
    pub fn allocate(
        &mut self,
        mem: &mut PhysicalMemory,
        req: &RegionRequest,
        addr: VirtualConst<u8, Identity>,
    ) -> (r: Result<Span, AllocError>)
        requires
            old(mem)@.wf(),
            req.contiguous,
            old(mem)@.available() >= phys::frames_for(req.n_pages as int) ==> runs::run_mappable(
                old(mem)@.grow_by(phys::frames_for(req.n_pages as int)),
                old(self).table.root as int,
                (old(mem)@.next() * 4096) as u64,
                addr@,
                req.flags.bits,
                req.n_pages as int,
            ),
            runs::in_one_half(addr@, req.n_pages as int),
            addr@ + 4096 * req.n_pages <= u64::MAX,
        ensures
            r is Ok <==> old(mem)@.available() >= phys::frames_for(req.n_pages as int),
            r is Err ==> final(mem)@ == old(mem)@ && *final(self) == *old(self),
            r matches Ok(span) ==> {
                &&& span.start == addr@
                &&& span.end == addr@ + 4096 * req.n_pages
                &&& final(self).table == old(self).table
                &&& final(self).map@ == old(self).map@.insert(
                    span.end,
                    VmemRegion::Mapped {
                        region: MemRegion::Backed(
                            PmemRegion::Contiguous((old(mem)@.next() * 4096) as u64),
                        ),
                        start: span.start,
                        end: span.end,
                        flags: req.flags,
                    },
                )
                &&& final(mem)@ == runs::run_mapped(
                    old(mem)@.grow_by(phys::frames_for(req.n_pages as int)),
                    old(self).table.root as int,
                    (old(mem)@.next() * 4096) as u64,
                    addr@,
                    req.flags.bits,
                    req.n_pages as int,
                )
            },
            final(mem)@.wf(),
    {
        let frames: u64 = phys::allocation_pages(req.n_pages);
        if mem.num_free_pages() < frames {
            return Err(AllocError);
        }
        let backing: u64 = mem.allocate_run(frames) * 4096;
        let start: u64 = addr.into_usize();
        runs::map_run(mem, self.table, backing, start, req.flags, req.n_pages);
        let end: u64 = start + 4096 * req.n_pages;
        self.note(
            end,
            VmemRegion::Mapped {
                region: MemRegion::Backed(PmemRegion::Contiguous(backing)),
                start,
                end,
                flags: req.flags,
            },
        );
        Ok(Span { start, end })
    }

    /// Note what lies before an address.
    fn note(&mut self, end: u64, region: VmemRegion)
        ensures
            final(self).table == old(self).table,
            final(self).map@ == old(self).map@.insert(end, region),
    {
        broadcast use vstd::std_specs::btree::group_btree_axioms;

        let _ = self.map.insert(end, region);
    }

    /// Map a page.
    pub fn map_direct(
        &mut self,
        mem: &mut PhysicalMemory,
        from: PhysicalConst<u8, Identity>,
        to: VirtualConst<u8, Identity>,
        flags: PageTableFlags,
    )
        requires
            old(mem)@.wf(),
            paging::tree_wf(old(mem)@, old(self).table.root as int),
            from@ % 4096 == 0,
            to@ % 4096 == 0,
            paging::has_room(old(mem)@, old(self).table.root as int, to@, PageSize::Base),
            paging::translate(old(mem)@, old(self).table.root as int, to@) is None,
        ensures
            *final(self) == *old(self),
            final(mem)@ == paging::mapped(
                old(mem)@,
                old(self).table.root as int,
                to@,
                paging::map_entry(from@, flags.bits),
                PageSize::Base,
            ),
            final(mem)@.wf(),
    {
        self.table.map(mem, from, to, flags);
    }

    /// The page table.
    pub fn get_table(&self) -> (r: &PageTable)
        ensures
            *r == self.table,
    {
        &self.table
    }
}

} // verus!
