//! What the kernel gives to the initial process.

use vstd::prelude::*;

use crate::capability::paging::{BasePage, Page, PageTable};
use crate::capability::{Capability, Captr, CaptrRange, Empty, InterruptPool, Job, Thread};

verus! {

/// Information provided to the initial process.
pub struct BootInfo {
    /// The size of the initial process's captbl, in number of slots log2.
    pub captbl_size_log2: u8,
    /// Pages of the initial userspace process memory, ordered by virtual
    /// address.
    pub init_pages: CaptrRange<Page<BasePage>>,
    /// Pages of the FDT, ordered by virtual address.
    pub fdt_pages: CaptrRange<Page<BasePage>>,
    /// Pages of device memory, ordered by virtual address.
    pub dev_pages: CaptrRange<Page<BasePage>>,
    /// The free slots.
    pub free_slots: CaptrRange<Empty>,
    /// The address of the FDT.
    pub fdt_ptr: u64,
}

impl BootInfo {
    /// The words that the initial process finds in the page that it is given:
    /// the fields in order, a range as its low and its high end.
    pub open spec fn words(self) -> Seq<u64> {
        seq![
            self.captbl_size_log2 as u64,
            self.init_pages.lo@,
            self.init_pages.hi@,
            self.fdt_pages.lo@,
            self.fdt_pages.hi@,
            self.dev_pages.lo@,
            self.dev_pages.hi@,
            self.free_slots.lo@,
            self.free_slots.hi@,
            self.fdt_ptr,
        ]
    }

    /// The words that the initial process finds in the page that it is given.
    pub fn to_words(&self) -> (r: Vec<u64>)
        ensures
            r@ == self.words(),
    {
        let mut v: Vec<u64> = Vec::new();
        v.push(self.captbl_size_log2 as u64);
        v.push(self.init_pages.lo.into_raw());
        v.push(self.init_pages.hi.into_raw());
        v.push(self.fdt_pages.lo.into_raw());
        v.push(self.fdt_pages.hi.into_raw());
        v.push(self.dev_pages.lo.into_raw());
        v.push(self.dev_pages.hi.into_raw());
        v.push(self.free_slots.lo.into_raw());
        v.push(self.free_slots.hi.into_raw());
        v.push(self.fdt_ptr);
        assert(v@ =~= self.words());
        v
    }
}

/// Fixed-offset capabilities provided to the initial process.
pub struct InitCapabilities {
    /// The root job.
    pub job: Job,
    /// The initial process's page table.
    pub pgtbl: PageTable,
    /// The initial process's thread capability.
    pub thread: Thread,
    /// The page backing the [`BootInfo`] passed to the init proces.
    pub bootinfo_page: Page<BasePage>,
    /// The global interrupt pool.
    pub intr_pool: InterruptPool,
}

/// The slot of the root job.
pub const JOB_SLOT: u64 = 1;

/// The slot of the initial process's page table.
pub const PGTBL_SLOT: u64 = 2;

/// The slot of the initial process's thread.
pub const THREAD_SLOT: u64 = 3;

/// The slot of the page that holds the [`BootInfo`].
pub const BOOTINFO_SLOT: u64 = 5;

/// The slot of the global interrupt pool.
pub const INTR_POOL_SLOT: u64 = 6;

impl InitCapabilities {
    /// Create the captrs of the initial capabilities. They mean this only in
    /// the initial thread, or in a thread of its job.
    pub fn new() -> (r: Self)
        ensures
            r.job.captr() == JOB_SLOT,
            r.pgtbl.captr() == PGTBL_SLOT,
            r.thread.captr() == THREAD_SLOT,
            r.bootinfo_page.captr() == BOOTINFO_SLOT,
            r.intr_pool.captr() == INTR_POOL_SLOT,
    {
        InitCapabilities {
            job: Job::from_captr(Captr::from_raw(JOB_SLOT)),
            pgtbl: PageTable::from_captr(Captr::from_raw(PGTBL_SLOT)),
            thread: Thread::from_captr(Captr::from_raw(THREAD_SLOT)),
            bootinfo_page: Page::from_captr(Captr::from_raw(BOOTINFO_SLOT)),
            intr_pool: InterruptPool::from_captr(Captr::from_raw(INTR_POOL_SLOT)),
        }
    }
}

/// The initial process has its job in the slot 1, its page table in 2, its thread in 3, the
/// page with what it is told in 5, and the interrupts in 6.
pub proof fn law_first_capabilities(caps: InitCapabilities)
    requires
        call_ensures(InitCapabilities::new, (), caps),
    ensures
        caps.job.captr() == 1,
        caps.pgtbl.captr() == 2,
        caps.thread.captr() == 3,
        caps.bootinfo_page.captr() == 5,
        caps.intr_pool.captr() == 6,
{
}

} // verus!
