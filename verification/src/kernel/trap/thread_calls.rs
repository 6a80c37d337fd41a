//! The system calls that map pages and control threads.

use vstd::prelude::*;

use crate::addr::{Identity, Physical, PhysicalConst, VirtualConst};
use crate::capability::paging::{
    DynLevel, Page as PageCap, PageTable as PageTableCap, PageTableFlags as UserFlags,
};
use crate::capability::{AnyCap, CapError, CapResult, CapRights, Thread as ThreadCap};
use crate::kernel::capability::captbl;
use crate::kernel::capability::slotref::{SlotRef, SlotRefMut};
use crate::kernel::capability::thread::{Thread, ThreadProtected, ThreadState};
use crate::kernel::capability::{owned, CapabilityKind, CapabilitySlotInner, Page};
use crate::kernel::ipc;
use crate::kernel::paging;
use crate::kernel::paging::{PageSize, PageTableFlags, SharedPageTable};
use crate::kernel::physmem::{Mem, PhysicalMemory};
use crate::kernel::slots;
use crate::kernel::state;
use crate::kernel::state::{Kernel, State};
use crate::kernel::threads;
use crate::kernel::threads::read_registers;
use crate::kernel::trampoline::Trapframe;
use core::marker::PhantomData;

verus! {

/// The end of the lower half of the address space.
pub const USER_END: u64 = 0x40_0000_0000;

/// The size that a page of `2^size_log2` bytes is mapped with.
pub open spec fn size_of_log2(size_log2: u8) -> PageSize {
    if size_log2 == 12 {
        PageSize::Base
    } else if size_log2 == 21 {
        PageSize::Mega
    } else {
        PageSize::Giga
    }
}

/// The number of bytes of a page of one of the three sizes.
pub open spec fn bytes_of_log2(size_log2: u8) -> u64 {
    if size_log2 == 12 {
        0x1000
    } else if size_log2 == 21 {
        0x20_0000
    } else {
        0x4000_0000
    }
}

/// The flags with which a page is mapped for userspace: those that were asked
/// for and that the rights allow, and those that all such pages have.
pub open spec fn mapping_flags(flags: UserFlags, rights: CapRights) -> u8 {
    (flags.bits & rights.pgtbl_mask()) | 209
}

/// What mapping a page for userspace yields.
pub open spec fn map_error(page: Page, addr: u64) -> Option<CapError> {
    if addr >= USER_END {
        Some(CapError::InvalidOperation)
    } else if addr % bytes_of_log2(page.size_log2) != 0 {
        Some(CapError::InvalidSize)
    } else {
        None
    }
}

/// Memory after a page has been mapped for userspace.
pub open spec fn user_mapped(
    mem: Mem,
    table: SharedPageTable,
    page: Page,
    rights: CapRights,
    addr: u64,
    flags: UserFlags,
) -> Mem {
    paging::mapped(
        mem,
        table.root as int,
        addr,
        paging::map_entry(page.phys, mapping_flags(flags, rights)),
        size_of_log2(page.size_log2),
    )
}

/// Whether a page can be mapped for userspace.
pub open spec fn user_mappable(mem: Mem, table: SharedPageTable, page: Page, addr: u64) -> bool {
    &&& super::syscalls::is_page_size(page.size_log2)
    &&& page.phys % 4096 == 0
    &&& paging::tree_wf(mem, table.root as int)
    &&& map_error(page, addr) is None ==> paging::has_room(
        mem,
        table.root as int,
        addr,
        size_of_log2(page.size_log2),
    )
}

impl<'a> SlotRefMut<'a, PageTableCap> {
    /// Map the page of a slot at an address of the lower half, into the page
    /// table of this slot.
    pub fn map_page(
        &mut self,
        page: &SlotRef<PageCap<DynLevel>>,
        mem: &mut PhysicalMemory,
        addr: VirtualConst<u8, Identity>,
        flags: UserFlags,
    ) -> (r: CapResult<()>)
        requires
            old(mem)@.wf(),
            page.wf(),
            page.slot.cap matches CapabilityKind::Page(p) && old(
                self,
            ).slot.cap matches CapabilityKind::PgTbl(table) && user_mappable(
                old(mem)@,
                table,
                p,
                addr@,
            ),
        ensures
            ({
                let p = page.slot.cap->Page_0;
                let table = old(self).slot.cap->PgTbl_0;
                match map_error(p, addr@) {
                    Some(e) => r == Err::<(), CapError>(e) && final(mem)@ == old(mem)@,
                    None => r == Ok::<(), CapError>(()) && final(mem)@ == user_mapped(
                        old(mem)@,
                        table,
                        p,
                        page.slot.rights,
                        addr@,
                        flags,
                    ),
                }
            }),
            final(mem)@.wf(),
            *final(self).slot == *old(self).slot,
            *final(final(self).slot) == *final(old(self).slot),
    {
        let p = match page.slot.cap {
            CapabilityKind::Page(p) => p,
            _ => {
                return Err(CapError::InvalidType);
            },
        };
        let table = match self.slot.cap {
            CapabilityKind::PgTbl(table) => table,
            _ => {
                return Err(CapError::InvalidType);
            },
        };
        if addr.into_usize() >= USER_END {
            return Err(CapError::InvalidOperation);
        }
        let (bytes, size): (u64, PageSize) = if p.size_log2 == 12 {
            (0x1000, PageSize::Base)
        } else if p.size_log2 == 21 {
            (0x20_0000, PageSize::Mega)
        } else {
            (0x4000_0000, PageSize::Giga)
        };
        if addr.into_usize() % bytes != 0 {
            return Err(CapError::InvalidSize);
        }
        let allowed = flags.intersection(page.slot.rights.into_pgtbl_mask());
        let from: PhysicalConst<u8, Identity> = Physical::from_usize_unchecked(p.phys);
        table.map(mem, from, addr, PageTableFlags { bits: allowed.bits | 209 }, size);
        Ok(())
    }
}

/// A slot of a thread looked up as a page and another one as a page table, or
/// the error of looking them up.
pub open spec fn page_and_table(st: State, t: usize, page: u64, pgtbl: u64) -> Result<
    (Page, CapRights, SharedPageTable),
    CapError,
> {
    if page == pgtbl {
        Err(CapError::InvalidOperation)
    } else {
        match captbl::lookup_error::<PageCap<DynLevel>>(st.slots(t), page) {
            Some(e) => Err(e),
            None => match captbl::lookup_error::<PageTableCap>(st.slots(t), pgtbl) {
                Some(e) => Err(e),
                None => {
                    let slot = st.slots(t)[page as int];
                    Ok(
                        (
                            slot.cap->Page_0,
                            slot.rights,
                            st.slots(t)[pgtbl as int].cap->PgTbl_0,
                        ),
                    )
                },
            },
        }
    }
}

/// When [`sys_page_map`] can be called.
pub open spec fn sys_page_map_pre(
    st: State,
    thread: usize,
    from_page: u64,
    into_pgtbl: u64,
    addr: u64,
    flags: UserFlags,
) -> bool {
    &&& st.wf()
    &&& thread < st.threads.len()
    &&& page_and_table(st, thread, from_page, into_pgtbl) matches Ok((page, _, table))
        ==> user_mappable(st.mem, table, page, addr)
}

/// What [`sys_page_map`] does.
pub open spec fn sys_page_map_post(
    st: State,
    thread: usize,
    from_page: u64,
    into_pgtbl: u64,
    addr: u64,
    flags: UserFlags,
    after: State,
    r: CapResult<()>,
) -> bool {
    match page_and_table(st, thread, from_page, into_pgtbl) {
        Err(e) => r == Err::<(), CapError>(e) && after == st,
        Ok((page, rights, table)) => match map_error(page, addr) {
            Some(e) => r == Err::<(), CapError>(e) && after == st,
            None => r == Ok::<(), CapError>(()) && after == (State {
                mem: user_mapped(st.mem, table, page, rights, addr, flags),
                ..st
            }),
        },
    }
}

/// Map the page of a slot into the page table of another slot.
pub fn sys_page_map(
    k: &mut Kernel,
    thread: usize,
    from_page: u64,
    into_pgtbl: u64,
    addr: VirtualConst<u8, Identity>,
    flags: UserFlags,
) -> (r: CapResult<()>)
    requires
        sys_page_map_pre(old(k)@, thread, from_page, into_pgtbl, addr@, flags),
    ensures
        sys_page_map_post(old(k)@, thread, from_page, into_pgtbl, addr@, flags, final(k)@, r),
        final(k)@.wf(),
        final(k)@.threads.len() >= old(k)@.threads.len(),
{
    if from_page == into_pgtbl {
        return Err(CapError::InvalidOperation);
    }
    let slot = match k.lookup::<PageCap<DynLevel>>(thread, from_page) {
        Ok(slot) => slot,
        Err(e) => {
            return Err(e);
        },
    };
    assert(slot.cap is Page);
    let page: SlotRef<PageCap<DynLevel>> = SlotRef { slot, phantom: PhantomData };
    assert(k@.thread_wf(thread as int));
    let job: usize = k.threads[thread].job;
    let ghost st = k@;
    assert(k@.jobs[job as int] == k.jobs@[job as int]@);
    match k.jobs[job].captbl.get_mut::<PageTableCap>(into_pgtbl) {
        Ok(mut table) => {
            assert(table.slot.cap is PgTbl);
            let r = table.map_page(&page, &mut k.mem, addr, flags);
            proof {
                ipc::lemma_set_mem(st, k@.mem);
            }
            assert(k@.jobs[job as int].slots =~= st.jobs[job as int].slots);
            assert(k@.jobs =~= st.jobs);
            assert(k@ =~= (State { mem: k@.mem, ..st }));
            r
        },
        Err(e) => {
            assert(k@ =~= st);
            Err(e)
        },
    }
}

/// The thread in a slot of a thread, or the error of looking it up.
pub open spec fn thread_at(st: State, t: usize, index: u64) -> Result<usize, CapError> {
    match captbl::lookup_error::<ThreadCap>(st.slots(t), index) {
        Some(e) => Err(e),
        None => match st.slots(t)[index as int].cap {
            CapabilityKind::Thread(other) => Ok(other),
            _ => Err(CapError::InvalidType),
        },
    }
}

impl Kernel {
    /// The thread in a slot of a thread.
    fn thread_at(&self, t: usize, index: u64) -> (r: Result<SlotRef<ThreadCap>, CapError>)
        requires
            self@.wf(),
            t < self@.threads.len(),
        ensures
            r matches Ok(slot) ==> thread_at(self@, t, index) == Ok::<usize, CapError>(
                slot.thread(),
            ) && slot.thread() < self@.threads.len(),
            r matches Err(e) ==> thread_at(self@, t, index) == Err::<usize, CapError>(e),
    {
        match self.lookup::<ThreadCap>(t, index) {
            Ok(slot) => {
                assert(slot.cap is Thread);
                Ok(SlotRef { slot, phantom: PhantomData })
            },
            Err(e) => Err(e),
        }
    }
}

/// When [`sys_thread_suspend`] can be called.
pub open spec fn sys_thread_suspend_pre(st: State, thread: usize, thread_cap: u64) -> bool {
    &&& st.wf()
    &&& thread < st.threads.len()
}

/// What [`sys_thread_suspend`] does.
pub open spec fn sys_thread_suspend_post(
    st: State,
    thread: usize,
    thread_cap: u64,
    after: State,
    r: CapResult<()>,
) -> bool {
    match thread_at(st, thread, thread_cap) {
        Err(e) => r == Err::<(), CapError>(e) && after == st,
        Ok(t) => r == Ok::<(), CapError>(()) && after == st.set_state(
            t,
            ThreadState::Suspended,
        ),
    }
}

/// Suspend the thread in a slot.
pub fn sys_thread_suspend(k: &mut Kernel, thread: usize, thread_cap: u64) -> (r: CapResult<()>)
    requires
        sys_thread_suspend_pre(old(k)@, thread, thread_cap),
    ensures
        sys_thread_suspend_post(old(k)@, thread, thread_cap, final(k)@, r),
        final(k)@.wf(),
        final(k)@.threads.len() >= old(k)@.threads.len(),
{
    match k.thread_at(thread, thread_cap) {
        Ok(slot) => {
            slot.suspend(k);
            Ok(())
        },
        Err(e) => Err(e),
    }
}

/// When [`sys_thread_resume`] can be called.
pub open spec fn sys_thread_resume_pre(st: State, thread: usize, thread_cap: u64) -> bool {
    &&& st.wf()
    &&& thread < st.threads.len()
    &&& thread_at(st, thread, thread_cap) matches Ok(t) ==> st.threads[t as int].private.root_pgtbl is Some ==> 0 <= st.level(t) < 32
}

/// What [`sys_thread_resume`] does.
pub open spec fn sys_thread_resume_post(
    st: State,
    thread: usize,
    thread_cap: u64,
    after: State,
    r: CapResult<()>,
) -> bool {
    match thread_at(st, thread, thread_cap) {
        Err(e) => r == Err::<(), CapError>(e) && after == st,
        Ok(t) => if st.threads[t as int].private.root_pgtbl is Some {
            r == Ok::<(), CapError>(()) && after == threads::resumed(st, t)
        } else {
            r == Err::<(), CapError>(CapError::InvalidOperation) && after == st
        },
    }
}

/// Let the thread in a slot run.
pub fn sys_thread_resume(k: &mut Kernel, thread: usize, thread_cap: u64) -> (r: CapResult<()>)
    requires
        sys_thread_resume_pre(old(k)@, thread, thread_cap),
    ensures
        sys_thread_resume_post(old(k)@, thread, thread_cap, final(k)@, r),
        final(k)@.wf(),
        final(k)@.threads.len() >= old(k)@.threads.len(),
{
    match k.thread_at(thread, thread_cap) {
        Ok(slot) => slot.resume(k),
        Err(e) => Err(e),
    }
}

/// The registers with which a thread is started.
pub open spec fn start_frame(
    frame: Trapframe,
    entry: u64,
    stack: u64,
    captr: u64,
    arg2: u64,
) -> Trapframe {
    Trapframe { user_epc: entry, sp: stack, a0: captr, a1: arg2, ..frame }
}

/// After the capability that a started thread is given has been copied to its
/// next slot, and the captr of it; 0 if none is given.
pub open spec fn start_given(st: State, thread: usize, t: usize, arg1: u64) -> (State, u64) {
    let job = st.threads[t as int].job;
    match captbl::lookup_error::<AnyCap>(st.slots(thread), arg1) {
        Some(_) => (st, 0),
        None => {
            let slot = st.slots(thread)[arg1 as int];
            let captr = captbl::next_slot(st.jobs[job as int].slots);
            (
                slots::filled(
                    st,
                    job,
                    captr,
                    slots::limited(slot.cap, slot.badge, slot.rights),
                ),
                captr as u64,
            )
        },
    }
}

/// After the registers of a started thread have been written.
pub open spec fn start_prepared(
    st: State,
    thread: usize,
    t: usize,
    entry: u64,
    stack: u64,
    arg1: u64,
    arg2: u64,
) -> State {
    let (given, captr) = start_given(st, thread, t, arg1);
    threads::set_frame(
        given,
        t,
        start_frame(st.threads[t as int].trapframe.frame, entry, stack, captr, arg2),
    )
}

/// Whether a thread can be started.
pub open spec fn startable(st: State, thread: usize, t: usize, arg1: u64) -> bool {
    let job = st.threads[t as int].job;
    &&& captbl::lookup_error::<AnyCap>(st.slots(thread), arg1) is None ==> {
        &&& crate::kernel::capability::countable(st.threads, st.slots(thread)[arg1 as int].cap)
        &&& captbl::next_slot(st.jobs[job as int].slots) < st.jobs[job as int].slots.len()
    }
    &&& st.threads[t as int].private.root_pgtbl is Some ==> 0 <= st.level(t) < 32
}

/// When [`sys_thread_start`] can be called.
pub open spec fn sys_thread_start_pre(
    st: State,
    thread: usize,
    thread_cap: u64,
    entry: u64,
    stack: u64,
    arg1: u64,
    arg2: u64,
) -> bool {
    &&& st.wf()
    &&& thread < st.threads.len()
    &&& thread_at(st, thread, thread_cap) matches Ok(t) ==> st.state(t) is Suspended
        ==> startable(st, thread, t, arg1)
}

/// What [`sys_thread_start`] does.
pub open spec fn sys_thread_start_post(
    st: State,
    thread: usize,
    thread_cap: u64,
    entry: u64,
    stack: u64,
    arg1: u64,
    arg2: u64,
    after: State,
    r: CapResult<()>,
) -> bool {
    match thread_at(st, thread, thread_cap) {
        Err(e) => r == Err::<(), CapError>(e) && after == st,
        Ok(t) => {
            let prepared = start_prepared(st, thread, t, entry, stack, arg1, arg2);
            if !(st.state(t) is Suspended) {
                r == Err::<(), CapError>(CapError::InvalidOperation) && after == st
            } else if st.threads[t as int].private.root_pgtbl is None {
                r == Err::<(), CapError>(CapError::InvalidOperation) && after == prepared
            } else {
                r == Ok::<(), CapError>(()) && after == threads::resumed(prepared, t)
            }
        },
    }
}

/// Start the thread in a slot, which must be suspended, with its first registers
/// and a copy of the capability in the slot `arg1`.
pub fn sys_thread_start(
    k: &mut Kernel,
    thread: usize,
    thread_cap: u64,
    entry: u64,
    stack: u64,
    arg1: u64,
    arg2: u64,
) -> (r: CapResult<()>)
    requires
        sys_thread_start_pre(old(k)@, thread, thread_cap, entry, stack, arg1, arg2),
    ensures
        sys_thread_start_post(old(k)@, thread, thread_cap, entry, stack, arg1, arg2, final(k)@, r),
        final(k)@.wf(),
        final(k)@.threads.len() >= old(k)@.threads.len(),
{
    let t: usize = match k.lookup::<ThreadCap>(thread, thread_cap) {
        Ok(slot) => match slot.cap {
            CapabilityKind::Thread(t) => t,
            _ => {
                return Err(CapError::InvalidType);
            },
        },
        Err(e) => {
            return Err(e);
        },
    };
    if k.threads[t].private.state != ThreadState::Suspended {
        return Err(CapError::InvalidOperation);
    }
    assert(k@.thread_wf(t as int));
    let ghost st = k@;
    let captr: u64 = match k.lookup::<AnyCap>(thread, arg1) {
        Ok(slot) => {
            let job: usize = k.threads[t].job;
            match k.next_slot(job) {
                Ok(captr) => {
                    k.fill_limited(job, captr, owned(slot.cap), slot.badge, slot.rights);
                    captr
                },
                Err(_) => 0,
            }
        },
        Err(_) => 0,
    };
    proof {
        assert((k@, captr) == start_given(st, thread, t, arg1));
        assert(k@.threads[t as int].trapframe == st.threads[t as int].trapframe);
        assert(k@.threads[t as int].private == st.threads[t as int].private);
    }
    let mut frame = k.threads[t].trapframe.frame;
    frame.user_epc = entry;
    frame.sp = stack;
    frame.a0 = captr;
    frame.a1 = arg2;
    k.set_frame(t, frame);
    if k.threads[t].private.root_pgtbl.is_none() {
        return Err(CapError::InvalidOperation);
    }
    k.make_runnable(t);
    Ok(())
}

/// The page table that a thread is to be configured with: that of the caller if
/// the index is 0, else that of a slot.
pub open spec fn table_at(st: State, t: usize, index: u64) -> Result<SharedPageTable, CapError> {
    if index == 0 {
        Ok(st.threads[t as int].private.root_pgtbl->0)
    } else {
        match captbl::lookup_error::<PageTableCap>(st.slots(t), index) {
            Some(e) => Err(e),
            None => Ok(st.slots(t)[index as int].cap->PgTbl_0),
        }
    }
}

/// Whether the page of a slot can be a buffer: it must be readable, writable and
/// of the smallest size.
pub open spec fn is_buffer(slot: CapabilitySlotInner) -> bool {
    slot.rights.bits & 3 == 3 && slot.cap->Page_0.size_log2 == 12
}

/// The buffer that a thread is to be configured with: none if the slot is not
/// one of a page; an error if the page cannot be a buffer.
pub open spec fn buffer_at(st: State, t: usize, index: u64) -> Result<Option<Page>, CapError> {
    if index == 0 || captbl::lookup_error::<PageCap<DynLevel>>(st.slots(t), index) is Some {
        Ok(None)
    } else if is_buffer(st.slots(t)[index as int]) {
        Ok(Some(st.slots(t)[index as int].cap->Page_0))
    } else {
        Err(CapError::InvalidOperation)
    }
}

/// When [`sys_thread_configure`] can be called.
pub open spec fn sys_thread_configure_pre(
    st: State,
    thread: usize,
    thread_cap: u64,
    pgtbl: u64,
    ipc_buffer: u64,
) -> bool {
    &&& st.wf()
    &&& thread < st.threads.len()
    &&& pgtbl == 0 ==> st.threads[thread as int].private.root_pgtbl is Some
    &&& thread_at(st, thread, thread_cap) matches Ok(t) ==> table_at(
        st,
        thread,
        pgtbl,
    ) matches Ok(table) ==> buffer_at(st, thread, ipc_buffer) matches Ok(buffer) ==> (
    st.state(t) is Suspended || st.state(t) is Uninit) ==> threads::page_table_givable(
        st,
        t,
        table,
        buffer,
    )
}

/// What [`sys_thread_configure`] does.
pub open spec fn sys_thread_configure_post(
    st: State,
    thread: usize,
    thread_cap: u64,
    pgtbl: u64,
    ipc_buffer: u64,
    after: State,
    r: CapResult<()>,
) -> bool {
    match thread_at(st, thread, thread_cap) {
        Err(e) => r == Err::<(), CapError>(e) && after == st,
        Ok(t) => match table_at(st, thread, pgtbl) {
            Err(e) => r == Err::<(), CapError>(e) && after == st,
            Ok(table) => match buffer_at(st, thread, ipc_buffer) {
                Err(e) => r == Err::<(), CapError>(e) && after == st,
                Ok(buffer) => if st.state(t) is Suspended || st.state(t) is Uninit {
                    r == Ok::<(), CapError>(()) && threads::configured(
                        st,
                        t,
                        table,
                        buffer,
                        after,
                    )
                } else {
                    r == Err::<(), CapError>(CapError::InvalidOperation) && after == st
                },
            },
        },
    }
}

/// Configure the thread in a slot: its page table, and its buffer.
pub fn sys_thread_configure(
    k: &mut Kernel,
    thread: usize,
    thread_cap: u64,
    pgtbl: u64,
    ipc_buffer: u64,
) -> (r: CapResult<()>)
    requires
        sys_thread_configure_pre(old(k)@, thread, thread_cap, pgtbl, ipc_buffer),
    ensures
        sys_thread_configure_post(old(k)@, thread, thread_cap, pgtbl, ipc_buffer, final(k)@, r),
        final(k)@.wf(),
        final(k)@.threads.len() >= old(k)@.threads.len(),
{
    let slot = match k.thread_at(thread, thread_cap) {
        Ok(slot) => slot,
        Err(e) => {
            return Err(e);
        },
    };
    let table: SharedPageTable = if pgtbl == 0 {
        match k.threads[thread].private.root_pgtbl {
            Some(table) => table,
            None => {
                return Err(CapError::NotPresent);
            },
        }
    } else {
        match k.lookup::<PageTableCap>(thread, pgtbl) {
            Ok(slot) => match slot.cap {
                CapabilityKind::PgTbl(table) => table,
                _ => {
                    return Err(CapError::InvalidType);
                },
            },
            Err(e) => {
                return Err(e);
            },
        }
    };
    let buffer: Option<Page> = if ipc_buffer == 0 {
        None
    } else {
        match k.lookup::<PageCap<DynLevel>>(thread, ipc_buffer) {
            Ok(slot) => match slot.cap {
                CapabilityKind::Page(page) => {
                    if !slot.rights.contains(3) || page.size_log2 != 12 {
                        return Err(CapError::InvalidOperation);
                    }
                    Some(page)
                },
                _ => None,
            },
            Err(_) => None,
        }
    };
    slot.configure(k, table, buffer)
}

/// Where the registers are that a thread writes to another one, if they are
/// mapped so that it can read them.
pub open spec fn registers_addr(st: State, t: usize, va: u64) -> Option<u64> {
    ipc::user_addr(st, t, va, PageTableFlags::USER_READ)
}

/// When [`sys_thread_write_registers`] can be called.
pub open spec fn sys_thread_write_registers_pre(
    st: State,
    thread: usize,
    thread_cap: u64,
    regs_vaddr: u64,
) -> bool {
    &&& st.wf()
    &&& thread < st.threads.len()
    &&& st.threads[thread as int].private.root_pgtbl is Some
    &&& ipc::walkable(st, thread)
    &&& registers_addr(st, thread, regs_vaddr) matches Some(pa) ==> pa % 8 == 0 && st.mem.has_bytes(pa as int, 256)
}

/// What [`sys_thread_write_registers`] does.
pub open spec fn sys_thread_write_registers_post(
    st: State,
    thread: usize,
    thread_cap: u64,
    regs_vaddr: u64,
    after: State,
    r: CapResult<()>,
) -> bool {
    match registers_addr(st, thread, regs_vaddr) {
        None => r == Err::<(), CapError>(CapError::InvalidOperation) && after == st,
        Some(pa) => match thread_at(st, thread, thread_cap) {
            Err(e) => r == Err::<(), CapError>(e) && after == st,
            Ok(t) => if st.state(t) is Suspended {
                r == Ok::<(), CapError>(()) && after == threads::set_frame(
                    st,
                    t,
                    threads::with_registers(
                        st.threads[t as int].trapframe.frame,
                        threads::registers_at(st.mem, pa as int),
                    ),
                )
            } else {
                r == Err::<(), CapError>(CapError::InvalidOperation) && after == st
            },
        },
    }
}

/// Write the registers of the thread in a slot, which must be suspended.
pub fn sys_thread_write_registers(
    k: &mut Kernel,
    thread: usize,
    thread_cap: u64,
    regs_vaddr: u64,
) -> (r: CapResult<()>)
    requires
        sys_thread_write_registers_pre(old(k)@, thread, thread_cap, regs_vaddr),
    ensures
        sys_thread_write_registers_post(old(k)@, thread, thread_cap, regs_vaddr, final(k)@, r),
        final(k)@.wf(),
        final(k)@.threads.len() >= old(k)@.threads.len(),
{
    let pa: u64 = match k.user_addr(thread, regs_vaddr, PageTableFlags::USER_READ) {
        Some(pa) => pa,
        None => {
            return Err(CapError::InvalidOperation);
        },
    };
    let t: usize = match k.lookup::<ThreadCap>(thread, thread_cap) {
        Ok(slot) => match slot.cap {
            CapabilityKind::Thread(t) => t,
            _ => {
                return Err(CapError::InvalidType);
            },
        },
        Err(e) => {
            return Err(e);
        },
    };
    if k.threads[t].private.state != ThreadState::Suspended {
        return Err(CapError::InvalidOperation);
    }
    let regs = read_registers(&k.mem, pa);
    k.write_frame(t, regs);
    Ok(())
}

/// When [`sys_thread_set_ipc_buffer`] can be called.
pub open spec fn sys_thread_set_ipc_buffer_pre(
    st: State,
    thread: usize,
    thread_cap: u64,
    ipc_buffer: u64,
) -> bool {
    &&& st.wf()
    &&& thread < st.threads.len()
}

/// What [`sys_thread_set_ipc_buffer`] does.
pub open spec fn sys_thread_set_ipc_buffer_post(
    st: State,
    thread: usize,
    thread_cap: u64,
    ipc_buffer: u64,
    after: State,
    r: CapResult<()>,
) -> bool {
    match thread_at(st, thread, thread_cap) {
        Err(e) => r == Err::<(), CapError>(e) && after == st,
        Ok(t) => match captbl::lookup_error::<PageCap<DynLevel>>(
            st.slots(thread),
            ipc_buffer,
        ) {
            Some(e) => r == Err::<(), CapError>(e) && after == st,
            None => {
                let slot = st.slots(thread)[ipc_buffer as int];
                if is_buffer(slot) && !slot.cap->Page_0.is_device {
                    let other = st.threads[t as int];
                    &&& r == Ok::<(), CapError>(())
                    &&& after == st.set_thread(
                        t,
                        Thread {
                            private: ThreadProtected {
                                ipc_buffer: Some(slot.cap->Page_0),
                                ..other.private
                            },
                            ..other
                        },
                    )
                } else {
                    r == Err::<(), CapError>(CapError::InvalidOperation) && after == st
                }
            },
        },
    }
}

/// Set the buffer of the thread in a slot to the page of another slot.
pub fn sys_thread_set_ipc_buffer(
    k: &mut Kernel,
    thread: usize,
    thread_cap: u64,
    ipc_buffer: u64,
) -> (r: CapResult<()>)
    requires
        sys_thread_set_ipc_buffer_pre(old(k)@, thread, thread_cap, ipc_buffer),
    ensures
        sys_thread_set_ipc_buffer_post(old(k)@, thread, thread_cap, ipc_buffer, final(k)@, r),
        final(k)@.wf(),
        final(k)@.threads.len() >= old(k)@.threads.len(),
{
    let t: usize = match k.lookup::<ThreadCap>(thread, thread_cap) {
        Ok(slot) => match slot.cap {
            CapabilityKind::Thread(t) => t,
            _ => {
                return Err(CapError::InvalidType);
            },
        },
        Err(e) => {
            return Err(e);
        },
    };
    match k.lookup::<PageCap<DynLevel>>(thread, ipc_buffer) {
        Ok(slot) => match slot.cap {
            CapabilityKind::Page(page) => {
                if !slot.rights.contains(3) || page.size_log2 != 12 {
                    return Err(CapError::InvalidOperation);
                }
                if page.is_device {
                    return Err(CapError::InvalidOperation);
                }
                assert(k@.thread_wf(t as int));
                let mut other = k.threads[t];
                other.private.ipc_buffer = Some(page);
                proof {
                    state::lemma_set_thread(k@, t, other);
                }
                k.set_thread(t, other);
                Ok(())
            },
            _ => Err(CapError::InvalidType),
        },
        Err(e) => Err(e),
    }
}

/// A page is mapped for userspace with no access that the rights of its slot do
/// not allow, and none that was not asked for.
pub proof fn law_mapping_respects_rights(flags: UserFlags, rights: CapRights)
    ensures
        ({
            let mapped = mapping_flags(flags, rights);
            &&& mapped & 2 != 0 ==> rights.bits % 2 == 1 && flags.bits & 2 != 0
            &&& mapped & 4 != 0 ==> (rights.bits / 2) % 2 == 1 && flags.bits & 4 != 0
            &&& mapped & 8 != 0 ==> (rights.bits / 4) % 2 == 1 && flags.bits & 8 != 0
            &&& mapped & 16 != 0
        }),
{
    let f = flags.bits;
    let m = rights.pgtbl_mask();
    assert((((f & m) | 209) & 2 != 0 ==> m & 2 != 0 && f & 2 != 0) && (((f & m) | 209) & 4 != 0
        ==> m & 4 != 0 && f & 4 != 0) && (((f & m) | 209) & 8 != 0 ==> m & 8 != 0 && f & 8 != 0) && ((
    f & m) | 209) & 16 != 0) by (bit_vector);
    assert(0u8 & 2 == 0 && 4u8 & 2 == 0 && 8u8 & 2 == 0 && 12u8 & 2 == 0 && 0u8 & 4 == 0 && 2u8 & 4
        == 0 && 8u8 & 4 == 0 && 10u8 & 4 == 0 && 0u8 & 8 == 0 && 2u8 & 8 == 0 && 4u8 & 8 == 0 && 6u8
        & 8 == 0) by (bit_vector);
}

} // verus!
