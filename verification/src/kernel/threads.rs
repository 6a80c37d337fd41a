//! The life of a thread: how it is made, configured, started and suspended.

use vstd::prelude::*;

use super::capability::slotref::SlotRef;
use super::capability::thread::{
    HartMask, OwnedTrapframe, Thread, ThreadKernelStack, ThreadPriorities, ThreadProtected,
    ThreadState, THREAD_STACK_SIZE,
};
use super::capability::{Capability, CapabilityKind, Page};
use super::dispatch;
use super::ipc;
use super::paging;
use super::paging::{PageSize, PageTableFlags, SharedPageTable};
use super::physmem::{Mem, PhysicalMemory};
use super::proc::context::Context;
use super::sched::Scheduler;
use super::state;
use super::state::{CodeAddresses, Kernel, State};
use super::trampoline::{Trapframe, TRAMPOLINE_PAGE};
use crate::addr::mappings;
use crate::addr::mappings::{AddressLayout, DirectMapped};
use crate::addr::virt;
use crate::addr::{Identity, Physical, PhysicalConst, PhysicalMut, VirtualConst};
use crate::capability::{CapError, CapResult, Thread as ThreadCap, UserRegisters};

verus! {

/// The number of frames of a thread's kernel stack.
pub const STACK_FRAMES: u64 = 128;

impl OwnedTrapframe {
    /// Allocate a trapframe.
    pub fn new(mem: &mut PhysicalMemory) -> (r: Self)
        requires
            old(mem)@.wf(),
            old(mem)@.available() > 0,
        ensures
            final(mem)@ == old(mem)@.grow(),
            final(mem)@.wf(),
            r == (OwnedTrapframe { inner: old(mem)@.next() as u64, frame: Trapframe::zeroed() }),
    {
        let inner: u64 = mem.allocate();
        OwnedTrapframe { inner, frame: Trapframe::default() }
    }

    /// The physical address of the trapframe.
    pub fn as_phys(&self) -> (r: PhysicalMut<Trapframe, DirectMapped>)
        requires
            self.inner < super::physmem::DIRECT_MAPPED_PAGES,
        ensures
            r@ == self.inner * 4096,
    {
        Physical::from_usize_unchecked(self.inner * 4096)
    }
}

impl ThreadKernelStack {
    /// Allocate a kernel stack.
    pub fn new(mem: &mut PhysicalMemory) -> (r: Self)
        requires
            old(mem)@.wf(),
            old(mem)@.available() >= STACK_FRAMES,
        ensures
            final(mem)@ == old(mem)@.grow_by(STACK_FRAMES as int),
            final(mem)@.wf(),
            r.inner == old(mem)@.next(),
    {
        let inner: u64 = mem.allocate_run(STACK_FRAMES);
        ThreadKernelStack { inner }
    }

    /// The physical address of the stack.
    pub fn as_phys(&self) -> (r: PhysicalMut<u8, DirectMapped>)
        requires
            self.inner < super::physmem::DIRECT_MAPPED_PAGES,
        ensures
            r@ == self.inner * 4096,
    {
        Physical::from_usize_unchecked(self.inner * 4096)
    }
}

/// The address of the top of a kernel stack.
pub open spec fn stack_top(layout: AddressLayout, stack: ThreadKernelStack) -> int {
    stack.inner * 4096 + layout.physical_offset + THREAD_STACK_SIZE
}

/// The context in which a thread leaves the kernel for the first time, on an
/// empty stack.
pub open spec fn first_context(
    layout: AddressLayout,
    code: CodeAddresses,
    stack: ThreadKernelStack,
) -> Context {
    Context {
        ra: code.user_trap_ret,
        sp: stack_top(layout, stack) as u64,
        ..Context::zeroed()
    }
}

/// A thread that has just been made, whose trapframe has the page number
/// `frame`, with its stack behind it.
pub open spec fn new_thread(
    frame: int,
    layout: AddressLayout,
    code: CodeAddresses,
    tid: u16,
    pgtbl: Option<SharedPageTable>,
    job: usize,
) -> Thread {
    let stack = ThreadKernelStack { inner: (frame + 1) as u64 };
    Thread {
        trapframe: OwnedTrapframe { inner: frame as u64, frame: Trapframe::zeroed() },
        stack,
        private: ThreadProtected {
            root_pgtbl: pgtbl,
            asid: 1,
            trapframe_addr: 0,
            prio: ThreadPriorities { base_prio: 0, inherited_prio: 0, prio_boost: 0 },
            state: ThreadState::Uninit,
            hartid: u64::MAX,
            ipc_buffer: None,
            send_fastpath: None,
            recv_fastpath: false,
        },
        context: first_context(layout, code, stack),
        tid: tid as u64,
        job,
        waiting_on: 0,
        slot_refcount: 0,
        blocked_on_wq: None,
        affinity: HartMask(0xFFFF_FFFF_FFFF_FFFF),
    }
}

/// A thread that has just been made.
pub open spec fn fresh_thread(st: State, pgtbl: Option<SharedPageTable>, job: usize) -> Thread {
    new_thread(st.mem.next(), st.layout, st.code, st.next_tid, pgtbl, job)
}

/// After a thread has been made.
pub open spec fn thread_made(
    st: State,
    name: Seq<char>,
    pgtbl: Option<SharedPageTable>,
    job: usize,
) -> State {
    State {
        threads: st.threads.push(fresh_thread(st, pgtbl, job)),
        names: st.names.push(name),
        blocking: st.blocking.push(Seq::empty()),
        mem: st.mem.grow().grow_by(STACK_FRAMES as int),
        next_tid: (st.next_tid + 1) as u16,
        ..st
    }
}

/// To make a thread keeps all that is referred to in existence.
pub proof fn lemma_thread_made(
    st: State,
    name: Seq<char>,
    pgtbl: Option<SharedPageTable>,
    job: usize,
    mem: Mem,
)
    requires
        st.wf(),
        mem.wf(),
        job < st.jobs.len(),
    ensures
        (State { mem, ..thread_made(st, name, pgtbl, job) }).wf(),
{
    let after = State { mem, ..thread_made(st, name, pgtbl, job) };
    let n = st.threads.len() as int;
    assert forall|i: int| 0 <= i < after.threads.len() implies #[trigger] after.thread_wf(i) by {
        if i < n {
            assert(st.thread_wf(i));
            assert(after.threads[i] == st.threads[i]);
        }
    }
    assert forall|j: int| 0 <= j < after.jobs.len() implies #[trigger] after.job_wf(j) by {
        assert(st.job_wf(j));
        assert forall|i: int| 0 <= i < after.jobs[j].slots.len() implies after.kind_wf(
            (#[trigger] after.jobs[j].slots[i]).cap,
        ) by {
            assert(st.kind_wf(st.jobs[j].slots[i].cap));
        }
    }
    assert forall|t: int, i: int|
        0 <= t < after.blocking.len() && 0 <= i < after.blocking[t].len() implies (
    #[trigger] after.blocking[t][i]) < after.queues.len() by {
        if t < n {
            assert(after.blocking[t] == st.blocking[t]);
            assert(st.blocking[t][i] < st.queues.len());
        }
    }
    assert forall|q: int| 0 <= q < after.queues.len() implies (#[trigger] after.queues[q]).wf()
        && after.queues[q].below(after.threads.len() as int) by {
        assert(st.queues[q].below(n));
        assert forall|c: int, i: int|
            0 <= c < st.queues[q].classes.len() && st.queues[q].classes[c] is Some && 0 <= i
                < st.queues[q].classes[c]->0.len() implies (#[trigger] st.queues[q].classes[c]->0[i])
            < n + 1 by {}
    }
    assert(after.sched.below(after.threads.len() as int)) by {
        assert(st.sched.below(n));
        assert forall|h: u64| #[trigger] st.sched.idle.dom().contains(h) implies st.sched.idle[h]
            < n + 1 by {}
        assert forall|h: u64, p: int, i: int|
            st.sched.has(h) && 0 <= p < 32 && 0 <= i < st.sched.queues[h][p].len()
            implies (#[trigger] st.sched.queues[h][p][i]) < n + 1 by {}
    }
}

/// After a page of memory has been mapped at an address of a thread's page
/// table.
pub open spec fn page_mapped(
    st: State,
    table: SharedPageTable,
    from: u64,
    to: u64,
    flags: u8,
) -> State {
    State {
        mem: paging::mapped(
            st.mem,
            table.root as int,
            to,
            paging::map_entry(from, flags),
            PageSize::Base,
        ),
        ..st
    }
}

/// After the trapframe of a thread has been mapped at an address.
pub open spec fn trapframe_mapped(st: State, t: usize, va: u64) -> State {
    let thread = st.threads[t as int];
    let mapped = page_mapped(
        st,
        thread.private.root_pgtbl->0,
        (thread.trapframe.inner * 4096) as u64,
        va,
        199,
    );
    mapped.set_thread(
        t,
        Thread {
            private: ThreadProtected { trapframe_addr: va, ..thread.private },
            ..thread
        },
    )
}

/// Whether an address is that of the first free page of the upper half of the
/// address space.
pub open spec fn is_free_addr(m: Mem, root: int, va: u64) -> bool {
    exists|i2: int, i1: int, i0: int| #[trigger]
        paging::first_free(m, root, i2, i1, i0) && va == virt::canonical(
            (i2 * 0x4000_0000 + i1 * 0x20_0000 + i0 * 0x1000) as u64,
        )
}

/// Whether the trapframe of a thread can be mapped.
pub open spec fn trapframe_mappable(st: State, t: usize) -> bool {
    let thread = st.threads[t as int];
    &&& thread.private.root_pgtbl is Some
    &&& thread.trapframe.inner < super::physmem::DIRECT_MAPPED_PAGES
    &&& ({
        let root = thread.private.root_pgtbl->0.root as int;
        &&& paging::tree_wf(st.mem, root)
        &&& exists|va: u64| is_free_addr(st.mem, root, va)
        &&& forall|va: u64| #[trigger]
            is_free_addr(st.mem, root, va) ==> paging::has_room(st.mem, root, va, PageSize::Base)
    })
}

/// What configuring a thread does before its trapframe is mapped: it has the
/// page table, which maps the trampoline, and the buffer, and is suspended.
pub open spec fn page_table_given(
    st: State,
    t: usize,
    pgtbl: SharedPageTable,
    ipc_buffer: Option<Page>,
) -> State {
    let thread = st.threads[t as int];
    let mapped = page_mapped(st, pgtbl, st.code.trampoline, TRAMPOLINE_PAGE, 203);
    mapped.set_thread(
        t,
        Thread {
            private: ThreadProtected {
                root_pgtbl: Some(pgtbl),
                state: ThreadState::Suspended,
                ipc_buffer,
                ..thread.private
            },
            ..thread
        },
    )
}

/// Whether a page table can be given to a thread.
pub open spec fn page_table_givable(
    st: State,
    t: usize,
    pgtbl: SharedPageTable,
    ipc_buffer: Option<Page>,
) -> bool {
    &&& paging::tree_wf(st.mem, pgtbl.root as int)
    &&& st.code.trampoline % 4096 == 0
    &&& paging::has_room(st.mem, pgtbl.root as int, TRAMPOLINE_PAGE, PageSize::Base)
    &&& trapframe_mappable(page_table_given(st, t, pgtbl, ipc_buffer), t)
}

/// The 32 registers in memory.
pub open spec fn registers_at(mem: Mem, pa: int) -> UserRegisters {
    UserRegisters {
        ra: mem.word(pa),
        sp: mem.word(pa + 8),
        gp: mem.word(pa + 16),
        tp: mem.word(pa + 24),
        t0: mem.word(pa + 32),
        t1: mem.word(pa + 40),
        t2: mem.word(pa + 48),
        s0: mem.word(pa + 56),
        s1: mem.word(pa + 64),
        a0: mem.word(pa + 72),
        a1: mem.word(pa + 80),
        a2: mem.word(pa + 88),
        a3: mem.word(pa + 96),
        a4: mem.word(pa + 104),
        a5: mem.word(pa + 112),
        a6: mem.word(pa + 120),
        a7: mem.word(pa + 128),
        s2: mem.word(pa + 136),
        s3: mem.word(pa + 144),
        s4: mem.word(pa + 152),
        s5: mem.word(pa + 160),
        s6: mem.word(pa + 168),
        s7: mem.word(pa + 176),
        s8: mem.word(pa + 184),
        s9: mem.word(pa + 192),
        s10: mem.word(pa + 200),
        s11: mem.word(pa + 208),
        t3: mem.word(pa + 216),
        t4: mem.word(pa + 224),
        t5: mem.word(pa + 232),
        t6: mem.word(pa + 240),
        pc: mem.word(pa + 248),
    }
}

/// A trapframe with the registers of userspace replaced.
pub open spec fn with_registers(frame: Trapframe, regs: UserRegisters) -> Trapframe {
    Trapframe {
        ra: regs.ra,
        sp: regs.sp,
        gp: regs.gp,
        tp: regs.tp,
        t0: regs.t0,
        t1: regs.t1,
        t2: regs.t2,
        s0: regs.s0,
        s1: regs.s1,
        a0: regs.a0,
        a1: regs.a1,
        a2: regs.a2,
        a3: regs.a3,
        a4: regs.a4,
        a5: regs.a5,
        a6: regs.a6,
        a7: regs.a7,
        s2: regs.s2,
        s3: regs.s3,
        s4: regs.s4,
        s5: regs.s5,
        s6: regs.s6,
        s7: regs.s7,
        s8: regs.s8,
        s9: regs.s9,
        s10: regs.s10,
        s11: regs.s11,
        t3: regs.t3,
        t4: regs.t4,
        t5: regs.t5,
        t6: regs.t6,
        kernel_sp: frame.kernel_sp,
        kernel_tp: frame.kernel_tp,
        kernel_trap: frame.kernel_trap,
        kernel_satp: frame.kernel_satp,
        user_epc: regs.pc,
    }
}

/// With another trapframe of a thread.
pub open spec fn set_frame(st: State, t: usize, frame: Trapframe) -> State {
    let thread = st.threads[t as int];
    st.set_thread(
        t,
        Thread { trapframe: OwnedTrapframe { frame, ..thread.trapframe }, ..thread },
    )
}

/// Read the 32 registers from memory.
pub fn read_registers(mem: &PhysicalMemory, pa: u64) -> (r: UserRegisters)
    requires
        mem@.wf(),
        pa % 8 == 0,
        mem@.has_bytes(pa as int, 256),
    ensures
        r == registers_at(mem@, pa as int),
{
    UserRegisters {
        ra: mem.read_word(pa),
        sp: mem.read_word(pa + 8),
        gp: mem.read_word(pa + 16),
        tp: mem.read_word(pa + 24),
        t0: mem.read_word(pa + 32),
        t1: mem.read_word(pa + 40),
        t2: mem.read_word(pa + 48),
        s0: mem.read_word(pa + 56),
        s1: mem.read_word(pa + 64),
        a0: mem.read_word(pa + 72),
        a1: mem.read_word(pa + 80),
        a2: mem.read_word(pa + 88),
        a3: mem.read_word(pa + 96),
        a4: mem.read_word(pa + 104),
        a5: mem.read_word(pa + 112),
        a6: mem.read_word(pa + 120),
        a7: mem.read_word(pa + 128),
        s2: mem.read_word(pa + 136),
        s3: mem.read_word(pa + 144),
        s4: mem.read_word(pa + 152),
        s5: mem.read_word(pa + 160),
        s6: mem.read_word(pa + 168),
        s7: mem.read_word(pa + 176),
        s8: mem.read_word(pa + 184),
        s9: mem.read_word(pa + 192),
        s10: mem.read_word(pa + 200),
        s11: mem.read_word(pa + 208),
        t3: mem.read_word(pa + 216),
        t4: mem.read_word(pa + 224),
        t5: mem.read_word(pa + 232),
        t6: mem.read_word(pa + 240),
        pc: mem.read_word(pa + 248),
    }
}

impl Kernel {
    /// Replace the trapframe of a thread.
    pub(crate) fn set_frame(&mut self, t: usize, frame: Trapframe)
        requires
            old(self)@.wf(),
            t < old(self)@.threads.len(),
        ensures
            final(self)@ == set_frame(old(self)@, t, frame),
            final(self)@.wf(),
    {
        assert(self@.thread_wf(t as int));
        let mut thread = self.threads[t];
        thread.trapframe.frame = frame;
        proof {
            state::lemma_set_thread(self@, t, thread);
        }
        self.set_thread(t, thread);
    }

    /// Write the registers of a thread, which must be suspended.
    pub(crate) fn write_frame(&mut self, t: usize, regs: UserRegisters)
        requires
            old(self)@.wf(),
            t < old(self)@.threads.len(),
        ensures
            final(self)@ == set_frame(
                old(self)@,
                t,
                with_registers(old(self)@.threads[t as int].trapframe.frame, regs),
            ),
            final(self)@.wf(),
    {
        let old_trapframe = self.threads[t].trapframe.frame;
        let frame = Trapframe {
            ra: regs.ra,
            sp: regs.sp,
            gp: regs.gp,
            tp: regs.tp,
            t0: regs.t0,
            t1: regs.t1,
            t2: regs.t2,
            s0: regs.s0,
            s1: regs.s1,
            a0: regs.a0,
            a1: regs.a1,
            a2: regs.a2,
            a3: regs.a3,
            a4: regs.a4,
            a5: regs.a5,
            a6: regs.a6,
            a7: regs.a7,
            s2: regs.s2,
            s3: regs.s3,
            s4: regs.s4,
            s5: regs.s5,
            s6: regs.s6,
            s7: regs.s7,
            s8: regs.s8,
            s9: regs.s9,
            s10: regs.s10,
            s11: regs.s11,
            t3: regs.t3,
            t4: regs.t4,
            t5: regs.t5,
            t6: regs.t6,
            user_epc: regs.pc,
            ..old_trapframe
        };
        self.set_frame(t, frame);
    }
}

impl Thread {
    /// Make a thread: its trapframe, and its stack behind it.
    pub(crate) fn build(
        mem: &mut PhysicalMemory,
        layout: &AddressLayout,
        code: &CodeAddresses,
        tid: u16,
        pgtbl: Option<SharedPageTable>,
        job: usize,
    ) -> (r: Thread)
        requires
            old(mem)@.wf(),
            old(mem)@.available() > STACK_FRAMES,
            mappings::standard_layout(*layout),
        ensures
            final(mem)@ == old(mem)@.grow().grow_by(STACK_FRAMES as int),
            final(mem)@.wf(),
            r == new_thread(old(mem)@.next(), *layout, *code, tid, pgtbl, job),
    {
        let ghost m = mem@;
        assert(m.grow().frames() == m.frames() + 1);
        let trapframe = OwnedTrapframe::new(mem);
        let stack = ThreadKernelStack::new(mem);
        proof {
            assert(m.grow().grow_by(STACK_FRAMES as int).frames() == m.frames() + 1 + STACK_FRAMES);
            mappings::law_direct_map_inverts(*layout, (stack.inner * 4096) as u64);
        }
        let top: u64 = stack.as_phys().into_virt(layout).into_usize() + THREAD_STACK_SIZE;
        Thread {
            trapframe,
            stack,
            private: ThreadProtected {
                root_pgtbl: pgtbl,
                asid: 1,
                trapframe_addr: 0,
                prio: ThreadPriorities { base_prio: 0, inherited_prio: 0, prio_boost: 0 },
                state: ThreadState::Uninit,
                hartid: u64::MAX,
                ipc_buffer: None,
                send_fastpath: None,
                recv_fastpath: false,
            },
            context: Context::starting_at(code.user_trap_ret, top),
            tid: tid as u64,
            job,
            waiting_on: 0,
            slot_refcount: 0,
            blocked_on_wq: None,
            affinity: HartMask(0xFFFF_FFFF_FFFF_FFFF),
        }
    }

    /// Make a thread, and return its number.
    pub fn new(k: &mut Kernel, name: String, pgtbl: Option<SharedPageTable>, job: usize) -> (r:
        usize)
        requires
            old(k)@.wf(),
            job < old(k)@.jobs.len(),
            old(k)@.next_tid != u16::MAX,
            old(k)@.mem.available() > STACK_FRAMES,
        ensures
            final(k)@ == thread_made(old(k)@, name@, pgtbl, job),
            final(k)@.wf(),
            r == old(k)@.threads.len(),
    {
        let ghost st = k@;
        let tid: u16 = k.next_tid;
        k.next_tid = tid + 1;
        let this = Thread::build(&mut k.mem, &k.layout, &k.code, tid, pgtbl, job);
        proof {
            lemma_thread_made(st, name@, pgtbl, job, k@.mem);
        }
        let t: usize = k.threads.len();
        k.threads.push(this);
        k.names.push(name);
        let none: Vec<usize> = Vec::new();
        k.blocking.push(none);
        assert(k@ =~= thread_made(st, name@, pgtbl, job));
        t
    }

    /// Map the trapframe of the thread into its page table, at the first free
    /// page of the upper half of the address space.
    pub fn setup_page_table(k: &mut Kernel, this: usize)
        requires
            old(k)@.wf(),
            this < old(k)@.threads.len(),
            trapframe_mappable(old(k)@, this),
        ensures
            exists|va: u64|
                is_free_addr(
                    old(k)@.mem,
                    old(k)@.threads[this as int].private.root_pgtbl->0.root as int,
                    va,
                ) && #[trigger] trapframe_mapped(old(k)@, this, va) == final(k)@,
            final(k)@.wf(),
    {
        let ghost st = k@;
        assert(k@.thread_wf(this as int));
        let mut thread = k.threads[this];
        let trapframe_phys: PhysicalConst<u8, Identity> =
            thread.trapframe.as_phys().into_const().cast::<u8>().into_identity();
        if let Some(table) = thread.private.root_pgtbl {
            let ghost root = table.root as int;
            proof {
                let free = choose|va: u64| is_free_addr(st.mem, root, va);
                assert(is_free_addr(st.mem, root, free));
                let (i2, i1, i0) = choose|i2: int, i1: int, i0: int| #[trigger]
                    paging::first_free(st.mem, root, i2, i1, i0) && free == virt::canonical(
                        (i2 * 0x4000_0000 + i1 * 0x20_0000 + i0 * 0x1000) as u64,
                    );
                lemma_not_full(st.mem, root, i2, i1, i0);
            }
            if let Some(addr) = table.find_free_trapframe_addr(&k.mem) {
                proof {
                    assert(is_free_addr(st.mem, root, addr@));
                    lemma_free_aligned(st.mem, root, addr@);
                }
                table.map(
                    &mut k.mem,
                    trapframe_phys,
                    addr,
                    PageTableFlags { bits: 199 },
                    PageSize::Base,
                );
                proof {
                    ipc::lemma_set_mem(st, k@.mem);
                }
                thread.private.trapframe_addr = addr.into_usize();
                proof {
                    state::lemma_set_thread(k@, this, thread);
                }
                k.set_thread(this, thread);
                assert(k@ =~= trapframe_mapped(st, this, addr@));
            }
        }
    }
}

/// Where a page is free, not all are in use.
proof fn lemma_not_full(m: Mem, root: int, i2: int, i1: int, i0: int)
    requires
        paging::first_free(m, root, i2, i1, i0),
    ensures
        exists|k: int|
            256 <= k < 512 && !(paging::is_branch(#[trigger] m.at(root, k)) && paging::full_middle(
                m,
                paging::entry_ppn(m.at(root, k)),
            )),
{
    let t = paging::entry_ppn(m.at(root, i2));
    if paging::is_branch(m.at(root, i2)) && paging::full_middle(m, t) {
        assert(paging::is_branch(m.at(t, i1)));
        assert(paging::full_last(m, paging::entry_ppn(m.at(t, i1))));
        assert(paging::flags_valid(
            paging::entry_flags(m.at(paging::entry_ppn(m.at(t, i1)), i0)),
        ));
    }
}

/// Addresses of pages are multiples of their size.
proof fn lemma_free_aligned(m: Mem, root: int, va: u64)
    requires
        is_free_addr(m, root, va),
    ensures
        va % 4096 == 0,
{
    let (i2, i1, i0) = choose|i2: int, i1: int, i0: int| #[trigger]
        paging::first_free(m, root, i2, i1, i0) && va == virt::canonical(
            (i2 * 0x4000_0000 + i1 * 0x20_0000 + i0 * 0x1000) as u64,
        );
    assert(0 <= i0 < 512 && 0 <= i1 < 512);
}

impl SlotRef<ThreadCap> {
    /// The thread in the slot.
    pub open spec fn thread(self) -> usize {
        match self.slot.cap {
            CapabilityKind::Thread(t) => t,
            _ => 0,
        }
    }

    /// The thread in the slot.
    fn thread_number(&self) -> (r: usize)
        ensures
            r == self.thread(),
    {
        match self.slot.cap {
            CapabilityKind::Thread(t) => t,
            _ => 0,
        }
    }

    /// Suspend the thread.
    pub fn suspend(&self, k: &mut Kernel)
        requires
            old(k)@.wf(),
            self.thread() < old(k)@.threads.len(),
        ensures
            final(k)@ == old(k)@.set_state(self.thread(), ThreadState::Suspended),
            final(k)@.wf(),
    {
        let t: usize = self.thread_number();
        assert(k@.thread_wf(t as int));
        proof {
            state::lemma_set_thread(
                k@,
                t,
                k@.set_state(t, ThreadState::Suspended).threads[t as int],
            );
        }
        k.set_state(t, ThreadState::Suspended);
    }

    /// Configure the page table and the buffer of the thread, which must be
    /// suspended or have no page table yet.
    pub fn configure(&self, k: &mut Kernel, pgtbl: SharedPageTable, ipc_buffer: Option<Page>) -> (r:
        CapResult<()>)
        requires
            old(k)@.wf(),
            self.thread() < old(k)@.threads.len(),
            old(k)@.state(self.thread()) is Suspended || old(k)@.state(self.thread()) is Uninit
                ==> page_table_givable(old(k)@, self.thread(), pgtbl, ipc_buffer),
        ensures
            r == if old(k)@.state(self.thread()) is Suspended || old(k)@.state(self.thread())
                is Uninit {
                Ok::<(), CapError>(())
            } else {
                Err::<(), CapError>(CapError::InvalidOperation)
            },
            r is Err ==> final(k)@ == old(k)@,
            r is Ok ==> configured(old(k)@, self.thread(), pgtbl, ipc_buffer, final(k)@),
            final(k)@.wf(),
    {
        let t: usize = self.thread_number();
        assert(k@.thread_wf(t as int));
        let mut thread = k.threads[t];
        if thread.private.state != ThreadState::Suspended && thread.private.state
            != ThreadState::Uninit {
            return Err(CapError::InvalidOperation);
        }
        let ghost st = k@;
        let trampoline: PhysicalConst<u8, Identity> = Physical::from_usize_unchecked(
            k.code.trampoline,
        );
        let to: VirtualConst<u8, Identity> = VirtualConst::from_usize_unchecked(TRAMPOLINE_PAGE);
        pgtbl.map(
            &mut k.mem,
            trampoline,
            to,
            PageTableFlags { bits: 203 },
            PageSize::Base,
        );
        proof {
            ipc::lemma_set_mem(st, k@.mem);
        }
        thread.private.root_pgtbl = Some(pgtbl);
        thread.private.state = ThreadState::Suspended;
        thread.private.ipc_buffer = ipc_buffer;
        proof {
            state::lemma_set_thread(k@, t, thread);
        }
        k.set_thread(t, thread);
        assert(k@ =~= page_table_given(st, t, pgtbl, ipc_buffer));
        Thread::setup_page_table(k, t);
        Ok(())
    }

    /// Let the thread run. It must have a page table.
    pub fn resume(&self, k: &mut Kernel) -> (r: CapResult<()>)
        requires
            old(k)@.wf(),
            self.thread() < old(k)@.threads.len(),
            old(k)@.threads[self.thread() as int].private.root_pgtbl is Some ==> 0 <= old(k)@.level(self.thread()) < 32,
        ensures
            r == if old(k)@.threads[self.thread() as int].private.root_pgtbl is Some {
                Ok::<(), CapError>(())
            } else {
                Err::<(), CapError>(CapError::InvalidOperation)
            },
            r is Err ==> final(k)@ == old(k)@,
            r is Ok ==> final(k)@ == resumed(old(k)@, self.thread()),
            final(k)@.wf(),
    {
        let t: usize = self.thread_number();
        if k.threads[t].private.root_pgtbl.is_none() {
            return Err(CapError::InvalidOperation);
        }
        k.make_runnable(t);
        Ok(())
    }

    /// Write the registers of the thread, which must be suspended, from an
    /// address of its page table.
    pub fn write_registers(&self, k: &mut Kernel, registers: VirtualConst<UserRegisters, Identity>) -> (r:
        CapResult<()>)
        requires
            old(k)@.wf(),
            self.thread() < old(k)@.threads.len(),
            ipc::walkable(old(k)@, self.thread()),
            own_registers(old(k)@, self.thread(), registers@) matches Some(pa) ==> pa % 8 == 0
                && old(k)@.mem.has_bytes(pa as int, 256),
        ensures
            r == if own_registers(old(k)@, self.thread(), registers@) is Some {
                Ok::<(), CapError>(())
            } else {
                Err::<(), CapError>(CapError::InvalidOperation)
            },
            r is Err ==> final(k)@ == old(k)@,
            r is Ok ==> final(k)@ == set_frame(
                old(k)@,
                self.thread(),
                with_registers(
                    old(k)@.threads[self.thread() as int].trapframe.frame,
                    registers_at(
                        old(k)@.mem,
                        own_registers(old(k)@, self.thread(), registers@)->0 as int,
                    ),
                ),
            ),
            final(k)@.wf(),
    {
        let t: usize = self.thread_number();
        let private = k.threads[t].private;
        if private.state != ThreadState::Suspended {
            return Err(CapError::InvalidOperation);
        }
        let table = match private.root_pgtbl {
            Some(table) => table,
            None => {
                return Err(CapError::InvalidOperation);
            },
        };
        match table.walk(&k.mem, registers) {
            Some((addr, flags)) => {
                if !flags.contains(PageTableFlags::USER) {
                    return Err(CapError::InvalidOperation);
                }
                let regs = read_registers(&k.mem, addr.into_usize());
                k.write_frame(t, regs);
                Ok(())
            },
            None => Err(CapError::InvalidOperation),
        }
    }
}

/// Where the registers are that a suspended thread is to be given from its own
/// page table.
pub open spec fn own_registers(st: State, t: usize, va: u64) -> Option<u64> {
    let private = st.threads[t as int].private;
    match private.root_pgtbl {
        Some(table) => match paging::walk_spec(st.mem, table.root as int, va) {
            Some((pa, flags)) => if private.state is Suspended && flags & PageTableFlags::USER
                == PageTableFlags::USER {
                Some(pa)
            } else {
                None
            },
            None => None,
        },
        None => None,
    }
}

/// What configuring a thread does.
pub open spec fn configured(
    st: State,
    t: usize,
    pgtbl: SharedPageTable,
    ipc_buffer: Option<Page>,
    after: State,
) -> bool {
    let given = page_table_given(st, t, pgtbl, ipc_buffer);
    exists|va: u64|
        is_free_addr(given.mem, pgtbl.root as int, va) && #[trigger] trapframe_mapped(given, t, va)
            == after
}

/// After a thread has been let run.
pub open spec fn resumed(st: State, t: usize) -> State {
    let ready = st.set_state(t, ThreadState::Runnable);
    dispatch::enqueued(ready, t, dispatch::hart_for(ready, t))
}

impl Kernel {
    /// Let a thread run.
    pub(crate) fn make_runnable(&mut self, t: usize)
        requires
            old(self)@.wf(),
            t < old(self)@.threads.len(),
            0 <= old(self)@.level(t) < 32,
        ensures
            final(self)@ == resumed(old(self)@, t),
            final(self)@.wf(),
    {
        assert(self@.thread_wf(t as int));
        proof {
            state::lemma_set_thread(
                self@,
                t,
                self@.set_state(t, ThreadState::Runnable).threads[t as int],
            );
        }
        self.set_state(t, ThreadState::Runnable);
        Scheduler::enqueue_dl(self, t, None);
    }
}

/// The page number of an address, of 27 bits.
pub open spec fn page_number(va: u64) -> int {
    (va as int / 4096) % 0x800_0000
}

/// An address that is free for a trapframe is that of a page in the upper half of the
/// address space, and nothing is mapped there.
#[verifier::spinoff_prover]
#[verifier::rlimit(50)]
pub proof fn law_free_addresses_are_unmapped(m: Mem, root: int, va: u64)
    requires
        is_free_addr(m, root, va),
        paging::has_room(m, root, va, PageSize::Base),
    ensures
        va % 4096 == 0,
        va >= 0xFFFF_FFC0_0000_0000,
        paging::walk_spec(m, root, va) is None,
{
    let (i2, i1, i0) = choose|i2: int, i1: int, i0: int| #[trigger]
        paging::first_free(m, root, i2, i1, i0) && va == virt::canonical(
            (i2 * 0x4000_0000 + i1 * 0x20_0000 + i0 * 0x1000) as u64,
        );
    assert(0 <= i0 < 512 && 0 <= i1 < 512);
    let low = (i2 * 0x4000_0000 + i1 * 0x20_0000 + i0 * 0x1000) as u64;
    virt::law_vpns_join_split(i2, i1, i0);
    assert(low / 0x1000 == i2 * 0x4_0000 + i1 * 512 + i0);
    assert(virt::vpn(low, 0) == i0 && virt::vpn(low, 1) == i1 && virt::vpn(low, 2) == i2);
    virt::law_vpns_canonical(low, 0);
    virt::law_vpns_canonical(low, 1);
    virt::law_vpns_canonical(low, 2);
    assert(paging::translate(m, root, va) is None);
}

/// The address space of a thread that has been configured has its trapframe at an address
/// of the upper half that was free, where the kernel may read and write it, and the
/// trampoline on the last page, where the kernel may read and execute it. Userspace may
/// use neither. What was mapped anywhere else still is.
#[verifier::spinoff_prover]
#[verifier::rlimit(50)]
pub proof fn law_configured_space(
    st: State,
    t: usize,
    pgtbl: SharedPageTable,
    ipc_buffer: Option<Page>,
    after: State,
    va: u64,
)
    requires
        st.mem.wf(),
        t < st.threads.len(),
        page_table_givable(st, t, pgtbl, ipc_buffer),
        paging::unshared(st.mem, pgtbl.root as int),
        st.code.trampoline < super::physmem::DIRECT_MAPPED_PAGES * 4096,
        configured(st, t, pgtbl, ipc_buffer, after),
    ensures
        ({
            let root = pgtbl.root as int;
            let frame = after.threads[t as int].private.trapframe_addr;
            &&& frame % 4096 == 0 && frame >= 0xFFFF_FFC0_0000_0000
            &&& paging::walk_spec(st.mem, root, frame) is None
            &&& paging::walk_spec(after.mem, root, frame) == Some(
                ((st.threads[t as int].trapframe.inner * 4096) as u64, 0b1100_0111u8),
            )
            &&& paging::walk_spec(after.mem, root, 0xFFFF_FFFF_FFFF_F000) == Some(
                (st.code.trampoline, 0b1100_1011u8),
            )
            &&& page_number(va) != page_number(frame) && page_number(va) != 0x7FF_FFFF
                ==> paging::walk_spec(after.mem, root, va) == paging::walk_spec(st.mem, root, va)
        }),
{
    reveal(paging::flags_valid);
    reveal(paging::flags_access);
    let root = pgtbl.root as int;
    let given = page_table_given(st, t, pgtbl, ipc_buffer);
    let frame = choose|frame: u64|
        is_free_addr(given.mem, root, frame) && #[trigger] trapframe_mapped(given, t, frame)
            == after;
    law_free_addresses_are_unmapped(given.mem, root, frame);
    let inner = st.threads[t as int].trapframe.inner;
    let from = (inner * 4096) as u64;
    let last = TRAMPOLINE_PAGE;
    lemma_page_numbers(frame, last);
    lemma_page_numbers(frame, va);
    lemma_page_numbers(last, va);
    assert(page_number(last) == 0x7FF_FFFF);
    assert(given.mem.wf()) by {
        paging::law_mapped_at(
            st.mem,
            root,
            virt::vpn(last, 2),
            virt::vpn(last, 1),
            virt::vpn(last, 0),
            paging::map_entry(st.code.trampoline, 203),
            PageSize::Base,
        );
    }
    paging::law_walk_after_map(st.mem, root, st.code.trampoline, last, 203, PageSize::Base, last);
    paging::law_walk_after_map(st.mem, root, st.code.trampoline, last, 203, PageSize::Base, frame);
    paging::law_walk_after_map(st.mem, root, st.code.trampoline, last, 203, PageSize::Base, va);
    paging::law_walk_after_map(given.mem, root, from, frame, 199, PageSize::Base, frame);
    paging::law_walk_after_map(given.mem, root, from, frame, 199, PageSize::Base, last);
    paging::law_walk_after_map(given.mem, root, from, frame, 199, PageSize::Base, va);
}

/// Addresses have the same indices if their page numbers are the same.
proof fn lemma_page_numbers(a: u64, b: u64)
    ensures
        page_number(a) == page_number(b) <==> virt::vpn(a, 2) == virt::vpn(b, 2) && virt::vpn(a, 1)
            == virt::vpn(b, 1) && virt::vpn(a, 0) == virt::vpn(b, 0),
{
    lemma_page_number(a);
    lemma_page_number(b);
}

proof fn lemma_page_number(a: u64)
    ensures
        page_number(a) == virt::vpn(a, 2) * 0x4_0000 + virt::vpn(a, 1) * 512 + virt::vpn(a, 0),
{
    let p = a as int / 4096;
    assert(a as int / 0x20_0000 == p / 512 && a as int / 0x4000_0000 == (p / 512) / 512);
    let q = p / 512;
    let r = q / 512;
    assert(p == 512 * q + p % 512 && q == 512 * r + q % 512);
    assert(r == 512 * (r / 512) + r % 512);
}

/// A thread that has just been made has a frame of its own for its registers, which are all
/// zero, and the 128 frames behind it as its stack. It first leaves the kernel, from the top
/// of that stack; it may run on every hart, and has the priority 0.
pub proof fn law_new_threads(st: State, pgtbl: Option<SharedPageTable>, job: usize, hart: u64)
    requires
        st.mem.wf(),
        st.mem.next() + 129 <= super::physmem::DIRECT_MAPPED_PAGES,
        st.mem.next() * 4096 + 129 * 4096 + st.layout.physical_offset <= u64::MAX,
        hart < 64,
    ensures
        ({
            let thread = fresh_thread(st, pgtbl, job);
            let c = thread.context;
            let f = thread.trapframe.frame;
            &&& thread.trapframe.inner == st.mem.next()
            &&& thread.stack.inner == st.mem.next() + 1
            &&& c.ra == st.code.user_trap_ret
            &&& c.sp == st.layout.physical_offset + (st.mem.next() + 129) * 4096
            &&& c.s0 == 0 && c.s1 == 0 && c.s2 == 0 && c.s3 == 0 && c.s4 == 0 && c.s5 == 0
            &&& c.s6 == 0 && c.s7 == 0 && c.s8 == 0 && c.s9 == 0 && c.s10 == 0 && c.s11 == 0
            &&& f.ra == 0 && f.sp == 0 && f.gp == 0 && f.tp == 0 && f.t0 == 0 && f.t1 == 0
            &&& f.t2 == 0 && f.t3 == 0 && f.t4 == 0 && f.t5 == 0 && f.t6 == 0
            &&& f.a0 == 0 && f.a1 == 0 && f.a2 == 0 && f.a3 == 0 && f.a4 == 0 && f.a5 == 0
            &&& f.a6 == 0 && f.a7 == 0
            &&& f.s0 == 0 && f.s1 == 0 && f.s2 == 0 && f.s3 == 0 && f.s4 == 0 && f.s5 == 0
            &&& f.s6 == 0 && f.s7 == 0 && f.s8 == 0 && f.s9 == 0 && f.s10 == 0 && f.s11 == 0
            &&& f.user_epc == 0
            &&& thread.affinity.0 & (1u64 << hart) != 0
            &&& thread.private.prio.level() == 0
            &&& thread.private.root_pgtbl == pgtbl
            &&& thread.private.asid == 1
            &&& thread.private.hartid == u64::MAX
            &&& thread.private.state is Uninit
            &&& thread.private.ipc_buffer is None && thread.blocked_on_wq is None
            &&& thread.job == job && thread.tid == st.next_tid && thread.slot_refcount == 0
        }),
{
    assert(0xFFFF_FFFF_FFFF_FFFFu64 & (1u64 << hart) != 0) by (bit_vector)
        requires
            hart < 64,
    ;
}

} // verus!
