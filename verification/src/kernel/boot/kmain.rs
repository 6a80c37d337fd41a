//! Bringing the kernel up once paging is on: its objects, the threads that do
//! nothing, the other harts, and the initial process.

use std::collections::BTreeMap;

use vstd::prelude::*;

use super::devicetree;
use super::early::HartBootData;
use super::harts;
use super::harts::{HartInfo, HART_STACK_SIZE};
use super::heap;
use super::idle;
use super::idle::IDLE_FRAMES;
use super::process;
use super::process::{Loaded, CAPTBL_SLOTS, TRAMPOLINE_FLAGS};
use super::runs;
use super::tree;
use crate::addr::mappings;
use crate::addr::mappings::{AddressLayout, DirectMapped, Mapping};
use crate::addr::virt;
use crate::addr::{Identity, Physical, PhysicalMut, VirtualConst};
use crate::kernel::capability::captbl::Captbl;
use crate::kernel::capability::thread::Thread;
use crate::kernel::capability::{
    global_interrupt_pool, CapabilityKind, CapabilitySlotInner, InterruptPool,
};
use crate::kernel::paging;
use crate::kernel::paging::{PageTable, PageTableFlags, RawSatp, SharedPageTable};
use crate::kernel::physmem::{Mem, PhysicalMemory, DIRECT_MAPPED_PAGES};
use crate::kernel::hart_local::HartCtx;
use crate::kernel::kalloc::growth;
use crate::kernel::kalloc::phys;
use crate::kernel::kalloc::linked_list::{Heap, LinkedListAlloc};
use crate::kernel::plic::Plic;
use crate::kernel::registers::{
    ControlRegisters, Hart, InterruptDisabler, SIE_SEIE, SIE_SSIE, SIE_STIE,
};
use crate::kernel::sched::{Sched, Scheduler, SchedulerInner};
use crate::kernel::state::{CodeAddresses, Job, JobView, Kernel, State};
use crate::kernel::threads;
use crate::kernel::threads::STACK_FRAMES;
use crate::kernel::trampoline::TRAMPOLINE_PAGE;
use crate::kernel::trap::interrupts::{next_deadline, Irqs};
use crate::kernel::trap::syscalls::JOB_SLOTS_LOG2;

verus! {

/// Memory once the kernel's page table has room for the heap and maps the
/// trampoline.
pub open spec fn table_prepared(m: Mem, root: int, trampoline: u64) -> Mem {
    runs::run_mapped(
        heap::reserved(m, root, 64),
        root,
        trampoline,
        TRAMPOLINE_PAGE,
        TRAMPOLINE_FLAGS,
        1,
    )
}

/// Whether the kernel's page table can be prepared: nothing is mapped yet where
/// the trampoline goes, and there is memory for the tables that are missing there.
pub open spec fn preparable(m: Mem, root: int, trampoline: u64) -> bool {
    &&& m.wf()
    &&& paging::tree_wf(m, root)
    &&& paging::unshared(m, root)
    &&& m.available() >= paging::missing(m, root, TRAMPOLINE_PAGE)
    &&& paging::translate(m, root, TRAMPOLINE_PAGE) is None
    &&& trampoline % 4096 == 0
    &&& trampoline < DIRECT_MAPPED_PAGES * 4096
}

/// Set the part of the address space aside that the heap grows into, and map
/// the trampoline.
pub fn prepare_table(mem: &mut PhysicalMemory, pgtbl: PageTable, trampoline: u64)
    requires
        preparable(old(mem)@, pgtbl.root as int, trampoline),
    ensures
        final(mem)@ == table_prepared(old(mem)@, pgtbl.root as int, trampoline),
        final(mem)@.wf(),
        paging::tree_wf(final(mem)@, pgtbl.root as int),
        paging::unshared(final(mem)@, pgtbl.root as int),
        final(mem)@.available() >= old(mem)@.available() - paging::missing(
            old(mem)@,
            pgtbl.root as int,
            TRAMPOLINE_PAGE,
        ),
{
    let ghost m = mem@;
    let ghost root = pgtbl.root as int;
    heap::reserve_heap(mem, pgtbl);
    proof {
        heap::law_heap_is_unmapped(m, root, 64, TRAMPOLINE_PAGE);
        process::lemma_flags();
        assert(virt::vpn(TRAMPOLINE_PAGE, 2) == 511);
        runs::lemma_one_missing(mem@, root, TRAMPOLINE_PAGE);
        assert(runs::nth(TRAMPOLINE_PAGE, 0) == TRAMPOLINE_PAGE);
        assert forall|i: int| 0 <= i < 1 implies paging::translate(
            mem@,
            root,
            #[trigger] runs::nth(TRAMPOLINE_PAGE, i),
        ) is None by {}
    }
    runs::map_run(
        mem,
        pgtbl,
        trampoline,
        TRAMPOLINE_PAGE,
        PageTableFlags { bits: TRAMPOLINE_FLAGS },
        1,
    );
}

/// The heap can grow into what was set aside for it, as far as there is memory:
/// nothing is mapped there once the page table has been prepared.
#[verifier::spinoff_prover]
#[verifier::rlimit(40)]
pub proof fn law_heap_can_grow(m: Mem, root: int, trampoline: u64, n: int)
    requires
        preparable(m, root, trampoline),
        0 <= 4096 * n <= heap::KHEAP_VMEM_SIZE,
        table_prepared(m, root, trampoline).available() >= n + runs::tables_missing(
            table_prepared(m, root, trampoline),
            root,
            heap::KHEAP_VMEM_OFFSET,
            n,
        ),
    ensures
        growth::growable(
            table_prepared(m, root, trampoline),
            root,
            heap::KHEAP_VMEM_OFFSET,
            n,
        ),
{
    let after = table_prepared(m, root, trampoline);
    lemma_prepared(m, root, trampoline, 0);
    assert forall|i: int| 0 <= i < n implies paging::translate(
        after,
        root,
        #[trigger] runs::nth(heap::KHEAP_VMEM_OFFSET, i),
    ) is None by {
        let va = runs::nth(heap::KHEAP_VMEM_OFFSET, i);
        assert(384 <= virt::vpn(va, 2) < 448);
        lemma_prepared(m, root, trampoline, va);
    }
}

/// Once the page table has been prepared it is still one, and nothing is mapped where
/// the heap goes.
#[verifier::spinoff_prover]
#[verifier::rlimit(40)]
proof fn lemma_prepared(m: Mem, root: int, trampoline: u64, va: u64)
    requires
        preparable(m, root, trampoline),
    ensures
        table_prepared(m, root, trampoline).wf(),
        paging::tree_wf(table_prepared(m, root, trampoline), root),
        paging::unshared(table_prepared(m, root, trampoline), root),
        384 <= virt::vpn(va, 2) < 448 ==> paging::translate(
            table_prepared(m, root, trampoline),
            root,
            va,
        ) is None,
{
    let reserved = heap::reserved(m, root, 64);
    heap::law_heap_is_unmapped(m, root, 64, TRAMPOLINE_PAGE);
    process::lemma_flags();
    assert(virt::vpn(TRAMPOLINE_PAGE, 2) == 511);
    runs::lemma_one_missing(reserved, root, TRAMPOLINE_PAGE);
    assert(runs::nth(TRAMPOLINE_PAGE, 0) == TRAMPOLINE_PAGE);
    assert forall|i: int| 0 <= i < 1 implies paging::translate(
        reserved,
        root,
        #[trigger] runs::nth(TRAMPOLINE_PAGE, i),
    ) is None by {}
    runs::law_run_walk(reserved, root, trampoline, TRAMPOLINE_PAGE, TRAMPOLINE_FLAGS, 1, va);
    if 384 <= virt::vpn(va, 2) < 448 {
        heap::law_heap_is_unmapped(m, root, 64, va);
        assert(runs::page(va) != runs::page(TRAMPOLINE_PAGE)) by {
            reveal(runs::page);
        }
        assert(paging::walk_spec(reserved, root, va) is None);
        assert(paging::walk_spec(table_prepared(m, root, trampoline), root, va) is None);
    }
}

/// A job without capabilities that was not made in another one.
pub open spec fn empty_job() -> JobView {
    JobView {
        slots: Seq::new(
            CAPTBL_SLOTS as nat,
            |i: int| CapabilitySlotInner::holding(CapabilityKind::Empty),
        ),
        parent: None,
        depth: 1,
    }
}

/// Make a job without capabilities.
fn new_job() -> (r: Job)
    ensures
        r@ == empty_job(),
{
    let captbl = Captbl::new(JOB_SLOTS_LOG2);
    proof {
        vstd::arithmetic::power2::lemma2_to64();
        assert(captbl@ =~= empty_job().slots);
    }
    Job { captbl, parent: None, depth: 1 }
}

/// Whether the thread `i` is the idle thread that was made as the `i`th.
pub open spec fn is_idle(
    threads: Seq<Thread>,
    mem: Mem,
    layout: AddressLayout,
    code: CodeAddresses,
    i: int,
) -> bool {
    let page = threads[i].trapframe.inner - 2;
    &&& threads[i] == idle::idle_thread(page, layout, code, (i + 2) as u16, (i + 1) as usize)
    &&& idle::idle_space(mem, page, code.trampoline)
}

/// The idle thread of each of the first `n` of the given harts. They are made in
/// order; of a hart that is listed again, the last one counts.
pub open spec fn idle_threads(order: Seq<u64>, n: int) -> Map<u64, usize>
    decreases n,
{
    if n <= 0 {
        Map::empty()
    } else {
        idle_threads(order, n - 1).insert(order[n - 1], (n - 1) as usize)
    }
}

/// Every hart that is listed has an idle thread, and it is one that was made for
/// that hart.
pub proof fn law_idle_threads(order: Seq<u64>, n: int)
    requires
        0 <= n <= order.len() <= usize::MAX,
    ensures
        forall|i: int|
            0 <= i < n ==> idle_threads(order, n).dom().contains(#[trigger] order[i]),
        forall|h: u64| #[trigger]
            idle_threads(order, n).dom().contains(h) ==> idle_threads(order, n)[h] < n
                && order[idle_threads(order, n)[h] as int] == h,
    decreases n,
{
    if n > 0 {
        law_idle_threads(order, n - 1);
        let before = idle_threads(order, n - 1);
        let after = idle_threads(order, n);
        assert forall|h: u64| #[trigger] after.dom().contains(h) implies after[h] < n
            && order[after[h] as int] == h by {
            if h != order[n - 1] {
                assert(before.dom().contains(h));
            }
        }
    }
}

/// The run queues of a hart that has nothing to run.
pub open spec fn no_threads() -> Seq<Seq<usize>> {
    Seq::new(32, |p: int| Seq::<usize>::empty())
}

/// The run queues of the given harts when they have nothing to run, on a machine
/// with `count` harts.
pub open spec fn no_work(order: Seq<u64>, count: u64) -> Sched {
    let idle = idle_threads(order, order.len() as int);
    Sched { queues: idle.map_values(|t: usize| no_threads()), idle, count, bitmap: 0 }
}

/// Whether a kernel has just been made, with memory that held `before`: there
/// is an idle thread for each of the given harts, each in a job of its own; the
/// root job is there, and the pool of all interrupts; and there is nothing else.
pub open spec fn fresh_kernel(
    st: State,
    before: Mem,
    layout: AddressLayout,
    code: CodeAddresses,
    order: Seq<u64>,
    count: u64,
    hart: u64,
) -> bool {
    let n = order.len();
    &&& st.threads.len() == n
    &&& forall|i: int| 0 <= i < n ==> #[trigger] is_idle(st.threads, st.mem, layout, code, i)
    &&& st.names == Seq::new(n, |i: int| "<kernel:idle>"@)
    &&& st.blocking == Seq::new(n, |i: int| Seq::<usize>::empty())
    &&& st.queues.len() == 0
    &&& st.notifications.len() == 0
    &&& st.endpoints.len() == 0
    &&& st.handlers.len() == 0
    &&& st.pools == seq![Map::<u16, usize>::empty()]
    &&& st.jobs == Seq::new(n + 1, |j: int| empty_job())
    &&& idle::extends(before, st.mem)
    &&& st.sched == no_work(order, count)
    &&& st.hart == hart
    &&& st.layout == layout
    &&& st.code == code
    &&& st.next_tid == 1
    &&& st.current_asid == Map::<u64, u16>::empty()
}

/// The kernel as it was just made is well-formed.
proof fn lemma_fresh_wf(
    st: State,
    before: Mem,
    layout: AddressLayout,
    code: CodeAddresses,
    order: Seq<u64>,
    count: u64,
    hart: u64,
)
    requires
        fresh_kernel(st, before, layout, code, order, count, hart),
        forall|i: int| 0 <= i < order.len() ==> (#[trigger] order[i]) < 64,
        order.len() <= 64,
        order.contains(hart),
        count <= 64,
        mappings::standard_layout(layout),
    ensures
        st.wf(),
{
    let n = order.len() as int;
    law_idle_threads(order, n);
    assert(st.sched.queues.dom() =~= st.sched.idle.dom());
    assert forall|h: u64| #[trigger] st.sched.queues.dom().contains(h) implies h < 64
        && st.sched.queues[h].len() == 32 by {
        assert(order[st.sched.idle[h] as int] == h);
    }
    assert forall|h: u64| h < 64 && #[trigger] st.sched.is_idle(h) implies st.sched.has(h) by {
        assert(0u64 & (1u64 << h) == 0) by (bit_vector);
    }
    assert(st.sched.wf());
    assert forall|t: int| 0 <= t < st.threads.len() implies #[trigger] st.thread_wf(t) by {
        assert(is_idle(st.threads, st.mem, layout, code, t));
    }
    assert forall|h: u64, p: int, i: int|
        st.sched.has(h) && 0 <= p < 32 && 0 <= i < st.sched.queues[h][p].len() implies (
    #[trigger] st.sched.queues[h][p][i]) < n by {}
    assert forall|j: int| 0 <= j < st.jobs.len() implies #[trigger] st.job_wf(j) by {
        assert(st.jobs[j] == empty_job());
    }
}

/// Make a kernel for the given harts, each of which has an idle thread, on a
/// machine with `count` harts.
#[verifier::loop_isolation(false)]
pub fn new_kernel(
    mem: PhysicalMemory,
    layout: AddressLayout,
    code: CodeAddresses,
    order: &Vec<u64>,
    count: u64,
    hart: u64,
) -> (r: Kernel)
    requires
        mem@.wf(),
        mem@.available() >= IDLE_FRAMES * order@.len(),
        forall|i: int| 0 <= i < order@.len() ==> (#[trigger] order@[i]) < 64,
        order@.len() <= 64,
        order@.contains(hart),
        count <= 64,
        mappings::standard_layout(layout),
        code.trampoline % 4096 == 0,
        code.trampoline < DIRECT_MAPPED_PAGES * 4096,
    ensures
        fresh_kernel(r@, mem@, layout, code, order@, count, hart),
        r@.mem.available() >= mem@.available() - IDLE_FRAMES * order@.len(),
        r@.wf(),
{
    let ghost m0 = mem@;
    let mut mem = mem;
    let mut threads: Vec<Thread> = Vec::new();
    let mut names: Vec<String> = Vec::new();
    let mut blocking: Vec<Vec<usize>> = Vec::new();
    let mut jobs: Vec<Job> = Vec::new();
    let mut per_hart: BTreeMap<u64, SchedulerInner> = BTreeMap::new();
    jobs.push(new_job());
    let mut h: usize = 0;
    assert(idle::extends(m0, m0));
    while h < order.len()
        invariant
            h <= order@.len() <= 64,
            idle::extends(m0, mem@),
            mem@.available() >= m0.available() - IDLE_FRAMES * h,
            threads@.len() == h,
            forall|i: int| 0 <= i < h ==> #[trigger] is_idle(threads@, mem@, layout, code, i),
            names@.len() == h,
            forall|i: int| 0 <= i < h ==> (#[trigger] names@[i])@ == "<kernel:idle>"@,
            blocking@.len() == h,
            forall|i: int| 0 <= i < h ==> (#[trigger] blocking@[i])@ == Seq::<usize>::empty(),
            jobs@.len() == h + 1,
            forall|i: int| 0 <= i <= h ==> (#[trigger] jobs@[i])@ == empty_job(),
            per_hart@.dom() == idle_threads(order@, h as int).dom(),
            forall|id: u64| #[trigger]
                per_hart@.dom().contains(id) ==> per_hart@[id]@ == no_threads()
                    && per_hart@[id].idle_thread == idle_threads(order@, h as int)[id],
        decreases order@.len() - h,
    {
        let ghost before = mem@;
        let ghost earlier = threads@;
        let thread = idle::make_idle(&mut mem, &layout, &code, h as u16 + 2, h + 1);
        threads.push(thread);
        names.push("<kernel:idle>".to_owned());
        blocking.push(Vec::new());
        jobs.push(new_job());
        let inner = SchedulerInner::new(h);
        assert(inner@ =~= no_threads());
        let _ = per_hart.insert(order[h], inner);
        proof {
            idle::lemma_extends(m0, before, mem@);
            assert forall|i: int| 0 <= i < h implies #[trigger] is_idle(
                threads@,
                mem@,
                layout,
                code,
                i,
            ) by {
                assert(is_idle(earlier, before, layout, code, i));
                idle::law_idle_space_stays(
                    before,
                    mem@,
                    earlier[i].trapframe.inner - 2,
                    code.trampoline,
                );
            }
            assert(is_idle(threads@, mem@, layout, code, h as int));
            assert(per_hart@.dom() =~= idle_threads(order@, h + 1).dom());
        }
        h += 1;
    }
    let mut pools: Vec<InterruptPool> = Vec::new();
    pools.push(global_interrupt_pool());
    let kernel = Kernel {
        threads,
        names,
        blocking,
        queues: Vec::new(),
        notifications: Vec::new(),
        endpoints: Vec::new(),
        handlers: Vec::new(),
        pools,
        jobs,
        mem,
        sched: Scheduler::init(per_hart, count),
        hart,
        layout,
        code,
        next_tid: 1,
        current_asid: BTreeMap::new(),
    };
    proof {
        let st = kernel@;
        let n = order@.len();
        assert(st.names =~= Seq::new(n, |i: int| "<kernel:idle>"@));
        assert(st.blocking =~= Seq::new(n, |i: int| Seq::<usize>::empty()));
        assert(st.pools =~= seq![Map::<u16, usize>::empty()]);
        assert(st.jobs =~= Seq::new(n + 1, |j: int| empty_job()));
        assert(st.sched.queues =~= no_work(order@, count).queues);
        assert(st.sched.idle =~= no_work(order@, count).idle);
        lemma_fresh_wf(st, m0, layout, code, order@, count, hart);
    }
    kernel
}

/// What another hart is started with.
pub struct HartStart {
    pub id: u64,
    pub data: HartBootData,
}

/// Whether a hart is started with a stack that begins at the page number `page`.
pub open spec fn starts_with(
    start: HartStart,
    id: u64,
    page: int,
    satp: RawSatp,
    fdt_ptr: u64,
) -> bool {
    &&& start.id == id
    &&& start.data.raw_satp == satp
    &&& start.data.sp_phys@ == page * 4096 + HART_STACK_SIZE
    &&& start.data.fdt_ptr_virt@ == fdt_ptr
}

/// What each of the given harts is started with: the page table of this one, a
/// new stack, and the device tree.
fn start_harts(
    mem: &mut PhysicalMemory,
    ids: &Vec<u64>,
    satp: RawSatp,
    fdt_ptr: VirtualConst<u8, DirectMapped>,
) -> (r: Vec<HartStart>)
    requires
        old(mem)@.wf(),
        old(mem)@.available() >= 1024 * ids@.len(),
    ensures
        final(mem)@ == old(mem)@.grow_by(1024 * ids@.len() as int),
        final(mem)@.wf(),
        r@.len() == ids@.len(),
        forall|i: int|
            0 <= i < r@.len() ==> #[trigger] starts_with(
                r@[i],
                ids@[i],
                old(mem)@.next() + 1024 * i,
                satp,
                fdt_ptr@,
            ),
{
    let ghost m0 = mem@;
    let mut starts: Vec<HartStart> = Vec::new();
    let mut i: usize = 0;
    assert(m0.grow_by(0) =~= m0);
    while i < ids.len()
        invariant
            i <= ids@.len(),
            m0.wf(),
            m0.available() >= 1024 * ids@.len(),
            mem@ == m0.grow_by(1024 * i),
            mem@.wf(),
            mem@.next() == m0.next() + 1024 * i,
            mem@.available() == m0.available() - 1024 * i,
            starts@.len() == i,
            forall|j: int|
                0 <= j < i ==> #[trigger] starts_with(
                    starts@[j],
                    ids@[j],
                    m0.next() + 1024 * j,
                    satp,
                    fdt_ptr@,
                ),
        decreases ids@.len() - i,
    {
        let data = harts::hart_boot_data(mem, satp, fdt_ptr);
        proof {
            assert(m0.grow_by(1024 * i).grow_by(1024) =~= m0.grow_by(1024 * (i + 1)));
            assert(mem@.frames() == m0.frames() + 1024 * (i + 1));
        }
        starts.push(HartStart { id: ids[i], data });
        i += 1;
    }
    starts
}

/// What the boot hart has once everything is there.
pub struct Booted {
    pub kernel: Kernel,
    /// The number of the initial thread.
    pub init: usize,
    /// How many ticks the time register of the boot hart makes in a second.
    pub timebase_frequency: u64,
    /// How many ticks there are between two of its timer interrupts.
    pub timer_interval: u64,
    /// What the other harts are to be started with.
    pub starts: Vec<HartStart>,
}

/// What the machine is, and where its parts are.
pub struct Machine<'a> {
    pub layout: AddressLayout,
    pub code: CodeAddresses,
    pub harts: &'a Vec<HartInfo>,
    /// The number of the boot hart.
    pub boot: u64,
    pub satp: RawSatp,
    /// Where the device tree is.
    pub fdt_ptr: VirtualConst<u8, DirectMapped>,
    /// The device tree itself.
    pub fdt: &'a [u8],
    /// The physical address of the serial port.
    pub uart: u64,
}

impl<'a> Machine<'a> {
    /// Whether the boot hart is in the device tree, a mask of 64 bits has room for
    /// the harts, and the code of the kernel is where it can be.
    pub open spec fn wf(self) -> bool {
        &&& harts::hart_of(self.harts@, self.boot, 0) is Some
        &&& harts::maskable(self.harts@)
        &&& mappings::standard_layout(self.layout)
        &&& self.code.trampoline % 4096 == 0
        &&& self.code.trampoline < DIRECT_MAPPED_PAGES * 4096
    }

    /// The harts that the boot hart starts.
    pub open spec fn others(self) -> Seq<u64> {
        harts::others(self.harts@, self.boot, self.harts@.len() as int)
    }

    /// The harts in the order in which their idle threads are made.
    pub open spec fn order(self) -> Seq<u64> {
        harts::boot_order(self.harts@, self.boot)
    }

    /// Memory once the kernel's page table is complete and the other harts have
    /// their stacks.
    pub open spec fn prepared(self, m: Mem, root: int) -> Mem {
        table_prepared(m, root, self.code.trampoline).grow_by(1024 * self.others().len() as int)
    }

    /// How many frames are taken until the initial process can run.
    pub open spec fn frames(self, m: Mem, root: int, init: Seq<u8>) -> int {
        frames(m, root, self.harts@, self.boot, init.len() as int, self.fdt@.len() as int)
    }
}

/// How many frames are taken until the initial process can run, on a machine with
/// the given harts: for the tables on the way to the trampoline, the stacks of the
/// other harts, the idle threads, and the initial process.
pub open spec fn frames(
    m: Mem,
    root: int,
    harts: Seq<HartInfo>,
    boot: u64,
    init_len: int,
    fdt_len: int,
) -> int {
    paging::missing(m, root, TRAMPOLINE_PAGE) + 1024 * harts::others(
        harts,
        boot,
        harts.len() as int,
    ).len() + IDLE_FRAMES * harts::boot_order(harts, boot).len() + process::init_frames(
        process::init_pages(init_len),
        process::pages_of(fdt_len),
    )
}

/// The initial process runs on a kernel that has just been made.
pub open spec fn init_runs(st: State, fresh: State, machine: Machine, init: Seq<u8>) -> bool {
    let at = Loaded::of(fresh.mem, init, machine.fdt@);
    let t = fresh.threads.len() as usize;
    let root = fresh.mem.next() + at.frames();
    &&& st == State {
        next_tid: (machine.order().len() + 2) as u16,
        ..threads::resumed(
            process::init_made(fresh, "user_mode_woo"@, at, 0, 0, machine.uart, st.mem),
            t,
        )
    }
    &&& process::given(fresh.mem, st.mem, at, init, machine.fdt@)
    &&& process::address_space(st.mem, root, at, machine.code.trampoline, root + 1)
}

/// Whether the initial process runs on a kernel that has been made with memory
/// that held `before`.
pub open spec fn booted(st: State, before: Mem, machine: Machine, init: Seq<u8>) -> bool {
    exists|fresh: State| #[trigger]
        init_runs(st, fresh, machine, init) && fresh_kernel(
            fresh,
            before,
            machine.layout,
            machine.code,
            machine.order(),
            machine.harts@.len() as u64,
            machine.boot,
        )
}

/// Whether a hart has run queues, and an idle thread that was made for it.
pub open spec fn has_idle(st: State, machine: Machine, id: u64) -> bool {
    let t = st.sched.idle[id] as int;
    &&& st.sched.has(id)
    &&& 0 <= t < machine.order().len()
    &&& machine.order()[t] == id
    &&& is_idle(st.threads, st.mem, machine.layout, machine.code, t)
}

/// What a machine has once the kernel is up on it, with memory that held `m` and
/// the page table `root` before: the other harts have what they start with, every
/// hart has an idle thread, and the initial process runs.
pub open spec fn brought_up(
    machine: Machine,
    m: Mem,
    root: int,
    init: Seq<u8>,
    r: Booted,
) -> bool {
    &&& r.init == machine.order().len()
    &&& r.timebase_frequency == (harts::hart_of(
        machine.harts@,
        machine.boot,
        0,
    )->0).timebase_frequency
    &&& r.timer_interval == r.timebase_frequency / 10
    &&& r.starts@.len() == machine.others().len()
    &&& forall|i: int|
        0 <= i < r.starts@.len() ==> #[trigger] starts_with(
            r.starts@[i],
            machine.others()[i],
            table_prepared(m, root, machine.code.trampoline).next() + 1024 * i,
            machine.satp,
            machine.fdt_ptr@,
        )
    &&& booted(r.kernel@, machine.prepared(m, root), machine, init)
    &&& forall|i: int|
        0 <= i < machine.harts@.len() ==> has_idle(
            r.kernel@,
            machine,
            (#[trigger] machine.harts@[i]).id,
        )
    &&& r.kernel@.sound()
}

/// The kernel is sound once the initial process runs: nobody waits, and the page
/// tables of the idle threads and of the initial process are trees.
#[verifier::spinoff_prover]
#[verifier::rlimit(60)]
proof fn lemma_booted_sound(st: State, fresh: State, machine: Machine, before: Mem, init: Seq<u8>)
    requires
        st.wf(),
        init_runs(st, fresh, machine, init),
        fresh_kernel(
            fresh,
            before,
            machine.layout,
            machine.code,
            machine.order(),
            machine.harts@.len() as u64,
            machine.boot,
        ),
        forall|i: int|
            0 <= i < fresh.threads.len() ==> #[trigger] is_idle(
                st.threads,
                st.mem,
                machine.layout,
                machine.code,
                i,
            ),
        fresh.mem.wf(),
        Loaded::of(fresh.mem, init, machine.fdt@).frames() <= fresh.mem.available(),
    ensures
        st.sound(),
{
    let n = fresh.threads.len() as int;
    let at = Loaded::of(fresh.mem, init, machine.fdt@);
    let root = fresh.mem.next() + at.frames();
    assert(st.threads.len() == n + 1);
    assert forall|t: int| 0 <= t < st.threads.len() implies #[trigger] st.tame(t)
        && st.threads[t].blocked_on_wq is None && (st.threads[t].private.root_pgtbl matches Some(
        table,
    ) ==> st.is_tree(table.root as int)) by {
        if t < n {
            assert(is_idle(st.threads, st.mem, machine.layout, machine.code, t));
        } else {
            assert(st.threads[t].private.root_pgtbl == Some(
                SharedPageTable { root: root as u64 },
            ));
        }
    }
    assert forall|t: int| 0 <= t < st.threads.len() implies #[trigger] st.waits(t) by {
        assert(st.tame(t));
    }
    assert forall|t: int| 0 <= t < st.threads.len() implies ((
    #[trigger] st.threads[t]).private.root_pgtbl matches Some(table) ==> st.is_tree(
        table.root as int,
    )) by {
        assert(st.tame(t));
    }
    assert forall|j: int, i: int|
        0 <= j < st.jobs.len() && 0 <= i < st.jobs[j].slots.len() implies st.slot_sound(
        (#[trigger] st.jobs[j].slots[i]).cap,
    ) by {
        if j > 0 {
            assert(st.jobs[j] == fresh.jobs[j]);
            assert(fresh.jobs[j] == empty_job());
        }
    }
}

/// Bring the kernel up on a machine: complete its page table, make its objects,
/// see to what the other harts start with, and start the initial process, in which
/// all others are made.
pub fn bring_up(mem: PhysicalMemory, pgtbl: PageTable, machine: &Machine, init: &[u8]) -> (r:
    Booted)
    requires
        machine.wf(),
        preparable(mem@, pgtbl.root as int, machine.code.trampoline),
        mem@.available() >= machine.frames(mem@, pgtbl.root as int, init@),
        process::init_pages(init@.len() as int) + process::pages_of(machine.fdt@.len() as int) + 8
            <= CAPTBL_SLOTS,
    ensures
        brought_up(*machine, mem@, pgtbl.root as int, init@, r),
{
    let timebase_frequency: u64 = match harts::find_hart(machine.harts, machine.boot) {
        Some(hart) => hart.timebase_frequency,
        None => 0,
    };
    let ghost m0 = mem@;
    let mut mem = mem;
    proof {
        phys::law_frames_for(process::init_pages(init@.len() as int));
        phys::law_frames_for(process::pages_of(machine.fdt@.len() as int));
    }
    prepare_table(&mut mem, pgtbl, machine.code.trampoline);
    let ids = harts::other_harts(machine.harts, machine.boot);
    let starts = start_harts(&mut mem, &ids, machine.satp, machine.fdt_ptr);
    let order = harts::harts_in_order(machine.harts, machine.boot);
    proof {
        harts::law_boot_order(machine.harts@, machine.boot);
    }
    let n: usize = order.len();
    let count: u64 = machine.harts.len() as u64;
    let mut kernel = new_kernel(mem, machine.layout, machine.code, &order, count, machine.boot);
    let ghost fresh = kernel@;
    let t: usize = process::start_init(
        &mut kernel,
        "user_mode_woo".to_owned(),
        0,
        0,
        init,
        machine.fdt,
        machine.uart,
    );
    let ghost st = kernel@;
    // The idle threads got their numbers while the initial thread had the first.
    kernel.next_tid = n as u16 + 2;
    proof {
        assert(init_runs(kernel@, fresh, *machine, init@));
        assert(fresh_kernel(
            fresh,
            machine.prepared(m0, pgtbl.root as int),
            machine.layout,
            machine.code,
            machine.order(),
            machine.harts@.len() as u64,
            machine.boot,
        ));
        assert(booted(kernel@, machine.prepared(m0, pgtbl.root as int), *machine, init@));
        lemma_next_tid(st, kernel@);
        law_idle_threads(order@, n as int);
        assert forall|i: int| 0 <= i < fresh.threads.len() implies #[trigger] is_idle(
            kernel@.threads,
            kernel@.mem,
            machine.layout,
            machine.code,
            i,
        ) by {
            assert(is_idle(fresh.threads, fresh.mem, machine.layout, machine.code, i));
            idle::law_idle_space_stays(
                fresh.mem,
                kernel@.mem,
                fresh.threads[i].trapframe.inner - 2,
                machine.code.trampoline,
            );
        }
        lemma_booted_sound(
            kernel@,
            fresh,
            *machine,
            machine.prepared(m0, pgtbl.root as int),
            init@,
        );
        assert forall|i: int| 0 <= i < machine.harts@.len() implies has_idle(
            kernel@,
            *machine,
            (#[trigger] machine.harts@[i]).id,
        ) by {
            let id = machine.harts@[i].id;
            assert(order@.contains(id));
            let j = choose|j: int| 0 <= j < order@.len() && order@[j] == id;
            assert(fresh.sched.idle.dom().contains(order@[j]));
            let h = fresh.sched.idle[id] as int;
            assert(is_idle(kernel@.threads, kernel@.mem, machine.layout, machine.code, h));
        }
    }
    Booted {
        kernel,
        init: t,
        timebase_frequency,
        timer_interval: harts::timer_interval(timebase_frequency),
        starts,
    }
}

/// What is known of a machine without its device tree.
pub struct Platform {
    pub layout: AddressLayout,
    pub code: CodeAddresses,
    /// The number of the boot hart.
    pub boot: u64,
    pub satp: RawSatp,
    /// Where the device tree is.
    pub fdt_ptr: VirtualConst<u8, DirectMapped>,
}

impl Platform {
    /// Whether the code of the kernel is where it can be.
    pub open spec fn wf(self) -> bool {
        &&& mappings::standard_layout(self.layout)
        &&& self.code.trampoline % 4096 == 0
        &&& self.code.trampoline < DIRECT_MAPPED_PAGES * 4096
    }
}

/// The name of the kind of interrupt controller that is supported.
pub open spec fn plic_name() -> Seq<char> {
    "riscv,plic0"@
}

/// Whether a machine is the one that a device tree describes.
pub open spec fn described(machine: Machine, platform: Platform, data: Seq<u8>) -> bool {
    &&& machine.layout == platform.layout
    &&& machine.code == platform.code
    &&& machine.harts@ == devicetree::harts_of(devicetree::fdt_harts(data))
    &&& machine.boot == platform.boot
    &&& machine.satp == platform.satp
    &&& machine.fdt_ptr == platform.fdt_ptr
    &&& machine.fdt@ == data
    &&& Some(machine.uart) == devicetree::fdt_stdout_address(data)
}

/// Whether the kernel can be brought up on what a device tree describes: the tree
/// can be read; the serial port has registers and an interrupt; there is an
/// interrupt controller, on pages that are direct-mapped; the boot hart is in the
/// tree, and a mask of 64 bits has room for the harts; and there is enough memory,
/// and enough slots, for `init_len` bytes of the initial process.
pub open spec fn can_start(
    platform: Platform,
    data: Seq<u8>,
    m: Mem,
    root: int,
    init_len: int,
) -> bool {
    let harts = devicetree::harts_of(devicetree::fdt_harts(data));
    &&& tree::tree_wf(data)
    &&& devicetree::fdt_stdout_address(data) is Some
    &&& devicetree::fdt_stdout_interrupt(data) is Some
    &&& devicetree::fdt_compatible_address(data, plic_name()) matches Some(plic) && plic % 4096 == 0
        && DirectMapped::pspace(platform.layout).has(plic)
    &&& harts::hart_of(harts, platform.boot, 0) is Some
    &&& harts::maskable(harts)
    &&& m.available() >= frames(m, root, harts, platform.boot, init_len, data.len() as int)
    &&& process::init_pages(init_len) + process::pages_of(data.len() as int) + 8 <= CAPTBL_SLOTS
}

/// What the boot hart has once the kernel is up.
pub struct Started {
    pub booted: Booted,
    /// The interrupt controller.
    pub plic: Plic,
    /// The interrupts of devices that the kernel itself uses.
    pub irqs: Irqs,
    /// The heap.
    pub heap: LinkedListAlloc,
}

/// A heap that has been given what is set aside for it, and of which nothing is
/// mapped yet.
pub open spec fn new_heap() -> Heap {
    Heap {
        init: true,
        base: heap::KHEAP_VMEM_OFFSET as int,
        mapped: 0,
        unmanaged: heap::KHEAP_VMEM_OFFSET as int,
        free: Seq::empty(),
        used: Seq::empty(),
    }
}

/// The kernel is up on what a device tree describes, its interrupt controller is
/// initialized, it knows the interrupt of the serial port, and it has a heap.
pub open spec fn started(
    platform: Platform,
    data: Seq<u8>,
    m: Mem,
    root: int,
    init: Seq<u8>,
    r: Started,
) -> bool {
    let plic = devicetree::fdt_compatible_address(data, plic_name())->0;
    let irq = devicetree::fdt_stdout_interrupt(data)->0;
    &&& exists|machine: Machine| #[trigger]
        described(machine, platform, data) && brought_up(machine, m, root, init, r.booted)
    &&& r.plic == (Plic {
        plic_base: (plic + platform.layout.physical_offset) as u64,
        init: true,
    })
    &&& r.irqs.uart == (irq % 0x1_0000_0000) as u32
    &&& r.heap@ == new_heap()
    &&& r.heap@.wf()
}

/// Initialize the interrupt controller that is at a physical address.
fn init_plic(l: &AddressLayout, phys: u64) -> (r: Plic)
    requires
        mappings::standard_layout(*l),
        phys % 4096 == 0,
        DirectMapped::pspace(*l).has(phys),
    ensures
        r == (Plic { plic_base: (phys + l.physical_offset) as u64, init: true }),
{
    proof {
        mappings::law_direct_map_inverts(*l, phys);
    }
    let base: PhysicalMut<u8, DirectMapped> = Physical::from_usize_unchecked(phys);
    let mut plic = Plic::new();
    plic.init(base.into_virt(l).into_usize());
    plic
}

/// Bring the kernel up on what the device tree `data` describes.
#[verifier::spinoff_prover]
#[verifier::rlimit(30)]
pub fn kmain(
    mem: PhysicalMemory,
    pgtbl: PageTable,
    platform: &Platform,
    data: &[u8],
    init: &[u8],
) -> (r: Started)
    requires
        platform.wf(),
        preparable(mem@, pgtbl.root as int, platform.code.trampoline),
        can_start(*platform, data@, mem@, pgtbl.root as int, init@.len() as int),
    ensures
        started(*platform, data@, mem@, pgtbl.root as int, init@, r),
{
    let harts = devicetree::read_harts(data);
    let uart: u64 = match devicetree::stdout_address(data) {
        Some(uart) => uart,
        None => 0,
    };
    let irq: u64 = match devicetree::stdout_interrupt(data) {
        Some(irq) => irq,
        None => 0,
    };
    let plic = match devicetree::compatible_address(data, "riscv,plic0") {
        Some(phys) => init_plic(&platform.layout, phys),
        None => Plic::new(),
    };
    let machine = Machine {
        layout: platform.layout,
        code: platform.code,
        harts: &harts,
        boot: platform.boot,
        satp: platform.satp,
        fdt_ptr: platform.fdt_ptr,
        fdt: data,
        uart,
    };
    let ghost m = mem@;
    assert(described(machine, *platform, data@));
    let booted = bring_up(mem, pgtbl, &machine, init);
    assert(brought_up(machine, m, pgtbl.root as int, init@, booted));
    let mut heap = LinkedListAlloc::new();
    heap.init(heap::KHEAP_VMEM_OFFSET);
    Started { booted, plic, irqs: Irqs { uart: (irq % 0x1_0000_0000) as u32 }, heap }
}

/// Bring the kernel up on what the device tree `data` describes, if it can be.
pub fn try_kmain(
    mem: PhysicalMemory,
    pgtbl: PageTable,
    platform: &Platform,
    data: &[u8],
    init: &[u8],
) -> (r: Option<Started>)
    requires
        platform.wf(),
        preparable(mem@, pgtbl.root as int, platform.code.trampoline),
    ensures
        r is Some <==> can_start(*platform, data@, mem@, pgtbl.root as int, init@.len() as int),
        r matches Some(s) ==> started(*platform, data@, mem@, pgtbl.root as int, init@, s),
{
    if !tree::check_tree(data) || devicetree::stdout_address(data).is_none()
        || devicetree::stdout_interrupt(data).is_none() {
        return None;
    }
    let space = DirectMapped::paddr_space(&platform.layout);
    let controller: bool = match devicetree::compatible_address(data, "riscv,plic0") {
        Some(plic) => plic % 4096 == 0 && space.start <= plic && plic < space.end,
        None => false,
    };
    let harts = devicetree::read_harts(data);
    if !controller || harts::find_hart(&harts, platform.boot).is_none() || !harts::is_maskable(
        &harts,
    ) {
        return None;
    }
    proof {
        harts::law_boot_order(harts@, platform.boot);
    }
    let others = harts::other_harts(&harts, platform.boot);
    if init.len() > 0x4000_0000 || data.len() > 0x4000_0000 {
        return None;
    }
    let n: u64 = 1024 + (init.len() as u64 + 4095) / 4096;
    let f: u64 = (data.len() as u64 + 4095) / 4096;
    if n + f + 8 > CAPTBL_SLOTS {
        return None;
    }
    let trampoline: VirtualConst<u8, Identity> = VirtualConst::from_usize_unchecked(
        TRAMPOLINE_PAGE,
    );
    proof {
        runs::lemma_canonical_half(TRAMPOLINE_PAGE);
        phys::law_frames_for(n as int);
        phys::law_frames_for(f as int);
    }
    let missing: u64 = pgtbl.missing_tables(&mem, trampoline);
    let loaded: u64 = phys::allocation_pages(n) + phys::allocation_pages(f) + 1;
    let tables: u64 = 3 + (n + 511) / 512 + (f + 512) / 512;
    let needed: u64 = missing + 1024 * (others.len() as u64) + IDLE_FRAMES * (others.len() as u64
        + 1) + loaded + (2 + STACK_FRAMES) + 2 + tables;
    if mem.num_free_pages() < needed {
        return None;
    }
    Some(kmain(mem, pgtbl, platform, data, init))
}

/// The number of the next thread says nothing about what there is.
proof fn lemma_next_tid(a: State, b: State)
    requires
        a.wf(),
        b == (State { next_tid: b.next_tid, ..a }),
    ensures
        b.wf(),
{
    assert forall|t: int| 0 <= t < b.threads.len() implies #[trigger] b.thread_wf(t) by {
        assert(a.thread_wf(t));
    }
    assert forall|j: int| 0 <= j < b.jobs.len() implies #[trigger] b.job_wf(j) by {
        assert(a.job_wf(j));
    }
}

/// A hart once it takes interrupts: software, timer and external ones.
pub open spec fn taking_interrupts(hart: Hart) -> Hart {
    let csr = hart.csr;
    Hart { csr: ControlRegisters { sie: csr.sie | SIE_SSIE | SIE_STIE | SIE_SEIE, ..csr }, ..hart }
}

/// Another hart once it is ready to schedule, given what the device tree says of
/// it.
pub open spec fn hart_ready(hart: Hart, info: HartInfo) -> Hart {
    let pushed = hart.pushed();
    let known = Hart {
        ctx: HartCtx { timebase_freq: info.timebase_frequency, ..pushed.ctx },
        ..pushed
    };
    let popped = taking_interrupts(known).popped();
    Hart {
        csr: popped.csr.on(),
        ctx: HartCtx { timer_interval: info.timebase_frequency / 10, ..popped.ctx },
    }
}

/// Make another hart ready to schedule, at the time `now`. Returns when its
/// first timer interrupt is due.
pub fn ready_hart(hart: &mut Hart, harts: &Vec<HartInfo>, now: u64) -> (r: u64)
    requires
        old(hart).local(),
        old(hart).ctx.holding_disabler < u64::MAX,
        harts::hart_of(harts@, old(hart).ctx.hartid, 0) matches Some(info) && now
            + info.timebase_frequency / 10 <= u64::MAX,
    ensures
        *final(hart) == hart_ready(
            *old(hart),
            harts::hart_of(harts@, old(hart).ctx.hartid, 0)->0,
        ),
        r == now + final(hart).ctx.timer_interval,
{
    let id: u64 = hart.ctx.hartid;
    let disabler = InterruptDisabler::new(hart);
    let frequency: u64 = match harts::find_hart(harts, id) {
        Some(info) => info.timebase_frequency,
        None => 0,
    };
    hart.ctx.timebase_freq = frequency;
    hart.csr.software_intr_on();
    hart.csr.timer_intr_on();
    hart.csr.external_intr_on();
    disabler.release(hart);
    hart.csr.intr_on();
    let interval: u64 = harts::timer_interval(frequency);
    hart.ctx.timer_interval = interval;
    next_deadline(now, interval)
}

/// Whether another hart can be made ready with a device tree at the time `now`: the
/// tree can be read, the hart is in it, and the first timer interrupt is due at
/// some time.
pub open spec fn can_ready(hart: Hart, data: Seq<u8>, now: u64) -> bool {
    &&& tree::tree_wf(data)
    &&& harts::hart_of(
        devicetree::harts_of(devicetree::fdt_harts(data)),
        hart.ctx.hartid,
        0,
    ) matches Some(info) && now + info.timebase_frequency / 10 <= u64::MAX
}

/// Make another hart ready to schedule, at the time `now`, with what the device
/// tree `data` says of it. Returns when its first timer interrupt is due.
pub fn kmain_hart(hart: &mut Hart, data: &[u8], now: u64) -> (r: u64)
    requires
        old(hart).local(),
        old(hart).ctx.holding_disabler < u64::MAX,
        can_ready(*old(hart), data@, now),
    ensures
        *final(hart) == hart_ready(
            *old(hart),
            harts::hart_of(
                devicetree::harts_of(devicetree::fdt_harts(data@)),
                old(hart).ctx.hartid,
                0,
            )->0,
        ),
        r == now + final(hart).ctx.timer_interval,
{
    let harts = devicetree::read_harts(data);
    ready_hart(hart, &harts, now)
}

/// Make another hart ready to schedule, if it can be; else it stays as it is.
pub fn try_kmain_hart(hart: &mut Hart, data: &[u8], now: u64) -> (r: Option<u64>)
    requires
        old(hart).local(),
        old(hart).ctx.holding_disabler < u64::MAX,
    ensures
        r is Some <==> can_ready(*old(hart), data@, now),
        r is None ==> *final(hart) == *old(hart),
        r matches Some(due) ==> {
            &&& *final(hart) == hart_ready(
                *old(hart),
                harts::hart_of(
                    devicetree::harts_of(devicetree::fdt_harts(data@)),
                    old(hart).ctx.hartid,
                    0,
                )->0,
            )
            &&& due == now + final(hart).ctx.timer_interval
        },
{
    if !tree::check_tree(data) {
        return None;
    }
    let harts = devicetree::read_harts(data);
    match harts::find_hart(&harts, hart.ctx.hartid) {
        Some(info) => {
            if info.timebase_frequency / 10 > u64::MAX - now {
                return None;
            }
        },
        None => {
            return None;
        },
    }
    Some(kmain_hart(hart, data, now))
}

/// A hart that is ready takes interrupts of other harts, of the timer and of devices, and
/// keeps what it was allowed before; its timer goes off ten times a second. How many hold it
/// back stays.
#[verifier::spinoff_prover]
#[verifier::rlimit(50)]
pub proof fn law_ready_harts_take_interrupts(hart: Hart, info: HartInfo, i: u64)
    requires
        hart.local(),
        hart.ctx.holding_disabler < u64::MAX,
        i < 64,
    ensures
        ({
            let after = hart_ready(hart, info);
            &&& (after.csr.sstatus / 2) % 2 == 1
            &&& after.csr.sie & (1u64 << 1u64) != 0
            &&& after.csr.sie & (1u64 << 5u64) != 0
            &&& after.csr.sie & (1u64 << 9u64) != 0
            &&& i != 1 && i != 5 && i != 9 ==> after.csr.sie & (1u64 << i) == hart.csr.sie & (1u64
                << i)
            &&& after.ctx.timebase_freq == info.timebase_frequency
            &&& after.ctx.timer_interval == info.timebase_frequency / 10
            &&& after.ctx.hartid == hart.ctx.hartid
            &&& after.ctx.holding_disabler == hart.ctx.holding_disabler
        }),
{
    let sie = hart.csr.sie;
    crate::kernel::registers::law_bits_of_interrupts(hart_ready(hart, info).csr);
    assert(forall|c: ControlRegisters| (#[trigger] c.on()).intr()) by {
        assert forall|c: ControlRegisters| (#[trigger] c.on()).intr() by {
            crate::kernel::registers::law_bits_of_interrupts(c);
        }
    }
    assert(({
        let after = sie | SIE_SSIE | SIE_STIE | SIE_SEIE;
        &&& after & (1u64 << 1u64) != 0
        &&& after & (1u64 << 5u64) != 0
        &&& after & (1u64 << 9u64) != 0
        &&& i != 1 && i != 5 && i != 9 ==> after & (1u64 << i) == sie & (1u64 << i)
    })) by (bit_vector)
        requires
            i < 64,
    ;
}

/// Once the kernel has been brought up, the initial process is ready to run: its thread is
/// the one behind the idle threads, is runnable, begins at 0x10400000 with its stack below
/// that and the address of what it is told as its argument, and finds its image there and the
/// device tree from 0x20001000 on.
#[verifier::spinoff_prover]
#[verifier::rlimit(50)]
pub proof fn law_the_initial_process_is_ready(
    st: State,
    before: Mem,
    machine: Machine,
    init: Seq<u8>,
    i: int,
)
    requires
        machine.wf(),
        booted(st, before, machine, init),
        st.mem.wf(),
        process::init_pages(init.len() as int) + process::pages_of(machine.fdt@.len() as int) + 8
            <= CAPTBL_SLOTS,
    ensures
        ({
            let t = machine.order().len() as int;
            let thread = st.threads[t];
            let frame = thread.trapframe.frame;
            let root = thread.private.root_pgtbl->0.root as int;
            &&& st.threads.len() == t + 1
            &&& thread.private.state is Runnable
            &&& frame.user_epc == 0x1040_0000 && frame.sp == 0x1040_0000
            &&& frame.a0 == 0x2000_0000
            &&& 0 <= i < init.len() ==> process::found(
                st.mem,
                root,
                0x1040_0000 + i,
                init[i],
                14,
            )
            &&& 0 <= i < machine.fdt@.len() ==> process::found(
                st.mem,
                root,
                0x2000_1000 + i,
                machine.fdt@[i],
                2,
            )
        }),
{
    let fresh = choose|fresh: State| #[trigger]
        init_runs(st, fresh, machine, init) && fresh_kernel(
            fresh,
            before,
            machine.layout,
            machine.code,
            machine.order(),
            machine.harts@.len() as u64,
            machine.boot,
        );
    let at = Loaded::of(fresh.mem, init, machine.fdt@);
    let root = fresh.mem.next() + at.frames();
    process::law_initial_process_is_there(
        fresh.mem,
        st.mem,
        machine.code.trampoline,
        root + 1,
        init,
        machine.fdt@,
        i,
    );
    harts::law_boot_order(machine.harts@, machine.boot);
    assert(st.mem.has(root));
}

} // verus!
