//! The objects of the kernel, in tables, and what they hold as a whole.

use std::collections::BTreeMap;

use vstd::prelude::*;

use super::capability::captbl::Captbl;
use super::capability::thread::{Thread, ThreadPriorities, ThreadState};
use super::capability::wait_queue::{Queue, WaitQueue};
use super::capability::{
    CapabilityKind, CapabilitySlotInner, Endpoint, InterruptHandler, InterruptPool, Notification,
};
use super::paging;
use super::physmem::{Mem, PhysicalMemory};
use super::sched::{Sched, Scheduler};
use crate::addr::mappings::AddressLayout;

verus! {

/// A group of threads that share capabilities.
pub struct Job {
    pub captbl: Captbl,
    /// The job in which this one was made.
    pub parent: Option<usize>,
    /// How many jobs there are from the root of the tree of jobs to this one,
    /// both counted.
    pub depth: u64,
}

/// What a job holds.
#[verifier::ext_equal]
pub struct JobView {
    pub slots: Seq<CapabilitySlotInner>,
    pub parent: Option<usize>,
    pub depth: u64,
}

impl Job {
    /// What the job holds.
    pub open spec fn view(&self) -> JobView {
        JobView { slots: self.captbl@, parent: self.parent, depth: self.depth }
    }
}

/// Where the linker put the code that the kernel hands to threads.
#[derive(Copy, Clone, Debug, PartialEq, Eq, Structural)]
pub struct CodeAddresses {
    /// The code that leaves the kernel for userspace.
    pub user_trap_ret: u64,
    /// The physical address of the trampoline page.
    pub trampoline: u64,
}

/// The kernel, as seen from one hart.
pub struct Kernel {
    pub threads: Vec<Thread>,
    /// The names of the threads.
    pub names: Vec<String>,
    /// For each thread, the queues of the threads that wait for it.
    pub blocking: Vec<Vec<usize>>,
    pub queues: Vec<WaitQueue>,
    pub notifications: Vec<Notification>,
    pub endpoints: Vec<Endpoint>,
    pub handlers: Vec<InterruptHandler>,
    pub pools: Vec<InterruptPool>,
    pub jobs: Vec<Job>,
    pub mem: PhysicalMemory,
    pub sched: Scheduler,
    /// The hart on which this is.
    pub hart: u64,
    pub layout: AddressLayout,
    pub code: CodeAddresses,
    /// The number of the next thread.
    pub next_tid: u16,
    /// The number of the address space that each hart last returned to.
    pub current_asid: BTreeMap<u64, u16>,
}

/// What the kernel holds.
#[verifier::ext_equal]
pub struct State {
    pub threads: Seq<Thread>,
    pub names: Seq<Seq<char>>,
    pub blocking: Seq<Seq<usize>>,
    pub queues: Seq<Queue>,
    pub notifications: Seq<Notification>,
    pub endpoints: Seq<Endpoint>,
    pub handlers: Seq<InterruptHandler>,
    pub pools: Seq<Map<u16, usize>>,
    pub jobs: Seq<JobView>,
    pub mem: Mem,
    pub sched: Sched,
    pub hart: u64,
    pub layout: AddressLayout,
    pub code: CodeAddresses,
    pub next_tid: u16,
    pub current_asid: Map<u64, u16>,
}

impl Kernel {
    /// What the kernel holds.
    pub open spec fn view(&self) -> State {
        State {
            threads: self.threads@,
            names: self.names@.map_values(|n: String| n@),
            blocking: self.blocking@.map_values(|b: Vec<usize>| b@),
            queues: self.queues@.map_values(|q: WaitQueue| q@),
            notifications: self.notifications@,
            endpoints: self.endpoints@,
            handlers: self.handlers@,
            pools: self.pools@.map_values(|p: InterruptPool| p.map@),
            jobs: self.jobs@.map_values(|j: Job| j@),
            mem: self.mem@,
            sched: self.sched@,
            hart: self.hart,
            layout: self.layout,
            code: self.code,
            next_tid: self.next_tid,
            current_asid: self.current_asid@,
        }
    }
}

/// How many priorities have no class, in the first `n` queues together.
pub open spec fn absent_classes(queues: Seq<Queue>, n: int) -> nat
    decreases n,
{
    if n <= 0 {
        0
    } else {
        absent_classes(queues, n - 1) + queues[n - 1].absent()
    }
}

impl State {
    /// The priorities of a thread.
    pub open spec fn prio(self, t: usize) -> ThreadPriorities {
        self.threads[t as int].private.prio
    }

    /// The priority at which a thread runs.
    pub open spec fn level(self, t: usize) -> i8 {
        self.prio(t).level()
    }

    /// What a thread is doing.
    pub open spec fn state(self, t: usize) -> ThreadState {
        self.threads[t as int].private.state
    }

    /// The queue in which a thread is.
    pub open spec fn blocked_on(self, t: usize) -> Option<usize> {
        self.threads[t as int].blocked_on_wq
    }

    /// The slots of the capability table of a thread.
    pub open spec fn slots(self, t: usize) -> Seq<CapabilitySlotInner> {
        self.jobs[self.threads[t as int].job as int].slots
    }

    /// With another thread in the place of one.
    pub open spec fn set_thread(self, t: usize, thread: Thread) -> State {
        State { threads: self.threads.update(t as int, thread), ..self }
    }

    /// With other priorities of a thread.
    pub open spec fn set_prio(self, t: usize, prio: ThreadPriorities) -> State {
        let thread = self.threads[t as int];
        self.set_thread(
            t,
            Thread {
                private: super::capability::thread::ThreadProtected { prio, ..thread.private },
                ..thread
            },
        )
    }

    /// With another state of a thread.
    pub open spec fn set_state(self, t: usize, state: ThreadState) -> State {
        let thread = self.threads[t as int];
        self.set_thread(
            t,
            Thread {
                private: super::capability::thread::ThreadProtected { state, ..thread.private },
                ..thread
            },
        )
    }

    /// With a thread in another queue, or in none.
    pub open spec fn set_blocked_on(self, t: usize, queue: Option<usize>) -> State {
        self.set_thread(t, Thread { blocked_on_wq: queue, ..self.threads[t as int] })
    }

    /// With another queue in the place of one.
    pub open spec fn set_queue(self, q: usize, queue: Queue) -> State {
        State { queues: self.queues.update(q as int, queue), ..self }
    }

    /// With another notification in the place of one.
    pub open spec fn set_notification(self, n: usize, notification: Notification) -> State {
        State { notifications: self.notifications.update(n as int, notification), ..self }
    }

    /// With other slots of a job.
    pub open spec fn set_slots(self, job: usize, slots: Seq<CapabilitySlotInner>) -> State {
        State {
            jobs: self.jobs.update(job as int, JobView { slots, ..self.jobs[job as int] }),
            ..self
        }
    }

    /// With another scheduler.
    pub open spec fn set_sched(self, sched: Sched) -> State {
        State { sched, ..self }
    }

    /// How many priorities have no class, in all the queues together.
    pub open spec fn absent(self) -> nat {
        absent_classes(self.queues, self.queues.len() as int)
    }

    /// What a slot refers to exists.
    pub open spec fn kind_wf(self, cap: CapabilityKind) -> bool {
        match cap {
            CapabilityKind::Thread(t) => t < self.threads.len(),
            CapabilityKind::Notification(n) => n < self.notifications.len(),
            CapabilityKind::InterruptPool(p) => p < self.pools.len(),
            CapabilityKind::InterruptHandler(h) => h < self.handlers.len(),
            CapabilityKind::Endpoint(e) => e < self.endpoints.len(),
            CapabilityKind::Job(j) => j < self.jobs.len(),
            _ => true,
        }
    }

    /// What a thread refers to exists, and its priorities are in range.
    pub open spec fn thread_wf(self, t: int) -> bool {
        let thread = self.threads[t];
        &&& thread.job < self.jobs.len()
        &&& thread.blocked_on_wq matches Some(q) ==> q < self.queues.len()
        &&& -1 <= thread.private.prio.base_prio <= 31
        &&& -4 <= thread.private.prio.prio_boost <= 4
        &&& self.sched.has(thread.private.hartid) || thread.private.hartid == u64::MAX
    }

    /// A job has a table whose slots refer to what exists.
    pub open spec fn job_wf(self, j: int) -> bool {
        &&& self.jobs[j].slots.len() > 0
        &&& forall|i: int|
            0 <= i < self.jobs[j].slots.len() ==> self.kind_wf((#[trigger] self.jobs[j].slots[i]).cap)
    }

    /// All that is referred to exists.
    pub open spec fn wf(self) -> bool {
        &&& self.names.len() == self.threads.len()
        &&& self.blocking.len() == self.threads.len()
        &&& forall|t: int| 0 <= t < self.threads.len() ==> #[trigger] self.thread_wf(t)
        &&& forall|t: int, i: int|
            0 <= t < self.blocking.len() && 0 <= i < self.blocking[t].len() ==> (
            #[trigger] self.blocking[t][i]) < self.queues.len()
        &&& forall|q: int|
            0 <= q < self.queues.len() ==> (#[trigger] self.queues[q]).wf() && self.queues[q].below(
                self.threads.len() as int,
            )
        &&& forall|n: int|
            0 <= n < self.notifications.len() ==> (#[trigger] self.notifications[n]).wait_queue
                < self.queues.len()
        &&& forall|e: int|
            0 <= e < self.endpoints.len() ==> (#[trigger] self.endpoints[e]).recv_wait_queue
                < self.queues.len() && self.endpoints[e].send_wait_queue < self.queues.len() && (
            self.endpoints[e].reply_cap matches Some(r) ==> r < self.endpoints.len())
        &&& forall|h: int|
            0 <= h < self.handlers.len() ==> ((#[trigger] self.handlers[h]).notification matches Some(
                (n, _),
            ) ==> n < self.notifications.len())
        &&& forall|p: int, irq: u16|
            0 <= p < self.pools.len() && #[trigger] self.pools[p].dom().contains(irq)
                ==> self.pools[p][irq] < self.handlers.len()
        &&& forall|j: int| 0 <= j < self.jobs.len() ==> #[trigger] self.job_wf(j)
        &&& self.mem.wf()
        &&& self.sched.wf()
        &&& self.sched.below(self.threads.len() as int)
        &&& self.sched.has(self.hart)
        &&& crate::addr::mappings::standard_layout(self.layout)
    }

    /// Whether a thread can be given another priority whatever it is doing.
    pub open spec fn steady(self, t: usize) -> bool {
        let private = self.threads[t as int].private;
        match private.state {
            ThreadState::Running => self.sched.has(private.hartid),
            ThreadState::Runnable => self.sched.has(private.hartid) && 0
                <= private.prio.base_prio + private.prio.prio_boost,
            _ => true,
        }
    }

    /// The priorities of a thread are below 32.
    pub open spec fn tame(self, t: int) -> bool {
        let prio = self.threads[t].private.prio;
        prio.base_prio + prio.prio_boost < 32 && prio.inherited_prio < 32
    }

    /// A thread that is in a queue waits there at its priority.
    pub open spec fn waits(self, t: int) -> bool {
        self.threads[t].blocked_on_wq matches Some(q) ==> self.threads[t].private.state
            == ThreadState::Blocking && self.queues[q as int].has(
            self.threads[t].private.prio.level(),
        )
    }

    /// The owner of a queue can be given another priority, and those who wait
    /// do so at priorities below 32.
    pub open spec fn queue_tame(self, q: int) -> bool {
        &&& self.queues[q].owner matches Some(t) ==> self.steady(t)
        &&& forall|c: int| 160 <= c < 256 ==> (#[trigger] self.queues[q].classes[c]) is None
    }

    /// Priorities can be handed on from the threads that wait to those that
    /// they wait for.
    pub open spec fn linked(self) -> bool {
        &&& forall|t: int| 0 <= t < self.threads.len() ==> #[trigger] self.tame(t)
        &&& forall|t: int| 0 <= t < self.threads.len() ==> #[trigger] self.waits(t)
        &&& forall|q: int| 0 <= q < self.queues.len() ==> #[trigger] self.queue_tame(q)
    }

    /// Whether there is a page table at a root, of which no two entries share a table.
    pub open spec fn is_tree(self, root: int) -> bool {
        paging::tree_wf(self.mem, root) && paging::unshared(self.mem, root)
    }

    /// What a slot holds is a page table, if it says so.
    pub open spec fn slot_sound(self, cap: CapabilityKind) -> bool {
        cap matches CapabilityKind::PgTbl(table) ==> self.is_tree(table.root as int)
    }

    /// The page tables of the threads, and those that slots refer to, are trees.
    pub open spec fn trees(self) -> bool {
        &&& forall|t: int|
            0 <= t < self.threads.len() ==> ((#[trigger] self.threads[t]).private.root_pgtbl matches Some(
                table,
            ) ==> self.is_tree(table.root as int))
        &&& forall|j: int, i: int|
            0 <= j < self.jobs.len() && 0 <= i < self.jobs[j].slots.len() ==> self.slot_sound(
                (#[trigger] self.jobs[j].slots[i]).cap,
            )
    }

    /// Whether a thread can be waited for: it has run on a hart, and its priority is
    /// not below 0, whatever it inherits.
    pub open spec fn fit(self, t: usize) -> bool {
        let private = self.threads[t as int].private;
        self.sched.has(private.hartid) && 0 <= private.prio.base_prio + private.prio.prio_boost
    }

    /// The threads that are waited for are fit to be.
    pub open spec fn owners_fit(self) -> bool {
        forall|q: int|
            0 <= q < self.queues.len() ==> ((#[trigger] self.queues[q]).owner matches Some(t)
                ==> self.fit(t))
    }

    /// The kernel is in order: all that is referred to exists, and priorities can be
    /// handed on from the threads that wait to those that they wait for, which are fit
    /// to be waited for.
    pub open spec fn ordered(self) -> bool {
        &&& self.wf()
        &&& self.linked()
        &&& self.owners_fit()
    }

    /// The kernel is sound: all that is referred to exists, the page tables are trees,
    /// the links between the threads that wait and those that they wait for agree, and
    /// all priorities are below 32, and not below 0 where a thread is waited for.
    pub open spec fn sound(self) -> bool {
        &&& self.wf()
        &&& self.trees()
        &&& self.linked()
        &&& self.owners_fit()
    }
}

/// A thread in the place of one keeps all that is referred to in existence, if
/// what it refers to exists.
pub proof fn lemma_set_thread(st: State, t: usize, thread: Thread)
    requires
        st.wf(),
        t < st.threads.len(),
        st.set_thread(t, thread).thread_wf(t as int),
    ensures
        st.set_thread(t, thread).wf(),
{
    let after = st.set_thread(t, thread);
    assert forall|i: int| 0 <= i < after.threads.len() implies #[trigger] after.thread_wf(i) by {
        assert(st.thread_wf(i));
    }
    assert forall|j: int| 0 <= j < after.jobs.len() implies #[trigger] after.job_wf(j) by {
        assert(st.job_wf(j));
        assert forall|i: int| 0 <= i < after.jobs[j].slots.len() implies after.kind_wf(
            (#[trigger] after.jobs[j].slots[i]).cap,
        ) by {
            assert(st.kind_wf(st.jobs[j].slots[i].cap));
        }
    }
}

/// So does a queue in the place of one.
pub proof fn lemma_set_queue(st: State, q: usize, queue: Queue)
    requires
        st.wf(),
        q < st.queues.len(),
        queue.wf(),
        queue.below(st.threads.len() as int),
    ensures
        st.set_queue(q, queue).wf(),
{
    let after = st.set_queue(q, queue);
    assert forall|i: int| 0 <= i < after.threads.len() implies #[trigger] after.thread_wf(i) by {
        assert(st.thread_wf(i));
    }
    assert forall|j: int| 0 <= j < after.jobs.len() implies #[trigger] after.job_wf(j) by {
        assert(st.job_wf(j));
        assert forall|i: int| 0 <= i < after.jobs[j].slots.len() implies after.kind_wf(
            (#[trigger] after.jobs[j].slots[i]).cap,
        ) by {
            assert(st.kind_wf(st.jobs[j].slots[i].cap));
        }
    }
}

/// So does another scheduler for the same harts.
pub proof fn lemma_set_sched(st: State, sched: Sched)
    requires
        st.wf(),
        sched.wf(),
        sched.like(st.sched),
        sched.below(st.threads.len() as int),
    ensures
        st.set_sched(sched).wf(),
{
    let after = st.set_sched(sched);
    assert forall|i: int| 0 <= i < after.threads.len() implies #[trigger] after.thread_wf(i) by {
        assert(st.thread_wf(i));
    }
    assert forall|j: int| 0 <= j < after.jobs.len() implies #[trigger] after.job_wf(j) by {
        assert(st.job_wf(j));
        assert forall|i: int| 0 <= i < after.jobs[j].slots.len() implies after.kind_wf(
            (#[trigger] after.jobs[j].slots[i]).cap,
        ) by {
            assert(st.kind_wf(st.jobs[j].slots[i].cap));
        }
    }
}

/// So do other slots of a job, if what they refer to exists.
pub proof fn lemma_set_slots(st: State, job: usize, slots: Seq<CapabilitySlotInner>)
    requires
        st.wf(),
        job < st.jobs.len(),
        slots.len() > 0,
        forall|i: int| 0 <= i < slots.len() ==> st.kind_wf((#[trigger] slots[i]).cap),
    ensures
        st.set_slots(job, slots).wf(),
{
    let after = st.set_slots(job, slots);
    assert forall|i: int| 0 <= i < after.threads.len() implies #[trigger] after.thread_wf(i) by {
        assert(st.thread_wf(i));
    }
    assert forall|j: int| 0 <= j < after.jobs.len() implies #[trigger] after.job_wf(j) by {
        assert(st.job_wf(j));
        assert forall|i: int| 0 <= i < after.jobs[j].slots.len() implies after.kind_wf(
            (#[trigger] after.jobs[j].slots[i]).cap,
        ) by {
            if j != job {
                assert(st.kind_wf(st.jobs[j].slots[i].cap));
            } else {
                assert(st.kind_wf(slots[i].cap));
            }
        }
    }
}

/// Other queues keep their count of absent classes.
pub proof fn lemma_absent_update(queues: Seq<Queue>, q: int, queue: Queue, n: int)
    requires
        0 <= q < queues.len(),
        0 <= n <= queues.len(),
    ensures
        absent_classes(queues.update(q, queue), n) == absent_classes(queues, n) + (if q < n {
            queue.absent() - queues[q].absent()
        } else {
            0
        }),
    decreases n,
{
    if n > 0 {
        lemma_absent_update(queues, q, queue, n - 1);
    }
}

impl Kernel {
    /// Put a thread in the place of one.
    pub(crate) fn set_thread(&mut self, t: usize, thread: Thread)
        requires
            t < old(self)@.threads.len(),
        ensures
            final(self)@ == old(self)@.set_thread(t, thread),
    {
        self.threads.set(t, thread);
        assert(self@ =~= old(self)@.set_thread(t, thread));
    }

    /// Give a thread other priorities.
    pub(crate) fn set_prio(&mut self, t: usize, prio: ThreadPriorities)
        requires
            t < old(self)@.threads.len(),
        ensures
            final(self)@ == old(self)@.set_prio(t, prio),
    {
        let mut thread = self.threads[t];
        thread.private.prio = prio;
        self.set_thread(t, thread);
    }

    /// Give a thread another state.
    pub(crate) fn set_state(&mut self, t: usize, state: ThreadState)
        requires
            t < old(self)@.threads.len(),
        ensures
            final(self)@ == old(self)@.set_state(t, state),
    {
        let mut thread = self.threads[t];
        thread.private.state = state;
        self.set_thread(t, thread);
    }

    /// Note in which queue a thread is.
    pub(crate) fn set_blocked_on(&mut self, t: usize, queue: Option<usize>)
        requires
            t < old(self)@.threads.len(),
        ensures
            final(self)@ == old(self)@.set_blocked_on(t, queue),
    {
        let mut thread = self.threads[t];
        thread.blocked_on_wq = queue;
        self.set_thread(t, thread);
    }

    /// Put a thread into a queue.
    pub(crate) fn queue_insert(&mut self, q: usize, prio: i8, t: usize)
        requires
            q < old(self)@.queues.len(),
            old(self)@.queues[q as int].wf(),
        ensures
            final(self)@ == old(self)@.set_queue(q, old(self)@.queues[q as int].insert(prio, t)),
    {
        assert(self@.queues[q as int] == self.queues@[q as int]@);
        self.queues[q].insert(prio, t);
        assert(self@ =~= old(self)@.set_queue(q, old(self)@.queues[q as int].insert(prio, t)));
    }

    /// Take a thread out of a queue.
    pub(crate) fn queue_remove(&mut self, q: usize, prio: i8, t: usize)
        requires
            q < old(self)@.queues.len(),
            old(self)@.queues[q as int].wf(),
            old(self)@.queues[q as int].has(prio),
        ensures
            final(self)@ == old(self)@.set_queue(q, old(self)@.queues[q as int].remove(prio, t)),
    {
        assert(self@.queues[q as int] == self.queues@[q as int]@);
        self.queues[q].remove(prio, t);
        assert(self@ =~= old(self)@.set_queue(q, old(self)@.queues[q as int].remove(prio, t)));
    }

    /// The highest priority of a queue.
    pub(crate) fn queue_prio(&self, q: usize) -> (r: i8)
        requires
            q < self@.queues.len(),
            self@.queues[q as int].wf(),
        ensures
            r == self@.queues[q as int].highest(),
    {
        assert(self@.queues[q as int] == self.queues@[q as int]@);
        self.queues[q].highest_prio()
    }

    /// Take a thread out of a run queue.
    pub(crate) fn sched_remove(&mut self, hart: u64, prio: i8, t: usize)
        requires
            old(self)@.sched.wf(),
            old(self)@.sched.valid(hart, prio),
        ensures
            final(self)@ == old(self)@.set_sched(old(self)@.sched.removed(hart, prio, t)),
            final(self)@.sched.wf(),
    {
        self.sched.remove(hart, prio, t);
    }

    /// Put a thread in front of a run queue.
    pub(crate) fn sched_push_front(&mut self, hart: u64, prio: i8, t: usize)
        requires
            old(self)@.sched.wf(),
            old(self)@.sched.valid(hart, prio),
            old(self)@.hart < 64,
        ensures
            final(self)@ == old(self)@.set_sched(
                old(self)@.sched.pushed_front(hart, prio, t, old(self)@.hart),
            ),
            final(self)@.sched.wf(),
    {
        self.sched.push_front(hart, prio, t, self.hart);
    }

    /// Put a thread behind a run queue.
    pub(crate) fn sched_push_back(&mut self, hart: u64, prio: i8, t: usize)
        requires
            old(self)@.sched.wf(),
            old(self)@.sched.valid(hart, prio),
            old(self)@.hart < 64,
        ensures
            final(self)@ == old(self)@.set_sched(
                old(self)@.sched.pushed_back(hart, prio, t, old(self)@.hart),
            ),
            final(self)@.sched.wf(),
    {
        self.sched.push_back(hart, prio, t, self.hart);
    }
}

} // verus!
