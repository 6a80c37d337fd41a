//! Which thread runs where: threads enter and leave the run queues, and harts
//! pick the threads that they run.

use vstd::prelude::*;

use super::capability::thread::{HartMask, Thread, ThreadProtected, ThreadState};
use super::inherit;
use super::inherit::Effect;
use super::sched;
use super::sched::Scheduler;
use super::state;
use super::state::{Kernel, State};
use super::trap::soundness;

verus! {

/// After a thread has been taken out of the run queue of the hart on which it
/// ran last.
pub open spec fn dequeued(st: State, t: usize) -> State {
    st.set_sched(st.sched.removed(st.threads[t as int].private.hartid, st.level(t), t))
}

/// After a thread has been put in front of the run queue of a hart.
pub open spec fn enqueued_front(st: State, t: usize, hart: u64) -> State {
    st.set_sched(st.sched.pushed_front(hart, st.level(t), t, st.hart))
}

/// After a thread has been put behind the run queue of a hart.
pub open spec fn enqueued(st: State, t: usize, hart: u64) -> State {
    st.set_sched(st.sched.pushed_back(hart, st.level(t), t, st.hart))
}

/// On which hart a thread is to run.
pub open spec fn hart_for(st: State, t: usize) -> u64 {
    sched::chosen_hart(
        st.sched,
        st.threads[t as int].affinity.0,
        st.threads[t as int].private.hartid,
        st.hart,
    )
}

/// The hart that was asked for, or else the one on which a thread is to run.
pub open spec fn hart_or(st: State, t: usize, hartid: Option<u64>) -> u64 {
    match hartid {
        Some(hart) => hart,
        None => hart_for(st, t),
    }
}

/// After a thread that can run has been moved from the run queue of one
/// priority to that of the one at which it runs now.
pub open spec fn requeued_local(st: State, t: usize, old_prio: i8, hart: u64) -> State {
    let prio = st.level(t);
    if prio == old_prio || st.state(t) != ThreadState::Runnable {
        st
    } else if prio > old_prio {
        st.set_sched(
            st.sched.removed(hart, old_prio, t).pushed_front(hart, prio, t, st.hart),
        )
    } else {
        st.set_sched(st.sched.removed(hart, old_prio, t).pushed_back(hart, prio, t, st.hart))
    }
}

/// After the priority at which a thread runs has changed, with regard to those
/// that it waits for.
pub open spec fn changed_all(e: Effect, t: usize, old_prio: i8, cur_prio: i8) -> Effect {
    if e.st.state(t) is Blocking && e.st.blocked_on(t) is Some {
        Effect { st: inherit::wait_changed(e.st, t, old_prio, cur_prio), ..e }
    } else {
        inherit::changed(e, t, old_prio, cur_prio)
    }
}

/// What a hart is to do next.
#[derive(Copy, Clone, Debug, PartialEq, Eq, Structural)]
pub enum Decision {
    /// Run a thread.
    Run(usize),
    /// Look for a thread again.
    Again,
}

/// The thread that the current hart takes: the next one, or its idle thread if
/// there is none.
pub open spec fn picked(st: State) -> usize {
    match st.sched.pick(st.hart, 32) {
        Some((t, _)) => t,
        None => st.sched.idle[st.hart],
    }
}

/// After the current hart has looked for a thread to run: it takes the next
/// one, or its idle thread if there is none. One that can run, runs; one that
/// has been suspended leaves the run queue.
pub open spec fn scheduled(st: State) -> (State, Decision) {
    let hart = st.hart;
    let (t, sched) = match st.sched.pick(hart, 32) {
        Some((t, prio)) => (t, st.sched.rotated(hart, prio as i8)),
        None => (st.sched.idle[hart], st.sched.idling(hart)),
    };
    let found = st.set_sched(sched);
    match st.state(t) {
        ThreadState::Runnable => {
            let thread = st.threads[t as int];
            (
                found.set_thread(
                    t,
                    Thread {
                        private: ThreadProtected {
                            state: ThreadState::Running,
                            hartid: hart,
                            ..thread.private
                        },
                        ..thread
                    },
                ),
                Decision::Run(t),
            )
        },
        ThreadState::Suspended => (
            found.set_sched(sched.removed(hart, st.level(t), t)),
            Decision::Again,
        ),
        _ => (found, Decision::Again),
    }
}

/// The hart that is chosen for a thread exists.
pub proof fn law_chosen_hart_exists(st: State, t: usize)
    requires
        st.wf(),
        t < st.threads.len(),
    ensures
        st.sched.has(hart_for(st, t)),
{
    assert(st.thread_wf(t as int));
    let affinity = st.threads[t as int].affinity.0;
    let bitmap = st.sched.bitmap;
    lemma_first_hart(affinity & bitmap, 0, st.sched.count as int);
    if let Some(h) = sched::first_hart(affinity & bitmap, 0, st.sched.count as int) {
        assert((affinity & bitmap) & (1u64 << h) != 0 ==> bitmap & (1u64 << h) != 0) by (bit_vector);
        assert(st.sched.is_idle(h));
    }
}

proof fn lemma_first_hart(mask: u64, hart: int, n: int)
    requires
        0 <= hart <= n <= 64,
    ensures
        sched::first_hart(mask, hart, n) matches Some(h) ==> hart <= h < n && mask & (1u64 << h)
            != 0,
    decreases n - hart,
{
    if hart < n {
        lemma_first_hart(mask, hart + 1, n);
    }
}

proof fn lemma_sched_moves(st: State, t: usize, hart: u64, prio: i8)
    requires
        st.wf(),
        t < st.threads.len(),
        st.sched.valid(hart, prio),
    ensures
        st.set_sched(st.sched.removed(hart, prio, t)).wf(),
        st.set_sched(st.sched.pushed_front(hart, prio, t, st.hart)).wf(),
        st.set_sched(st.sched.pushed_back(hart, prio, t, st.hart)).wf(),
{
    sched::lemma_below(st.sched, hart, prio, t, st.hart, st.threads.len() as int);
    state::lemma_set_sched(st, st.sched.removed(hart, prio, t));
    state::lemma_set_sched(st, st.sched.pushed_front(hart, prio, t, st.hart));
    state::lemma_set_sched(st, st.sched.pushed_back(hart, prio, t, st.hart));
}

impl Scheduler {
    /// Take a thread out of the run queue of the hart on which it ran last.
    pub fn dequeue_dl(k: &mut Kernel, thread: usize)
        requires
            old(k)@.wf(),
            thread < old(k)@.threads.len(),
            old(k)@.sched.valid(
                old(k)@.threads[thread as int].private.hartid,
                old(k)@.level(thread),
            ),
        ensures
            final(k)@ == dequeued(old(k)@, thread),
            final(k)@.wf(),
    {
        assert(k@.thread_wf(thread as int));
        let private = k.threads[thread].private;
        proof {
            lemma_sched_moves(k@, thread, private.hartid, private.prio.level());
        }
        k.sched_remove(private.hartid, private.prio.effective(), thread);
    }

    /// Put a thread in front of the run queue of a hart.
    pub fn enqueue_front_dl(k: &mut Kernel, thread: usize, hartid: Option<u64>)
        requires
            old(k)@.wf(),
            thread < old(k)@.threads.len(),
            0 <= old(k)@.level(thread) < 32,
            hartid matches Some(hart) ==> old(k)@.sched.has(hart),
        ensures
            final(k)@ == enqueued_front(old(k)@, thread, hart_or(old(k)@, thread, hartid)),
            final(k)@.wf(),
    {
        assert(k@.thread_wf(thread as int));
        let hart: u64 = match hartid {
            Some(hart) => hart,
            None => Scheduler::choose_hart_dl(k, thread),
        };
        let prio: i8 = k.threads[thread].private.prio.effective();
        proof {
            lemma_sched_moves(k@, thread, hart, prio);
        }
        k.sched_push_front(hart, prio, thread);
    }

    /// Put a thread behind the run queue of a hart.
    pub fn enqueue_dl(k: &mut Kernel, thread: usize, hartid: Option<u64>)
        requires
            old(k)@.wf(),
            thread < old(k)@.threads.len(),
            0 <= old(k)@.level(thread) < 32,
            hartid matches Some(hart) ==> old(k)@.sched.has(hart),
        ensures
            final(k)@ == enqueued(old(k)@, thread, hart_or(old(k)@, thread, hartid)),
            final(k)@.wf(),
    {
        assert(k@.thread_wf(thread as int));
        let hart: u64 = match hartid {
            Some(hart) => hart,
            None => Scheduler::choose_hart_dl(k, thread),
        };
        let prio: i8 = k.threads[thread].private.prio.effective();
        proof {
            lemma_sched_moves(k@, thread, hart, prio);
        }
        k.sched_push_back(hart, prio, thread);
    }

    /// Move a thread that can run to the run queue of the priority at which it
    /// runs now.
    pub fn requeue_local(k: &mut Kernel, thread: usize, old_prio: i8, hartid: u64)
        requires
            old(k)@.wf(),
            thread < old(k)@.threads.len(),
            old(k)@.state(thread) is Runnable && old(k)@.level(thread) != old_prio ==> {
                &&& old(k)@.sched.valid(hartid, old_prio)
                &&& old(k)@.sched.valid(hartid, old(k)@.level(thread))
            },
        ensures
            final(k)@ == requeued_local(old(k)@, thread, old_prio, hartid),
            final(k)@.wf(),
    {
        Scheduler::requeue_local_dl(k, thread, old_prio, hartid);
    }

    /// Move a thread that can run to the run queue of the priority at which it
    /// runs now.
    pub fn requeue_local_dl(k: &mut Kernel, thread: usize, old_prio: i8, hartid: u64)
        requires
            old(k)@.wf(),
            thread < old(k)@.threads.len(),
            old(k)@.state(thread) is Runnable && old(k)@.level(thread) != old_prio ==> {
                &&& old(k)@.sched.valid(hartid, old_prio)
                &&& old(k)@.sched.valid(hartid, old(k)@.level(thread))
            },
        ensures
            final(k)@ == requeued_local(old(k)@, thread, old_prio, hartid),
            final(k)@.wf(),
    {
        assert(k@.thread_wf(thread as int));
        let private = k.threads[thread].private;
        let new_prio: i8 = private.prio.effective();
        if new_prio == old_prio {
            return ;
        }
        if private.state == ThreadState::Runnable {
            proof {
                lemma_sched_moves(k@, thread, hartid, old_prio);
            }
            k.sched_remove(hartid, old_prio, thread);
            proof {
                lemma_sched_moves(k@, thread, hartid, new_prio);
            }
            if new_prio > old_prio {
                k.sched_push_front(hartid, new_prio, thread);
            } else {
                k.sched_push_back(hartid, new_prio, thread);
            }
        }
    }

    /// Carry out a change of the priority of a thread. If `propagate` says so,
    /// and the thread waits, the change is handed on to those that it waits
    /// for.
    pub fn prio_changed(
        k: &mut Kernel,
        thread: usize,
        old_prio: i8,
        cur_prio: i8,
        local_resched: &mut bool,
        accum_cpu_mask: &mut HartMask,
        propagate: bool,
    )
        requires
            old(k)@.wf(),
            thread < old(k)@.threads.len(),
            inherit::changeable(old(k)@, thread, old_prio, cur_prio),
            propagate && old(k)@.state(thread) is Blocking && old(k)@.blocked_on(thread) is Some
                ==> inherit::requeued(old(k)@, thread, old_prio, cur_prio).linked(),
        ensures
            ({
                let before = Effect {
                    st: old(k)@,
                    resched: *old(local_resched),
                    mask: old(accum_cpu_mask).0,
                };
                let after = Effect {
                    st: final(k)@,
                    resched: *final(local_resched),
                    mask: final(accum_cpu_mask).0,
                };
                &&& propagate ==> after == changed_all(before, thread, old_prio, cur_prio)
                &&& !propagate ==> after == inherit::changed(before, thread, old_prio, cur_prio)
            }),
            final(k)@.wf(),
    {
        if propagate && k.threads[thread].private.state == ThreadState::Blocking
            && k.threads[thread].blocked_on_wq.is_some() {
            Thread::wait_queue_priority_changed(k, thread, old_prio, cur_prio, true);
        } else {
            k.change_priority(thread, old_prio, cur_prio, local_resched, accum_cpu_mask);
        }
    }

    /// On which hart a thread is to run.
    pub fn choose_hart_dl(k: &Kernel, thread: usize) -> (r: u64)
        requires
            k@.wf(),
            thread < k@.threads.len(),
        ensures
            r == hart_for(k@, thread),
            k@.sched.has(r),
    {
        proof {
            law_chosen_hart_exists(k@, thread);
            assert(k@.thread_wf(thread as int));
        }
        k.sched.pick_hart(k.threads[thread].affinity, k.threads[thread].private.hartid, k.hart)
    }

    /// On which hart a thread is to run.
    pub fn choose_hart(k: &Kernel, thread: usize) -> (r: u64)
        requires
            k@.wf(),
            thread < k@.threads.len(),
        ensures
            r == hart_for(k@, thread),
            k@.sched.has(r),
    {
        Scheduler::choose_hart_dl(k, thread)
    }

    /// Look once for a thread that the current hart is to run.
    pub fn next_thread(k: &mut Kernel) -> (r: Decision)
        requires
            old(k)@.wf(),
            old(k)@.state(picked(old(k)@)) is Suspended ==> 0 <= old(k)@.level(picked(old(k)@)) < 32,
        ensures
            (final(k)@, r) == scheduled(old(k)@),
            final(k)@.wf(),
            old(k)@.ordered() ==> soundness::kept(old(k)@, final(k)@),
            old(k)@.ordered() ==> (r matches Decision::Run(t) ==> final(k)@.blocked_on(t) is None),
    {
        let ghost st = k@;
        proof {
            if st.ordered() {
                soundness::lemma_scheduling(st);
            }
        }
        let hart: u64 = k.hart;
        let mut inner = k.sched.take(hart);
        let picked = inner.find_highest_prio();
        let idle: usize = inner.idle_thread;
        k.sched.put(hart, inner);
        let thread: usize = match picked {
            Some((thread, prio)) => {
                proof {
                    lemma_pick(st.sched, st.hart, 32, prio);
                    assert(st.sched.queues[hart][prio as int][0] < st.threads.len());
                    assert(k@.sched =~= st.sched.rotated(st.hart, prio));
                    lemma_rotated_below(st.sched, st.hart, prio, st.threads.len() as int);
                    state::lemma_set_sched(st, k@.sched);
                    assert(k@ =~= st.set_sched(k@.sched));
                }
                thread
            },
            None => {
                proof {
                    lemma_pick_none(st.sched, st.hart, 32);
                    sched::lemma_awake(st.sched, st.hart);
                }
                k.sched.idle_bitmap = k.sched.idle_bitmap | (1u64 << hart);
                proof {
                    assert(k@.sched =~= st.sched.idling(st.hart));
                    state::lemma_set_sched(st, k@.sched);
                    assert(k@ =~= st.set_sched(k@.sched));
                    assert(st.sched.idle.dom().contains(hart));
                }
                idle
            },
        };
        assert(k@.thread_wf(thread as int));
        let mut th = k.threads[thread];
        match th.private.state {
            ThreadState::Runnable => {
                th.private.state = ThreadState::Running;
                th.private.hartid = k.hart;
                proof {
                    state::lemma_set_thread(k@, thread, th);
                }
                k.set_thread(thread, th);
                Decision::Run(thread)
            },
            ThreadState::Suspended => {
                let prio: i8 = th.private.prio.effective();
                proof {
                    lemma_sched_moves(k@, thread, k@.hart, prio);
                }
                k.sched_remove(k.hart, prio, thread);
                Decision::Again
            },
            _ => Decision::Again,
        }
    }
}

proof fn lemma_pick(s: sched::Sched, hart: u64, n: int, prio: i8)
    requires
        0 <= prio < n <= 32,
        s.queues[hart][prio as int].len() > 0,
        forall|p: int| prio < p < n ==> (#[trigger] s.queues[hart][p]).len() == 0,
    ensures
        s.pick(hart, n) == Some((s.queues[hart][prio as int][0], prio as int)),
    decreases n,
{
    if n - 1 > prio {
        assert(s.queues[hart][n - 1].len() == 0);
        lemma_pick(s, hart, n - 1, prio);
    }
}

proof fn lemma_pick_none(s: sched::Sched, hart: u64, n: int)
    requires
        0 <= n <= 32,
        forall|p: int| 0 <= p < 32 ==> (#[trigger] s.queues[hart][p]).len() == 0,
    ensures
        s.pick(hart, n) is None,
    decreases n,
{
    if n > 0 {
        assert(s.queues[hart][n - 1].len() == 0);
        lemma_pick_none(s, hart, n - 1);
    }
}

proof fn lemma_rotated_below(s: sched::Sched, hart: u64, prio: i8, n: int)
    requires
        s.wf(),
        s.valid(hart, prio),
        s.at(hart, prio).len() > 0,
        s.below(n),
    ensures
        s.rotated(hart, prio).below(n),
        s.rotated(hart, prio).wf(),
        s.rotated(hart, prio).like(s),
{
    let q = s.at(hart, prio);
    sched::lemma_set(s, hart, prio, q.subrange(1, q.len() as int).push(q[0]));
    let after = s.rotated(hart, prio);
    let threads = s.at(hart, prio);
    assert(s.queues[hart][prio as int][0] < n);
    assert forall|h: u64, p: int, i: int|
        after.has(h) && 0 <= p < 32 && 0 <= i < after.queues[h][p].len() implies (
    #[trigger] after.queues[h][p][i]) < n by {
        if h == hart && p == prio {
            if i < threads.len() - 1 {
                assert(s.queues[h][p][i + 1] < n);
            }
        } else {
            assert(s.queues[h][p][i] < n);
        }
    }
}

/// A thread that a hart has picked runs there, and was among those that could
/// run.
pub proof fn law_scheduled_thread_runs(st: State)
    requires
        st.wf(),
    ensures
        scheduled(st).1 matches Decision::Run(t) ==> {
            &&& st.state(t) is Runnable
            &&& t < st.threads.len()
            &&& scheduled(st).0.state(t) is Running
            &&& scheduled(st).0.threads[t as int].private.hartid == st.hart
            &&& forall|o: int|
                0 <= o < st.threads.len() && o != t ==> (#[trigger] scheduled(st).0.threads[o])
                    == st.threads[o]
        },
        scheduled(st).1 is Again ==> scheduled(st).0.threads == st.threads,
{
    lemma_picked_below(st, 32);
    assert(st.sched.idle.dom().contains(st.hart));
}

proof fn lemma_picked_below(st: State, n: int)
    requires
        st.wf(),
        0 <= n <= 32,
    ensures
        st.sched.pick(st.hart, n) matches Some((t, p)) ==> t < st.threads.len() && 0 <= p < n,
    decreases n,
{
    if n > 0 {
        lemma_picked_below(st, n - 1);
        if st.sched.queues[st.hart][n - 1].len() > 0 {
            assert(st.sched.queues[st.hart][n - 1][0] < st.threads.len());
        }
    }
}

/// A hart runs its idle thread only while no other thread is in its run queues.
pub proof fn law_idle_only_without_work(st: State)
    requires
        st.wf(),
        st.sched.pick(st.hart, 32) is None,
    ensures
        forall|p: int| 0 <= p < 32 ==> (#[trigger] st.sched.queues[st.hart][p]).len() == 0,
{
    assert forall|p: int| 0 <= p < 32 implies (#[trigger] st.sched.queues[st.hart][p]).len()
        == 0 by {
        lemma_none_picked(st.sched, st.hart, 32, p);
    }
}

proof fn lemma_none_picked(s: sched::Sched, hart: u64, n: int, p: int)
    requires
        0 <= p < n,
        s.pick(hart, n) is None,
    ensures
        s.queues[hart][p].len() == 0,
    decreases n,
{
    if n - 1 > p {
        lemma_none_picked(s, hart, n - 1, p);
    }
}

/// Threads take turns: of the highest priority `p` that has threads, the first runs if it
/// can, and is behind the others of that priority then. What is at the other priorities
/// stays. Without any thread the idle one runs, and the hart is idle.
#[verifier::spinoff_prover]
#[verifier::rlimit(50)]
pub proof fn law_threads_take_turns(st: State, p: int)
    requires
        st.wf(),
        0 <= p < 32,
        forall|h: int| p < h < 32 ==> (#[trigger] st.sched.queues[st.hart][h]).len() == 0,
    ensures
        ({
            let queue = st.sched.queues[st.hart][p];
            let after = scheduled(st).0.sched;
            &&& queue.len() > 0 && st.threads[queue[0] as int].private.state is Runnable ==> {
                &&& scheduled(st).1 == Decision::Run(queue[0])
                &&& after.queues[st.hart][p].len() == queue.len()
                &&& forall|i: int|
                    0 <= i < queue.len() - 1 ==> (#[trigger] after.queues[st.hart][p][i])
                        == queue[i + 1]
                &&& after.queues[st.hart][p][queue.len() - 1] == queue[0]
                &&& forall|o: int|
                    0 <= o < 32 && o != p ==> (#[trigger] after.queues[st.hart][o])
                        == st.sched.queues[st.hart][o]
                &&& forall|h: u64|
                    h != st.hart ==> (#[trigger] after.queues[h]) == st.sched.queues[h]
                &&& after.bitmap == st.sched.bitmap
            }
            &&& queue.len() > 0 && !(st.threads[queue[0] as int].private.state is Runnable)
                ==> scheduled(st).1 is Again
            &&& p == 0 && queue.len() == 0 && st.threads[st.sched.idle[st.hart] as int].private.state is Runnable
                ==> {
                &&& scheduled(st).1 == Decision::Run(st.sched.idle[st.hart])
                &&& after.queues == st.sched.queues
                &&& after.bitmap & (1u64 << st.hart) != 0
            }
        }),
{
    sched::law_first_of_the_highest(st.sched, st.hart, 32);
    if st.hart < 63 {
        sched::law_idle_bitmap(st.sched, st.hart, 63);
    } else if st.hart == 63 {
        sched::law_idle_bitmap(st.sched, st.hart, 0);
    }
}

/// A runnable thread whose priority has changed is moved to the line of its new priority: to
/// the front of it where that is higher, and to the back of it where it is lower. A thread
/// that is not runnable is in no line, and stays out of them.
#[verifier::spinoff_prover]
#[verifier::rlimit(50)]
pub proof fn law_lines_follow_priorities(st: State, t: usize, old_prio: i8, hart: u64, other: usize)
    requires
        st.sched.wf(),
        t < st.threads.len(),
        st.sched.valid(hart, old_prio),
        st.sched.valid(hart, st.level(t)),
        other != t,
    ensures
        ({
            let level = st.level(t);
            let after = requeued_local(st, t, old_prio, hart);
            let was = st.sched.queues[hart];
            let now = after.sched.queues[hart];
            &&& after.threads == st.threads
            &&& level == old_prio || !(st.threads[t as int].private.state is Runnable) ==> after
                == st
            &&& level != old_prio && st.threads[t as int].private.state is Runnable ==> {
                &&& !now[old_prio as int].contains(t)
                &&& now[old_prio as int].contains(other) <==> was[old_prio as int].contains(other)
                &&& now[level as int].len() == was[level as int].len() + 1
                &&& level > old_prio ==> now[level as int][0] == t
                &&& level < old_prio ==> now[level as int].last() == t
            }
        }),
{
    super::capability::wait_queue::law_without(st.sched.queues[hart][old_prio as int], t);
}

} // verus!
