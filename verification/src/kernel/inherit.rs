//! Priority inheritance: a thread runs at no lower a priority than those that
//! wait for it.

use vstd::prelude::*;

use super::capability::thread::{HartMask, Thread, ThreadPriorities, ThreadState};
use super::capability::wait_queue;
use super::capability::wait_queue::{Queue, WaitQueue};
use super::state;
use super::state::{Kernel, State};

verus! {

/// The kernel together with what a change of priorities asks for: whether the
/// current hart has to reschedule, and which other harts have to.
#[verifier::ext_equal]
pub struct Effect {
    pub st: State,
    pub resched: bool,
    pub mask: u64,
}

/// After a thread that waits has been moved, in its queue, from one priority to
/// another.
pub open spec fn requeued(st: State, t: usize, old_prio: i8, new_prio: i8) -> State {
    let q = st.blocked_on(t)->0;
    st.set_queue(q, st.queues[q as int].remove(old_prio, t).insert(new_prio, t))
}

/// After a hart has been asked to reschedule.
pub open spec fn kicked(e: Effect, hart: u64) -> Effect {
    if e.st.hart == hart {
        Effect { resched: true, ..e }
    } else {
        Effect { mask: e.mask | (1u64 << hart), ..e }
    }
}

/// After the priority at which a thread runs has changed, without regard to
/// those that it waits for: a running thread that has become less important
/// makes its hart reschedule; one that can run is moved to the run queue of its
/// new priority, and makes its hart reschedule if it has become more important;
/// one that waits is moved in its queue.
pub open spec fn changed(e: Effect, t: usize, old_prio: i8, cur_prio: i8) -> Effect {
    let private = e.st.threads[t as int].private;
    match private.state {
        ThreadState::Running => if cur_prio < old_prio {
            kicked(e, private.hartid)
        } else {
            e
        },
        ThreadState::Runnable => {
            let sched = e.st.sched.removed(private.hartid, old_prio, t);
            if cur_prio > old_prio {
                let sched = sched.pushed_front(private.hartid, cur_prio, t, e.st.hart);
                kicked(Effect { st: e.st.set_sched(sched), ..e }, private.hartid)
            } else {
                let sched = sched.pushed_back(private.hartid, cur_prio, t, e.st.hart);
                Effect { st: e.st.set_sched(sched), ..e }
            }
        },
        ThreadState::Blocking => if e.st.blocked_on(t) is Some {
            Effect { st: requeued(e.st, t, old_prio, cur_prio), ..e }
        } else {
            e
        },
        _ => e,
    }
}

/// After a thread has inherited a priority, at most 32.
pub open spec fn inherited(e: Effect, t: usize, prio: i8) -> Effect {
    let prio = if prio > 32 {
        32i8
    } else {
        prio
    };
    let st = e.st.set_prio(t, ThreadPriorities { inherited_prio: prio, ..e.st.prio(t) });
    if st.level(t) == e.st.level(t) {
        Effect { st, ..e }
    } else {
        changed(Effect { st, ..e }, t, e.st.level(t), st.level(t))
    }
}

/// The highest priority in the queue in which a thread is; -1 if it is in none.
pub open spec fn queue_level(st: State, t: usize) -> i8 {
    match st.blocked_on(t) {
        Some(q) => st.queues[q as int].highest(),
        None => (-1) as i8,
    }
}

/// The highest one of a priority and those of the first `n` of the queues whose
/// threads wait for a thread.
pub open spec fn pressed(st: State, t: usize, n: int, prio: i8) -> i8
    decreases n,
{
    if n <= 0 {
        prio
    } else {
        let before = pressed(st, t, n - 1, prio);
        let queue = st.queues[st.blocking[t as int][n - 1] as int].highest();
        if before > queue {
            before
        } else {
            queue
        }
    }
}

/// The priority that a thread is to inherit after the highest priority of
/// those that wait in one queue for it has changed, while `inherited` is what it
/// inherits; `None` if that is the same as before. If the priority dropped but
/// had been lower than what is inherited anyway, that came from another queue.
/// Otherwise all the queues have to be looked at.
pub open spec fn to_inherit(
    st: State,
    t: usize,
    inherited: i8,
    old_prio: i8,
    new_prio: i8,
) -> Option<i8> {
    if new_prio < old_prio {
        let prio = pressed(st, t, st.blocking[t as int].len() as int, new_prio);
        if old_prio < inherited || prio == inherited {
            None
        } else {
            Some(prio)
        }
    } else if new_prio <= inherited {
        None
    } else {
        Some(new_prio)
    }
}

/// After the highest priority of those that wait for a thread has changed. If
/// with it the highest priority of the queue in which the thread itself is
/// changes, that is handed on to the owner of that queue, and so forth.
///
/// Each time that this is handed on, a priority has come to have a class, so it
/// ends.
pub open spec fn pressure(
    e: Effect,
    t: usize,
    inherited_prio: i8,
    old_prio: i8,
    new_prio: i8,
) -> Effect
    decreases e.st.absent(),
{
    match to_inherit(e.st, t, inherited_prio, old_prio, new_prio) {
        None => e,
        Some(prio) => {
            let after = inherited(e, t, prio);
            let old_queue = queue_level(e.st, t);
            let new_queue = queue_level(after.st, t);
            if old_queue == new_queue || after.st.absent() >= e.st.absent() {
                after
            } else {
                let q = after.st.blocked_on(t)->0;
                match after.st.queues[q as int].owner {
                    Some(owner) => pressure(after, owner, inherited_prio, old_queue, new_queue),
                    None => pressure(after, t, inherited_prio, old_prio, prio),
                }
            }
        },
    }
}

/// After a queue has changed whose highest priority was `old_prio`: the change
/// is handed on to its owner.
pub open spec fn waiters_changed(e: Effect, q: usize, old_prio: i8) -> Effect {
    let queue = e.st.queues[q as int];
    match queue.owner {
        Some(owner) => if queue.highest() != old_prio {
            pressure(e, owner, e.st.prio(owner).inherited_prio, old_prio, queue.highest())
        } else {
            e
        },
        None => e,
    }
}

/// After the priority of a thread that waits has changed.
pub open spec fn wait_changed(st: State, t: usize, old_prio: i8, new_prio: i8) -> State {
    let after = requeued(st, t, old_prio, new_prio);
    waiters_changed(
        Effect { st: after, resched: false, mask: 0 },
        st.blocked_on(t)->0,
        old_prio,
    ).st
}

/// After a thread has been given other priorities of its own.
pub open spec fn with_prio(st: State, t: usize, prio: ThreadPriorities) -> State {
    let after = st.set_prio(t, prio);
    if st.blocked_on(t) is Some {
        wait_changed(after, t, st.level(t), after.level(t))
    } else {
        after
    }
}

proof fn lemma_absent_classes(
    before: Seq<Option<Seq<usize>>>,
    after: Seq<Option<Seq<usize>>>,
    n: int,
)
    requires
        0 <= n <= before.len(),
        before.len() == after.len(),
        forall|c: int| 0 <= c < n && (#[trigger] before[c]) is Some ==> after[c] is Some,
    ensures
        wait_queue::absent(after, n) <= wait_queue::absent(before, n),
        (exists|c: int| 0 <= c < n && (#[trigger] before[c]) is None && after[c] is Some)
            ==> wait_queue::absent(after, n) < wait_queue::absent(before, n),
        (forall|c: int| 0 <= c < n ==> ((#[trigger] before[c]) is Some <==> after[c] is Some))
            ==> wait_queue::highest_of(after, n) == wait_queue::highest_of(before, n),
    decreases n,
{
    if n > 0 {
        lemma_absent_classes(before, after, n - 1);
    }
}

/// To move a thread in a queue keeps the classes that there are, and the
/// highest priority changes only where a class is added.
pub proof fn lemma_moved(queue: Queue, t: usize, old_prio: i8, new_prio: i8, n: int)
    requires
        queue.wf(),
        queue.has(old_prio),
        queue.below(n),
        t < n,
    ensures
        queue.remove(old_prio, t).wf(),
        queue.remove(old_prio, t).has(new_prio) == queue.has(new_prio),
        ({
            let after = queue.remove(old_prio, t).insert(new_prio, t);
            &&& after.wf()
            &&& after.below(n)
            &&& after.has(new_prio)
            &&& after.owner == queue.owner
            &&& forall|p: i8| #[trigger] queue.has(p) ==> after.has(p)
            &&& forall|c: int|
                0 <= c < 256 && c != wait_queue::class_of(new_prio) ==> ((
                #[trigger] after.classes[c]) is Some <==> queue.classes[c] is Some)
            &&& after.absent() <= queue.absent()
            &&& after.highest() != queue.highest() ==> after.absent() < queue.absent()
        }),
{
    let less = queue.remove(old_prio, t);
    let after = less.insert(new_prio, t);
    let old_class = queue.classes[wait_queue::class_of(old_prio)]->0;
    wait_queue::law_without(old_class, t);
    assert(less.below(n)) by {
        assert forall|c: int, i: int|
            0 <= c < less.classes.len() && less.classes[c] is Some && 0 <= i
                < less.classes[c]->0.len() implies (#[trigger] less.classes[c]->0[i]) < n by {
            if c == wait_queue::class_of(old_prio) {
                let x = less.classes[c]->0[i];
                assert(wait_queue::without(old_class, t).contains(x));
                assert(old_class.contains(x));
                let k = choose|k: int| 0 <= k < old_class.len() && old_class[k] == x;
                assert(queue.classes[c]->0[k] < n);
            } else {
                assert(queue.classes[c]->0[i] < n);
            }
        }
    }
    assert(after.below(n)) by {
        assert forall|c: int, i: int|
            0 <= c < after.classes.len() && after.classes[c] is Some && 0 <= i
                < after.classes[c]->0.len() implies (#[trigger] after.classes[c]->0[i]) < n by {
            if c == wait_queue::class_of(new_prio) {
                if less.classes[c] is Some && i < less.classes[c]->0.len() {
                    assert(less.classes[c]->0[i] < n);
                }
            } else {
                assert(less.classes[c]->0[i] < n);
            }
        }
    }
    lemma_absent_classes(queue.classes, after.classes, 256);
    if !(exists|c: int|
        0 <= c < 256 && (#[trigger] queue.classes[c]) is None && after.classes[c] is Some) {
        assert forall|c: int| 0 <= c < 256 implies ((#[trigger] queue.classes[c]) is Some
            <==> after.classes[c] is Some) by {}
    }
}

/// To put a thread into a queue keeps the classes that there are.
pub proof fn lemma_inserted(queue: Queue, t: usize, prio: i8, n: int)
    requires
        queue.wf(),
        queue.below(n),
        t < n,
    ensures
        ({
            let after = queue.insert(prio, t);
            &&& after.wf()
            &&& after.below(n)
            &&& after.has(prio)
            &&& after.owner == queue.owner
            &&& forall|p: i8| #[trigger] queue.has(p) ==> after.has(p)
            &&& forall|c: int|
                0 <= c < 256 && c != wait_queue::class_of(prio) ==> (#[trigger] after.classes[c])
                    == queue.classes[c]
        }),
{
    let after = queue.insert(prio, t);
    assert forall|c: int, i: int|
        0 <= c < after.classes.len() && after.classes[c] is Some && 0 <= i
            < after.classes[c]->0.len() implies (#[trigger] after.classes[c]->0[i]) < n by {
        if c == wait_queue::class_of(prio) {
            if queue.classes[c] is Some && i < queue.classes[c]->0.len() {
                assert(queue.classes[c]->0[i] < n);
            }
        } else {
            assert(queue.classes[c]->0[i] < n);
        }
    }
}

/// Whether a change of priority of a thread can be carried out.
pub open spec fn changeable(st: State, t: usize, old_prio: i8, cur_prio: i8) -> bool {
    let private = st.threads[t as int].private;
    match private.state {
        ThreadState::Running => st.sched.has(private.hartid),
        ThreadState::Runnable => st.sched.valid(private.hartid, old_prio) && st.sched.valid(
            private.hartid,
            cur_prio,
        ),
        ThreadState::Blocking => st.blocked_on(t) matches Some(q) ==> st.queues[q as int].has(
            old_prio,
        ),
        _ => true,
    }
}

/// A change of priority keeps all that is referred to in existence.
proof fn lemma_changed(e: Effect, t: usize, old_prio: i8, cur_prio: i8)
    requires
        e.st.wf(),
        t < e.st.threads.len(),
        changeable(e.st, t, old_prio, cur_prio),
    ensures
        changed(e, t, old_prio, cur_prio).st.wf(),
{
    let st = e.st;
    let private = st.threads[t as int].private;
    let n = st.threads.len() as int;
    match private.state {
        ThreadState::Runnable => {
            super::sched::lemma_below(st.sched, private.hartid, old_prio, t, st.hart, n);
            let sched = st.sched.removed(private.hartid, old_prio, t);
            super::sched::lemma_below(sched, private.hartid, cur_prio, t, st.hart, n);
            state::lemma_set_sched(
                st,
                sched.pushed_front(private.hartid, cur_prio, t, st.hart),
            );
            state::lemma_set_sched(st, sched.pushed_back(private.hartid, cur_prio, t, st.hart));
        },
        ThreadState::Blocking => if st.blocked_on(t) is Some {
            lemma_requeued(st, t, old_prio, cur_prio);
        },
        _ => {},
    }
}

/// To move a thread in its queue keeps all that is referred to in existence.
proof fn lemma_requeued(st: State, t: usize, old_prio: i8, new_prio: i8)
    requires
        st.wf(),
        t < st.threads.len(),
        st.blocked_on(t) is Some,
        st.queues[st.blocked_on(t)->0 as int].has(old_prio),
    ensures
        requeued(st, t, old_prio, new_prio).wf(),
        requeued(st, t, old_prio, new_prio).absent() <= st.absent(),
        queue_level(requeued(st, t, old_prio, new_prio), t) != queue_level(st, t)
            ==> requeued(st, t, old_prio, new_prio).absent() < st.absent(),
{
    assert(st.thread_wf(t as int));
    let q = st.blocked_on(t)->0;
    let queue = st.queues[q as int];
    let after = queue.remove(old_prio, t).insert(new_prio, t);
    lemma_moved(queue, t, old_prio, new_prio, st.threads.len() as int);
    state::lemma_set_queue(st, q, after);
    state::lemma_absent_update(st.queues, q as int, after, st.queues.len() as int);
}

/// What a thread that is given priorities needs, and what becomes of it.
proof fn lemma_inherited(e: Effect, t: usize, prio: i8)
    requires
        e.st.wf(),
        e.st.linked(),
        t < e.st.threads.len(),
        e.st.steady(t),
        prio < 32,
    ensures
        ({
            let st = e.st.set_prio(t, ThreadPriorities { inherited_prio: prio, ..e.st.prio(t) });
            let after = inherited(e, t, prio).st;
            &&& st.wf()
            &&& changeable(st, t, e.st.level(t), st.level(t))
            &&& after.wf()
            &&& after.linked()
            &&& after.absent() <= e.st.absent()
            &&& queue_level(after, t) != queue_level(e.st, t) ==> after.absent() < e.st.absent()
            &&& after.threads.len() == e.st.threads.len()
            &&& after.blocked_on(t) == e.st.blocked_on(t)
            &&& after.steady(t)
        }),
{
    let p = ThreadPriorities { inherited_prio: prio, ..e.st.prio(t) };
    let st = e.st.set_prio(t, p);
    assert(e.st.thread_wf(t as int));
    assert(e.st.tame(t as int));
    assert(e.st.waits(t as int));
    state::lemma_set_thread(e.st, t, st.threads[t as int]);
    let old_prio = e.st.level(t);
    let new_prio = st.level(t);
    assert(changeable(st, t, old_prio, new_prio));
    let after = inherited(e, t, prio).st;
    if old_prio != new_prio {
        lemma_changed(Effect { st, ..e }, t, old_prio, new_prio);
        if st.state(t) is Blocking && st.blocked_on(t) is Some {
            let q = st.blocked_on(t)->0;
            lemma_requeued(st, t, old_prio, new_prio);
            lemma_moved(
                st.queues[q as int],
                t,
                old_prio,
                new_prio,
                st.threads.len() as int,
            );
        }
    }
    assert(after.threads == st.threads);
    assert forall|i: int| 0 <= i < after.threads.len() implies #[trigger] after.tame(i) by {
        assert(e.st.tame(i));
    }
    assert forall|i: int| 0 <= i < after.threads.len() implies #[trigger] after.waits(i) by {
        assert(e.st.waits(i));
        assert(e.st.thread_wf(i));
        if i != t && after.threads[i].blocked_on_wq is Some {
            let q = after.threads[i].blocked_on_wq->0;
            assert(e.st.queues[q as int].has(e.st.threads[i].private.prio.level()));
        }
    }
    assert forall|q: int| 0 <= q < after.queues.len() implies #[trigger] after.queue_tame(q) by {
        assert(e.st.queue_tame(q));
        assert(after.queues[q].owner == e.st.queues[q].owner);
        if after.queues[q].owner is Some {
            let o = after.queues[q].owner->0;
            assert(e.st.steady(o));
        }
        assert forall|c: int| 160 <= c < 256 implies (#[trigger] after.queues[q].classes[c])
            is None by {
            assert(e.st.queues[q].classes[c] is None);
        }
    }
}

impl Kernel {
    /// Move a thread that waits, in its queue, from one priority to another.
    fn requeue(&mut self, t: usize, old_prio: i8, new_prio: i8)
        requires
            old(self)@.wf(),
            t < old(self)@.threads.len(),
            old(self)@.blocked_on(t) is Some,
            old(self)@.queues[old(self)@.blocked_on(t)->0 as int].has(old_prio),
        ensures
            final(self)@ == requeued(old(self)@, t, old_prio, new_prio),
            final(self)@.wf(),
    {
        proof {
            lemma_requeued(self@, t, old_prio, new_prio);
            assert(self@.thread_wf(t as int));
        }
        if let Some(q) = self.threads[t].blocked_on_wq {
            self.queue_remove(q, old_prio, t);
            self.queue_insert(q, new_prio, t);
            assert(self@ =~= requeued(old(self)@, t, old_prio, new_prio));
        }
    }

    /// Carry out a change of the priority of a thread, without regard to those
    /// that it waits for.
    pub(crate) fn change_priority(
        &mut self,
        t: usize,
        old_prio: i8,
        cur_prio: i8,
        local_resched: &mut bool,
        accum_cpu_mask: &mut HartMask,
    )
        requires
            old(self)@.wf(),
            t < old(self)@.threads.len(),
            changeable(old(self)@, t, old_prio, cur_prio),
        ensures
            (Effect { st: final(self)@, resched: *final(local_resched), mask: final(accum_cpu_mask).0 })
                == changed(
                Effect {
                    st: old(self)@,
                    resched: *old(local_resched),
                    mask: old(accum_cpu_mask).0,
                },
                t,
                old_prio,
                cur_prio,
            ),
            final(self)@.wf(),
    {
        proof {
            lemma_changed(
                Effect { st: self@, resched: *local_resched, mask: accum_cpu_mask.0 },
                t,
                old_prio,
                cur_prio,
            );
            assert(self@.thread_wf(t as int));
        }
        let private = self.threads[t].private;
        let hartid: u64 = private.hartid;
        match private.state {
            ThreadState::Running => {
                if cur_prio < old_prio {
                    self.kick(hartid, local_resched, accum_cpu_mask);
                }
            },
            ThreadState::Runnable => {
                self.sched_remove(hartid, old_prio, t);
                if cur_prio > old_prio {
                    self.sched_push_front(hartid, cur_prio, t);
                    self.kick(hartid, local_resched, accum_cpu_mask);
                } else {
                    self.sched_push_back(hartid, cur_prio, t);
                }
            },
            ThreadState::Blocking => {
                if self.threads[t].blocked_on_wq.is_some() {
                    self.requeue(t, old_prio, cur_prio);
                }
            },
            _ => {},
        }
    }

    /// Ask a hart to reschedule.
    fn kick(&self, hartid: u64, local_resched: &mut bool, accum_cpu_mask: &mut HartMask)
        requires
            hartid < 64,
        ensures
            (Effect { st: self@, resched: *final(local_resched), mask: final(accum_cpu_mask).0 })
                == kicked(
                Effect { st: self@, resched: *old(local_resched), mask: old(accum_cpu_mask).0 },
                hartid,
            ),
    {
        if self.hart == hartid {
            *local_resched = true;
        } else {
            accum_cpu_mask.0 = accum_cpu_mask.0 | (1u64 << hartid);
        }
    }

    /// Let a thread inherit a priority.
    fn inherit_priority(
        &mut self,
        t: usize,
        prio: i8,
        local_resched: &mut bool,
        accum_cpu_mask: &mut HartMask,
    )
        requires
            old(self)@.wf(),
            old(self)@.linked(),
            t < old(self)@.threads.len(),
            old(self)@.steady(t),
            prio < 32,
        ensures
            (Effect { st: final(self)@, resched: *final(local_resched), mask: final(accum_cpu_mask).0 })
                == inherited(
                Effect {
                    st: old(self)@,
                    resched: *old(local_resched),
                    mask: old(accum_cpu_mask).0,
                },
                t,
                prio,
            ),
            final(self)@.wf(),
            final(self)@.linked(),
    {
        proof {
            lemma_inherited(
                Effect { st: self@, resched: *local_resched, mask: accum_cpu_mask.0 },
                t,
                prio,
            );
            assert(self@.thread_wf(t as int));
        }
        let mut prios = self.threads[t].private.prio;
        let old_eff_prio: i8 = prios.effective();
        prios.inherited_prio = if prio > 32 {
            32
        } else {
            prio
        };
        let eff_prio: i8 = prios.effective();
        self.set_prio(t, prios);
        if old_eff_prio == eff_prio {
            // The thread runs at the same priority: nothing else to do.
            return ;
        }
        self.change_priority(t, old_eff_prio, eff_prio, local_resched, accum_cpu_mask);
    }
}

/// In queues in which all wait at priorities below 32, so is the highest one.
proof fn lemma_highest_below(classes: Seq<Option<Seq<usize>>>, n: int)
    requires
        0 <= n <= 256,
        classes.len() == 256,
        forall|c: int| 160 <= c < 256 ==> (#[trigger] classes[c]) is None,
    ensures
        wait_queue::highest_of(classes, n) < 32,
    decreases n,
{
    if n > 0 {
        lemma_highest_below(classes, n - 1);
    }
}

/// And so is what a thread is to inherit.
proof fn lemma_pressed_below(st: State, t: usize, n: int, prio: i8)
    requires
        st.wf(),
        st.linked(),
        t < st.threads.len(),
        0 <= n <= st.blocking[t as int].len(),
        prio < 32,
    ensures
        pressed(st, t, n, prio) < 32,
    decreases n,
{
    if n > 0 {
        lemma_pressed_below(st, t, n - 1, prio);
        let q = st.blocking[t as int][n - 1];
        assert(st.queue_tame(q as int));
        lemma_highest_below(st.queues[q as int].classes, 256);
    }
}

impl Kernel {
    /// The highest priority in the queue in which a thread is; -1 if it is in
    /// none.
    fn blocked_queue_prio(&self, t: usize) -> (r: i8)
        requires
            self@.wf(),
            t < self@.threads.len(),
        ensures
            r == queue_level(self@, t),
    {
        assert(self@.thread_wf(t as int));
        match self.threads[t].blocked_on_wq {
            Some(q) => self.queue_prio(q),
            None => -1,
        }
    }

    /// The highest one of a priority and those of the queues whose threads wait
    /// for a thread.
    fn blocking_prio(&self, t: usize, prio: i8) -> (r: i8)
        requires
            self@.wf(),
            t < self@.threads.len(),
        ensures
            r == pressed(self@, t, self@.blocking[t as int].len() as int, prio),
    {
        let mut highest: i8 = prio;
        let mut i: usize = 0;
        assert(self@.blocking[t as int] == self.blocking@[t as int]@);
        while i < self.blocking[t].len()
            invariant
                self@.wf(),
                t < self@.threads.len(),
                self@.blocking[t as int] == self.blocking@[t as int]@,
                i <= self@.blocking[t as int].len(),
                highest == pressed(self@, t, i as int, prio),
            decreases self@.blocking[t as int].len() - i,
        {
            let q: usize = self.blocking[t][i];
            assert(self@.blocking[t as int][i as int] == q);
            let queue: i8 = self.queue_prio(q);
            if queue >= highest {
                highest = queue;
            }
            i += 1;
        }
        highest
    }

    /// The priority that a thread is to inherit after the highest priority of
    /// those that wait in one queue for it has changed; `None` if that is the
    /// same as before.
    fn priority_to_inherit(&self, t: usize, inherited_prio: i8, old_prio: i8, new_prio: i8) -> (r:
        Option<i8>)
        requires
            self@.wf(),
            t < self@.threads.len(),
        ensures
            r == to_inherit(self@, t, inherited_prio, old_prio, new_prio),
    {
        if new_prio < old_prio {
            // The maximum inherited priority must have come from a different
            // wait queue.
            if old_prio < inherited_prio {
                return None;
            }
            let prio: i8 = self.blocking_prio(t, new_prio);
            if prio == inherited_prio {
                return None;
            }
            Some(prio)
        } else {
            // The priority went up, but it's not greater than what is
            // inherited.
            if new_prio <= inherited_prio {
                return None;
            }
            Some(new_prio)
        }
    }
}

impl Thread {
    /// Hand on a change of the highest priority of those that wait, in one
    /// queue, for the thread `this`. Returns whether the current hart has to
    /// reschedule; the other harts that have to are added to the mask.
    pub fn queue_pressure_changed(
        k: &mut Kernel,
        this: usize,
        old_prio: i8,
        new_prio: i8,
        accum_cpu_mask: &mut HartMask,
    ) -> (r: bool)
        requires
            old(k)@.wf(),
            old(k)@.linked(),
            this < old(k)@.threads.len(),
            old(k)@.steady(this),
            new_prio < 32,
        ensures
            (Effect { st: final(k)@, resched: r, mask: final(accum_cpu_mask).0 }) == pressure(
                Effect { st: old(k)@, resched: false, mask: old(accum_cpu_mask).0 },
                this,
                old(k)@.prio(this).inherited_prio,
                old_prio,
                new_prio,
            ),
            final(k)@.wf(),
            final(k)@.linked(),
    {
        let inherited_prio: i8 = k.threads[this].private.prio.inherited_prio();
        let mut local_resched: bool = false;
        let mut t: usize = this;
        let mut from: i8 = old_prio;
        let mut to: i8 = new_prio;
        let ghost result = pressure(
            Effect { st: k@, resched: false, mask: accum_cpu_mask.0 },
            this,
            inherited_prio,
            old_prio,
            new_prio,
        );
        loop
            invariant
                k@.wf(),
                k@.linked(),
                t < k@.threads.len(),
                k@.steady(t),
                to < 32,
                result == pressure(
                    Effect { st: k@, resched: local_resched, mask: accum_cpu_mask.0 },
                    t,
                    inherited_prio,
                    from,
                    to,
                ),
                inherited_prio == old(k)@.prio(this).inherited_prio,
                result == pressure(
                    Effect { st: old(k)@, resched: false, mask: old(accum_cpu_mask).0 },
                    this,
                    old(k)@.prio(this).inherited_prio,
                    old_prio,
                    new_prio,
                ),
            decreases k@.absent(),
        {
            let ghost e = Effect { st: k@, resched: local_resched, mask: accum_cpu_mask.0 };
            let prio: i8 = match k.priority_to_inherit(t, inherited_prio, from, to) {
                Some(prio) => prio,
                None => {
                    return local_resched;
                },
            };
            proof {
                lemma_pressed_below(k@, t, k@.blocking[t as int].len() as int, to);
                lemma_inherited(e, t, prio);
            }
            let old_queue_prio: i8 = k.blocked_queue_prio(t);
            k.inherit_priority(t, prio, &mut local_resched, accum_cpu_mask);
            let new_queue_prio: i8 = k.blocked_queue_prio(t);
            if old_queue_prio == new_queue_prio {
                return local_resched;
            }
            assert(k@.thread_wf(t as int));
            if let Some(q) = k.threads[t].blocked_on_wq {
                assert(k@.queues[q as int] == k.queues@[q as int]@);
                assert(k@.queue_tame(q as int));
                match k.queues[q].owner {
                    Some(owner) => {
                        proof {
                            lemma_highest_below(k@.queues[q as int].classes, 256);
                        }
                        t = owner;
                        from = old_queue_prio;
                        to = new_queue_prio;
                    },
                    None => {
                        to = prio;
                    },
                }
            }
        }
    }

    /// Move the thread, which waits, in its queue from one priority to another,
    /// and hand the change on if `propagate` says so.
    pub fn wait_queue_priority_changed(
        k: &mut Kernel,
        this: usize,
        old_prio: i8,
        new_prio: i8,
        propagate: bool,
    )
        requires
            old(k)@.wf(),
            this < old(k)@.threads.len(),
            old(k)@.blocked_on(this) is Some,
            old(k)@.queues[old(k)@.blocked_on(this)->0 as int].has(old_prio),
            propagate ==> requeued(old(k)@, this, old_prio, new_prio).linked(),
        ensures
            propagate ==> final(k)@ == wait_changed(old(k)@, this, old_prio, new_prio),
            propagate ==> final(k)@.linked(),
            !propagate ==> final(k)@ == requeued(old(k)@, this, old_prio, new_prio),
            final(k)@.wf(),
            alike(old(k)@, final(k)@),
    {
        proof {
            if propagate {
                lemma_wait_changed_alike(k@, this, old_prio, new_prio);
            }
            assert(k@.thread_wf(this as int));
        }
        k.requeue(this, old_prio, new_prio);
        assert(k@.thread_wf(this as int));
        if propagate {
            if let Some(q) = k.threads[this].blocked_on_wq {
                WaitQueue::waiters_changed(k, q, old_prio);
            }
        }
    }
}

impl WaitQueue {
    /// Hand on to the owner of a queue that the queue has changed, if its
    /// highest priority is no longer `old_prio`. Returns whether the current
    /// hart has to reschedule.
    pub fn waiters_changed(k: &mut Kernel, this: usize, old_prio: i8) -> (r: bool)
        requires
            old(k)@.wf(),
            old(k)@.linked(),
            this < old(k)@.queues.len(),
        ensures
            final(k)@ == waiters_changed(
                Effect { st: old(k)@, resched: false, mask: 0 },
                this,
                old_prio,
            ).st,
            r == waiters_changed(
                Effect { st: old(k)@, resched: false, mask: 0 },
                this,
                old_prio,
            ).resched,
            final(k)@.wf(),
            final(k)@.linked(),
    {
        assert(k@.queues[this as int] == k.queues@[this as int]@);
        assert(k@.queue_tame(this as int));
        if let Some(owner) = k.queues[this].owner {
            let new_prio: i8 = k.queue_prio(this);
            if new_prio != old_prio {
                proof {
                    lemma_highest_below(k@.queues[this as int].classes, 256);
                }
                let mut mask = HartMask(0);
                return Thread::queue_pressure_changed(k, owner, old_prio, new_prio, &mut mask);
            }
        }
        false
    }
}

/// Whether two states differ in nothing but the priorities that threads inherit
/// and the places of threads in queues and run queues.
pub open spec fn alike(a: State, b: State) -> bool {
    &&& a.names == b.names
    &&& a.blocking == b.blocking
    &&& a.notifications == b.notifications
    &&& a.endpoints == b.endpoints
    &&& a.handlers == b.handlers
    &&& a.pools == b.pools
    &&& a.jobs == b.jobs
    &&& a.mem == b.mem
    &&& a.hart == b.hart
    &&& a.layout == b.layout
    &&& a.code == b.code
    &&& a.next_tid == b.next_tid
    &&& a.threads.len() == b.threads.len()
    &&& a.queues.len() == b.queues.len()
    &&& b.sched.like(a.sched)
    &&& a.sched.idle == b.sched.idle
    &&& forall|t: int|
        0 <= t < a.threads.len() ==> #[trigger] b.threads[t] == like(
            a.threads[t],
            b.threads[t].private.prio.inherited_prio,
        )
    &&& forall|q: int|
        0 <= q < a.queues.len() ==> (#[trigger] b.queues[q]).owner == a.queues[q].owner
}

/// A thread that inherits another priority.
pub open spec fn like(thread: Thread, inherited_prio: i8) -> Thread {
    Thread {
        private: super::capability::thread::ThreadProtected {
            prio: ThreadPriorities { inherited_prio, ..thread.private.prio },
            ..thread.private
        },
        ..thread
    }
}

/// To hand on priorities changes nothing but the priorities that threads
/// inherit and the places of threads in queues and run queues.
pub proof fn law_pressure_is_local(
    e: Effect,
    t: usize,
    inherited_prio: i8,
    old_prio: i8,
    new_prio: i8,
)
    requires
        e.st.wf(),
        e.st.linked(),
        t < e.st.threads.len(),
        e.st.steady(t),
        new_prio < 32,
    ensures
        alike(e.st, pressure(e, t, inherited_prio, old_prio, new_prio).st),
    decreases e.st.absent(),
{
    match to_inherit(e.st, t, inherited_prio, old_prio, new_prio) {
        None => {},
        Some(prio) => {
            let after = inherited(e, t, prio);
            lemma_pressed_below(e.st, t, e.st.blocking[t as int].len() as int, new_prio);
            lemma_inherited(e, t, prio);
            assert(e.st.thread_wf(t as int));
            assert(alike(e.st, after.st));
            let old_queue = queue_level(e.st, t);
            let new_queue = queue_level(after.st, t);
            if old_queue != new_queue && after.st.absent() < e.st.absent() {
                let q = after.st.blocked_on(t)->0;
                assert(after.st.thread_wf(t as int));
                assert(after.st.queue_tame(q as int));
                lemma_highest_below(after.st.queues[q as int].classes, 256);
                match after.st.queues[q as int].owner {
                    Some(owner) => {
                        law_pressure_is_local(after, owner, inherited_prio, old_queue, new_queue);
                        lemma_alike(
                            e.st,
                            after.st,
                            pressure(after, owner, inherited_prio, old_queue, new_queue).st,
                        );
                    },
                    None => {
                        law_pressure_is_local(after, t, inherited_prio, old_prio, prio);
                        lemma_alike(
                            e.st,
                            after.st,
                            pressure(after, t, inherited_prio, old_prio, prio).st,
                        );
                    },
                }
            }
        },
    }
}

proof fn lemma_alike(a: State, b: State, c: State)
    requires
        alike(a, b),
        alike(b, c),
    ensures
        alike(a, c),
{
    assert forall|t: int| 0 <= t < a.threads.len() implies #[trigger] c.threads[t] == like(
        a.threads[t],
        c.threads[t].private.prio.inherited_prio,
    ) by {
        assert(b.threads[t] == like(a.threads[t], b.threads[t].private.prio.inherited_prio));
    }
    assert forall|q: int| 0 <= q < a.queues.len() implies (#[trigger] c.queues[q]).owner
        == a.queues[q].owner by {
        assert(b.queues[q].owner == a.queues[q].owner);
    }
}

/// A change of the priority of a thread that waits does not either.
pub proof fn lemma_wait_changed_alike(st: State, t: usize, old_prio: i8, new_prio: i8)
    requires
        st.wf(),
        t < st.threads.len(),
        st.blocked_on(t) is Some,
        st.queues[st.blocked_on(t)->0 as int].has(old_prio),
        requeued(st, t, old_prio, new_prio).linked(),
    ensures
        alike(st, wait_changed(st, t, old_prio, new_prio)),
{
    let after = requeued(st, t, old_prio, new_prio);
    let q = st.blocked_on(t)->0;
    let e = Effect { st: after, resched: false, mask: 0 };
    assert(st.thread_wf(t as int));
    lemma_requeued(st, t, old_prio, new_prio);
    assert(alike(st, after));
    let queue = after.queues[q as int];
    assert(after.queue_tame(q as int));
    lemma_highest_below(queue.classes, 256);
    if queue.owner is Some && queue.highest() != old_prio {
        let owner = queue.owner->0;
        law_pressure_is_local(
            e,
            owner,
            after.prio(owner).inherited_prio,
            old_prio,
            queue.highest(),
        );
    }
    assert(alike(after, wait_changed(st, t, old_prio, new_prio)));
    lemma_alike(st, after, wait_changed(st, t, old_prio, new_prio));
}

/// Whether priorities of their own can be given to a thread.
pub open spec fn givable(st: State, t: usize, prio: ThreadPriorities) -> bool {
    &&& -1 <= prio.base_prio <= 31
    &&& -4 <= prio.prio_boost <= 4
    &&& st.blocked_on(t) is Some ==> {
        &&& st.linked()
        &&& prio.base_prio + prio.prio_boost < 32
        &&& prio.inherited_prio < 32
    }
}

proof fn lemma_given(st: State, t: usize, prio: ThreadPriorities)
    requires
        st.wf(),
        t < st.threads.len(),
        givable(st, t, prio),
    ensures
        st.set_prio(t, prio).wf(),
        st.blocked_on(t) is Some ==> ({
            let given = st.set_prio(t, prio);
            let q = st.blocked_on(t)->0;
            &&& given.queues[q as int].has(st.level(t))
            &&& requeued(given, t, st.level(t), given.level(t)).linked()
        }),
        alike(st.set_prio(t, prio), with_prio(st, t, prio)),
{
    let given = st.set_prio(t, prio);
    assert(st.thread_wf(t as int));
    state::lemma_set_thread(st, t, given.threads[t as int]);
    if st.blocked_on(t) is Some {
        let q = st.blocked_on(t)->0;
        let from = st.level(t);
        let to = given.level(t);
        assert(st.waits(t as int));
        lemma_requeued(given, t, from, to);
        lemma_moved(given.queues[q as int], t, from, to, st.threads.len() as int);
        let after = requeued(given, t, from, to);
        assert forall|i: int| 0 <= i < after.threads.len() implies #[trigger] after.tame(i) by {
            assert(st.tame(i));
        }
        assert forall|i: int| 0 <= i < after.threads.len() implies #[trigger] after.waits(i) by {
            assert(st.waits(i));
            assert(st.thread_wf(i));
            if i != t && after.threads[i].blocked_on_wq is Some {
                let p = after.threads[i].blocked_on_wq->0;
                assert(st.queues[p as int].has(st.threads[i].private.prio.level()));
            }
        }
        assert forall|p: int| 0 <= p < after.queues.len() implies #[trigger] after.queue_tame(
            p,
        ) by {
            assert(st.queue_tame(p));
            assert(after.queues[p].owner == st.queues[p].owner);
            if after.queues[p].owner is Some {
                assert(st.steady(after.queues[p].owner->0));
            }
            assert forall|c: int| 160 <= c < 256 implies (#[trigger] after.queues[p].classes[c])
                is None by {
                assert(st.queues[p].classes[c] is None);
            }
        }
        lemma_wait_changed_alike(given, t, from, to);
    }
}

impl Kernel {
    /// Give a thread other priorities of its own.
    pub(crate) fn give_prio(&mut self, t: usize, prio: ThreadPriorities)
        requires
            old(self)@.wf(),
            t < old(self)@.threads.len(),
            givable(old(self)@, t, prio),
        ensures
            final(self)@ == with_prio(old(self)@, t, prio),
            final(self)@.wf(),
            alike(old(self)@.set_prio(t, prio), final(self)@),
    {
        proof {
            lemma_given(self@, t, prio);
            assert(self@.thread_wf(t as int));
        }
        let old_eff_prio: i8 = self.threads[t].private.prio.effective();
        let new_eff_prio: i8 = prio.effective();
        self.set_prio(t, prio);
        if self.threads[t].blocked_on_wq.is_some() {
            Thread::wait_queue_priority_changed(self, t, old_eff_prio, new_eff_prio, true);
        }
    }
}

impl Thread {
    /// Boost the priority of a thread by one step.
    pub fn prio_boost(k: &mut Kernel, this: usize)
        requires
            old(k)@.wf(),
            this < old(k)@.threads.len(),
            givable(old(k)@, this, old(k)@.prio(this).boosted()),
        ensures
            final(k)@ == with_prio(old(k)@, this, old(k)@.prio(this).boosted()),
            final(k)@.wf(),
            alike(old(k)@.set_prio(this, old(k)@.prio(this).boosted()), final(k)@),
    {
        Thread::prio_boost_dl(k, this);
    }

    /// Boost the priority of a thread by one step.
    pub fn prio_boost_dl(k: &mut Kernel, this: usize)
        requires
            old(k)@.wf(),
            this < old(k)@.threads.len(),
            givable(old(k)@, this, old(k)@.prio(this).boosted()),
        ensures
            final(k)@ == with_prio(old(k)@, this, old(k)@.prio(this).boosted()),
            final(k)@.wf(),
            alike(old(k)@.set_prio(this, old(k)@.prio(this).boosted()), final(k)@),
    {
        assert(k@.thread_wf(this as int));
        let mut prio = k.threads[this].private.prio;
        prio.boost();
        k.give_prio(this, prio);
    }

    /// Diminish the priority of a thread by one step.
    pub fn prio_diminish_dl(k: &mut Kernel, this: usize)
        requires
            old(k)@.wf(),
            this < old(k)@.threads.len(),
            givable(old(k)@, this, old(k)@.prio(this).diminished()),
        ensures
            final(k)@ == with_prio(old(k)@, this, old(k)@.prio(this).diminished()),
            final(k)@.wf(),
            alike(old(k)@.set_prio(this, old(k)@.prio(this).diminished()), final(k)@),
    {
        assert(k@.thread_wf(this as int));
        let mut prio = k.threads[this].private.prio;
        prio.diminish();
        k.give_prio(this, prio);
    }

    /// Take back a boost of the priority of a thread, by one step.
    pub fn prio_saturating_diminish_dl(k: &mut Kernel, this: usize)
        requires
            old(k)@.wf(),
            this < old(k)@.threads.len(),
            givable(old(k)@, this, old(k)@.prio(this).relaxed()),
        ensures
            final(k)@ == with_prio(old(k)@, this, old(k)@.prio(this).relaxed()),
            final(k)@.wf(),
            alike(old(k)@.set_prio(this, old(k)@.prio(this).relaxed()), final(k)@),
    {
        assert(k@.thread_wf(this as int));
        let mut prio = k.threads[this].private.prio;
        prio.saturating_diminish();
        k.give_prio(this, prio);
    }
}

/// A runnable thread whose priority rises is the first of its new priority, and its hart is
/// asked to look again: by an interrupt where it is another one. One whose priority falls is
/// the last of its new priority. It is no longer where it was, and the others there stay.
#[verifier::spinoff_prover]
#[verifier::rlimit(50)]
pub proof fn law_changed_threads_move(e: Effect, t: usize, old_prio: i8, cur_prio: i8, other: usize)
    requires
        t < e.st.threads.len(),
        e.st.threads[t as int].private.state is Runnable,
        e.st.sched.wf(),
        e.st.sched.valid(e.st.threads[t as int].private.hartid, old_prio),
        e.st.sched.valid(e.st.threads[t as int].private.hartid, cur_prio),
        old_prio != cur_prio,
        other != t,
        e.st.threads[t as int].private.hartid < 64,
    ensures
        ({
            let after = changed(e, t, old_prio, cur_prio);
            let hart = e.st.threads[t as int].private.hartid;
            let was = e.st.sched.queues[hart];
            let now = after.st.sched.queues[hart];
            &&& !now[old_prio as int].contains(t)
            &&& now[old_prio as int].contains(other) <==> was[old_prio as int].contains(other)
            &&& now[cur_prio as int].len() == was[cur_prio as int].len() + 1
            &&& cur_prio > old_prio ==> {
                &&& now[cur_prio as int][0] == t
                &&& forall|i: int|
                    0 <= i < was[cur_prio as int].len() ==> now[cur_prio as int][i + 1] == (
                    #[trigger] was[cur_prio as int][i])
                &&& hart == e.st.hart ==> after.resched && after.mask == e.mask
                &&& hart != e.st.hart ==> after.mask & (1u64 << hart) != 0 && after.resched
                    == e.resched
            }
            &&& cur_prio < old_prio ==> {
                &&& now[cur_prio as int].last() == t
                &&& forall|i: int|
                    0 <= i < was[cur_prio as int].len() ==> now[cur_prio as int][i] == (
                    #[trigger] was[cur_prio as int][i])
                &&& after.mask == e.mask && after.resched == e.resched
            }
            &&& after.st.threads == e.st.threads
        }),
{
    let hart = e.st.threads[t as int].private.hartid;
    let was = e.st.sched.queues[hart];
    wait_queue::law_without(was[old_prio as int], t);
    let mask = e.mask;
    assert((mask | (1u64 << hart)) & (1u64 << hart) != 0) by (bit_vector)
        requires
            hart < 64,
    ;
}

/// What a thread is to inherit is at least the priority given, and at least that of each
/// queue that waits for it; and it is one of these.
pub proof fn law_pressure_is_the_highest(st: State, t: usize, n: int, prio: i8)
    requires
        0 <= n <= st.blocking[t as int].len(),
    ensures
        pressed(st, t, n, prio) >= prio,
        forall|i: int|
            0 <= i < n ==> pressed(st, t, n, prio) >= st.queues[(
            #[trigger] st.blocking[t as int][i]) as int].highest(),
        pressed(st, t, n, prio) == prio || exists|i: int|
            0 <= i < n && pressed(st, t, n, prio) == st.queues[(
            #[trigger] st.blocking[t as int][i]) as int].highest(),
    decreases n,
{
    if n > 0 {
        law_pressure_is_the_highest(st, t, n - 1, prio);
        let _ = st.blocking[t as int][n - 1];
    }
}

} // verus!