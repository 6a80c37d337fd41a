//! The system calls on notifications and interrupts, on priorities, and the one
//! that makes threads.

use vstd::prelude::*;

use super::endpoints::{Outcome, Pending};
use crate::addr::virt;
use crate::addr::{Identity, VirtualConst};
use crate::capability::{
    CapError, CapResult, InterruptHandler as InterruptHandlerCap,
    InterruptPool as InterruptPoolCap, Job as JobCap, Notification as NotificationCap,
    Thread as ThreadCap,
};
use crate::kernel::capability::captbl;
use crate::kernel::capability::slotref::SlotRefMut;
use crate::kernel::capability::thread::{Thread, ThreadPriorities, ThreadState};
use crate::kernel::capability::{
    badge_number, CapabilityKind, CapabilitySlotInner, InterruptHandler, InterruptHandlerRef,
    InterruptPool, Notification, ThreadRef,
};
use crate::kernel::dispatch;
use crate::kernel::inherit;
use crate::kernel::ipc;
use crate::kernel::paging::PageTableFlags;
use crate::kernel::sched::Scheduler;
use crate::kernel::slots;
use crate::kernel::state;
use crate::kernel::state::{Kernel, State};
use crate::kernel::threads;

verus! {

/// After a thread that waited for signals has been woken: it has been boosted,
/// and is behind the others of its priority on the hart that is chosen for it.
pub open spec fn signal_woken(st: State, t: usize) -> State {
    let boosted = inherit::with_prio(
        st.set_blocked_on(t, None),
        t,
        st.prio(t).boosted(),
    );
    dispatch::enqueued(
        boosted.set_state(t, ThreadState::Runnable),
        t,
        dispatch::hart_for(boosted, t),
    )
}

/// The hart that has to be interrupted so that a woken thread can run: the one
/// that is chosen for it, if that is another one and idle.
pub open spec fn signal_ipi(st: State, t: usize) -> Option<u64> {
    let boosted = inherit::with_prio(
        st.set_blocked_on(t, None),
        t,
        st.prio(t).boosted(),
    );
    let hart = dispatch::hart_for(boosted, t);
    if st.sched.is_idle(hart) && hart != st.hart {
        Some(hart)
    } else {
        None
    }
}

/// After the bits have been added to the word of a notification, and a thread
/// that waits for signals, if one does, has been woken. The second result is the
/// hart that has to be interrupted.
pub open spec fn signalled(st: State, n: usize, bits: u64) -> (State, Option<u64>) {
    let notification = st.notifications[n as int];
    let q = notification.wait_queue;
    let added = ipc::unqueued(
        st.set_notification(
            n,
            Notification { word: notification.word | bits, ..notification },
        ),
        q,
    );
    match st.queues[q as int].next() {
        Some(t) => (signal_woken(added, t), signal_ipi(added, t)),
        None => (added, None),
    }
}

/// Whether a notification can be signalled.
pub open spec fn signallable(st: State, n: usize) -> bool {
    &&& n < st.notifications.len()
    &&& st.queues[st.notifications[n as int].wait_queue as int].next() matches Some(t) ==> 0
        <= st.prio(t).boosted().level() < 32
}

impl Kernel {
    /// Put a notification in the place of one.
    fn set_notification(&mut self, n: usize, notification: Notification)
        requires
            old(self)@.wf(),
            n < old(self)@.notifications.len(),
            notification.wait_queue < old(self)@.queues.len(),
        ensures
            final(self)@ == old(self)@.set_notification(n, notification),
            final(self)@.wf(),
    {
        let ghost st = self@;
        self.notifications.set(n, notification);
        proof {
            let after = self@;
            assert(after =~= st.set_notification(n, notification));
            assert forall|i: int| 0 <= i < after.threads.len() implies #[trigger] after.thread_wf(
                i,
            ) by {
                assert(st.thread_wf(i));
            }
            assert forall|j: int| 0 <= j < after.jobs.len() implies #[trigger] after.job_wf(j) by {
                assert(st.job_wf(j));
                assert forall|i: int| 0 <= i < after.jobs[j].slots.len() implies after.kind_wf(
                    (#[trigger] after.jobs[j].slots[i]).cap,
                ) by {
                    assert(st.kind_wf(st.jobs[j].slots[i].cap));
                }
            }
        }
    }

    /// Signal a notification. Returns the hart that has to be interrupted so
    /// that the thread that was woken can run.
    pub(crate) fn signal(&mut self, n: usize, bits: u64) -> (r: Option<u64>)
        requires
            old(self)@.wf(),
            signallable(old(self)@, n),
        ensures
            (final(self)@, r) == signalled(old(self)@, n, bits),
            final(self)@.wf(),
            final(self)@.threads.len() == old(self)@.threads.len(),
    {
        let mut notification = self.notifications[n];
        notification.word = notification.word | bits;
        let q: usize = notification.wait_queue;
        self.set_notification(n, notification);
        match self.unqueue(q) {
            Some(t) => {
                let ghost st = self@;
                assert(self@.thread_wf(t as int));
                proof {
                    state::lemma_set_thread(
                        self@,
                        t,
                        self@.set_blocked_on(t, None).threads[t as int],
                    );
                }
                self.set_blocked_on(t, None);
                Thread::prio_boost(self, t);
                let hartid: u64 = Scheduler::choose_hart(self, t);
                let send_ipi: bool = self.sched.is_idle(hartid) && hartid != self.hart;
                assert(self@.thread_wf(t as int));
                proof {
                    state::lemma_set_thread(
                        self@,
                        t,
                        self@.set_state(t, ThreadState::Runnable).threads[t as int],
                    );
                }
                self.set_state(t, ThreadState::Runnable);
                Scheduler::enqueue_dl(self, t, Some(hartid));
                if send_ipi {
                    Some(hartid)
                } else {
                    None
                }
            },
            None => None,
        }
    }
}

/// The notification in a slot of a thread and the badge of the slot, or the
/// error of looking it up.
pub open spec fn notification_at(st: State, t: usize, index: u64) -> Result<
    (usize, u64),
    CapError,
> {
    match captbl::lookup_error::<NotificationCap>(st.slots(t), index) {
        Some(e) => Err(e),
        None => {
            let slot = st.slots(t)[index as int];
            match slot.cap {
                CapabilityKind::Notification(n) => Ok(
                    (n, crate::capability::badge_bits(slot.badge)),
                ),
                _ => Err(CapError::InvalidType),
            }
        },
    }
}

impl Kernel {
    /// The notification in a slot of a thread, and the badge of the slot.
    fn notification_at(&self, t: usize, index: u64) -> (r: Result<(usize, u64), CapError>)
        requires
            self@.wf(),
            t < self@.threads.len(),
        ensures
            r == notification_at(self@, t, index),
            r matches Ok((n, _)) ==> n < self@.notifications.len(),
    {
        match self.lookup::<NotificationCap>(t, index) {
            Ok(slot) => match slot.cap {
                CapabilityKind::Notification(n) => Ok((n, badge_number(slot.badge))),
                _ => Err(CapError::InvalidType),
            },
            Err(e) => Err(e),
        }
    }
}

/// When [`sys_notification_signal`] can be called.
pub open spec fn sys_notification_signal_pre(st: State, thread: usize, notification: u64) -> bool {
    &&& st.wf()
    &&& thread < st.threads.len()
    &&& notification_at(st, thread, notification) matches Ok((n, _)) ==> signallable(
        st,
        n,
    )
}

/// What [`sys_notification_signal`] does.
pub open spec fn sys_notification_signal_post(
    st: State,
    thread: usize,
    notification: u64,
    after: State,
    r: CapResult<Option<u64>>,
) -> bool {
    match notification_at(st, thread, notification) {
        Err(e) => r == Err::<Option<u64>, CapError>(e) && after == st,
        Ok((n, bits)) => {
            let (done, ipi) = signalled(st, n, bits);
            r == Ok::<Option<u64>, CapError>(ipi) && after == done
        },
    }
}

/// Signal the notification in a slot with the badge of the slot. On success,
/// returns the hart that has to be interrupted so that the thread that was woken
/// can run.
pub fn sys_notification_signal(
    k: &mut Kernel,
    thread: usize,
    notification: u64,
) -> (r: CapResult<Option<u64>>)
    requires
        sys_notification_signal_pre(old(k)@, thread, notification),
    ensures
        sys_notification_signal_post(old(k)@, thread, notification, final(k)@, r),
        final(k)@.wf(),
        final(k)@.threads.len() >= old(k)@.threads.len(),
{
    match k.notification_at(thread, notification) {
        Ok((n, bits)) => Ok(k.signal(n, bits)),
        Err(e) => Err(e),
    }
}

/// After the word of a notification has been read: it is 0.
pub open spec fn word_taken(st: State, n: usize) -> State {
    st.set_notification(n, Notification { word: 0, ..st.notifications[n as int] })
}

impl Kernel {
    /// Read the word of a notification, and clear it.
    fn take_word(&mut self, n: usize) -> (r: u64)
        requires
            old(self)@.wf(),
            n < old(self)@.notifications.len(),
        ensures
            final(self)@ == word_taken(old(self)@, n),
            final(self)@.wf(),
            r == old(self)@.notifications[n as int].word,
    {
        let mut notification = self.notifications[n];
        let word: u64 = notification.word;
        notification.word = 0;
        self.set_notification(n, notification);
        word
    }
}

/// When [`sys_notification_poll`] can be called.
pub open spec fn sys_notification_poll_pre(st: State, thread: usize, notification: u64) -> bool {
    &&& st.wf()
    &&& thread < st.threads.len()
}

/// What [`sys_notification_poll`] does.
pub open spec fn sys_notification_poll_post(
    st: State,
    thread: usize,
    notification: u64,
    after: State,
    r: CapResult<u64>,
) -> bool {
    match notification_at(st, thread, notification) {
        Err(e) => r == Err::<u64, CapError>(e) && after == st,
        Ok((n, _)) => r == Ok::<u64, CapError>(st.notifications[n as int].word) && after == word_taken(st, n),
    }
}

/// Read the signals of the notification in a slot, and clear them.
pub fn sys_notification_poll(
    k: &mut Kernel,
    thread: usize,
    notification: u64,
) -> (r: CapResult<u64>)
    requires
        sys_notification_poll_pre(old(k)@, thread, notification),
    ensures
        sys_notification_poll_post(old(k)@, thread, notification, final(k)@, r),
        final(k)@.wf(),
        final(k)@.threads.len() >= old(k)@.threads.len(),
{
    match k.notification_at(thread, notification) {
        Ok((n, _)) => Ok(k.take_word(n)),
        Err(e) => Err(e),
    }
}

/// What has been signalled is read by the next poll, together with what was
/// signalled before, and is gone after it.
pub proof fn law_signal_then_poll(st: State, n: usize, bits: u64)
    requires
        st.wf(),
        signallable(st, n),
    ensures
        signalled(st, n, bits).0.notifications[n as int].word == st.notifications[n as int].word
            | bits,
        word_taken(signalled(st, n, bits).0, n).notifications[n as int].word == 0,
{
    let q = st.notifications[n as int].wait_queue;
    ipc::lemma_popped(st.queues[q as int], st.threads.len() as int);
}

/// A signal wakes exactly one of the threads that wait for it, the first of the
/// highest priority, and leaves the others as they are, in the same order. With no
/// bits that is all it does.
pub proof fn law_signal_wakes_one(st: State, n: usize, bits: u64)
    requires
        st.wf(),
        signallable(st, n),
    ensures
        ({
            let q = st.notifications[n as int].wait_queue as int;
            let after = signalled(st, n, bits).0;
            &&& bits == 0 ==> after.notifications[n as int].word
                == st.notifications[n as int].word
            &&& after.queues == st.queues.update(q, st.queues[q].popped())
            &&& after.threads.len() == st.threads.len()
            &&& match st.queues[q].next() {
                Some(t) => {
                    &&& after.state(t) is Runnable
                    &&& after.blocked_on(t) is None
                    &&& forall|u: int|
                        0 <= u < st.threads.len() && u != t ==> #[trigger] after.threads[u]
                            == st.threads[u]
                },
                None => after.threads == st.threads,
            }
        }),
{
    let word = st.notifications[n as int].word;
    assert(word | 0 == word) by (bit_vector);
    let q = st.notifications[n as int].wait_queue;
    ipc::lemma_popped(st.queues[q as int], st.threads.len() as int);
}

/// When [`sys_notification_wait`] can be called.
pub open spec fn sys_notification_wait_pre(st: State, thread: usize, notification: u64) -> bool {
    &&& st.wf()
    &&& thread < st.threads.len()
    &&& notification_at(st, thread, notification) matches Ok((n, _)) ==> st.notifications[n as int].word == 0 ==> st.sched.valid(
        st.threads[thread as int].private.hartid,
        st.level(thread),
    )
}

/// What [`sys_notification_wait`] does.
pub open spec fn sys_notification_wait_post(
    st: State,
    thread: usize,
    notification: u64,
    after: State,
    r: Outcome<u64>,
) -> bool {
    match notification_at(st, thread, notification) {
        Err(e) => r == Outcome::<u64>::Done(Err(e)) && after == st,
        Ok((n, _)) => {
            let word = st.notifications[n as int].word;
            if word != 0 {
                r == Outcome::<u64>::Done(Ok(word)) && after == word_taken(st, n)
            } else {
                &&& r == Outcome::<u64>::Blocked(Pending::Notification(n))
                &&& after == ipc::blocked(
                    word_taken(st, n),
                    thread,
                    st.notifications[n as int].wait_queue,
                )
            }
        },
    }
}

/// Wait for signals of the notification in a slot; if there are unread ones,
/// they are read without waiting.
pub fn sys_notification_wait(k: &mut Kernel, thread: usize, notification: u64) -> (r: Outcome<u64>)
    requires
        sys_notification_wait_pre(old(k)@, thread, notification),
    ensures
        sys_notification_wait_post(old(k)@, thread, notification, final(k)@, r),
        final(k)@.wf(),
        final(k)@.threads.len() >= old(k)@.threads.len(),
{
    let n: usize = match k.notification_at(thread, notification) {
        Ok((n, _)) => n,
        Err(e) => {
            return Outcome::Done(Err(e));
        },
    };
    let q: usize = k.notifications[n].wait_queue;
    let word: u64 = k.take_word(n);
    if word != 0 {
        return Outcome::Done(Ok(word));
    }
    k.block(thread, q);
    Outcome::Blocked(Pending::Notification(n))
}

/// Go on with [`sys_notification_wait`] after the thread has waited.
pub fn sys_notification_wait_finish(k: &mut Kernel, n: usize) -> (r: u64)
    requires
        old(k)@.wf(),
        n < old(k)@.notifications.len(),
    ensures
        final(k)@ == word_taken(old(k)@, n),
        final(k)@.wf(),
        r == old(k)@.notifications[n as int].word,
{
    k.take_word(n)
}

/// After a handler of an interrupt has been made.
pub open spec fn handler_made(st: State, pool: usize, irq: u16) -> State {
    State {
        pools: st.pools.update(
            pool as int,
            st.pools[pool as int].insert(irq, st.handlers.len() as usize),
        ),
        handlers: st.handlers.push(InterruptHandler { notification: None, irq }),
        ..st
    }
}

impl<'a> SlotRefMut<'a, InterruptPoolCap> {
    /// Make a handler of an interrupt in the pool of the slot, and return its
    /// number; an error if the pool has one of that interrupt already.
    pub fn make_handler(
        &mut self,
        pools: &mut Vec<InterruptPool>,
        handlers: &mut Vec<InterruptHandler>,
        irq: u16,
    ) -> (r: CapResult<usize>)
        requires
            old(self).slot.cap matches CapabilityKind::InterruptPool(p) && p < old(pools)@.len(),
        ensures
            ({
                let p = old(self).slot.cap->InterruptPool_0 as int;
                if old(pools)@[p].map@.dom().contains(irq) {
                    &&& r == Err::<usize, CapError>(CapError::InvalidOperation)
                    &&& final(pools)@ == old(pools)@
                    &&& final(handlers)@ == old(handlers)@
                } else {
                    &&& r == Ok::<usize, CapError>(old(handlers)@.len() as usize)
                    &&& final(handlers)@ == old(handlers)@.push(
                        InterruptHandler { notification: None, irq },
                    )
                    &&& final(pools)@.len() == old(pools)@.len()
                    &&& final(pools)@[p].map@ == old(pools)@[p].map@.insert(
                        irq,
                        old(handlers)@.len() as usize,
                    )
                    &&& forall|i: int|
                        0 <= i < old(pools)@.len() && i != p ==> #[trigger] final(pools)@[i] == old(
                            pools,
                        )@[i]
                }
            }),
            *final(self).slot == *old(self).slot,
            *final(final(self).slot) == *final(old(self).slot),
    {
        match self.slot.cap {
            CapabilityKind::InterruptPool(p) => {
                if pools[p].find(irq).is_some() {
                    return Err(CapError::InvalidOperation);
                }
                let handler: usize = handlers.len();
                handlers.push(InterruptHandler { notification: None, irq });
                pools[p].enter(irq, handler);
                Ok(handler)
            },
            _ => Err(CapError::InvalidType),
        }
    }
}

/// The pool in a slot of a thread, or the error of looking it up.
pub open spec fn pool_at(st: State, t: usize, index: u64) -> Result<usize, CapError> {
    match captbl::lookup_error::<InterruptPoolCap>(st.slots(t), index) {
        Some(e) => Err(e),
        None => match st.slots(t)[index as int].cap {
            CapabilityKind::InterruptPool(p) => Ok(p),
            _ => Err(CapError::InvalidType),
        },
    }
}

/// The number of an interrupt, from a word.
pub open spec fn irq_of(irq: u64) -> u16 {
    (irq % 0x1_0000) as u16
}

/// The error of asking for a handler of an interrupt, or `None` if one is made.
pub open spec fn handler_error(st: State, t: usize, pool: u64, irq: u64) -> Option<CapError> {
    if irq_of(irq) > 1023 || irq_of(irq) == 0 {
        Some(CapError::InvalidOperation)
    } else {
        match pool_at(st, t, pool) {
            Err(e) => Some(e),
            Ok(p) => if st.pools[p as int].dom().contains(irq_of(irq)) {
                Some(CapError::InvalidOperation)
            } else {
                None
            },
        }
    }
}

/// When [`sys_intr_pool_get`] can be called.
pub open spec fn sys_intr_pool_get_pre(st: State, thread: usize, pool: u64, irq: u64) -> bool {
    &&& st.wf()
    &&& thread < st.threads.len()
}

/// What [`sys_intr_pool_get`] does.
pub open spec fn sys_intr_pool_get_post(
    st: State,
    thread: usize,
    pool: u64,
    irq: u64,
    after: State,
    r: (CapResult<u64>,
    Option<u16>),
) -> bool {
    match handler_error(st, thread, pool, irq) {
        Some(e) => {
            &&& r == (Err::<u64, CapError>(e), None::<u16>)
            &&& after == st
        },
        None => {
            let p = pool_at(st, thread, pool)->Ok_0;
            let made = handler_made(st, p, irq_of(irq));
            let h = st.handlers.len() as usize;
            let captr = captbl::next_slot(made.slots(thread));
            &&& r.1 == Some(irq_of(irq))
            &&& if captr < made.slots(thread).len() {
                &&& r.0 == Ok::<u64, CapError>(captr as u64)
                &&& after == slots::filled(
                    made,
                    st.threads[thread as int].job,
                    captr,
                    CapabilitySlotInner::holding(CapabilityKind::InterruptHandler(h)),
                )
            } else {
                &&& r.0 == Err::<u64, CapError>(CapError::NotEnoughResources)
                &&& after == made
            }
        },
    }
}

/// Make a handler of an interrupt in the pool of a slot. Returns the captr of
/// it, and the interrupt that has to be enabled. The interrupt is handled from
/// now on, even where there is no slot for the handler.
pub fn sys_intr_pool_get(
    k: &mut Kernel,
    thread: usize,
    pool: u64,
    irq: u64,
) -> (r: (CapResult<u64>, Option<u16>))
    requires
        sys_intr_pool_get_pre(old(k)@, thread, pool, irq),
    ensures
        sys_intr_pool_get_post(old(k)@, thread, pool, irq, final(k)@, r),
        final(k)@.wf(),
        final(k)@.threads.len() >= old(k)@.threads.len(),
{
    let number: u16 = (irq % 0x1_0000) as u16;
    if number > 1023 || number == 0 {
        return (Err(CapError::InvalidOperation), None);
    }
    assert(k@.thread_wf(thread as int));
    let job: usize = k.threads[thread].job;
    let ghost st = k@;
    assert(k.handlers.len() == k@.handlers.len());
    assert(k@.job_wf(job as int));
    assert(k@.jobs[job as int] == k.jobs@[job as int]@);
    proof {
        let slots = k@.jobs[job as int].slots;
        if pool < slots.len() {
            assert(k@.kind_wf(slots[pool as int].cap));
        }
    }
    let handler: usize = match k.jobs[job].captbl.get_mut::<InterruptPoolCap>(pool) {
        Ok(mut slot) => {
            assert(slot.slot.cap is InterruptPool);
            match slot.make_handler(&mut k.pools, &mut k.handlers, number) {
                Ok(handler) => handler,
                Err(e) => {
                    proof {
                        assert(k@.jobs[job as int].slots =~= st.jobs[job as int].slots);
                        assert(k@.jobs =~= st.jobs);
                        assert(k@ =~= st);
                    }
                    return (Err(e), None);
                },
            }
        },
        Err(e) => {
            assert(k@ =~= st);
            return (Err(e), None);
        },
    };
    proof {
        let p = pool_at(st, thread, pool)->Ok_0;
        let after = k@;
        assert(after.jobs[job as int].slots =~= st.jobs[job as int].slots);
        assert(after.jobs =~= st.jobs);
        assert(after.pools =~= handler_made(st, p, number).pools);
        assert(after =~= handler_made(st, p, number));
        lemma_handler_made(st, p, number);
    }
    let captr: u64 = match k.next_slot(job) {
        Ok(captr) => captr,
        Err(e) => {
            return (Err(e), Some(number));
        },
    };
    k.fill(job, captr, InterruptHandlerRef(handler));
    (Ok(captr), Some(number))
}

proof fn lemma_handler_made(st: State, pool: usize, irq: u16)
    requires
        st.wf(),
        pool < st.pools.len(),
        st.handlers.len() <= usize::MAX,
    ensures
        handler_made(st, pool, irq).wf(),
{
    let after = handler_made(st, pool, irq);
    assert forall|i: int| 0 <= i < after.threads.len() implies #[trigger] after.thread_wf(i) by {
        assert(st.thread_wf(i));
    }
    assert forall|j: int| 0 <= j < after.jobs.len() implies #[trigger] after.job_wf(j) by {
        assert(st.job_wf(j));
        assert forall|i: int| 0 <= i < after.jobs[j].slots.len() implies after.kind_wf(
            (#[trigger] after.jobs[j].slots[i]).cap,
        ) by {
            assert(st.kind_wf(st.jobs[j].slots[i].cap));
        }
    }
    assert forall|h: int| 0 <= h < after.handlers.len() implies ((
    #[trigger] after.handlers[h]).notification matches Some((n, _)) ==> n
        < after.notifications.len()) by {
        if h < st.handlers.len() {
            assert(after.handlers[h] == st.handlers[h]);
        }
    }
    assert forall|p: int, i: u16|
        0 <= p < after.pools.len() && #[trigger] after.pools[p].dom().contains(i) implies
        after.pools[p][i] < after.handlers.len() by {
        if p != pool || i != irq {
            assert(st.pools[p].dom().contains(i));
        }
    }
}

/// A handler that has been made is found by its interrupt, and no second one of
/// that interrupt can be made in the same pool.
pub proof fn law_one_handler_per_interrupt(st: State, t: usize, pool: u64, irq: u64)
    requires
        st.wf(),
        t < st.threads.len(),
        handler_error(st, t, pool, irq) is None,
        st.handlers.len() <= usize::MAX,
    ensures
        ({
            let p = pool_at(st, t, pool)->Ok_0;
            let made = handler_made(st, p, irq_of(irq));
            &&& made.pools[p as int].dom().contains(irq_of(irq))
            &&& made.handlers[made.pools[p as int][irq_of(irq)] as int].irq == irq_of(irq)
            &&& handler_error(made, t, pool, irq) == Some(CapError::InvalidOperation)
        }),
{
    assert(st.thread_wf(t as int));
    let job = st.threads[t as int].job;
    assert(st.job_wf(job as int));
    assert(st.kind_wf(st.jobs[job as int].slots[pool as int].cap));
}

/// The handler in a slot of a thread, or the error of looking it up.
pub open spec fn handler_at(st: State, t: usize, index: u64) -> Result<usize, CapError> {
    match captbl::lookup_error::<InterruptHandlerCap>(st.slots(t), index) {
        Some(e) => Err(e),
        None => match st.slots(t)[index as int].cap {
            CapabilityKind::InterruptHandler(h) => Ok(h),
            _ => Err(CapError::InvalidType),
        },
    }
}

impl Kernel {
    /// The handler in a slot of a thread.
    fn handler_at(&self, t: usize, index: u64) -> (r: Result<usize, CapError>)
        requires
            self@.wf(),
            t < self@.threads.len(),
        ensures
            r == handler_at(self@, t, index),
            r matches Ok(h) ==> h < self@.handlers.len(),
    {
        match self.lookup::<InterruptHandlerCap>(t, index) {
            Ok(slot) => match slot.cap {
                CapabilityKind::InterruptHandler(h) => Ok(h),
                _ => Err(CapError::InvalidType),
            },
            Err(e) => Err(e),
        }
    }

    /// Say what a handler signals.
    fn set_handler(&mut self, h: usize, notification: Option<(usize, u64)>)
        requires
            old(self)@.wf(),
            h < old(self)@.handlers.len(),
            notification matches Some((n, _)) ==> n < old(self)@.notifications.len(),
        ensures
            final(self)@ == set_handler(old(self)@, h, notification),
            final(self)@.wf(),
    {
        let ghost st = self@;
        let mut handler = self.handlers[h];
        handler.notification = notification;
        self.handlers.set(h, handler);
        proof {
            let after = self@;
            assert(after =~= set_handler(st, h, notification));
            assert forall|i: int| 0 <= i < after.threads.len() implies #[trigger] after.thread_wf(
                i,
            ) by {
                assert(st.thread_wf(i));
            }
            assert forall|j: int| 0 <= j < after.jobs.len() implies #[trigger] after.job_wf(j) by {
                assert(st.job_wf(j));
                assert forall|i: int| 0 <= i < after.jobs[j].slots.len() implies after.kind_wf(
                    (#[trigger] after.jobs[j].slots[i]).cap,
                ) by {
                    assert(st.kind_wf(st.jobs[j].slots[i].cap));
                }
            }
        }
    }
}

/// With another notification that a handler signals.
pub open spec fn set_handler(st: State, h: usize, notification: Option<(usize, u64)>) -> State {
    State {
        handlers: st.handlers.update(
            h as int,
            InterruptHandler { notification, ..st.handlers[h as int] },
        ),
        ..st
    }
}

/// When [`sys_intr_handler_ack`] can be called.
pub open spec fn sys_intr_handler_ack_pre(st: State, thread: usize, handler: u64) -> bool {
    &&& st.wf()
    &&& thread < st.threads.len()
}

/// What [`sys_intr_handler_ack`] does.
pub open spec fn sys_intr_handler_ack_post(
    st: State,
    thread: usize,
    handler: u64,
    r: CapResult<u32>,
) -> bool {
    r == match handler_at(st, thread, handler) {
        Err(e) => Err::<u32, CapError>(e),
        Ok(h) => Ok::<u32, CapError>(st.handlers[h as int].irq as u32),
    }
}

/// The interrupt of the handler in a slot, which is to be completed.
pub fn sys_intr_handler_ack(k: &Kernel, thread: usize, handler: u64) -> (r: CapResult<u32>)
    requires
        sys_intr_handler_ack_pre(k@, thread, handler),
    ensures
        sys_intr_handler_ack_post(k@, thread, handler, r),
{
    match k.handler_at(thread, handler) {
        Ok(h) => Ok(k.handlers[h].irq as u32),
        Err(e) => Err(e),
    }
}

/// When [`sys_intr_handler_bind`] can be called.
pub open spec fn sys_intr_handler_bind_pre(
    st: State,
    thread: usize,
    handler: u64,
    notification: u64,
) -> bool {
    &&& st.wf()
    &&& thread < st.threads.len()
}

/// What [`sys_intr_handler_bind`] does.
pub open spec fn sys_intr_handler_bind_post(
    st: State,
    thread: usize,
    handler: u64,
    notification: u64,
    after: State,
    r: CapResult<()>,
) -> bool {
    if handler == notification {
        r == Err::<(), CapError>(CapError::InvalidOperation) && after == st
    } else {
        match handler_at(st, thread, handler) {
            Err(e) => r == Err::<(), CapError>(e) && after == st,
            Ok(h) => match notification_at(st, thread, notification) {
                Err(e) => r == Err::<(), CapError>(e) && after == st,
                Ok((n, bits)) => r == Ok::<(), CapError>(()) && after == set_handler(
                    st,
                    h,
                    Some((n, bits)),
                ),
            },
        }
    }
}

/// Let the handler in a slot signal the notification in another slot, with the
/// badge of that slot.
pub fn sys_intr_handler_bind(
    k: &mut Kernel,
    thread: usize,
    handler: u64,
    notification: u64,
) -> (r: CapResult<()>)
    requires
        sys_intr_handler_bind_pre(old(k)@, thread, handler, notification),
    ensures
        sys_intr_handler_bind_post(old(k)@, thread, handler, notification, final(k)@, r),
        final(k)@.wf(),
        final(k)@.threads.len() >= old(k)@.threads.len(),
{
    if handler == notification {
        return Err(CapError::InvalidOperation);
    }
    let h: usize = match k.handler_at(thread, handler) {
        Ok(h) => h,
        Err(e) => {
            return Err(e);
        },
    };
    match k.notification_at(thread, notification) {
        Ok((n, bits)) => {
            k.set_handler(h, Some((n, bits)));
            Ok(())
        },
        Err(e) => Err(e),
    }
}

/// When [`sys_intr_handler_unbind`] can be called.
pub open spec fn sys_intr_handler_unbind_pre(st: State, thread: usize, handler: u64) -> bool {
    &&& st.wf()
    &&& thread < st.threads.len()
}

/// What [`sys_intr_handler_unbind`] does.
pub open spec fn sys_intr_handler_unbind_post(
    st: State,
    thread: usize,
    handler: u64,
    after: State,
    r: CapResult<()>,
) -> bool {
    match handler_at(st, thread, handler) {
        Err(e) => r == Err::<(), CapError>(e) && after == st,
        Ok(h) => r == Ok::<(), CapError>(()) && after == set_handler(st, h, None),
    }
}

/// Let the handler in a slot signal no notification.
pub fn sys_intr_handler_unbind(k: &mut Kernel, thread: usize, handler: u64) -> (r: CapResult<()>)
    requires
        sys_intr_handler_unbind_pre(old(k)@, thread, handler),
    ensures
        sys_intr_handler_unbind_post(old(k)@, thread, handler, final(k)@, r),
        final(k)@.wf(),
        final(k)@.threads.len() >= old(k)@.threads.len(),
{
    match k.handler_at(thread, handler) {
        Ok(h) => {
            k.set_handler(h, None);
            Ok(())
        },
        Err(e) => Err(e),
    }
}

/// After a thread that can run has been given priorities of its own, and put
/// into the run queue of the current hart: in front if it has become more
/// important, else behind.
pub open spec fn reprioritized(st: State, t: usize, prio: ThreadPriorities) -> State {
    let after = inherit::with_prio(dispatch::dequeued(st, t), t, prio);
    if after.level(t) > st.level(t) {
        dispatch::enqueued_front(after, t, st.hart)
    } else {
        dispatch::enqueued(after, t, st.hart)
    }
}

/// Whether a thread that can run can be given priorities of its own.
pub open spec fn reprioritizable(st: State, t: usize, prio: ThreadPriorities) -> bool {
    &&& t < st.threads.len()
    &&& st.sched.valid(st.threads[t as int].private.hartid, st.level(t))
    &&& inherit::givable(dispatch::dequeued(st, t), t, prio)
    &&& 0 <= inherit::with_prio(dispatch::dequeued(st, t), t, prio).level(t) < 32
}

impl Kernel {
    /// Give a thread that can run priorities of its own, and put it into the run
    /// queue of the current hart.
    pub(crate) fn reprioritize(&mut self, t: usize, prio: ThreadPriorities)
        requires
            old(self)@.wf(),
            reprioritizable(old(self)@, t, prio),
        ensures
            final(self)@ == reprioritized(old(self)@, t, prio),
            final(self)@.wf(),
            final(self)@.threads.len() == old(self)@.threads.len(),
    {
        assert(self@.thread_wf(t as int));
        let old_prio: i8 = self.threads[t].private.prio.effective();
        Scheduler::dequeue_dl(self, t);
        self.give_prio(t, prio);
        assert(self@.thread_wf(t as int));
        if self.threads[t].private.prio.effective() > old_prio {
            Scheduler::enqueue_front_dl(self, t, Some(self.hart));
        } else {
            Scheduler::enqueue_dl(self, t, Some(self.hart));
        }
    }
}

/// When [`sys_yield`] can be called.
pub open spec fn sys_yield_pre(st: State, thread: usize) -> bool {
    &&& st.wf()
    &&& reprioritizable(st, thread, st.prio(thread).relaxed())
}

/// What [`sys_yield`] does.
pub open spec fn sys_yield_post(st: State, thread: usize, after: State, r: Outcome<()>) -> bool {
    &&& after == reprioritized(st, thread, st.prio(thread).relaxed())
    &&& r == Outcome::<()>::Blocked(Pending::Yield)
}

/// Let others run: the thread loses a step of its boost, and goes behind the
/// others of its priority.
pub fn sys_yield(k: &mut Kernel, thread: usize) -> (r: Outcome<()>)
    requires
        sys_yield_pre(old(k)@, thread),
    ensures
        sys_yield_post(old(k)@, thread, final(k)@, r),
        final(k)@.wf(),
        final(k)@.threads.len() >= old(k)@.threads.len(),
{
    assert(k@.thread_wf(thread as int));
    let mut prio = k.threads[thread].private.prio;
    prio.saturating_diminish();
    k.reprioritize(thread, prio);
    Outcome::Blocked(Pending::Yield)
}

/// The priority that the low byte of a word stands for.
pub open spec fn prio_of(word: u64) -> int {
    if word % 256 < 128 {
        word as int % 256
    } else {
        word as int % 256 - 256
    }
}

/// After a thread has been given another base priority, and put into the run
/// queue of the current hart: in front if it has become more important, else
/// behind.
pub open spec fn base_given(st: State, t: usize, base_prio: i8) -> State {
    let given = dispatch::dequeued(st, t).set_prio(
        t,
        ThreadPriorities { base_prio, ..st.prio(t) },
    );
    if given.level(t) > st.level(t) {
        dispatch::enqueued_front(given, t, st.hart)
    } else {
        dispatch::enqueued(given, t, st.hart)
    }
}

/// And, if it waits, after the change has been handed on.
pub open spec fn base_set(st: State, t: usize, base_prio: i8) -> State {
    let given = base_given(st, t, base_prio);
    if st.blocked_on(t) is Some {
        inherit::wait_changed(given, t, st.level(t), given.level(t))
    } else {
        given
    }
}

/// Whether a thread can be given another base priority.
pub open spec fn base_settable(st: State, t: usize, base_prio: i8) -> bool {
    let given = base_given(st, t, base_prio);
    &&& st.sched.valid(st.threads[t as int].private.hartid, st.level(t))
    &&& given.level(t) < 32
    &&& 0 <= given.level(t)
    &&& st.blocked_on(t) matches Some(q) ==> {
        &&& given.queues[q as int].has(st.level(t))
        &&& inherit::requeued(given, t, st.level(t), given.level(t)).linked()
    }
}

/// When [`sys_thread_set_priority`] can be called.
pub open spec fn sys_thread_set_priority_pre(
    st: State,
    thread: usize,
    thread_cap: u64,
    prio: u64,
) -> bool {
    &&& st.wf()
    &&& thread < st.threads.len()
    &&& 0 <= prio_of(prio) < 32 ==> (super::thread_calls::thread_at(
        st,
        thread,
        thread_cap,
    ) matches Ok(t) ==> base_settable(st, t, prio_of(prio) as i8))
}

/// What [`sys_thread_set_priority`] does.
pub open spec fn sys_thread_set_priority_post(
    st: State,
    thread: usize,
    thread_cap: u64,
    prio: u64,
    after: State,
    r: CapResult<()>,
) -> bool {
    if !(0 <= prio_of(prio) < 32) {
        r == Err::<(), CapError>(CapError::InvalidOperation) && after == st
    } else {
        match super::thread_calls::thread_at(st, thread, thread_cap) {
            Err(e) => r == Err::<(), CapError>(e) && after == st,
            Ok(t) => r == Ok::<(), CapError>(()) && after == base_set(
                st,
                t,
                prio_of(prio) as i8,
            ),
        }
    }
}

/// Set the base priority of the thread in a slot.
pub fn sys_thread_set_priority(
    k: &mut Kernel,
    thread: usize,
    thread_cap: u64,
    prio: u64,
) -> (r: CapResult<()>)
    requires
        sys_thread_set_priority_pre(old(k)@, thread, thread_cap, prio),
    ensures
        sys_thread_set_priority_post(old(k)@, thread, thread_cap, prio, final(k)@, r),
        final(k)@.wf(),
        final(k)@.threads.len() >= old(k)@.threads.len(),
{
    let byte: u64 = prio % 256;
    if byte >= 32 {
        return Err(CapError::InvalidOperation);
    }
    let base_prio: i8 = byte as i8;
    let t: usize = match k.lookup::<ThreadCap>(thread, thread_cap) {
        Ok(slot) => match slot.cap {
            CapabilityKind::Thread(t) => t,
            _ => {
                return Err(CapError::InvalidType);
            },
        },
        Err(e) => {
            return Err(e);
        },
    };
    let ghost st = k@;
    assert(k@.thread_wf(t as int));
    let mut prios = k.threads[t].private.prio;
    let old_eff_prio: i8 = prios.effective();
    Scheduler::dequeue_dl(k, t);
    prios.base_prio = base_prio;
    let new_eff_prio: i8 = prios.effective();
    assert(k@.thread_wf(t as int));
    proof {
        state::lemma_set_thread(k@, t, k@.set_prio(t, prios).threads[t as int]);
    }
    k.set_prio(t, prios);
    assert(k@.level(t) == base_given(st, t, base_prio).level(t));
    if new_eff_prio > old_eff_prio {
        Scheduler::enqueue_front_dl(k, t, Some(k.hart));
    } else {
        Scheduler::enqueue_dl(k, t, Some(k.hart));
    }
    assert(k@ == base_given(st, t, base_prio));
    if k.threads[t].blocked_on_wq.is_some() {
        Thread::wait_queue_priority_changed(k, t, old_eff_prio, new_eff_prio, true);
    }
    Ok(())
}

/// The bytes of the name of a thread that is to be made: none if no address is
/// given, or it is not mapped so that the caller can read it.
pub open spec fn name_bytes(st: State, t: usize, ptr: u64, len: u64) -> Seq<u8> {
    match ipc::user_addr(st, t, ptr, PageTableFlags::USER_READ) {
        Some(pa) => if ptr == 0 {
            Seq::empty()
        } else {
            super::syscalls::bytes_at(st.mem, pa as int, len as int)
        },
        None => Seq::empty(),
    }
}

/// Whether the bytes of the name are in memory.
pub open spec fn name_there(st: State, t: usize, ptr: u64, len: u64) -> bool {
    ipc::user_addr(st, t, ptr, PageTableFlags::USER_READ) matches Some(pa) ==> ptr != 0
        ==> st.mem.has_bytes(pa as int, len as int)
}

/// The error of making a thread in the job of a slot, before a slot for it is
/// looked for.
pub open spec fn create_thread_error(st: State, t: usize, job: u64, ptr: u64, len: u64) -> Option<
    CapError,
> {
    match super::syscalls::job_at(st, t, job) {
        Err(e) => Some(e),
        Ok(_) => if len >= 4096 - ptr % 4096 || !vstd::utf8::valid_utf8(name_bytes(st, t, ptr, len)) {
            Some(CapError::InvalidOperation)
        } else {
            None
        },
    }
}

/// When [`sys_job_create_thread`] can be called.
pub open spec fn sys_job_create_thread_pre(
    st: State,
    thread: usize,
    job: u64,
    name_ptr: u64,
    name_len: u64,
) -> bool {
    &&& st.wf()
    &&& thread < st.threads.len()
    &&& ipc::walkable(st, thread)
    &&& virt::canonical(name_ptr) == name_ptr
    &&& name_there(st, thread, name_ptr, name_len)
    &&& st.next_tid != u16::MAX
    &&& st.mem.available() > threads::STACK_FRAMES
}

/// What [`sys_job_create_thread`] does.
pub open spec fn sys_job_create_thread_post(
    st: State,
    thread: usize,
    job: u64,
    name_ptr: u64,
    name_len: u64,
    after: State,
    r: CapResult<u64>,
) -> bool {
    match create_thread_error(st, thread, job, name_ptr, name_len) {
        Some(e) => r == Err::<u64, CapError>(e) && after == st,
        None => (after, r) == super::syscalls::created(
            st,
            thread,
            threads::thread_made(
                st,
                vstd::utf8::decode_utf8(
                    name_bytes(st, thread, name_ptr, name_len),
                ),
                None,
                super::syscalls::job_at(st, thread, job)->Ok_0,
            ),
            CapabilityKind::Thread(st.threads.len() as usize),
        ),
    }
}

/// Make a thread in the job of a slot, with the name at an address. Returns its
/// captr.
pub fn sys_job_create_thread(
    k: &mut Kernel,
    thread: usize,
    job: u64,
    name_ptr: VirtualConst<u8, Identity>,
    name_len: u64,
) -> (r: CapResult<u64>)
    requires
        sys_job_create_thread_pre(old(k)@, thread, job, name_ptr@, name_len),
    ensures
        sys_job_create_thread_post(old(k)@, thread, job, name_ptr@, name_len, final(k)@, r),
        final(k)@.wf(),
        final(k)@.threads.len() >= old(k)@.threads.len(),
{
    let parent: usize = match k.lookup::<JobCap>(thread, job) {
        Ok(slot) => match slot.cap {
            CapabilityKind::Job(j) => j,
            _ => {
                return Err(CapError::InvalidType);
            },
        },
        Err(e) => {
            return Err(e);
        },
    };
    if name_len >= 4096 - name_ptr.page_offset().into_usize() {
        return Err(CapError::InvalidOperation);
    }
    let ptr: u64 = name_ptr.into_usize();
    let bytes: Vec<u8> = if ptr == 0 {
        Vec::new()
    } else {
        match k.user_addr(thread, ptr, PageTableFlags::USER_READ) {
            Some(pa) => super::syscalls::read_bytes(&k.mem, pa, name_len),
            None => Vec::new(),
        }
    };
    assert(bytes@ =~= name_bytes(k@, thread, name_ptr@, name_len));
    let name: String = match super::syscalls::decode_utf8(bytes) {
        Some(name) => name,
        None => {
            return Err(CapError::InvalidOperation);
        },
    };
    assert(k@.thread_wf(thread as int));
    let own: usize = k.threads[thread].job;
    let captr: u64 = match k.next_slot(own) {
        Ok(captr) => captr,
        Err(e) => {
            return Err(e);
        },
    };
    let t: usize = Thread::new(k, name, None, parent);
    k.fill(own, captr, ThreadRef(t));
    Ok(captr)
}

/// The thread that a signal wakes has its boost one step higher, and is the last of its
/// priority on the hart that is chosen for it, which is interrupted if it is idle and another
/// one.
#[verifier::spinoff_prover]
#[verifier::rlimit(50)]
pub proof fn law_signals_boost(st: State, n: usize, bits: u64)
    requires
        st.wf(),
        signallable(st, n),
        st.queues[st.notifications[n as int].wait_queue as int].next() is Some,
    ensures
        ({
            let t = st.queues[st.notifications[n as int].wait_queue as int].next()->0;
            let (after, ipi) = signalled(st, n, bits);
            let was = st.threads[t as int];
            let prio = st.prio(t).boosted();
            let hart = crate::kernel::sched::chosen_hart(
                st.sched,
                was.affinity.0,
                was.private.hartid,
                st.hart,
            );
            let line = after.sched.queues[hart][prio.level() as int];
            &&& after.threads[t as int].private.prio == prio
            &&& line == st.sched.queues[hart][prio.level() as int].push(t)
            &&& ipi == if st.sched.bitmap & (1u64 << hart) != 0 && hart != st.hart {
                Some(hart)
            } else {
                None
            }
        }),
{
    law_signal_wakes_one(st, n, bits);
    let q = st.notifications[n as int].wait_queue;
    let t = st.queues[q as int].next()->0;
    ipc::lemma_popped(st.queues[q as int], st.threads.len() as int);
    assert(t < st.threads.len());
    dispatch::law_chosen_hart_exists(st, t);
    let hart = dispatch::hart_for(st, t);
    assert(st.sched.queues[hart].len() == 32);
}

} // verus!
