//! The scheduler: for each hart, queues of the threads that can run.

use std::collections::BTreeMap;

use vstd::prelude::*;

use super::capability::thread::HartMask;
use super::capability::wait_queue;
use super::capability::wait_queue::retain_others;

verus! {

/// What the scheduler holds: for the number of each hart the threads of each
/// priority, the one that runs next in front, and the thread that runs while there
/// is no other; how many harts the machine has; and the mask of the harts on which
/// the latter thread runs.
#[verifier::ext_equal]
pub struct Sched {
    pub queues: Map<u64, Seq<Seq<usize>>>,
    pub idle: Map<u64, usize>,
    pub count: u64,
    pub bitmap: u64,
}

impl Sched {
    /// The numbers of harts are below 64. Each hart has a queue for every priority,
    /// and none is idle that is not there.
    pub open spec fn wf(self) -> bool {
        &&& self.count <= 64
        &&& self.idle.dom() == self.queues.dom()
        &&& forall|h: u64| #[trigger]
            self.queues.dom().contains(h) ==> h < 64 && self.queues[h].len() == 32
        &&& forall|h: u64| h < 64 && #[trigger] self.is_idle(h) ==> self.has(h)
    }

    /// Whether there is a hart with the given number.
    pub open spec fn has(self, hart: u64) -> bool {
        self.queues.dom().contains(hart)
    }

    /// The threads of a priority that can run on a hart.
    pub open spec fn at(self, hart: u64, prio: i8) -> Seq<usize> {
        self.queues[hart][prio as int]
    }

    /// With other threads at a priority of a hart.
    pub open spec fn set(self, hart: u64, prio: i8, threads: Seq<usize>) -> Sched {
        Sched {
            queues: self.queues.insert(
                hart,
                self.queues[hart].update(prio as int, threads),
            ),
            ..self
        }
    }

    /// Whether the priority is one of the 32 of the run queues, and the hart
    /// exists.
    pub open spec fn valid(self, hart: u64, prio: i8) -> bool {
        self.has(hart) && 0 <= prio < 32
    }

    /// After a thread has been taken out of the queue of a priority.
    pub open spec fn removed(self, hart: u64, prio: i8, thread: usize) -> Sched {
        self.set(hart, prio, wait_queue::without(self.at(hart, prio), thread))
    }

    /// After `here`, the hart that executes this, has been found to have work.
    pub open spec fn awake(self, here: u64) -> Sched {
        Sched { bitmap: self.bitmap & !(1u64 << here), ..self }
    }

    /// After a thread has been put in front of the queue of a priority.
    pub open spec fn pushed_front(self, hart: u64, prio: i8, thread: usize, here: u64) -> Sched {
        self.set(hart, prio, seq![thread] + self.at(hart, prio)).awake(here)
    }

    /// After a thread has been put behind the queue of a priority.
    pub open spec fn pushed_back(self, hart: u64, prio: i8, thread: usize, here: u64) -> Sched {
        self.set(hart, prio, self.at(hart, prio).push(thread)).awake(here)
    }

    /// The thread that a hart runs next: the first one of the highest of the
    /// first `n` priorities that has one.
    pub open spec fn pick(self, hart: u64, n: int) -> Option<(usize, int)>
        decreases n,
    {
        if n <= 0 {
            None
        } else if self.queues[hart][n - 1].len() > 0 {
            Some((self.queues[hart][n - 1][0], n - 1))
        } else {
            self.pick(hart, n - 1)
        }
    }

    /// After a hart has picked a thread of a priority: that thread goes behind
    /// the others.
    pub open spec fn rotated(self, hart: u64, prio: i8) -> Sched {
        let threads = self.at(hart, prio);
        self.set(hart, prio, threads.subrange(1, threads.len() as int).push(threads[0]))
    }

    /// Whether a hart has nothing to run.
    pub open spec fn is_idle(self, hart: u64) -> bool {
        self.bitmap & (1u64 << hart) != 0
    }

    /// After a hart has been found to have nothing to run.
    pub open spec fn idling(self, hart: u64) -> Sched {
        Sched { bitmap: self.bitmap | (1u64 << hart), ..self }
    }

    /// Whether two schedulers are for the same harts.
    pub open spec fn like(self, other: Sched) -> bool {
        self.queues.dom() == other.queues.dom() && self.count == other.count
    }

    /// Whether all the threads are below `n`.
    pub open spec fn below(self, n: int) -> bool {
        &&& forall|h: u64| #[trigger] self.idle.dom().contains(h) ==> self.idle[h] < n
        &&& forall|h: u64, p: int, i: int|
            self.has(h) && 0 <= p < 32 && 0 <= i < self.queues[h][p].len() ==> (
            #[trigger] self.queues[h][p][i]) < n
    }
}

/// No hart becomes idle by being found to have work, and only the hart that is
/// found to have nothing to run becomes idle.
pub proof fn lemma_awake(s: Sched, hart: u64)
    requires
        s.wf(),
        hart < 64,
    ensures
        s.awake(hart).wf(),
        s.awake(hart).like(s),
        s.has(hart) ==> s.idling(hart).wf(),
        s.idling(hart).like(s),
{
    let awake = s.awake(hart);
    assert forall|h: u64| h < 64 && #[trigger] awake.is_idle(h) implies awake.has(h) by {
        if h == hart {
            law_idle_bitmap(s, hart, if hart == 0 { 1 } else { 0 });
        } else {
            law_idle_bitmap(s, hart, h);
        }
        assert(s.is_idle(h));
    }
    if s.has(hart) {
        let t = s.idling(hart);
        assert forall|h: u64| h < 64 && #[trigger] t.is_idle(h) implies t.has(h) by {
            if h != hart {
                law_idle_bitmap(s, hart, h);
                assert(s.is_idle(h));
            }
        }
    }
}

/// To change a run queue leaves the harts as they are.
pub proof fn lemma_set(s: Sched, hart: u64, prio: i8, queue: Seq<usize>)
    requires
        s.wf(),
        s.valid(hart, prio),
    ensures
        s.set(hart, prio, queue).wf(),
        s.set(hart, prio, queue).like(s),
{
    let t = s.set(hart, prio, queue);
    assert(t.queues.dom() =~= s.queues.dom());
    assert forall|h: u64| h < 64 && #[trigger] t.is_idle(h) implies t.has(h) by {
        assert(s.is_idle(h));
    }
}

/// To move threads between run queues keeps their threads below `n`.
pub proof fn lemma_below(s: Sched, hart: u64, prio: i8, t: usize, here: u64, n: int)
    requires
        s.wf(),
        s.valid(hart, prio),
        s.below(n),
        t < n,
        here < 64,
    ensures
        s.removed(hart, prio, t).below(n),
        s.removed(hart, prio, t).wf(),
        s.removed(hart, prio, t).like(s),
        s.pushed_front(hart, prio, t, here).below(n),
        s.pushed_front(hart, prio, t, here).wf(),
        s.pushed_front(hart, prio, t, here).like(s),
        s.pushed_back(hart, prio, t, here).below(n),
        s.pushed_back(hart, prio, t, here).wf(),
        s.pushed_back(hart, prio, t, here).like(s),
{
    let threads = s.at(hart, prio);
    lemma_set(s, hart, prio, wait_queue::without(threads, t));
    lemma_set(s, hart, prio, seq![t] + threads);
    lemma_awake(s.set(hart, prio, seq![t] + threads), here);
    lemma_set(s, hart, prio, threads.push(t));
    lemma_awake(s.set(hart, prio, threads.push(t)), here);
    wait_queue::law_without(threads, t);
    let less = s.removed(hart, prio, t);
    assert forall|h: u64, p: int, i: int|
        less.has(h) && 0 <= p < 32 && 0 <= i < less.queues[h][p].len() implies (
    #[trigger] less.queues[h][p][i]) < n by {
        if h == hart && p == prio {
            let x = less.queues[h][p][i];
            assert(wait_queue::without(threads, t).contains(x));
            assert(threads.contains(x));
            let k = choose|k: int| 0 <= k < threads.len() && threads[k] == x;
            assert(s.queues[h][p][k] < n);
        } else {
            assert(s.queues[h][p][i] < n);
        }
    }
    let front = s.pushed_front(hart, prio, t, here);
    assert forall|h: u64, p: int, i: int|
        front.has(h) && 0 <= p < 32 && 0 <= i < front.queues[h][p].len() implies (
    #[trigger] front.queues[h][p][i]) < n by {
        if h == hart && p == prio {
            if i > 0 {
                assert(s.queues[h][p][i - 1] < n);
            }
        } else {
            assert(s.queues[h][p][i] < n);
        }
    }
    let back = s.pushed_back(hart, prio, t, here);
    assert forall|h: u64, p: int, i: int|
        back.has(h) && 0 <= p < 32 && 0 <= i < back.queues[h][p].len() implies (
    #[trigger] back.queues[h][p][i]) < n by {
        if h == hart && p == prio {
            if i < threads.len() {
                assert(s.queues[h][p][i] < n);
            }
        } else {
            assert(s.queues[h][p][i] < n);
        }
    }
}

/// The least of the first `n` harts, from `hart` on, that is in a mask.
pub open spec fn first_hart(mask: u64, hart: int, n: int) -> Option<u64>
    decreases n - hart,
{
    if hart >= n {
        None
    } else if mask & (1u64 << (hart as u64)) != 0 {
        Some(hart as u64)
    } else {
        first_hart(mask, hart + 1, n)
    }
}

/// On which hart a thread is to run: the current one, if it is idle; else the
/// one on which the thread ran last, if that is idle; else any idle one; else
/// the one on which it ran last; and else the current one. All but the last
/// must be in the affinity of the thread.
pub open spec fn chosen_hart(s: Sched, affinity: u64, last: u64, here: u64) -> u64 {
    let last = if last == u64::MAX {
        here
    } else {
        last
    };
    if affinity & (1u64 << here) != 0 && s.is_idle(here) {
        here
    } else if affinity & (1u64 << last) != 0 && s.is_idle(last) {
        last
    } else if first_hart(affinity & s.bitmap, 0, s.count as int) is Some {
        first_hart(affinity & s.bitmap, 0, s.count as int)->0
    } else if affinity & (1u64 << last) != 0 {
        last
    } else {
        here
    }
}

/// The run queues of one hart.
pub struct SchedulerInner {
    pub queues: Vec<Vec<usize>>,
    pub idle_thread: usize,
}

impl SchedulerInner {
    /// The threads of each priority.
    pub open spec fn view(&self) -> Seq<Seq<usize>> {
        self.queues@.map_values(|q: Vec<usize>| q@)
    }

    /// Empty run queues.
    pub fn new(idle_thread: usize) -> (r: Self)
        ensures
            r@ == Seq::new(32, |i: int| Seq::<usize>::empty()),
            r.idle_thread == idle_thread,
    {
        let mut queues: Vec<Vec<usize>> = Vec::new();
        let mut i: usize = 0;
        while i < 32
            invariant
                i <= 32,
                queues@.len() == i,
                forall|j: int| 0 <= j < i ==> #[trigger] queues@[j]@ == Seq::<usize>::empty(),
            decreases 32 - i,
        {
            queues.push(Vec::new());
            i += 1;
        }
        let r = SchedulerInner { queues, idle_thread };
        assert(r@ =~= Seq::new(32, |i: int| Seq::<usize>::empty()));
        r
    }

    /// Pick the thread that runs next, and put it behind the others of its
    /// priority.
    pub fn find_highest_prio(&mut self) -> (r: Option<(usize, i8)>)
        requires
            old(self)@.len() == 32,
        ensures
            final(self).idle_thread == old(self).idle_thread,
            r is None <==> forall|p: int| 0 <= p < 32 ==> (#[trigger] old(self)@[p]).len() == 0,
            r is None ==> final(self)@ == old(self)@,
            r matches Some((thread, prio)) ==> {
                &&& 0 <= prio < 32
                &&& old(self)@[prio as int].len() > 0
                &&& old(self)@[prio as int][0] == thread
                &&& forall|p: int| prio < p < 32 ==> (#[trigger] old(self)@[p]).len() == 0
                &&& final(self)@ == old(self)@.update(
                    prio as int,
                    old(self)@[prio as int].subrange(
                        1,
                        old(self)@[prio as int].len() as int,
                    ).push(thread),
                )
            },
    {
        let mut prio: i8 = 32;
        while prio > 0
            invariant
                0 <= prio <= 32,
                *self == *old(self),
                self@.len() == 32,
                forall|p: int| prio <= p < 32 ==> (#[trigger] self@[p]).len() == 0,
            decreases prio,
        {
            prio -= 1;
            let index: usize = prio as usize;
            assert(self@[index as int] == self.queues@[index as int]@);
            if self.queues[index].len() > 0 {
                let thread: usize = self.queues[index].remove(0);
                self.queues[index].push(thread);
                let ghost was = old(self)@[prio as int];
                assert(self@ =~= old(self)@.update(
                    prio as int,
                    was.subrange(1, was.len() as int).push(thread),
                ));
                return Some((thread, prio));
            }
        }
        None
    }

    /// Take a thread out of the queue of a priority.
    pub fn remove_from_run_queue(&mut self, thread: usize, prio_queue: i8)
        requires
            old(self)@.len() == 32,
            0 <= prio_queue < 32,
        ensures
            final(self).idle_thread == old(self).idle_thread,
            final(self)@ == old(self)@.update(
                prio_queue as int,
                wait_queue::without(old(self)@[prio_queue as int], thread),
            ),
    {
        let index: usize = prio_queue as usize;
        retain_others(&mut self.queues[index], thread);
        assert(self@ =~= old(self)@.update(
            prio_queue as int,
            wait_queue::without(old(self)@[prio_queue as int], thread),
        ));
    }

    /// Put a thread in front of the queue of a priority.
    pub fn insert_in_run_queue_front(&mut self, thread: usize, prio_queue: i8)
        requires
            old(self)@.len() == 32,
            0 <= prio_queue < 32,
        ensures
            final(self).idle_thread == old(self).idle_thread,
            final(self)@ == old(self)@.update(
                prio_queue as int,
                seq![thread] + old(self)@[prio_queue as int],
            ),
    {
        let index: usize = prio_queue as usize;
        self.queues[index].insert(0, thread);
        assert(self@[index as int] =~= seq![thread] + old(self)@[prio_queue as int]);
        assert(self@ =~= old(self)@.update(
            prio_queue as int,
            seq![thread] + old(self)@[prio_queue as int],
        ));
    }

    /// Put a thread behind the queue of a priority.
    pub fn insert_in_run_queue_back(&mut self, thread: usize, prio_queue: i8)
        requires
            old(self)@.len() == 32,
            0 <= prio_queue < 32,
        ensures
            final(self).idle_thread == old(self).idle_thread,
            final(self)@ == old(self)@.update(
                prio_queue as int,
                old(self)@[prio_queue as int].push(thread),
            ),
    {
        let index: usize = prio_queue as usize;
        self.queues[index].push(thread);
        assert(self@ =~= old(self)@.update(
            prio_queue as int,
            old(self)@[prio_queue as int].push(thread),
        ));
    }
}

/// The scheduler.
pub struct Scheduler {
    pub per_hart: BTreeMap<u64, SchedulerInner>,
    /// How many harts the machine has.
    pub harts: u64,
    pub idle_bitmap: u64,
}

impl Scheduler {
    /// What the scheduler holds.
    pub open spec fn view(&self) -> Sched {
        Sched {
            queues: self.per_hart@.map_values(|h: SchedulerInner| h@),
            idle: self.per_hart@.map_values(|h: SchedulerInner| h.idle_thread),
            count: self.harts,
            bitmap: self.idle_bitmap,
        }
    }

    /// A scheduler for the harts with the given run queues.
    pub fn init(hart_map: BTreeMap<u64, SchedulerInner>, harts: u64) -> (r: Self)
        ensures
            r.per_hart@ == hart_map@,
            r@.count == harts,
            r@.bitmap == 0,
    {
        Scheduler { per_hart: hart_map, harts, idle_bitmap: 0 }
    }

    /// Take out the run queues of a hart.
    pub(crate) fn take(&mut self, hart: u64) -> (r: SchedulerInner)
        requires
            old(self)@.has(hart),
        ensures
            old(self).per_hart@[hart] == r,
            r@ == old(self)@.queues[hart],
            r.idle_thread == old(self)@.idle[hart],
            final(self).per_hart@ == old(self).per_hart@.remove(hart),
            final(self).harts == old(self).harts,
            final(self).idle_bitmap == old(self).idle_bitmap,
    {
        match self.per_hart.remove(&hart) {
            Some(inner) => inner,
            None => SchedulerInner { queues: Vec::new(), idle_thread: 0 },
        }
    }

    /// Put back the run queues of a hart.
    pub(crate) fn put(&mut self, hart: u64, inner: SchedulerInner)
        ensures
            final(self).per_hart@ == old(self).per_hart@.insert(hart, inner),
            final(self).harts == old(self).harts,
            final(self).idle_bitmap == old(self).idle_bitmap,
    {
        let _ = self.per_hart.insert(hart, inner);
    }

    /// Take a thread out of a queue.
    pub(crate) fn remove(&mut self, hart: u64, prio: i8, thread: usize)
        requires
            old(self)@.wf(),
            old(self)@.valid(hart, prio),
        ensures
            final(self)@ == old(self)@.removed(hart, prio, thread),
            final(self)@.wf(),
    {
        let mut inner = self.take(hart);
        inner.remove_from_run_queue(thread, prio);
        self.put(hart, inner);
        proof {
            let threads = old(self)@.at(hart, prio);
            lemma_set(old(self)@, hart, prio, wait_queue::without(threads, thread));
        }
        assert(self@ =~= old(self)@.removed(hart, prio, thread));
    }

    /// Put a thread in front of a queue.
    pub(crate) fn push_front(&mut self, hart: u64, prio: i8, thread: usize, here: u64)
        requires
            old(self)@.wf(),
            old(self)@.valid(hart, prio),
            here < 64,
        ensures
            final(self)@ == old(self)@.pushed_front(hart, prio, thread, here),
            final(self)@.wf(),
    {
        let mut inner = self.take(hart);
        inner.insert_in_run_queue_front(thread, prio);
        self.put(hart, inner);
        self.idle_bitmap = self.idle_bitmap & !(1u64 << here);
        proof {
            let threads = seq![thread] + old(self)@.at(hart, prio);
            lemma_set(old(self)@, hart, prio, threads);
            lemma_awake(old(self)@.set(hart, prio, threads), here);
        }
        assert(self@ =~= old(self)@.pushed_front(hart, prio, thread, here));
    }

    /// Put a thread behind a queue.
    pub(crate) fn push_back(&mut self, hart: u64, prio: i8, thread: usize, here: u64)
        requires
            old(self)@.wf(),
            old(self)@.valid(hart, prio),
            here < 64,
        ensures
            final(self)@ == old(self)@.pushed_back(hart, prio, thread, here),
            final(self)@.wf(),
    {
        let mut inner = self.take(hart);
        inner.insert_in_run_queue_back(thread, prio);
        self.put(hart, inner);
        self.idle_bitmap = self.idle_bitmap & !(1u64 << here);
        proof {
            let threads = old(self)@.at(hart, prio).push(thread);
            lemma_set(old(self)@, hart, prio, threads);
            lemma_awake(old(self)@.set(hart, prio, threads), here);
        }
        assert(self@ =~= old(self)@.pushed_back(hart, prio, thread, here));
    }

    /// Whether a hart has nothing to run.
    pub fn is_idle(&self, hartid: u64) -> (r: bool)
        requires
            hartid < 64,
        ensures
            r == self@.is_idle(hartid),
    {
        self.idle_bitmap & (1u64 << hartid) != 0
    }

    /// On which hart a thread is to run.
    pub(crate) fn pick_hart(&self, affinity: HartMask, last: u64, here: u64) -> (r: u64)
        requires
            self@.wf(),
            self@.has(here),
            last < 64 || last == u64::MAX,
        ensures
            r == chosen_hart(self@, affinity.0, last, here),
    {
        let last_hart: u64 = if last == u64::MAX {
            here
        } else {
            last
        };
        if affinity.0 & (1u64 << here) != 0 && self.is_idle(here) {
            return here;
        }
        if affinity.0 & (1u64 << last_hart) != 0 && self.is_idle(last_hart) {
            return last_hart;
        }
        if let Some(hart) = first_in_mask(
            HartMask(affinity.0 & self.idle_bitmap),
            self.harts,
        ) {
            return hart;
        }
        if affinity.0 & (1u64 << last_hart) != 0 {
            return last_hart;
        }
        here
    }
}

/// The least of the first `n` harts that is in a mask.
fn first_in_mask(mask: HartMask, n: u64) -> (r: Option<u64>)
    requires
        n <= 64,
    ensures
        r == first_hart(mask.0, 0, n as int),
{
    let mut hart: u64 = 0;
    while hart < n
        invariant
            hart <= n <= 64,
            first_hart(mask.0, 0, n as int) == first_hart(mask.0, hart as int, n as int),
        decreases n - hart,
    {
        if mask.0 & (1u64 << hart) != 0 {
            return Some(hart);
        }
        hart += 1;
    }
    None
}

/// A hart that was found to have nothing to run is idle until it is found to
/// have work, and this leaves the other harts alone.
pub proof fn law_idle_bitmap(s: Sched, hart: u64, other: u64)
    requires
        hart < 64,
        other < 64,
        other != hart,
    ensures
        s.idling(hart).is_idle(hart),
        !s.awake(hart).is_idle(hart),
        s.idling(hart).is_idle(other) == s.is_idle(other),
        s.awake(hart).is_idle(other) == s.is_idle(other),
{
    let b = s.bitmap;
    assert((b | (1u64 << hart)) & (1u64 << hart) != 0 && (b & !(1u64 << hart)) & (1u64 << hart) == 0
        && (((b | (1u64 << hart)) & (1u64 << other) != 0) == (b & (1u64 << other) != 0)) && (((b & !(
    1u64 << hart)) & (1u64 << other) != 0) == (b & (1u64 << other) != 0))) by (bit_vector)
        requires
            hart < 64,
            other < 64,
            other != hart,
    ;
}

/// A thread that was put into a run queue and taken out again leaves the queue
/// as it was, if it was not there before.
pub proof fn law_dequeue_undoes_enqueue(threads: Seq<usize>, thread: usize)
    requires
        !threads.contains(thread),
    ensures
        wait_queue::without(threads.push(thread), thread) == threads,
        wait_queue::without(seq![thread] + threads, thread) == threads,
    decreases threads.len(),
{
    lemma_without_absent(threads, thread);
    assert(threads.push(thread).drop_last() =~= threads);
    if threads.len() == 0 {
        let one = seq![thread] + threads;
        assert(one.last() == thread);
        assert(one.drop_last() =~= threads);
        assert(wait_queue::without(one, thread) == wait_queue::without(threads, thread));
        assert(wait_queue::without(seq![thread] + threads, thread) =~= threads);
    } else {
        let shorter = threads.drop_last();
        assert forall|t: usize| shorter.contains(t) implies threads.contains(t) by {
            let i = choose|i: int| 0 <= i < shorter.len() && shorter[i] == t;
            assert(threads[i] == t);
        }
        law_dequeue_undoes_enqueue(shorter, thread);
        assert((seq![thread] + threads).drop_last() =~= seq![thread] + shorter);
        assert(threads[threads.len() - 1] == threads.last());
        assert(wait_queue::without(seq![thread] + threads, thread) =~= threads);
    }
}

proof fn lemma_without_absent(threads: Seq<usize>, thread: usize)
    requires
        !threads.contains(thread),
    ensures
        wait_queue::without(threads, thread) == threads,
    decreases threads.len(),
{
    if threads.len() > 0 {
        let shorter = threads.drop_last();
        assert forall|t: usize| shorter.contains(t) implies threads.contains(t) by {
            let i = choose|i: int| 0 <= i < shorter.len() && shorter[i] == t;
            assert(threads[i] == t);
        }
        lemma_without_absent(shorter, thread);
        assert(threads[threads.len() - 1] == threads.last());
        assert(wait_queue::without(threads, thread) =~= threads);
    }
}

/// Of the first `n` priorities of a hart, the thread that is picked is the first of the
/// highest that has threads; none is picked only where none has.
pub proof fn law_first_of_the_highest(s: Sched, hart: u64, n: int)
    requires
        0 <= n,
    ensures
        match s.pick(hart, n) {
            Some((t, p)) => {
                &&& 0 <= p < n
                &&& s.queues[hart][p].len() > 0
                &&& t == s.queues[hart][p][0]
                &&& forall|h: int| p < h < n ==> (#[trigger] s.queues[hart][h]).len() == 0
            },
            None => forall|h: int| 0 <= h < n ==> (#[trigger] s.queues[hart][h]).len() == 0,
        },
    decreases n,
{
    if n > 0 && s.queues[hart][n - 1].len() == 0 {
        law_first_of_the_highest(s, hart, n - 1);
    }
}

/// A thread is put on a hart that it may run on and that is idle, if there is one: on the
/// current hart before all others, then on the one that it ran on last. If there is none, it
/// stays where it ran last, or is put on the current hart where it may not.
pub proof fn law_idle_harts_are_preferred(s: Sched, affinity: u64, last: u64, here: u64, other: u64)
    requires
        s.count <= 64,
        here < 64,
        last < 64 || last == u64::MAX,
        other < s.count,
    ensures
        ({
            let chosen = chosen_hart(s, affinity, last, here);
            let before = if last == u64::MAX {
                here
            } else {
                last
            };
            &&& may_take(s, affinity, here) ==> chosen == here
            &&& !may_take(s, affinity, here) && may_take(s, affinity, before) ==> chosen == before
            &&& may_take(s, affinity, other) ==> may_take(s, affinity, chosen)
            &&& !may_take(s, affinity, chosen) ==> chosen == if affinity & (1u64 << before) != 0 {
                before
            } else {
                here
            }
        }),
{
    lemma_first_hart(affinity & s.bitmap, 0, s.count as int, other as int);
    lemma_both_bits(affinity, s.bitmap, other);
    if let Some(hart) = first_hart(affinity & s.bitmap, 0, s.count as int) {
        lemma_both_bits(affinity, s.bitmap, hart);
    }
}

/// Whether a hart is idle and among those of `affinity`.
pub open spec fn may_take(s: Sched, affinity: u64, hart: u64) -> bool {
    affinity & (1u64 << hart) != 0 && s.bitmap & (1u64 << hart) != 0
}

proof fn lemma_both_bits(a: u64, b: u64, i: u64)
    by (bit_vector)
    ensures
        (a & b) & (1u64 << i) != 0 <==> a & (1u64 << i) != 0 && b & (1u64 << i) != 0,
{
}

proof fn lemma_first_hart(mask: u64, hart: int, n: int, other: int)
    requires
        0 <= hart <= n <= 64,
        hart <= other < n,
    ensures
        match first_hart(mask, hart, n) {
            Some(h) => hart <= h < n && mask & (1u64 << h) != 0,
            None => mask & (1u64 << (other as u64)) == 0,
        },
    decreases n - hart,
{
    if hart < n && mask & (1u64 << (hart as u64)) == 0 {
        if hart < other {
            lemma_first_hart(mask, hart + 1, n, other);
        } else if hart + 1 < n {
            lemma_first_hart(mask, hart + 1, n, n - 1);
        }
    }
}

} // verus!
