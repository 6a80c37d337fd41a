//! Queues of threads that wait, by priority.

use vstd::prelude::*;

verus! {

/// What a wait queue holds: the thread that the others wait for, if any, and
/// for each priority from -128 on the threads that wait at it, the one that
/// came first in front. A priority at which none ever waited has no class.
#[verifier::ext_equal]
pub struct Queue {
    pub owner: Option<usize>,
    pub classes: Seq<Option<Seq<usize>>>,
}

/// The class of a priority.
pub open spec fn class_of(prio: i8) -> int {
    prio + 128
}

/// The priority of the highest of the first `n` classes that exists.
pub open spec fn highest_of(classes: Seq<Option<Seq<usize>>>, n: int) -> i8
    decreases n,
{
    if n <= 0 {
        (-1) as i8
    } else if classes[n - 1] is Some {
        (n - 1 - 128) as i8
    } else {
        highest_of(classes, n - 1)
    }
}

/// The first thread of a class, if there is one.
pub open spec fn front(class: Option<Seq<usize>>) -> Option<usize> {
    match class {
        Some(threads) => if threads.len() > 0 {
            Some(threads[0])
        } else {
            None
        },
        None => None,
    }
}

/// A class without its first thread.
pub open spec fn rest(class: Option<Seq<usize>>) -> Option<Seq<usize>> {
    match class {
        Some(threads) => if threads.len() > 0 {
            Some(threads.subrange(1, threads.len() as int))
        } else {
            Some(threads)
        },
        None => None,
    }
}

/// The highest of the first `n` classes in which a thread waits.
pub open spec fn waiting_class(classes: Seq<Option<Seq<usize>>>, n: int) -> Option<int>
    decreases n,
{
    if n <= 0 {
        None
    } else if front(classes[n - 1]) is Some {
        Some(n - 1)
    } else {
        waiting_class(classes, n - 1)
    }
}

/// The threads without `thread`.
pub open spec fn without(threads: Seq<usize>, thread: usize) -> Seq<usize>
    decreases threads.len(),
{
    if threads.len() == 0 {
        threads
    } else if threads.last() == thread {
        without(threads.drop_last(), thread)
    } else {
        without(threads.drop_last(), thread).push(threads.last())
    }
}

/// How many of the first `n` classes do not exist.
pub open spec fn absent(classes: Seq<Option<Seq<usize>>>, n: int) -> nat
    decreases n,
{
    if n <= 0 {
        0
    } else if classes[n - 1] is None {
        absent(classes, n - 1) + 1
    } else {
        absent(classes, n - 1)
    }
}

impl Queue {
    /// There is a place for each priority.
    pub open spec fn wf(self) -> bool {
        self.classes.len() == 256
    }

    /// Whether there is a class of a priority.
    pub open spec fn has(self, prio: i8) -> bool {
        self.classes[class_of(prio)] is Some
    }

    /// The highest priority that has a class; -1 if there is none.
    pub open spec fn highest(self) -> i8 {
        highest_of(self.classes, 256)
    }

    /// The queue after a thread has been put behind those of its priority.
    pub open spec fn insert(self, prio: i8, thread: usize) -> Queue {
        let class = match self.classes[class_of(prio)] {
            Some(threads) => threads.push(thread),
            None => seq![thread],
        };
        Queue { classes: self.classes.update(class_of(prio), Some(class)), ..self }
    }

    /// The queue after a thread has been taken out of the class of a priority.
    pub open spec fn remove(self, prio: i8, thread: usize) -> Queue {
        let class = without(self.classes[class_of(prio)]->0, thread);
        Queue { classes: self.classes.update(class_of(prio), Some(class)), ..self }
    }

    /// The queue after the first thread of the highest priority at which one
    /// waits has been taken out.
    pub open spec fn popped(self) -> Queue {
        match waiting_class(self.classes, 256) {
            Some(c) => Queue { classes: self.classes.update(c, rest(self.classes[c])), ..self },
            None => self,
        }
    }

    /// The thread that is handed out of the queue: the first of the highest
    /// priority at which one waits.
    pub open spec fn next(self) -> Option<usize> {
        match waiting_class(self.classes, 256) {
            Some(c) => front(self.classes[c]),
            None => None,
        }
    }

    /// How many priorities have no class.
    pub open spec fn absent(self) -> nat {
        absent(self.classes, 256)
    }

    /// Whether all the threads in the queue are below `n`.
    pub open spec fn below(self, n: int) -> bool {
        &&& self.owner matches Some(t) ==> t < n
        &&& forall|c: int, i: int|
            0 <= c < self.classes.len() && self.classes[c] is Some && 0 <= i
                < self.classes[c]->0.len() ==> (#[trigger] self.classes[c]->0[i]) < n
    }
}

/// Whether the first thread of the class `c` is handed out of a queue, and
/// nothing else changes.
pub open spec fn left_from(queue: Queue, c: int) -> bool {
    &&& 0 <= c < queue.classes.len()
    &&& queue.classes[c] matches Some(threads) && threads.len() > 0 && queue.next() == Some(
        threads[0],
    ) && queue.popped() == (Queue {
        classes: queue.classes.update(c, Some(threads.subrange(1, threads.len() as int))),
        ..queue
    })
}

/// The view of a class.
pub open spec fn class_view(class: Option<Vec<usize>>) -> Option<Seq<usize>> {
    match class {
        Some(threads) => Some(threads@),
        None => None,
    }
}

/// A queue of threads that wait, by priority.
pub struct WaitQueue {
    pub owner: Option<usize>,
    pub classes: Vec<Option<Vec<usize>>>,
}

impl WaitQueue {
    /// What the queue holds.
    pub open spec fn view(&self) -> Queue {
        Queue {
            owner: self.owner,
            classes: self.classes@.map_values(|c: Option<Vec<usize>>| class_view(c)),
        }
    }

    /// An empty queue.
    pub fn new(owner: Option<usize>) -> (r: WaitQueue)
        ensures
            r@ == (Queue { owner, classes: Seq::new(256, |i: int| None) }),
            r@.wf(),
    {
        let mut classes: Vec<Option<Vec<usize>>> = Vec::new();
        let mut i: usize = 0;
        while i < 256
            invariant
                i <= 256,
                classes@.len() == i,
                forall|j: int| 0 <= j < i ==> #[trigger] classes@[j] is None,
            decreases 256 - i,
        {
            classes.push(None);
            i += 1;
        }
        let r = WaitQueue { owner, classes };
        assert(r@.classes =~= Seq::new(256, |i: int| None));
        r
    }

    /// Take out the first thread of the highest priority at which one waits.
    pub fn find_highest_thread(&mut self) -> (r: Option<usize>)
        requires
            old(self)@.wf(),
        ensures
            final(self)@ == old(self)@.popped(),
            r == old(self)@.next(),
    {
        let mut i: usize = 256;
        while i > 0
            invariant
                i <= 256,
                self@ == old(self)@,
                self@.wf(),
                waiting_class(self@.classes, 256) == waiting_class(self@.classes, i as int),
            decreases i,
        {
            let ghost classes = self@.classes;
            assert(classes[i - 1] == class_view(self.classes@[i - 1]));
            let waiting: bool = match &self.classes[i - 1] {
                Some(threads) => threads.len() > 0,
                None => false,
            };
            if waiting {
                if let Some(threads) = &mut self.classes[i - 1] {
                    let thread: usize = threads.remove(0);
                    assert(self@.classes[i - 1] =~= rest(classes[i - 1]));
                    assert(self@.classes =~= classes.update(i - 1, rest(classes[i - 1])));
                    return Some(thread);
                }
            }
            i -= 1;
        }
        None
    }

    /// The highest priority that has a class; -1 if there is none.
    pub fn highest_prio(&self) -> (r: i8)
        requires
            self@.wf(),
        ensures
            r == self@.highest(),
    {
        let mut i: i16 = 256;
        while i > 0
            invariant
                0 <= i <= 256,
                self@.wf(),
                highest_of(self@.classes, 256) == highest_of(self@.classes, i as int),
            decreases i,
        {
            assert(self@.classes[i - 1] == class_view(self.classes@[i - 1]));
            if self.classes[(i - 1) as usize].is_some() {
                return (i - 129) as i8;
            }
            i -= 1;
        }
        -1
    }

    /// Take a thread out of the class of a priority.
    pub fn remove(&mut self, prio: i8, thread: usize)
        requires
            old(self)@.wf(),
            old(self)@.has(prio),
        ensures
            final(self)@ == old(self)@.remove(prio, thread),
    {
        let index: usize = (prio as i16 + 128) as usize;
        let ghost classes = self@.classes;
        assert(classes[index as int] == class_view(self.classes@[index as int]));
        match &mut self.classes[index] {
            Some(threads) => {
                retain_others(threads, thread);
            },
            None => {},
        }
        assert(self@ =~= old(self)@.remove(prio, thread));
    }

    /// Put a thread behind those of its priority.
    pub fn insert(&mut self, prio: i8, thread: usize)
        requires
            old(self)@.wf(),
        ensures
            final(self)@ == old(self)@.insert(prio, thread),
    {
        let index: usize = (prio as i16 + 128) as usize;
        let ghost classes = self@.classes;
        assert(classes[index as int] == class_view(self.classes@[index as int]));
        if self.classes[index].is_none() {
            let mut threads: Vec<usize> = Vec::new();
            threads.push(thread);
            assert(threads@ =~= seq![thread]);
            self.classes.set(index, Some(threads));
        } else {
            match &mut self.classes[index] {
                Some(threads) => {
                    threads.push(thread);
                },
                None => {},
            }
        }
        assert(self@ =~= old(self)@.insert(prio, thread));
    }
}

/// Take a thread out of a list of threads.
pub fn retain_others(threads: &mut Vec<usize>, thread: usize)
    ensures
        final(threads)@ == without(old(threads)@, thread),
{
    let mut kept: Vec<usize> = Vec::new();
    let mut i: usize = 0;
    while i < threads.len()
        invariant
            i <= threads@.len(),
            threads@ == old(threads)@,
            kept@ == without(threads@.subrange(0, i as int), thread),
        decreases threads@.len() - i,
    {
        let x: usize = threads[i];
        assert(threads@.subrange(0, i + 1).drop_last() =~= threads@.subrange(0, i as int));
        if x != thread {
            kept.push(x);
        }
        i += 1;
    }
    assert(threads@.subrange(0, i as int) =~= threads@);
    *threads = kept;
}

/// The highest priority of a queue has a class, and no higher one has.
pub proof fn law_highest_prio(classes: Seq<Option<Seq<usize>>>, n: int)
    requires
        0 <= n <= 256,
        classes.len() == 256,
    ensures
        forall|c: int| 0 <= c < n && (#[trigger] classes[c]) is Some ==> c - 128 <= highest_of(
            classes,
            n,
        ) && classes[highest_of(classes, n) + 128] is Some,
        (forall|c: int| 0 <= c < n ==> (#[trigger] classes[c]) is None) ==> highest_of(classes, n)
            == -1,
    decreases n,
{
    if n > 0 {
        law_highest_prio(classes, n - 1);
    }
}

/// The class out of which a thread is handed has one that waits, and no class of
/// a higher priority has.
pub proof fn lemma_waiting_class(classes: Seq<Option<Seq<usize>>>, n: int)
    requires
        0 <= n <= classes.len(),
    ensures
        match waiting_class(classes, n) {
            Some(c) => {
                &&& 0 <= c < n
                &&& front(classes[c]) is Some
                &&& forall|d: int| c < d < n ==> front(#[trigger] classes[d]) is None
            },
            None => forall|d: int| 0 <= d < n ==> front(#[trigger] classes[d]) is None,
        },
    decreases n,
{
    if n > 0 {
        lemma_waiting_class(classes, n - 1);
    }
}

/// Of the threads that wait, the one that is handed out waits at the highest
/// priority and came first there; it alone leaves the queue, and all the others
/// stay, in the same order.
pub proof fn law_highest_thread_leaves(queue: Queue, prio: i8, i: int)
    requires
        queue.wf(),
        queue.classes[class_of(prio)] is Some,
        0 <= i < queue.classes[class_of(prio)]->0.len(),
    ensures
        exists|c: int| #[trigger] left_from(queue, c) && class_of(prio) <= c,
{
    lemma_waiting_class(queue.classes, 256);
    let c = waiting_class(queue.classes, 256)->0;
    assert(front(queue.classes[class_of(prio)]) is Some);
    assert(left_from(queue, c));
}

/// A thread that has been taken out of a list is no longer in it, and the
/// others are still there, in the same order.
pub proof fn law_without(threads: Seq<usize>, thread: usize)
    ensures
        without(threads, thread) == threads.filter(|t: usize| t != thread),
        !without(threads, thread).contains(thread),
        forall|t: usize|
            t != thread ==> (#[trigger] without(threads, thread).contains(t) <==> threads.contains(
                t,
            )),
    decreases threads.len(),
{
    reveal(Seq::filter);
    if threads.len() > 0 {
        law_without(threads.drop_last(), thread);
        let w = without(threads.drop_last(), thread);
        assert forall|t: usize| t != thread implies (#[trigger] without(threads, thread).contains(t)
            <==> threads.contains(t)) by {
            assert(w.contains(t) <==> threads.drop_last().contains(t));
            if threads.contains(t) && t != threads.last() {
                let i = choose|i: int| 0 <= i < threads.len() && threads[i] == t;
                assert(threads.drop_last()[i] == t);
            }
            if threads.drop_last().contains(t) {
                let i = choose|i: int|
                    0 <= i < threads.drop_last().len() && threads.drop_last()[i] == t;
                assert(threads[i] == t);
            }
            if threads.last() != thread {
                assert(w.push(threads.last()).last() == threads.last());
                if w.contains(t) {
                    let i = choose|i: int| 0 <= i < w.len() && w[i] == t;
                    assert(w.push(threads.last())[i] == t);
                }
                assert(threads[threads.len() - 1] == threads.last());
                if w.push(threads.last()).contains(t) && t != threads.last() {
                    let i = choose|i: int|
                        0 <= i < w.push(threads.last()).len() && w.push(threads.last())[i] == t;
                    assert(w[i] == t);
                }
            }
        }
        if without(threads, thread).contains(thread) {
            let i = choose|i: int|
                0 <= i < without(threads, thread).len() && without(threads, thread)[i] == thread;
            assert(i < w.len() ==> w[i] == thread);
        }
    }
}

/// A thread that begins to wait is the last of those of its priority, and all others stay
/// where they are; one that stops waiting is gone from there.
#[verifier::spinoff_prover]
#[verifier::rlimit(50)]
pub proof fn law_waiting_is_in_line(queue: Queue, prio: i8, thread: usize, c: int)
    requires
        queue.wf(),
        0 <= c < 256,
    ensures
        ({
            let line = queue.classes[prio + 128];
            let after = queue.insert(prio, thread);
            let now = after.classes[prio + 128];
            &&& after.owner == queue.owner
            &&& c != prio + 128 ==> after.classes[c] == queue.classes[c]
            &&& now matches Some(threads) && threads.len() > 0 && threads.last() == thread
            &&& line matches Some(threads) ==> {
                &&& now->0.len() == threads.len() + 1
                &&& forall|i: int|
                    0 <= i < threads.len() ==> now->0[i] == (#[trigger] threads[i])
            }
            &&& line is None ==> now->0.len() == 1
        }),
        ({
            let after = queue.remove(prio, thread);
            &&& after.owner == queue.owner
            &&& c != prio + 128 ==> after.classes[c] == queue.classes[c]
            &&& queue.classes[prio + 128] is Some ==> !after.classes[prio + 128]->0.contains(thread)
        }),
{
    if queue.classes[prio + 128] is Some {
        law_without(queue.classes[prio + 128]->0, thread);
    }
}

/// Of two threads that wait, the one with the higher priority is served first, and of two
/// with the same priority the one that came first.
#[verifier::spinoff_prover]
#[verifier::rlimit(50)]
pub proof fn law_served_in_order(queue: Queue, first: i8, second: i8, a: usize, b: usize)
    requires
        queue.wf(),
        forall|c: int| 0 <= c < 256 ==> (#[trigger] queue.classes[c]) is None,
    ensures
        ({
            let both = queue.insert(first, a).insert(second, b);
            &&& both.next() == Some(if second > first {
                b
            } else {
                a
            })
            &&& both.popped().next() == Some(if second > first {
                a
            } else {
                b
            })
            &&& both.highest() == if second > first {
                second
            } else {
                first
            }
        }),
{
    let both = queue.insert(first, a).insert(second, b);
    let hi = if second > first {
        second
    } else {
        first
    };
    lemma_nobody_above(both.classes, 256, hi + 128);
    law_highest_prio(both.classes, 256);
    let left = both.popped();
    let lo = if second > first {
        first
    } else {
        second
    };
    lemma_nobody_above(left.classes, 256, lo + 128);
}

/// The highest class in which somebody waits is the one of somebody above whom nobody does.
proof fn lemma_nobody_above(classes: Seq<Option<Seq<usize>>>, n: int, c: int)
    requires
        0 <= c < n <= classes.len(),
        front(classes[c]) is Some,
        forall|d: int| c < d < n ==> front(#[trigger] classes[d]) is None,
    ensures
        waiting_class(classes, n) == Some(c),
    decreases n,
{
    if c < n - 1 {
        assert(front(classes[n - 1]) is None);
        lemma_nobody_above(classes, n - 1, c);
    }
}

} // verus!
