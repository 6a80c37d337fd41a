//! Processes in turn: each hart goes round its own, and takes one of those that
//! wait for any hart once it has none.

use vstd::prelude::*;

verus! {

/// The processes of a hart, the one that is next first.
pub struct SchedulerInner {
    pub procs: Vec<usize>,
}

/// The processes of all harts.
pub struct Scheduler {
    pub per_hart: Vec<SchedulerInner>,
    /// The processes that wait, in the order of their numbers.
    pub wait_queue: Vec<usize>,
}

/// The processes of all harts.
#[verifier::ext_equal]
pub struct Turns {
    pub per_hart: Seq<Seq<usize>>,
    pub waiting: Seq<usize>,
}

/// Whether numbers are in order, none of them twice.
pub open spec fn ascending(s: Seq<usize>) -> bool {
    forall|i: int, j: int| 0 <= i < j < s.len() ==> s[i] < s[j]
}

/// Without the given number.
pub open spec fn without(s: Seq<usize>, pid: usize) -> Seq<usize> {
    s.filter(|p: usize| p != pid)
}

/// How many of the numbers are below the given one.
pub open spec fn rank(s: Seq<usize>, pid: usize, i: int) -> int
    decreases s.len() - i,
{
    if i >= s.len() || s[i] >= pid {
        i
    } else {
        rank(s, pid, i + 1)
    }
}

/// With the given number, in order.
pub open spec fn with_waiting(s: Seq<usize>, pid: usize) -> Seq<usize> {
    let k = rank(s, pid, 0);
    if k < s.len() && s[k] == pid {
        s
    } else {
        s.insert(k, pid)
    }
}

/// What is next for a hart, and what is left then: the first of its own goes
/// behind the others; if it has none, one of those that wait becomes its own.
pub open spec fn turn(t: Turns, hart: int, time: u64) -> (Option<usize>, Turns) {
    let procs = t.per_hart[hart];
    if procs.len() > 0 {
        (
            Some(procs[0]),
            Turns { per_hart: t.per_hart.update(hart, procs.skip(1).push(procs[0])), ..t },
        )
    } else if t.waiting.len() > 0 {
        let v = (time * 717) % (t.waiting.len() as int);
        (
            Some(t.waiting[v]),
            Turns {
                per_hart: t.per_hart.update(hart, seq![t.waiting[v]]),
                waiting: t.waiting.remove(v),
            },
        )
    } else {
        (None, t)
    }
}

/// The processes of harts.
pub open spec fn queues(s: Seq<SchedulerInner>) -> Seq<Seq<usize>> {
    s.map_values(|x: SchedulerInner| x.procs@)
}

/// Adding to a sequence adds to what a filter leaves of it, or not.
proof fn lemma_without_push(s: Seq<usize>, x: usize, pid: usize)
    ensures
        without(s.push(x), pid) == if x != pid {
            without(s, pid).push(x)
        } else {
            without(s, pid)
        },
{
    let f = |p: usize| p != pid;
    reveal(Seq::filter);
    assert(s.push(x).drop_last() =~= s);
}

impl Scheduler {
    /// The processes of all harts.
    pub open spec fn view(&self) -> Turns {
        Turns { per_hart: queues(self.per_hart@), waiting: self.wait_queue@ }
    }

    /// A scheduler for the given number of harts, without processes.
    pub fn init(harts: usize) -> (r: Self)
        ensures
            r@.per_hart == Seq::new(harts as nat, |h: int| Seq::<usize>::empty()),
            r@.waiting == Seq::<usize>::empty(),
    {
        let mut per_hart: Vec<SchedulerInner> = Vec::new();
        let mut i: usize = 0;
        while i < harts
            invariant
                i <= harts,
                queues(per_hart@) =~= Seq::new(i as nat, |h: int| Seq::<usize>::empty()),
            decreases harts - i,
        {
            let procs: Vec<usize> = Vec::new();
            assert(procs@ =~= Seq::<usize>::empty());
            let ghost before = queues(per_hart@);
            per_hart.push(SchedulerInner { procs });
            i += 1;
            assert(queues(per_hart@) =~= before.push(procs@));
        }
        let wait_queue: Vec<usize> = Vec::new();
        assert(wait_queue@ =~= Seq::<usize>::empty());
        Scheduler { per_hart, wait_queue }
    }

    /// Enqueue a process on to the scheduler.
    pub fn enqueue(&mut self, hart: usize, pid: usize)
        requires
            hart < old(self)@.per_hart.len(),
        ensures
            final(self)@ == (Turns {
                per_hart: old(self)@.per_hart.update(
                    hart as int,
                    old(self)@.per_hart[hart as int].push(pid),
                ),
                ..old(self)@
            }),
    {
        self.per_hart[hart].procs.push(pid);
        assert(self@.per_hart =~= old(self)@.per_hart.update(
            hart as int,
            old(self)@.per_hart[hart as int].push(pid),
        ));
    }

    /// Move the current process to the wait queue.
    pub fn current_proc_wait(&mut self, hart: usize, pid: usize)
        requires
            hart < old(self)@.per_hart.len(),
        ensures
            final(self)@ == (Turns {
                per_hart: old(self)@.per_hart.update(
                    hart as int,
                    without(old(self)@.per_hart[hart as int], pid),
                ),
                waiting: with_waiting(old(self)@.waiting, pid),
            }),
    {
        let ghost before = self@;
        let ghost procs = before.per_hart[hart as int];
        assert(procs == self.per_hart@[hart as int].procs@);
        let mut left: Vec<usize> = Vec::new();
        let mut i: usize = 0;
        assert(without(procs.take(0), pid) =~= Seq::<usize>::empty()) by {
            reveal(Seq::filter);
        }
        assert(left@ =~= without(procs.take(0), pid));
        while i < self.per_hart[hart].procs.len()
            invariant
                hart < self.per_hart@.len(),
                *self == *old(self),
                procs == self.per_hart@[hart as int].procs@,
                i <= procs.len(),
                left@ == without(procs.take(i as int), pid),
            decreases procs.len() - i,
        {
            let p: usize = self.per_hart[hart].procs[i];
            proof {
                lemma_without_push(procs.take(i as int), p, pid);
                assert(procs.take(i as int).push(p) =~= procs.take(i + 1));
            }
            if p != pid {
                left.push(p);
            }
            i += 1;
        }
        assert(procs.take(i as int) =~= procs);
        self.per_hart.set(hart, SchedulerInner { procs: left });
        let ghost waiting = before.waiting;
        let mut k: usize = 0;
        while k < self.wait_queue.len() && self.wait_queue[k] < pid
            invariant
                k <= self.wait_queue@.len(),
                self.wait_queue@ == waiting,
                rank(waiting, pid, 0) == rank(waiting, pid, k as int),
            decreases self.wait_queue@.len() - k,
        {
            k += 1;
        }
        if k == self.wait_queue.len() || self.wait_queue[k] != pid {
            self.wait_queue.insert(k, pid);
        }
        assert(self@.per_hart =~= before.per_hart.update(hart as int, without(procs, pid)));
    }

    /// What is next for a hart, if anything is.
    pub fn next_proc(&mut self, hart: usize, time: u64) -> (r: Option<usize>)
        requires
            hart < old(self)@.per_hart.len(),
            time * 717 <= u64::MAX,
        ensures
            (r, final(self)@) == turn(old(self)@, hart as int, time),
    {
        let ghost before = self@;
        let ghost procs = before.per_hart[hart as int];
        assert(procs == self.per_hart@[hart as int].procs@);
        if self.per_hart[hart].procs.len() > 0 {
            let pid: usize = self.per_hart[hart].procs.remove(0);
            self.per_hart[hart].procs.push(pid);
            assert(self.per_hart@[hart as int].procs@ =~= procs.skip(1).push(procs[0]));
            assert(self@.per_hart =~= turn(before, hart as int, time).1.per_hart);
            Some(pid)
        } else if self.wait_queue.len() > 0 {
            let v: u64 = (time * 717) % (self.wait_queue.len() as u64);
            let pid: usize = self.wait_queue.remove(v as usize);
            self.per_hart[hart].procs.push(pid);
            assert(self.per_hart@[hart as int].procs@ =~= seq![pid]);
            assert(self@.per_hart =~= turn(before, hart as int, time).1.per_hart);
            Some(pid)
        } else {
            None
        }
    }
}

/// Processes that wait stay in the order of their numbers.
pub proof fn law_waiting_in_order(s: Seq<usize>, pid: usize)
    requires
        ascending(s),
    ensures
        ascending(with_waiting(s, pid)),
        with_waiting(s, pid).contains(pid),
{
    lemma_rank(s, pid, 0);
    let k = rank(s, pid, 0);
    let t = with_waiting(s, pid);
    assert(t[k] == pid);
    assert forall|i: int, j: int| 0 <= i < j < t.len() implies t[i] < t[j] by {}
}

proof fn lemma_rank(s: Seq<usize>, pid: usize, i: int)
    requires
        0 <= i <= s.len(),
        ascending(s),
        forall|j: int| 0 <= j < i ==> s[j] < pid,
    ensures
        i <= rank(s, pid, i) <= s.len(),
        forall|j: int| 0 <= j < rank(s, pid, i) ==> s[j] < pid,
        forall|j: int| rank(s, pid, i) <= j < s.len() ==> s[j] >= pid,
    decreases s.len() - i,
{
    if i < s.len() && s[i] < pid {
        lemma_rank(s, pid, i + 1);
    }
}

/// Processes of a hart take turns: the first runs, and is behind the others then. A hart
/// without any takes one of those that wait, which waits no longer; nothing runs only where
/// none waits either.
#[verifier::spinoff_prover]
#[verifier::rlimit(50)]
pub proof fn law_processes_take_turns(t: Turns, hart: int, time: u64)
    requires
        0 <= hart < t.per_hart.len(),
    ensures
        ({
            let procs = t.per_hart[hart];
            let (r, after) = turn(t, hart, time);
            &&& forall|h: int|
                0 <= h < t.per_hart.len() && h != hart ==> (#[trigger] after.per_hart[h])
                    == t.per_hart[h]
            &&& procs.len() > 0 ==> {
                &&& r == Some(procs[0])
                &&& after.waiting == t.waiting
                &&& after.per_hart[hart].len() == procs.len()
                &&& after.per_hart[hart].last() == procs[0]
                &&& forall|i: int|
                    0 <= i < procs.len() - 1 ==> (#[trigger] after.per_hart[hart][i]) == procs[i
                        + 1]
            }
            &&& procs.len() == 0 && t.waiting.len() > 0 ==> (r matches Some(pid) && {
                &&& after.per_hart[hart] == seq![pid]
                &&& t.waiting.contains(pid)
                &&& t.waiting.to_multiset() == after.waiting.to_multiset().insert(pid)
            })
            &&& procs.len() == 0 && t.waiting.len() == 0 ==> r is None && after == t
        }),
{
    broadcast use vstd::seq_lib::group_to_multiset_ensures;

    if t.per_hart[hart].len() == 0 && t.waiting.len() > 0 {
        let v = (time * 717) % (t.waiting.len() as int);
        assert(0 <= v < t.waiting.len());
        assert(t.waiting.contains(t.waiting[v]));
        assert(t.waiting.remove(v).to_multiset() =~= t.waiting.to_multiset().remove(t.waiting[v]));
        assert(t.waiting.to_multiset().count(t.waiting[v]) > 0);
        assert(t.waiting.to_multiset() =~= t.waiting.remove(v).to_multiset().insert(t.waiting[v]));
    }
}

/// A process that begins to wait waits then, and the others go on to, and no other does.
#[verifier::spinoff_prover]
#[verifier::rlimit(50)]
pub proof fn law_waiting_is_a_set(s: Seq<usize>, pid: usize, other: usize)
    requires
        ascending(s),
    ensures
        with_waiting(s, pid).contains(other) <==> other == pid || s.contains(other),
        s.contains(pid) ==> with_waiting(s, pid) == s,
        without(s, pid).contains(other) <==> other != pid && s.contains(other),
{
    let k = rank(s, pid, 0);
    lemma_rank(s, pid, 0);
    lemma_without(s, pid, other);
    if s.contains(pid) {
        let i = s.index_of(pid);
        assert(s[i] == pid);
        assert(!(i < k));
        if k < i {
            assert(s[k] < s[i]);
        }
    } else {
        let w = s.insert(k, pid);
        assert(w[k] == pid);
        if s.contains(other) {
            let i = s.index_of(other);
            assert(w[if i < k {
                i
            } else {
                i + 1
            }] == other);
        }
        if w.contains(other) {
            let i = w.index_of(other);
            assert(i == k || s[if i < k {
                i
            } else {
                i - 1
            }] == other);
        }
    }
}

proof fn lemma_without(s: Seq<usize>, pid: usize, other: usize)
    ensures
        without(s, pid).contains(other) <==> other != pid && s.contains(other),
    decreases s.len(),
{
    reveal(Seq::filter);
    if s.len() > 0 {
        let front = s.drop_last();
        lemma_without(front, pid, other);
        let w = without(front, pid);
        assert(s.contains(other) <==> front.contains(other) || s.last() == other) by {
            if s.contains(other) && s.last() != other {
                assert(front[s.index_of(other)] == other);
            }
            if front.contains(other) {
                assert(s[front.index_of(other)] == other);
            }
        }
        assert(without(s, pid) == if s.last() != pid {
            w.push(s.last())
        } else {
            w
        });
        assert(w.push(s.last()).contains(other) <==> w.contains(other) || s.last() == other) by {
            let p = w.push(s.last());
            assert(p[w.len() as int] == s.last());
            if w.contains(other) {
                assert(p[w.index_of(other)] == other);
            }
            if p.contains(other) && s.last() != other {
                assert(w[p.index_of(other)] == other);
            }
        }
    }
}

} // verus!
