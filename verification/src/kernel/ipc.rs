//! Messages between threads.

use vstd::prelude::*;

use super::capability::captbl;
use super::capability::thread::{OwnedTrapframe, Thread, ThreadPriorities, ThreadState};
use super::capability::wait_queue;
use super::capability::wait_queue::Queue;
use super::capability::{badge_number, owned, Endpoint};
use super::dispatch;
use super::inherit;
use super::order;
use super::paging;
use super::paging::PageTableFlags;
use super::physmem::{Mem, PhysicalMemory};
use super::sched::Scheduler;
use super::slots;
use super::state;
use super::state::{Kernel, State};
use super::trampoline::Trapframe;
use crate::addr::virt;
use crate::addr::{Identity, VirtualConst};
use crate::capability::{AnyCap, Endpoint as EndpointCap, MessageHeader};

verus! {

/// The physical address to which a thread's page table maps an address with at
/// least the given flags.
pub open spec fn user_addr(st: State, t: usize, va: u64, need: u8) -> Option<u64> {
    match st.threads[t as int].private.root_pgtbl {
        Some(table) => match paging::walk_spec(st.mem, table.root as int, virt::canonical(va)) {
            Some((pa, flags)) => if flags & need == need {
                Some(pa)
            } else {
                None
            },
            None => None,
        },
        None => None,
    }
}

/// The page table of a thread, if it has one, is a tree of tables.
pub open spec fn walkable(st: State, t: usize) -> bool {
    st.threads[t as int].private.root_pgtbl matches Some(table) ==> paging::tree_wf(
        st.mem,
        table.root as int,
    )
}

/// After a thread has come to receive from those that wait in the send queue
/// of an endpoint: it owns the queue, and inherits the highest priority of it.
pub open spec fn senders_blocked(st: State, ep: usize, t: usize) -> State {
    inherit::with_prio(
        senders_held(st, ep, t),
        t,
        ThreadPriorities {
            inherited_prio: st.queues[st.endpoints[ep as int].send_wait_queue as int].highest(),
            ..st.prio(t)
        },
    )
}

/// After a thread has become the owner of the send queue of an endpoint.
pub open spec fn senders_held(st: State, ep: usize, t: usize) -> State {
    let q = st.endpoints[ep as int].send_wait_queue;
    State {
        blocking: st.blocking.update(t as int, st.blocking[t as int].push(q)),
        ..st.set_queue(q, Queue { owner: Some(t), ..st.queues[q as int] })
    }
}

/// The queues of a list that are `q`.
pub open spec fn only(queues: Seq<usize>, q: usize) -> Seq<usize>
    decreases queues.len(),
{
    if queues.len() == 0 {
        queues
    } else if queues.last() == q {
        only(queues.drop_last(), q).push(q)
    } else {
        only(queues.drop_last(), q)
    }
}

/// After a thread has ceased to own the send queue of an endpoint. Of the queues
/// whose threads wait for it, only that one is kept in the list.
pub open spec fn senders_released(st: State, ep: usize, t: usize) -> State {
    let q = st.endpoints[ep as int].send_wait_queue;
    State {
        blocking: st.blocking.update(t as int, only(st.blocking[t as int], q)),
        ..st.set_queue(q, Queue { owner: None, ..st.queues[q as int] })
    }
}

/// After a thread has ceased to receive from those that wait in the send queue
/// of an endpoint: it inherits no priority.
pub open spec fn senders_unblocked(st: State, ep: usize, t: usize) -> State {
    inherit::with_prio(
        senders_released(st, ep, t),
        t,
        ThreadPriorities { inherited_prio: (-1) as i8, ..st.prio(t) },
    )
}

proof fn lemma_owner(st: State, ep: usize, t: usize, owner: Option<usize>, list: Seq<usize>)
    requires
        st.wf(),
        ep < st.endpoints.len(),
        t < st.threads.len(),
        owner matches Some(o) ==> o < st.threads.len(),
        forall|i: int| 0 <= i < list.len() ==> (#[trigger] list[i]) < st.queues.len(),
    ensures
        ({
            let q = st.endpoints[ep as int].send_wait_queue;
            (State {
                blocking: st.blocking.update(t as int, list),
                ..st.set_queue(q, Queue { owner, ..st.queues[q as int] })
            }).wf()
        }),
{
    let q = st.endpoints[ep as int].send_wait_queue;
    let queue = Queue { owner, ..st.queues[q as int] };
    assert(queue.below(st.threads.len() as int)) by {
        assert(st.queues[q as int].below(st.threads.len() as int));
        assert forall|c: int, i: int|
            0 <= c < queue.classes.len() && queue.classes[c] is Some && 0 <= i
                < queue.classes[c]->0.len() implies (#[trigger] queue.classes[c]->0[i])
            < st.threads.len() by {
            assert(st.queues[q as int].classes[c]->0[i] < st.threads.len());
        }
    }
    state::lemma_set_queue(st, q, queue);
    let mid = st.set_queue(q, queue);
    let after = State { blocking: st.blocking.update(t as int, list), ..mid };
    assert forall|i: int| 0 <= i < after.threads.len() implies #[trigger] after.thread_wf(i) by {
        assert(mid.thread_wf(i));
    }
    assert forall|j: int| 0 <= j < after.jobs.len() implies #[trigger] after.job_wf(j) by {
        assert(mid.job_wf(j));
        assert forall|i: int| 0 <= i < after.jobs[j].slots.len() implies after.kind_wf(
            (#[trigger] after.jobs[j].slots[i]).cap,
        ) by {
            assert(mid.kind_wf(mid.jobs[j].slots[i].cap));
        }
    }
}

proof fn lemma_only(queues: Seq<usize>, q: usize, n: int)
    requires
        q < n,
    ensures
        forall|i: int| 0 <= i < only(queues, q).len() ==> (#[trigger] only(queues, q)[i]) < n,
    decreases queues.len(),
{
    if queues.len() > 0 {
        lemma_only(queues.drop_last(), q, n);
        let before = only(queues.drop_last(), q);
        assert forall|i: int| 0 <= i < only(queues, q).len() implies (#[trigger] only(queues, q)[i])
            < n by {
            if i < before.len() {
                assert(before[i] < n);
            }
        }
    }
}

/// Keep only the queues of a list that are `q`.
fn retain_only(queues: &mut Vec<usize>, q: usize)
    ensures
        final(queues)@ == only(old(queues)@, q),
{
    let mut kept: Vec<usize> = Vec::new();
    let mut i: usize = 0;
    while i < queues.len()
        invariant
            i <= queues@.len(),
            queues@ == old(queues)@,
            kept@ == only(queues@.subrange(0, i as int), q),
        decreases queues@.len() - i,
    {
        assert(queues@.subrange(0, i + 1).drop_last() =~= queues@.subrange(0, i as int));
        if queues[i] == q {
            kept.push(q);
        }
        i += 1;
    }
    assert(queues@.subrange(0, i as int) =~= queues@);
    *queues = kept;
}

impl Endpoint {
    /// Let a thread receive from those that wait in the send queue of the
    /// endpoint `this`.
    pub fn block_senders(k: &mut Kernel, this: usize, thread: usize)
        requires
            old(k)@.wf(),
            this < old(k)@.endpoints.len(),
            thread < old(k)@.threads.len(),
            inherit::givable(
                senders_held(old(k)@, this, thread),
                thread,
                ThreadPriorities {
                    inherited_prio: old(k)@.queues[old(k)@.endpoints[this as int].send_wait_queue as int].highest(),
                    ..old(k)@.prio(thread)
                },
            ),
        ensures
            final(k)@ == senders_blocked(old(k)@, this, thread),
            final(k)@.wf(),
            inherit::alike(
                senders_held(old(k)@, this, thread).set_prio(
                    thread,
                    ThreadPriorities {
                        inherited_prio: old(k)@.queues[old(k)@.endpoints[this as int].send_wait_queue as int].highest(),
                        ..old(k)@.prio(thread)
                    },
                ),
                final(k)@,
            ),
    {
        let q: usize = k.endpoints[this].send_wait_queue;
        proof {
            let list = k@.blocking[thread as int];
            assert forall|i: int| 0 <= i < list.push(q).len() implies (#[trigger] list.push(q)[i])
                < k@.queues.len() by {
                if i < list.len() {
                    assert(k@.blocking[thread as int][i] < k@.queues.len());
                }
            }
            lemma_owner(k@, this, thread, Some(thread), list.push(q));
        }
        assert(k@.queues[q as int] == k.queues@[q as int]@);
        k.blocking[thread].push(q);
        k.queues[q].owner = Some(thread);
        assert(k@ =~= senders_held(old(k)@, this, thread));
        let mut prio = k.threads[thread].private.prio;
        prio.inherited_prio = k.queue_prio(q);
        k.give_prio(thread, prio);
    }

    /// Let a thread no longer receive from those that wait in the send queue of
    /// the endpoint `this`.
    pub fn unblock_senders(k: &mut Kernel, this: usize, thread: usize)
        requires
            old(k)@.wf(),
            this < old(k)@.endpoints.len(),
            thread < old(k)@.threads.len(),
            inherit::givable(
                senders_released(old(k)@, this, thread),
                thread,
                ThreadPriorities { inherited_prio: (-1) as i8, ..old(k)@.prio(thread) },
            ),
        ensures
            final(k)@ == senders_unblocked(old(k)@, this, thread),
            final(k)@.wf(),
            inherit::alike(
                senders_released(old(k)@, this, thread).set_prio(
                    thread,
                    ThreadPriorities { inherited_prio: (-1) as i8, ..old(k)@.prio(thread) },
                ),
                final(k)@,
            ),
    {
        let q: usize = k.endpoints[this].send_wait_queue;
        proof {
            lemma_only(k@.blocking[thread as int], q, k@.queues.len() as int);
            lemma_owner(k@, this, thread, None, only(k@.blocking[thread as int], q));
        }
        assert(k@.queues[q as int] == k.queues@[q as int]@);
        retain_only(&mut k.blocking[thread], q);
        k.queues[q].owner = None;
        assert(k@ =~= senders_released(old(k)@, this, thread));
        let mut prio = k.threads[thread].private.prio;
        prio.inherited_prio = -1;
        k.give_prio(thread, prio);
    }
}

impl Kernel {
    /// The physical address to which a thread's page table maps an address with
    /// at least the given flags.
    pub(crate) fn user_addr(&self, t: usize, va: u64, need: u8) -> (r: Option<u64>)
        requires
            self@.wf(),
            t < self@.threads.len(),
            walkable(self@, t),
        ensures
            r == user_addr(self@, t, va, need),
    {
        match self.threads[t].private.root_pgtbl {
            Some(table) => {
                let addr: VirtualConst<u8, Identity> = VirtualConst::from_usize_unchecked(va);
                match table.walk(&self.mem, addr) {
                    Some((pa, flags)) => if flags.contains(need) {
                        Some(pa.into_usize())
                    } else {
                        None
                    },
                    None => None,
                }
            },
            None => None,
        }
    }
}

/// A kernel with other memory that is in order.
pub proof fn lemma_set_mem(st: State, mem: Mem)
    requires
        st.wf(),
        mem.wf(),
    ensures
        (State { mem, ..st }).wf(),
{
    let after = State { mem, ..st };
    assert forall|i: int| 0 <= i < after.threads.len() implies #[trigger] after.thread_wf(i) by {
        assert(st.thread_wf(i));
    }
    assert forall|j: int| 0 <= j < after.jobs.len() implies #[trigger] after.job_wf(j) by {
        assert(st.job_wf(j));
        assert forall|i: int| 0 <= i < after.jobs[j].slots.len() implies after.kind_wf(
            (#[trigger] after.jobs[j].slots[i]).cap,
        ) by {
            assert(st.kind_wf(st.jobs[j].slots[i].cap));
        }
    }
}

/// Where the sender of a message has put the captr of a capability, and where
/// the receiver wants to have one; `None` if either is not given, is not mapped
/// as needed, or is no address of a word.
pub open spec fn transfer_addrs(st: State, thread: usize, sender: usize) -> Option<(u64, u64)> {
    let src = st.threads[sender as int].trapframe.frame.a3;
    let dest = st.threads[thread as int].trapframe.frame.a3;
    if src == 0 || dest == 0 {
        None
    } else {
        match (
            user_addr(st, sender, src, PageTableFlags::USER_READ),
            user_addr(st, thread, dest, PageTableFlags::USER_WRITE),
        ) {
            (Some(from), Some(to)) => if from % 8 == 0 && to % 8 == 0 {
                Some((from, to))
            } else {
                None
            },
            _ => None,
        }
    }
}

/// After the capability that the sender of a message names, if it names one, has
/// been copied into the next slot of the receiver, which learns its captr.
pub open spec fn transferred(st: State, thread: usize, sender: usize) -> State {
    match transfer_addrs(st, thread, sender) {
        Some((from, to)) => {
            let index = st.mem.word(from as int);
            if captbl::lookup_error::<AnyCap>(st.slots(sender), index) is Some {
                st
            } else {
                let slot = st.slots(sender)[index as int];
                let job = st.threads[thread as int].job;
                let captr = captbl::next_slot(st.jobs[job as int].slots) as u64;
                let after = slots::granted(
                    st,
                    job,
                    slots::limited(slot.cap, slot.badge, slot.rights),
                );
                State { mem: after.mem.set_word(to as int, captr), ..after }
            }
        },
        None => st,
    }
}

/// Whether the memory that a transfer of a capability needs is there, and the
/// capability can be copied.
pub open spec fn transferable(st: State, thread: usize, sender: usize) -> bool {
    &&& walkable(st, thread)
    &&& walkable(st, sender)
    &&& transfer_addrs(st, thread, sender) matches Some((from, to)) ==> {
        &&& st.mem.has_bytes(from as int, 8)
        &&& st.mem.has_bytes(to as int, 8)
        &&& ({
            let index = st.mem.word(from as int);
            captbl::lookup_error::<AnyCap>(st.slots(sender), index) is None
                ==> super::capability::countable(
                st.threads,
                st.slots(sender)[index as int].cap,
            )
        })
    }
}

impl Kernel {
    /// Where a capability is to be transferred from and to.
    fn transfer_addrs(&self, thread: usize, sender: usize) -> (r: Option<(u64, u64)>)
        requires
            self@.wf(),
            thread < self@.threads.len(),
            sender < self@.threads.len(),
            walkable(self@, thread),
            walkable(self@, sender),
        ensures
            r == transfer_addrs(self@, thread, sender),
    {
        let src_slot: u64 = self.threads[sender].trapframe.frame.a3;
        let dest_slot: u64 = self.threads[thread].trapframe.frame.a3;
        if src_slot == 0 || dest_slot == 0 {
            return None;
        }
        let from: u64 = match self.user_addr(sender, src_slot, PageTableFlags::USER_READ) {
            Some(from) => from,
            None => {
                return None;
            },
        };
        let to: u64 = match self.user_addr(thread, dest_slot, PageTableFlags::USER_WRITE) {
            Some(to) => to,
            None => {
                return None;
            },
        };
        if from % 8 == 0 && to % 8 == 0 {
            Some((from, to))
        } else {
            None
        }
    }

    /// Copy the capability that the sender of a message names to the receiver.
    pub(crate) fn transfer_cap(&mut self, thread: usize, sender: usize)
        requires
            old(self)@.wf(),
            thread < old(self)@.threads.len(),
            sender < old(self)@.threads.len(),
            transferable(old(self)@, thread, sender),
        ensures
            final(self)@ == transferred(old(self)@, thread, sender),
            final(self)@.wf(),
    {
        let (from, to): (u64, u64) = match self.transfer_addrs(thread, sender) {
            Some(addrs) => addrs,
            None => {
                return ;
            },
        };
        let index: u64 = self.mem.read_word(from);
        let slot = match self.lookup::<AnyCap>(sender, index) {
            Ok(slot) => slot,
            Err(_) => {
                return ;
            },
        };
        assert(self@.thread_wf(thread as int));
        let job: usize = self.threads[thread].job;
        assert(self@.job_wf(job as int));
        assert(self@.jobs[job as int] == self.jobs@[job as int]@);
        let captr: u64 = self.jobs[job].captbl.next_slot();
        if captr < self.jobs[job].captbl.slots.len() as u64 {
            self.fill_limited(job, captr, owned(slot.cap), slot.badge, slot.rights);
        }
        let ghost st = self@;
        self.mem.write_word(to, captr);
        proof {
            lemma_set_mem(st, self@.mem);
        }
        assert(self@ =~= transferred(old(self)@, thread, sender));
    }
}

/// The registers of the receiver of a short message: up to four words are
/// passed in registers.
pub open spec fn received(rx: Trapframe, tx: Trapframe, len: int) -> Trapframe {
    if len == 1 {
        Trapframe { a4: tx.a4, ..rx }
    } else if len == 2 {
        Trapframe { a4: tx.a4, a5: tx.a5, ..rx }
    } else if len == 3 {
        Trapframe { a4: tx.a4, a5: tx.a5, a6: tx.a6, ..rx }
    } else if len == 4 {
        Trapframe { a4: tx.a4, a5: tx.a5, a6: tx.a6, a7: tx.a7, ..rx }
    } else {
        rx
    }
}

/// Memory after the first `n` words of one frame have been copied to another.
pub open spec fn copied(mem: Mem, from: int, to: int, n: int) -> Mem {
    let src = (from - mem.first) * 512;
    let dst = (to - mem.first) * 512;
    Mem {
        words: Seq::new(
            mem.words.len(),
            |i: int|
                if dst <= i < dst + n {
                    mem.words[src + i - dst]
                } else {
                    mem.words[i]
                },
        ),
        ..mem
    }
}

/// After a message of `len` words has been copied: up to four words in
/// registers, longer ones from buffer to buffer, if both have one and they are
/// not the same.
pub open spec fn delivered(st: State, thread: usize, sender: usize, len: int) -> State {
    let rx = st.threads[thread as int];
    let tx = st.threads[sender as int];
    if 1 <= len <= 4 {
        st.set_thread(
            thread,
            Thread {
                trapframe: OwnedTrapframe {
                    frame: received(rx.trapframe.frame, tx.trapframe.frame, len),
                    ..rx.trapframe
                },
                ..rx
            },
        )
    } else {
        match (rx.private.ipc_buffer, tx.private.ipc_buffer) {
            (Some(recv), Some(send)) => if recv == send {
                st
            } else {
                State {
                    mem: copied(st.mem, send.phys as int / 4096, recv.phys as int / 4096, len),
                    ..st
                }
            },
            _ => st,
        }
    }
}

/// Whether the buffers of two threads, where they differ, are two frames.
pub open spec fn buffers_apart(st: State, thread: usize, sender: usize) -> bool {
    st.threads[thread as int].private.ipc_buffer matches Some(recv) ==> (st.threads[
        sender as int
    ].private.ipc_buffer matches Some(send) ==> recv != send ==> {
        &&& recv.phys != send.phys
        &&& recv.phys % 4096 == 0
        &&& send.phys % 4096 == 0
        &&& st.mem.has_bytes(recv.phys as int, 4096)
        &&& st.mem.has_bytes(send.phys as int, 4096)
    })
}

/// Copy the first `n` words of one frame to another.
fn copy_words(mem: &mut PhysicalMemory, from: u64, to: u64, n: u64)
    requires
        old(mem)@.wf(),
        from != to,
        n <= 512,
        old(mem)@.has(from as int),
        old(mem)@.has(to as int),
    ensures
        final(mem)@ == copied(old(mem)@, from as int, to as int, n as int),
        final(mem)@.wf(),
{
    let ghost m = mem@;
    let mut i: u64 = 0;
    assert(mem@ =~= copied(m, from as int, to as int, 0));
    while i < n
        invariant
            i <= n <= 512,
            m.wf(),
            from != to,
            m.has(from as int),
            m.has(to as int),
            mem@ == copied(m, from as int, to as int, i as int),
            mem@.wf(),
        decreases n - i,
    {
        let word: u64 = mem.read(from, i);
        assert(word == m.at(from as int, i as int));
        mem.write(to, i, word);
        i += 1;
        assert(mem@ =~= copied(m, from as int, to as int, i as int));
    }
}

impl Kernel {
    /// Copy a message of `len` words.
    pub(crate) fn deliver(&mut self, thread: usize, sender: usize, len: u64)
        requires
            old(self)@.wf(),
            thread < old(self)@.threads.len(),
            sender < old(self)@.threads.len(),
            1 <= len <= 512,
            buffers_apart(old(self)@, thread, sender),
        ensures
            final(self)@ == delivered(old(self)@, thread, sender, len as int),
            final(self)@.wf(),
    {
        assert(self@.thread_wf(thread as int));
        let tx = self.threads[sender].trapframe.frame;
        let mut receiver = self.threads[thread];
        if len <= 4 {
            receiver.trapframe.frame.a4 = tx.a4;
            if len >= 2 {
                receiver.trapframe.frame.a5 = tx.a5;
            }
            if len >= 3 {
                receiver.trapframe.frame.a6 = tx.a6;
            }
            if len >= 4 {
                receiver.trapframe.frame.a7 = tx.a7;
            }
            proof {
                state::lemma_set_thread(self@, thread, receiver);
            }
            self.set_thread(thread, receiver);
        } else {
            if let Some(recv_buffer) = receiver.private.ipc_buffer {
                if let Some(send_buffer) = self.threads[sender].private.ipc_buffer {
                    if recv_buffer == send_buffer {
                        // The buffers are aliased: nothing to copy.
                    } else {
                        let ghost st = self@;
                        copy_words(
                            &mut self.mem,
                            send_buffer.phys / 4096,
                            recv_buffer.phys / 4096,
                            len,
                        );
                        proof {
                            lemma_set_mem(st, self@.mem);
                        }
                    }
                }
            }
        }
    }
}

/// After a thread that waited has been woken: it can run, has been boosted, and
/// is the next one of its priority on the current hart.
pub open spec fn woken(st: State, t: usize) -> State {
    let ready = st.set_state(t, ThreadState::Runnable);
    dispatch::enqueued_front(inherit::with_prio(ready, t, st.prio(t).boosted()), t, st.hart)
}

/// Whether a thread that has left its queue can be woken.
pub open spec fn wakeable(st: State, t: usize) -> bool {
    &&& t < st.threads.len()
    &&& st.blocked_on(t) is None
    &&& 0 <= st.prio(t).boosted().level() < 32
}

/// After a thread has begun to wait in a queue.
pub open spec fn blocked(st: State, t: usize, q: usize) -> State {
    let waiting = dispatch::dequeued(st.set_state(t, ThreadState::Blocking), t).set_blocked_on(
        t,
        Some(q),
    );
    waiting.set_queue(q, waiting.queues[q as int].insert(st.level(t), t))
}

/// After a thread has been taken out of a queue.
pub open spec fn unqueued(st: State, q: usize) -> State {
    st.set_queue(q, st.queues[q as int].popped())
}

/// To take a thread out of a queue leaves threads below `n`.
pub proof fn lemma_popped(queue: Queue, n: int)
    requires
        queue.wf(),
        queue.below(n),
    ensures
        queue.popped().wf(),
        queue.popped().below(n),
        queue.next() matches Some(t) ==> t < n,
{
    wait_queue::lemma_waiting_class(queue.classes, 256);
    if let Some(w) = wait_queue::waiting_class(queue.classes, 256) {
        let after = queue.popped();
        assert(queue.classes[w]->0[0] < n);
        assert forall|c: int, i: int|
            0 <= c < after.classes.len() && after.classes[c] is Some && 0 <= i
                < after.classes[c]->0.len() implies (#[trigger] after.classes[c]->0[i]) < n by {
            if c == w {
                assert(queue.classes[c]->0[i + 1] < n);
            } else {
                assert(queue.classes[c]->0[i] < n);
            }
        }
    }
}

impl Kernel {
    /// Wake a thread that has left its queue.
    pub(crate) fn wake(&mut self, t: usize)
        requires
            old(self)@.wf(),
            wakeable(old(self)@, t),
        ensures
            final(self)@ == woken(old(self)@, t),
            final(self)@.wf(),
    {
        let ghost st = self@;
        assert(self@.thread_wf(t as int));
        proof {
            state::lemma_set_thread(
                self@,
                t,
                self@.set_state(t, ThreadState::Runnable).threads[t as int],
            );
        }
        self.set_state(t, ThreadState::Runnable);
        Thread::prio_boost_dl(self, t);
        assert(self@.prio(t) == st.prio(t).boosted());
        Scheduler::enqueue_front_dl(self, t, Some(self.hart));
    }

    /// Let a thread wait in a queue.
    pub(crate) fn block(&mut self, t: usize, q: usize)
        requires
            old(self)@.wf(),
            t < old(self)@.threads.len(),
            q < old(self)@.queues.len(),
            old(self)@.sched.valid(
                old(self)@.threads[t as int].private.hartid,
                old(self)@.level(t),
            ),
        ensures
            final(self)@ == blocked(old(self)@, t, q),
            final(self)@.wf(),
    {
        assert(self@.thread_wf(t as int));
        proof {
            state::lemma_set_thread(
                self@,
                t,
                self@.set_state(t, ThreadState::Blocking).threads[t as int],
            );
        }
        self.set_state(t, ThreadState::Blocking);
        Scheduler::dequeue_dl(self, t);
        assert(self@.thread_wf(t as int));
        proof {
            state::lemma_set_thread(
                self@,
                t,
                self@.set_blocked_on(t, Some(q)).threads[t as int],
            );
        }
        self.set_blocked_on(t, Some(q));
        let prio: i8 = self.threads[t].private.prio.effective();
        proof {
            inherit::lemma_inserted(
                self@.queues[q as int],
                t,
                prio,
                self@.threads.len() as int,
            );
            state::lemma_set_queue(self@, q, self@.queues[q as int].insert(prio, t));
        }
        self.queue_insert(q, prio, t);
    }

    /// Take a thread out of a queue.
    pub(crate) fn unqueue(&mut self, q: usize) -> (r: Option<usize>)
        requires
            old(self)@.wf(),
            q < old(self)@.queues.len(),
        ensures
            final(self)@ == unqueued(old(self)@, q),
            final(self)@.wf(),
            r == old(self)@.queues[q as int].next(),
            r matches Some(t) ==> t < old(self)@.threads.len(),
    {
        proof {
            lemma_popped(self@.queues[q as int], self@.threads.len() as int);
            state::lemma_set_queue(self@, q, self@.queues[q as int].popped());
        }
        assert(self@.queues[q as int] == self.queues@[q as int]@);
        let thread: Option<usize> = self.queues[q].find_highest_thread();
        assert(self@ =~= unqueued(old(self)@, q));
        thread
    }
}

/// The length of a message with a header.
pub open spec fn message_len(hdr: u64) -> int {
    hdr as int % 512 + 1
}

/// After a receiver has taken the message of a sender that waited: first, the
/// receiver owns the queue of the senders.
pub open spec fn recv_held(st: State, thread: usize, sender: usize, ep: usize) -> State {
    senders_blocked(st, ep, thread).set_blocked_on(sender, None)
}

/// Second, the message is copied.
pub open spec fn recv_copied(st: State, thread: usize, sender: usize, ep: usize) -> State {
    let held = recv_held(st, thread, sender, ep);
    let hdr = held.threads[sender as int].trapframe.frame.a2;
    delivered(transferred(held, thread, sender), thread, sender, message_len(hdr))
}

/// Third, the sender is woken.
pub open spec fn recv_woken(st: State, thread: usize, sender: usize, ep: usize) -> State {
    woken(recv_copied(st, thread, sender, ep), sender)
}

/// And last, the receiver no longer owns the queue.
pub open spec fn recv_done(st: State, thread: usize, sender: usize, ep: usize) -> State {
    senders_unblocked(recv_woken(st, thread, sender, ep), ep, thread)
}

/// The header and the badge of the message of a sender that waits.
pub open spec fn waiting_message(st: State, sender: usize) -> (u64, u64) {
    let frame = st.threads[sender as int].trapframe.frame;
    (frame.a2, crate::capability::badge_bits(st.slots(sender)[frame.a1 as int].badge))
}

/// Whether a receiver can take the message of a sender that waited.
pub open spec fn receivable(st: State, thread: usize, sender: usize, ep: usize) -> bool {
    let held = recv_held(st, thread, sender, ep);
    let frame = held.threads[sender as int].trapframe.frame;
    &&& thread < st.threads.len()
    &&& sender < st.threads.len()
    &&& ep < st.endpoints.len()
    &&& inherit::givable(
        senders_held(st, ep, thread),
        thread,
        ThreadPriorities {
            inherited_prio: st.queues[st.endpoints[ep as int].send_wait_queue as int].highest(),
            ..st.prio(thread)
        },
    )
    &&& captbl::lookup_error::<EndpointCap>(held.slots(sender), frame.a1) is None
    &&& transferable(held, thread, sender)
    &&& buffers_apart(transferred(held, thread, sender), thread, sender)
    &&& wakeable(recv_copied(st, thread, sender, ep), sender)
    &&& inherit::givable(
        senders_released(recv_woken(st, thread, sender, ep), ep, thread),
        thread,
        ThreadPriorities {
            inherited_prio: (-1) as i8,
            ..recv_woken(st, thread, sender, ep).prio(thread)
        },
    )
}

/// To copy a capability keeps threads and their messages.
pub proof fn lemma_transferred(st: State, thread: usize, sender: usize)
    requires
        st.wf(),
        thread < st.threads.len(),
        sender < st.threads.len(),
        transferable(st, thread, sender),
    ensures
        ({
            let after = transferred(st, thread, sender);
            &&& after.threads.len() == st.threads.len()
            &&& after.endpoints == st.endpoints
            &&& after.queues == st.queues
            &&& after.sched == st.sched
            &&& after.mem.same_extent(st.mem)
            &&& forall|t: int|
                0 <= t < st.threads.len() ==> (#[trigger] after.threads[t]).trapframe
                    == st.threads[t].trapframe && after.threads[t].private == st.threads[t].private
                    && after.threads[t].blocked_on_wq == st.threads[t].blocked_on_wq
        }),
{
}

impl Kernel {
    /// Take the message of a sender that waited. Returns the header and the
    /// badge of the message.
    pub(crate) fn endpoint_recv(&mut self, thread: usize, sender: usize, ep: usize) -> (r: (
        MessageHeader,
        u64,
    ))
        requires
            old(self)@.wf(),
            receivable(old(self)@, thread, sender, ep),
        ensures
            final(self)@ == recv_done(old(self)@, thread, sender, ep),
            (r.0@, r.1) == waiting_message(recv_held(old(self)@, thread, sender, ep), sender),
            final(self)@.wf(),
            final(self)@.threads.len() == old(self)@.threads.len(),
            final(self)@.endpoints == old(self)@.endpoints,
            final(self)@.mem.same_extent(old(self)@.mem),
            old(self)@.ordered() && old(self)@.blocked_on(thread) is None ==> {
                final(self)@.ordered() && final(self)@.blocked_on(thread) is None
            },
    {
        let ghost st = self@;
        Endpoint::block_senders(self, ep, thread);
        assert(self@.thread_wf(sender as int));
        proof {
            state::lemma_set_thread(
                self@,
                sender,
                self@.set_blocked_on(sender, None).threads[sender as int],
            );
        }
        self.set_blocked_on(sender, None);
        assert(self@ == recv_held(st, thread, sender, ep));
        let ghost held = self@;
        let frame = self.threads[sender].trapframe.frame;
        let hdr = MessageHeader::from_raw(frame.a2);
        let badge: u64 = match self.lookup::<EndpointCap>(sender, frame.a1) {
            Ok(slot) => badge_number(slot.badge),
            Err(_) => 0,
        };
        proof {
            lemma_transferred(held, thread, sender);
        }
        self.transfer_cap(thread, sender);
        self.deliver(thread, sender, hdr.length());
        assert(self@ == recv_copied(st, thread, sender, ep));
        assert(self@.endpoints == st.endpoints);
        assert(self@.threads.len() == st.threads.len());
        self.wake(sender);
        assert(self@ == recv_woken(st, thread, sender, ep));
        proof {
            lemma_woken_alike(recv_copied(st, thread, sender, ep), sender);
        }
        Endpoint::unblock_senders(self, ep, thread);
        proof {
            if st.ordered() && st.blocked_on(thread) is None {
                order::lemma_received(st, thread, sender, ep);
            }
        }
        (hdr, badge)
    }
}

/// To wake a thread keeps the threads and endpoints that there are.
proof fn lemma_woken_alike(st: State, t: usize)
    requires
        st.wf(),
        wakeable(st, t),
    ensures
        woken(st, t).threads.len() == st.threads.len(),
        woken(st, t).endpoints == st.endpoints,
        woken(st, t).queues == st.queues,
        woken(st, t).blocking == st.blocking,
        woken(st, t).jobs == st.jobs,
        woken(st, t).mem == st.mem,
{
}

/// To copy a capability keeps the registers and buffers of threads, and their number.
pub proof fn lemma_moved_threads(st: State, thread: usize, sender: usize)
    requires
        transferable(st, thread, sender),
    ensures
        ({
            let after = transferred(st, thread, sender);
            &&& after.threads.len() == st.threads.len()
            &&& forall|t: int|
                0 <= t < st.threads.len() ==> (#[trigger] after.threads[t]).trapframe
                    == st.threads[t].trapframe && after.threads[t].private == st.threads[t].private
                    && after.threads[t].blocked_on_wq == st.threads[t].blocked_on_wq
        }),
{
}

/// After a message has been copied, a short one is in the registers of the receiver, and
/// a long one in its buffer; the buffer of the sender is as it was.
pub proof fn lemma_delivered(st: State, thread: usize, sender: usize, len: int)
    requires
        st.mem.wf(),
        thread < st.threads.len(),
        1 <= len <= 512,
        buffers_apart(st, thread, sender),
    ensures
        ({
            let after = delivered(st, thread, sender, len);
            let tx = st.threads[sender as int];
            let rx = st.threads[thread as int];
            let got = after.threads[thread as int].trapframe.frame;
            &&& len > 4 ==> (rx.private.ipc_buffer matches Some(into) ==> (
            tx.private.ipc_buffer matches Some(from) ==> forall|w: int|
                0 <= w < len ==> #[trigger] after.mem.at(into.phys as int / 4096, w)
                    == after.mem.at(from.phys as int / 4096, w)))
            &&& tx.private.ipc_buffer matches Some(from) ==> rx.private.ipc_buffer != Some(from)
                || len <= 4 ==> forall|w: int|
                0 <= w < 512 ==> #[trigger] after.mem.at(from.phys as int / 4096, w) == st.mem.at(
                    from.phys as int / 4096,
                    w,
                )
        }),
{
    let rx = st.threads[thread as int].private.ipc_buffer;
    let tx = st.threads[sender as int].private.ipc_buffer;
    if len > 4 && rx is Some && tx is Some && rx != tx {
        let from = tx->0.phys as int / 4096;
        let to = rx->0.phys as int / 4096;
        assert(from != to);
        assert(st.mem.has(from) && st.mem.has(to));
        let after = copied(st.mem, from, to, len);
        assert forall|w: int| 0 <= w < 512 implies #[trigger] after.at(from, w) == st.mem.at(
            from,
            w,
        ) by {}
        assert forall|w: int| 0 <= w < len implies #[trigger] after.at(to, w) == st.mem.at(
            from,
            w,
        ) by {}
    }
}

/// An address of a thread is one of its own page table, and of a page that is mapped for
/// userspace with the access that is needed: `need` has the bits 0 and 4, and 1 to read or 2
/// to write.
pub proof fn law_addresses_of_a_thread(st: State, t: usize, va: u64)
    requires
        va < 0x40_0000_0000,
        st.threads[t as int].private.root_pgtbl is Some,
    ensures
        ({
            let root = st.threads[t as int].private.root_pgtbl->0.root as int;
            let walked = paging::walk_spec(st.mem, root, va);
            &&& user_addr(st, t, va, PageTableFlags::USER_READ) matches Some(pa) ==> (
            walked matches Some((at, flags)) && at == pa && flags % 2 == 1 && (flags / 2) % 2 == 1
                && (flags / 16) % 2 == 1)
            &&& user_addr(st, t, va, PageTableFlags::USER_WRITE) matches Some(pa) ==> (
            walked matches Some((at, flags)) && at == pa && flags % 2 == 1 && (flags / 4) % 2 == 1
                && (flags / 16) % 2 == 1)
            &&& walked matches Some((_, flags)) ==> flags % 2 == 1 && (flags / 16) % 2 == 1 ==> {
                &&& (flags / 2) % 2 == 1 ==> user_addr(st, t, va, PageTableFlags::USER_READ) is Some
                &&& (flags / 4) % 2 == 1 ==> user_addr(
                    st,
                    t,
                    va,
                    PageTableFlags::USER_WRITE,
                ) is Some
            }
        }),
{
    let root = st.threads[t as int].private.root_pgtbl->0.root as int;
    assert(virt::canonical(va) == va);
    if let Some((_, flags)) = paging::walk_spec(st.mem, root, va) {
        assert((flags & PageTableFlags::USER_READ == PageTableFlags::USER_READ <==> flags % 2 == 1
            && (flags / 2) % 2 == 1 && (flags / 16) % 2 == 1) && (flags
            & PageTableFlags::USER_WRITE == PageTableFlags::USER_WRITE <==> flags % 2 == 1 && (flags
            / 4) % 2 == 1 && (flags / 16) % 2 == 1)) by (bit_vector);
    }
}

/// A thread that a message wakes is runnable, with its boost one step higher, and the first
/// of its priority on the current hart.
#[verifier::spinoff_prover]
#[verifier::rlimit(50)]
pub proof fn law_woken_threads_run_first(st: State, t: usize)
    requires
        st.wf(),
        wakeable(st, t),
        st.sched.has(st.hart),
    ensures
        ({
            let after = woken(st, t);
            let prio = st.prio(t).boosted();
            let was = st.sched.queues[st.hart][prio.level() as int];
            let now = after.sched.queues[st.hart][prio.level() as int];
            &&& after.threads[t as int].private.state is Runnable
            &&& after.threads[t as int].private.prio == prio
            &&& now.len() == was.len() + 1
            &&& now[0] == t
            &&& forall|i: int| 0 <= i < was.len() ==> now[i + 1] == (#[trigger] was[i])
            &&& forall|p: int|
                0 <= p < 32 && p != prio.level() ==> (#[trigger] after.sched.queues[st.hart][p])
                    == st.sched.queues[st.hart][p]
            &&& after.threads[t as int].trapframe == st.threads[t as int].trapframe
            &&& forall|o: int|
                0 <= o < st.threads.len() && o != t ==> (#[trigger] after.threads[o])
                    == st.threads[o]
            &&& after.queues == st.queues
        }),
{
    let ready = st.set_state(t, ThreadState::Runnable);
    assert(st.sched.queues[st.hart].len() == 32);
    assert(ready.blocked_on(t) is None);
}

/// A thread that is to wait is blocked and in no line to run, and is the last of its priority
/// in the queue that it waits in.
#[verifier::spinoff_prover]
#[verifier::rlimit(50)]
pub proof fn law_blocked_threads_wait(st: State, t: usize, q: usize, other: usize)
    requires
        st.wf(),
        t < st.threads.len(),
        q < st.queues.len(),
        st.queues[q as int].wf(),
        st.sched.valid(st.threads[t as int].private.hartid, st.level(t)),
        other != t,
    ensures
        ({
            let after = blocked(st, t, q);
            let hart = st.threads[t as int].private.hartid;
            let level = st.level(t) as int;
            let line = after.queues[q as int].classes[level + 128];
            &&& after.threads[t as int].private.state is Blocking
            &&& after.threads[t as int].blocked_on_wq == Some(q)
            &&& after.threads[t as int].private.prio == st.threads[t as int].private.prio
            &&& after.threads[t as int].trapframe == st.threads[t as int].trapframe
            &&& line matches Some(threads) && threads.last() == t
            &&& !after.sched.queues[hart][level].contains(t)
            &&& after.sched.queues[hart][level].contains(other)
                <==> st.sched.queues[hart][level].contains(other)
            &&& after.sched.bitmap == st.sched.bitmap
        }),
{
    let hart = st.threads[t as int].private.hartid;
    assert(st.sched.queues[hart].len() == 32);
    wait_queue::law_waiting_is_in_line(st.queues[q as int], st.level(t), t, 0);
    wait_queue::law_without(st.sched.queues[hart][st.level(t) as int], t);
}

/// While a thread takes a message, it is the one that the senders of the endpoint wait for,
/// and inherits the highest of their priorities; afterwards they wait for nobody, and it
/// inherits none. Its own priority stays, and so do those that wait.
#[verifier::spinoff_prover]
#[verifier::rlimit(50)]
pub proof fn law_receivers_inherit(st: State, ep: usize, t: usize)
    requires
        st.wf(),
        t < st.threads.len(),
        ep < st.endpoints.len(),
        st.blocked_on(t) is None,
    ensures
        ({
            let q = st.endpoints[ep as int].send_wait_queue as int;
            let was = st.threads[t as int].private.prio;
            let held = senders_blocked(st, ep, t);
            let freed = senders_unblocked(st, ep, t);
            &&& held.queues[q].owner == Some(t) && freed.queues[q].owner is None
            &&& held.queues[q].classes == st.queues[q].classes && freed.queues[q].classes
                == st.queues[q].classes
            &&& held.threads[t as int].private.prio.inherited_prio == st.queues[q].highest()
            &&& freed.threads[t as int].private.prio.inherited_prio == -1
            &&& held.threads[t as int].private.prio.base_prio == was.base_prio
                && freed.threads[t as int].private.prio.base_prio == was.base_prio
            &&& held.threads[t as int].private.prio.prio_boost == was.prio_boost
                && freed.threads[t as int].private.prio.prio_boost == was.prio_boost
            &&& held.blocking[t as int] == st.blocking[t as int].push(q as usize)
            &&& held.mem == st.mem && freed.mem == st.mem
            &&& held.sched == st.sched && freed.sched == st.sched
        }),
{
    assert(st.endpoints[ep as int].send_wait_queue < st.queues.len());
}

} // verus!
