//! What keeps the threads that wait, and those that they wait for, in order.

use vstd::prelude::*;

use super::capability::thread::Thread;
use super::capability::wait_queue;
use super::capability::wait_queue::Queue;
use super::capability::Page;
use super::ipc;
use super::paging::SharedPageTable;
use super::state::State;
use super::threads;
use super::trap::endpoints;
use super::trap::soundness;

verus! {

/// Whether a thread runs or waits as it did, at the same priority.
pub open spec fn goes_on(a: Thread, b: Thread) -> bool {
    &&& b.private.prio == a.private.prio
    &&& b.private.state == a.private.state
    &&& b.private.hartid == a.private.hartid
    &&& b.blocked_on_wq == a.blocked_on_wq
}

/// Whether a thread goes on as it did on the way from one state to another, or is where
/// it should be.
pub open spec fn placed(a: State, b: State, t: int) -> bool {
    ||| goes_on(a.threads[t], b.threads[t])
    ||| b.tame(t) && b.waits(t) && (a.fit(t as usize) ==> b.fit(t as usize))
}

/// Whether a queue has the owner that another one has, or none, and its classes.
pub open spec fn loosened(a: Queue, b: Queue) -> bool {
    (b.owner == a.owner || b.owner is None) && soundness::classes_kept(a, b)
}

/// Whether the threads and the queues were kept in order on the way from one state to
/// another.
pub open spec fn in_step(a: State, b: State) -> bool {
    &&& b.threads.len() == a.threads.len()
    &&& forall|t: int| 0 <= t < a.threads.len() ==> #[trigger] placed(a, b, t)
    &&& a.queues.len() <= b.queues.len()
    &&& forall|q: int|
        0 <= q < a.queues.len() ==> loosened(a.queues[q], #[trigger] b.queues[q])
    &&& forall|q: int|
        a.queues.len() <= q < b.queues.len() ==> #[trigger] b.queues[q] == endpoints::empty_queue()
    &&& b.sched.like(a.sched)
}

/// What keeps the threads and the queues in order leaves the kernel in order.
pub proof fn lemma_in_step(a: State, b: State)
    requires
        a.ordered(),
        b.wf(),
        in_step(a, b),
    ensures
        b.ordered(),
{
    assert forall|t: int| 0 <= t < b.threads.len() implies #[trigger] b.tame(t) by {
        assert(a.tame(t));
        assert(placed(a, b, t));
    }
    assert forall|t: int| 0 <= t < b.threads.len() implies #[trigger] b.waits(t) by {
        assert(a.waits(t));
        assert(a.tame(t));
        assert(a.thread_wf(t));
        assert(placed(a, b, t));
        if let Some(q) = a.threads[t].blocked_on_wq {
            let c = wait_queue::class_of(a.threads[t].private.prio.level());
            if goes_on(a.threads[t], b.threads[t]) {
                assert(a.queues[q as int].classes[c] is Some);
                assert(loosened(a.queues[q as int], b.queues[q as int]));
                assert(a.queues[q as int].wf());
                assert(b.queues[q as int].classes[c] is Some);
            }
        }
    }
    assert forall|q: int| 0 <= q < b.queues.len() implies (b.queues[q].owner matches Some(t)
        ==> b.fit(t)) && #[trigger] b.queue_tame(q) by {
        if q < a.queues.len() {
            assert(a.queue_tame(q));
            assert(loosened(a.queues[q], b.queues[q]));
            assert(a.queues[q].below(a.threads.len() as int));
            if let Some(t) = b.queues[q].owner {
                assert(a.fit(t));
                assert(placed(a, b, t as int));
                assert(b.fit(t));
                assert(b.steady(t));
            }
        } else {
            assert(b.queues[q] == endpoints::empty_queue());
        }
    }
    assert forall|q: int| 0 <= q < b.queues.len() implies ((
    #[trigger] b.queues[q]).owner matches Some(t) ==> b.fit(t)) by {
        assert(b.queue_tame(q));
    }
}

/// The queues of a kernel that is in order are below what they may be.
proof fn lemma_loose(st: State)
    requires
        st.ordered(),
    ensures
        forall|q: int| 0 <= q < st.queues.len() ==> loosened(
            st.queues[q],
            #[trigger] st.queues[q],
        ),
{
    assert forall|q: int| 0 <= q < st.queues.len() implies loosened(
        st.queues[q],
        #[trigger] st.queues[q],
    ) by {
        assert(st.queue_tame(q));
    }
}

/// To take a thread out of a queue leaves the kernel in order.
pub proof fn lemma_unqueued(st: State, q: usize)
    requires
        st.ordered(),
        q < st.queues.len(),
        ipc::unqueued(st, q).wf(),
    ensures
        ipc::unqueued(st, q).ordered(),
{
    let b = ipc::unqueued(st, q);
    lemma_loose(st);
    assert(st.queue_tame(q as int));
    assert(st.queues[q as int].wf());
    wait_queue::lemma_waiting_class(st.queues[q as int].classes, 256);
    assert forall|t: int| 0 <= t < st.threads.len() implies #[trigger] placed(st, b, t) by {}
    assert forall|k: int| 0 <= k < st.queues.len() implies loosened(
        st.queues[k],
        #[trigger] b.queues[k],
    ) by {
        assert(loosened(st.queues[k], st.queues[k]));
    }
    lemma_in_step(st, b);
}

/// A thread that begins to wait leaves the kernel in order.
pub proof fn lemma_blocked(st: State, t: usize, q: usize)
    requires
        st.ordered(),
        t < st.threads.len(),
        q < st.queues.len(),
        st.sched.has(st.threads[t as int].private.hartid),
        ipc::blocked(st, t, q).wf(),
    ensures
        ipc::blocked(st, t, q).ordered(),
{
    let b = ipc::blocked(st, t, q);
    lemma_loose(st);
    assert(st.tame(t as int));
    assert(st.thread_wf(t as int));
    let c = wait_queue::class_of(st.level(t));
    assert(0 <= c < 160);
    assert forall|k: int| 0 <= k < st.queues.len() implies loosened(
        st.queues[k],
        #[trigger] b.queues[k],
    ) by {
        assert(loosened(st.queues[k], st.queues[k]));
        assert(st.queues[k].wf());
    }
    assert(b.sched.queues.dom() =~= st.sched.queues.dom());
    assert(b.queues[q as int].classes[c] is Some);
    assert forall|o: int| 0 <= o < st.threads.len() implies #[trigger] placed(st, b, o) by {}
    lemma_in_step(st, b);
}

/// To wake a receiver leaves the kernel in order.
pub proof fn lemma_receiver_woken(st: State, receiver: usize)
    requires
        st.ordered(),
        receiver < st.threads.len(),
        0 <= st.prio(receiver).boosted().level() < 32,
        endpoints::receiver_woken(st, receiver).wf(),
    ensures
        endpoints::receiver_woken(st, receiver).ordered(),
        forall|t: int|
            0 <= t < st.threads.len() && st.threads[t].blocked_on_wq is None ==> (
            #[trigger] endpoints::receiver_woken(st, receiver).threads[t]).blocked_on_wq is None,
{
    let b = endpoints::receiver_woken(st, receiver);
    lemma_loose(st);
    assert(st.tame(receiver as int));
    assert(st.thread_wf(receiver as int));
    assert(b.sched.queues.dom() =~= st.sched.queues.dom());
    assert forall|o: int| 0 <= o < st.threads.len() implies #[trigger] placed(st, b, o) by {}
    lemma_in_step(st, b);
}

/// To take the message of a sender that waited leaves the kernel in order: the sender
/// waits no longer, and nobody owns the queue of the senders.
pub proof fn lemma_received(st: State, thread: usize, sender: usize, ep: usize)
    requires
        st.ordered(),
        ipc::receivable(st, thread, sender, ep),
        st.blocked_on(thread) is None,
        ipc::recv_held(st, thread, sender, ep).wf(),
        ipc::recv_done(st, thread, sender, ep).wf(),
    ensures
        ipc::recv_done(st, thread, sender, ep).ordered(),
        ipc::recv_done(st, thread, sender, ep).blocked_on(thread) is None,
{
    let held = ipc::recv_held(st, thread, sender, ep);
    let copied = ipc::recv_copied(st, thread, sender, ep);
    let woken = ipc::recv_woken(st, thread, sender, ep);
    let b = ipc::recv_done(st, thread, sender, ep);
    let q = st.endpoints[ep as int].send_wait_queue;
    lemma_loose(st);
    ipc::lemma_transferred(held, thread, sender);
    assert(held.threads.len() == st.threads.len());
    assert forall|o: int| 0 <= o < st.threads.len() implies {
        let c = #[trigger] copied.threads[o];
        &&& c.private == held.threads[o].private
        &&& c.blocked_on_wq == held.threads[o].blocked_on_wq
    } by {}
    assert(copied.sched == st.sched);
    assert(copied.queues == held.queues);
    assert(b.sched.queues.dom() =~= st.sched.queues.dom());
    assert forall|o: int| 0 <= o < st.threads.len() implies #[trigger] placed(st, b, o) by {
        assert(st.tame(o));
        assert(st.thread_wf(o));
        assert(copied.threads[o].private == held.threads[o].private);
        if o == thread || o == sender {
            assert(b.threads[o].blocked_on_wq is None);
            assert(b.tame(o));
        }
    }
    assert forall|k: int| 0 <= k < st.queues.len() implies loosened(
        st.queues[k],
        #[trigger] b.queues[k],
    ) by {
        assert(loosened(st.queues[k], st.queues[k]));
        if k != q {
            assert(b.queues[k] == st.queues[k]);
        }
    }
    lemma_in_step(st, b);
}

/// What keeps threads and queues as they are leaves the kernel in order.
pub proof fn lemma_going_on(a: State, b: State)
    requires
        a.ordered(),
        b.wf(),
        b.threads.len() == a.threads.len(),
        forall|t: int|
            0 <= t < a.threads.len() ==> goes_on(a.threads[t], #[trigger] b.threads[t]),
        a.queues.len() <= b.queues.len(),
        forall|q: int| 0 <= q < a.queues.len() ==> #[trigger] b.queues[q] == a.queues[q],
        forall|q: int|
            a.queues.len() <= q < b.queues.len() ==> #[trigger] b.queues[q]
                == endpoints::empty_queue(),
        b.sched == a.sched,
    ensures
        b.ordered(),
{
    lemma_loose(a);
    assert forall|t: int| 0 <= t < a.threads.len() implies #[trigger] placed(a, b, t) by {
        assert(goes_on(a.threads[t], b.threads[t]));
    }
    assert forall|q: int| 0 <= q < a.queues.len() implies loosened(
        a.queues[q],
        #[trigger] b.queues[q],
    ) by {
        assert(loosened(a.queues[q], a.queues[q]));
    }
    lemma_in_step(a, b);
}

/// To configure a thread leaves the kernel in order.
#[verifier::spinoff_prover]
pub proof fn lemma_configured(
    st: State,
    t: usize,
    table: SharedPageTable,
    buffer: Option<Page>,
    after: State,
)
    requires
        st.ordered(),
        t < st.threads.len(),
        st.state(t) is Suspended || st.state(t) is Uninit,
        threads::configured(st, t, table, buffer, after),
        after.wf(),
    ensures
        after.ordered(),
        forall|o: int|
            0 <= o < st.threads.len() ==> (#[trigger] after.threads[o]).blocked_on_wq
                == st.threads[o].blocked_on_wq,
{
    let given = threads::page_table_given(st, t, table, buffer);
    let va = choose|va: u64|
        threads::is_free_addr(given.mem, table.root as int, va)
            && #[trigger] threads::trapframe_mapped(given, t, va) == after;
    lemma_loose(st);
    assert(st.tame(t as int) && st.waits(t as int));
    assert forall|o: int| 0 <= o < st.threads.len() implies #[trigger] placed(st, after, o)
        && after.threads[o].blocked_on_wq == st.threads[o].blocked_on_wq by {
        if o != t {
            assert(given.threads[o] == st.threads[o]);
            assert(after.threads[o] == given.threads[o]);
        }
    }
    assert forall|o: int| 0 <= o < st.threads.len() implies (
    #[trigger] after.threads[o]).blocked_on_wq == st.threads[o].blocked_on_wq by {
        assert(placed(st, after, o));
    }
    assert(after.queues == st.queues && after.sched == st.sched);
    lemma_in_step(st, after);
}

} // verus!
