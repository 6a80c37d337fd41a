//! The system calls with which threads exchange messages.
//!
//! A call that has to wait for another thread is carried out in two parts: up to
//! where the thread gives up its hart, and from where it runs again.

use vstd::prelude::*;

use crate::capability::{CapError, CapResult, Endpoint as EndpointCap, MessageHeader};
use crate::kernel::capability::captbl;
use crate::kernel::capability::thread::{Thread, ThreadProtected};
use crate::kernel::capability::wait_queue;
use crate::kernel::capability::wait_queue::{Queue, WaitQueue};
use crate::kernel::capability::{badge_number, CapabilityKind, Endpoint};
use crate::kernel::ipc;
use crate::kernel::order;
use crate::kernel::paging::PageTableFlags;
use crate::kernel::physmem::Mem;
use crate::kernel::state;
use crate::kernel::state::{Kernel, State};

verus! {

/// What a thread that waits is to do when it runs again.
#[derive(Copy, Clone, Debug, PartialEq, Eq, Structural)]
pub enum Pending {
    /// Read the signals of a notification.
    Notification(usize),
    /// Take a message from an endpoint, and write the badge of the sender to a
    /// physical address.
    Recv(usize, Option<u64>),
    /// Go on after a message to an endpoint has been taken.
    Send(usize),
    /// Go on after a message to an endpoint has been taken, and wait for the
    /// reply.
    CallSend(usize),
    /// Take the reply to a message to an endpoint from another endpoint.
    CallRecv(usize, usize),
    /// Go on after others have run.
    Yield,
}

/// How far a system call got.
pub enum Outcome<T> {
    /// It is done.
    Done(CapResult<T>),
    /// The thread has to give up its hart first.
    Blocked(Pending),
}

/// With another mark of a message that was taken or handed over while a thread
/// waited.
pub open spec fn set_fastpath(
    st: State,
    t: usize,
    send_fastpath: Option<(MessageHeader, u64)>,
    recv_fastpath: bool,
) -> State {
    let thread = st.threads[t as int];
    st.set_thread(
        t,
        Thread {
            private: ThreadProtected { send_fastpath, recv_fastpath, ..thread.private },
            ..thread
        },
    )
}

/// Whether the kernel is in order, and a thread does not wait.
pub open spec fn in_order(st: State, t: usize) -> bool {
    st.ordered() && st.blocked_on(t) is None
}

/// The queue of those that wait for a message at an endpoint.
pub open spec fn recv_queue(st: State, ep: usize) -> usize {
    st.endpoints[ep as int].recv_wait_queue
}

/// The queue of those that wait for a receiver at an endpoint.
pub open spec fn send_queue(st: State, ep: usize) -> usize {
    st.endpoints[ep as int].send_wait_queue
}

/// Receiving, up to where the thread waits: if a sender waits, its message is
/// taken, and the sender is told so; else the thread waits.
pub open spec fn recv_begun(st: State, thread: usize, ep: usize) -> (State, Option<(u64, u64)>) {
    let popped = ipc::unqueued(st, send_queue(st, ep));
    match st.queues[send_queue(st, ep) as int].next() {
        Some(sender) => {
            let done = ipc::recv_done(popped, thread, sender, ep);
            (
                set_fastpath(
                    done,
                    sender,
                    done.threads[sender as int].private.send_fastpath,
                    true,
                ),
                Some(
                    ipc::waiting_message(ipc::recv_held(popped, thread, sender, ep), sender),
                ),
            )
        },
        None => (ipc::blocked(popped, thread, recv_queue(st, ep)), None),
    }
}

/// Whether a thread can begin to receive.
pub open spec fn recv_beginnable(st: State, thread: usize, ep: usize) -> bool {
    let popped = ipc::unqueued(st, send_queue(st, ep));
    &&& thread < st.threads.len()
    &&& ep < st.endpoints.len()
    &&& match st.queues[send_queue(st, ep) as int].next() {
        Some(sender) => ipc::receivable(popped, thread, sender, ep),
        None => st.sched.valid(st.threads[thread as int].private.hartid, st.level(thread)),
    }
}

/// Receiving, from where the thread runs again: if a message was handed over, it
/// is that one; else it is taken from a sender that waits.
pub open spec fn recv_resumed(st: State, thread: usize, ep: usize) -> (State, (u64, u64)) {
    let private = st.threads[thread as int].private;
    match private.send_fastpath {
        Some((hdr, badge)) => (
            set_fastpath(st, thread, None, private.recv_fastpath),
            (hdr@, badge),
        ),
        None => {
            let popped = ipc::unqueued(st, send_queue(st, ep));
            let sender = st.queues[send_queue(st, ep) as int].next()->0;
            (
                ipc::recv_done(popped, thread, sender, ep),
                ipc::waiting_message(ipc::recv_held(popped, thread, sender, ep), sender),
            )
        },
    }
}

/// Whether a thread that waited for a message can go on.
pub open spec fn recv_resumable(st: State, thread: usize, ep: usize) -> bool {
    let popped = ipc::unqueued(st, send_queue(st, ep));
    &&& thread < st.threads.len()
    &&& ep < st.endpoints.len()
    &&& st.threads[thread as int].private.send_fastpath is None ==> {
        let next = st.queues[send_queue(st, ep) as int].next();
        next is Some && ipc::receivable(popped, thread, next->0, ep)
    }
}

/// After a message has been handed over to a receiver that waited.
pub open spec fn handed_over(
    st: State,
    receiver: usize,
    thread: usize,
    hdr: MessageHeader,
    badge: u64,
) -> State {
    let marked = set_fastpath(
        st,
        receiver,
        Some((hdr, badge)),
        st.threads[receiver as int].private.recv_fastpath,
    );
    ipc::delivered(
        ipc::transferred(marked, receiver, thread),
        receiver,
        thread,
        ipc::message_len(hdr@),
    )
}

/// After a receiver has been woken.
pub open spec fn receiver_woken(st: State, receiver: usize) -> State {
    ipc::woken(st.set_blocked_on(receiver, None), receiver)
}

/// Sending, up to where the thread waits: if a receiver waits, the message is
/// handed over, and the receiver is woken; else the thread waits. The second
/// result is whether the message was handed over.
pub open spec fn send_begun(
    st: State,
    thread: usize,
    ep: usize,
    hdr: MessageHeader,
    badge: u64,
) -> (State, bool) {
    let popped = ipc::unqueued(st, recv_queue(st, ep));
    match st.queues[recv_queue(st, ep) as int].next() {
        Some(receiver) => (
            receiver_woken(handed_over(popped, receiver, thread, hdr, badge), receiver),
            true,
        ),
        None => (ipc::blocked(popped, thread, send_queue(st, ep)), false),
    }
}

/// Whether a thread can begin to send.
pub open spec fn send_beginnable(
    st: State,
    thread: usize,
    ep: usize,
    hdr: MessageHeader,
    badge: u64,
) -> bool {
    let popped = ipc::unqueued(st, recv_queue(st, ep));
    &&& thread < st.threads.len()
    &&& ep < st.endpoints.len()
    &&& match st.queues[recv_queue(st, ep) as int].next() {
        Some(receiver) => {
            let marked = set_fastpath(
                popped,
                receiver,
                Some((hdr, badge)),
                popped.threads[receiver as int].private.recv_fastpath,
            );
            &&& ipc::transferable(marked, receiver, thread)
            &&& ipc::buffers_apart(ipc::transferred(marked, receiver, thread), receiver, thread)
            &&& 0 <= st.prio(receiver).boosted().level() < 32
        },
        None => st.sched.valid(st.threads[thread as int].private.hartid, st.level(thread)),
    }
}

/// Sending, from where the thread runs again: if its message was not taken while
/// it waited, a receiver that waits is woken.
pub open spec fn send_resumed(st: State, thread: usize, ep: usize) -> State {
    let private = st.threads[thread as int].private;
    if private.recv_fastpath {
        set_fastpath(st, thread, private.send_fastpath, false)
    } else {
        let popped = ipc::unqueued(st, recv_queue(st, ep));
        receiver_woken(popped, st.queues[recv_queue(st, ep) as int].next()->0)
    }
}

/// Whether a thread that waited for a receiver can go on.
pub open spec fn send_resumable(st: State, thread: usize, ep: usize) -> bool {
    &&& thread < st.threads.len()
    &&& ep < st.endpoints.len()
    &&& !st.threads[thread as int].private.recv_fastpath ==> {
        let next = st.queues[recv_queue(st, ep) as int].next();
        next is Some && 0 <= st.prio(next->0).boosted().level() < 32
    }
}

impl Kernel {
    /// Note that a message was handed over or taken while a thread waited.
    fn set_fastpath(
        &mut self,
        t: usize,
        send_fastpath: Option<(MessageHeader, u64)>,
        recv_fastpath: bool,
    )
        requires
            old(self)@.wf(),
            t < old(self)@.threads.len(),
        ensures
            final(self)@ == set_fastpath(old(self)@, t, send_fastpath, recv_fastpath),
            final(self)@.wf(),
    {
        assert(self@.thread_wf(t as int));
        let mut thread = self.threads[t];
        thread.private.send_fastpath = send_fastpath;
        thread.private.recv_fastpath = recv_fastpath;
        proof {
            state::lemma_set_thread(self@, t, thread);
        }
        self.set_thread(t, thread);
    }
}

/// Begin to receive at an endpoint: the header and badge of the message, or
/// `None` if the thread waits now.
pub fn sys_endpoint_recv_inner(k: &mut Kernel, thread: usize, endpoint: usize) -> (r: Option<
    (MessageHeader, u64),
>)
    requires
        old(k)@.wf(),
        recv_beginnable(old(k)@, thread, endpoint),
    ensures
        final(k)@ == recv_begun(old(k)@, thread, endpoint).0,
        r is Some <==> recv_begun(old(k)@, thread, endpoint).1 is Some,
        r matches Some((hdr, badge)) ==> recv_begun(old(k)@, thread, endpoint).1 == Some(
            (hdr@, badge),
        ),
        final(k)@.wf(),
        final(k)@.mem.same_extent(old(k)@.mem),
        final(k)@.threads.len() == old(k)@.threads.len(),
        final(k)@.endpoints == old(k)@.endpoints,
        in_order(old(k)@, thread) ==> final(k)@.ordered(),
        in_order(old(k)@, thread) && r is Some ==> in_order(final(k)@, thread),
{
    let ghost st = k@;
    let recv_wq: usize = k.endpoints[endpoint].recv_wait_queue;
    let send_wq: usize = k.endpoints[endpoint].send_wait_queue;
    let next: Option<usize> = k.unqueue(send_wq);
    let ghost popped = k@;
    proof {
        if in_order(st, thread) {
            order::lemma_unqueued(st, send_wq);
        }
    }
    match next {
        Some(sender) => {
            let (hdr, badge) = k.endpoint_recv(thread, sender, endpoint);
            let ghost done = k@;
            let send_fastpath = k.threads[sender].private.send_fastpath;
            k.set_fastpath(sender, send_fastpath, true);
            proof {
                if in_order(st, thread) {
                    order::lemma_going_on(done, k@);
                }
            }
            Some((hdr, badge))
        },
        None => {
            k.block(thread, recv_wq);
            proof {
                if in_order(st, thread) {
                    order::lemma_blocked(popped, thread, recv_wq);
                }
            }
            None
        },
    }
}

/// Go on to receive at an endpoint after the thread has waited: the header and
/// badge of the message.
pub fn sys_endpoint_recv_resume(k: &mut Kernel, thread: usize, endpoint: usize) -> (r: (
    MessageHeader,
    u64,
))
    requires
        old(k)@.wf(),
        recv_resumable(old(k)@, thread, endpoint),
    ensures
        final(k)@ == recv_resumed(old(k)@, thread, endpoint).0,
        (r.0@, r.1) == recv_resumed(old(k)@, thread, endpoint).1,
        final(k)@.wf(),
        final(k)@.mem.same_extent(old(k)@.mem),
        final(k)@.threads.len() == old(k)@.threads.len(),
        final(k)@.endpoints == old(k)@.endpoints,
        in_order(old(k)@, thread) ==> in_order(final(k)@, thread),
{
    let ghost st = k@;
    let private = k.threads[thread].private;
    if let Some((hdr, badge)) = private.send_fastpath {
        k.set_fastpath(thread, None, private.recv_fastpath);
        proof {
            if in_order(st, thread) {
                order::lemma_going_on(st, k@);
            }
        }
        return (hdr, badge);
    }
    let send_wq: usize = k.endpoints[endpoint].send_wait_queue;
    let next: Option<usize> = k.unqueue(send_wq);
    proof {
        if in_order(st, thread) {
            order::lemma_unqueued(st, send_wq);
        }
    }
    match next {
        Some(sender) => k.endpoint_recv(thread, sender, endpoint),
        None => (MessageHeader::new(), 0),
    }
}

/// Wake the receiver of a message.
fn endpoint_send(k: &mut Kernel, receiver: usize)
    requires
        old(k)@.wf(),
        receiver < old(k)@.threads.len(),
        0 <= old(k)@.prio(receiver).boosted().level() < 32,
    ensures
        final(k)@ == receiver_woken(old(k)@, receiver),
        final(k)@.wf(),
        forall|t: usize|
            t < old(k)@.threads.len() && #[trigger] in_order(old(k)@, t) ==> in_order(final(k)@, t),
{
    let ghost st = k@;
    assert(k@.thread_wf(receiver as int));
    proof {
        state::lemma_set_thread(
            k@,
            receiver,
            k@.set_blocked_on(receiver, None).threads[receiver as int],
        );
    }
    k.set_blocked_on(receiver, None);
    k.wake(receiver);
    proof {
        if st.ordered() {
            order::lemma_receiver_woken(st, receiver);
            assert forall|t: usize|
                t < st.threads.len() && #[trigger] in_order(st, t) implies in_order(k@, t) by {
                assert(k@.threads[t as int].blocked_on_wq is None);
            }
        }
    }
}

/// Begin to send at an endpoint. Returns whether the message was handed over; if
/// not, the thread waits now.
pub fn sys_endpoint_send_inner(
    k: &mut Kernel,
    thread: usize,
    endpoint: usize,
    hdr: MessageHeader,
    badge: u64,
) -> (r: bool)
    requires
        old(k)@.wf(),
        send_beginnable(old(k)@, thread, endpoint, hdr, badge),
    ensures
        (final(k)@, r) == send_begun(old(k)@, thread, endpoint, hdr, badge),
        final(k)@.wf(),
        final(k)@.threads.len() == old(k)@.threads.len(),
        in_order(old(k)@, thread) ==> final(k)@.ordered(),
        in_order(old(k)@, thread) && r ==> in_order(final(k)@, thread),
{
    let ghost st = k@;
    let recv_wq: usize = k.endpoints[endpoint].recv_wait_queue;
    let send_wq: usize = k.endpoints[endpoint].send_wait_queue;
    let next: Option<usize> = k.unqueue(recv_wq);
    let ghost popped = k@;
    proof {
        if in_order(st, thread) {
            order::lemma_unqueued(st, recv_wq);
        }
    }
    match next {
        Some(receiver) => {
            let recv_fastpath: bool = k.threads[receiver].private.recv_fastpath;
            k.set_fastpath(receiver, Some((hdr, badge)), recv_fastpath);
            proof {
                ipc::lemma_transferred(k@, receiver, thread);
            }
            k.transfer_cap(receiver, thread);
            k.deliver(receiver, thread, hdr.length());
            proof {
                if in_order(st, thread) {
                    order::lemma_going_on(popped, k@);
                    assert(in_order(k@, thread));
                }
            }
            endpoint_send(k, receiver);
            true
        },
        None => {
            k.block(thread, send_wq);
            proof {
                if in_order(st, thread) {
                    order::lemma_blocked(popped, thread, send_wq);
                }
            }
            false
        },
    }
}

/// Go on after the thread has waited for a receiver.
pub fn sys_endpoint_send_resume(k: &mut Kernel, thread: usize, endpoint: usize)
    requires
        old(k)@.wf(),
        send_resumable(old(k)@, thread, endpoint),
    ensures
        final(k)@ == send_resumed(old(k)@, thread, endpoint),
        final(k)@.wf(),
        final(k)@.threads.len() == old(k)@.threads.len(),
        in_order(old(k)@, thread) ==> in_order(final(k)@, thread),
{
    let ghost st = k@;
    let private = k.threads[thread].private;
    if private.recv_fastpath {
        k.set_fastpath(thread, private.send_fastpath, false);
        proof {
            if in_order(st, thread) {
                order::lemma_going_on(st, k@);
            }
        }
        return ;
    }
    let recv_wq: usize = k.endpoints[endpoint].recv_wait_queue;
    let next: Option<usize> = k.unqueue(recv_wq);
    proof {
        if in_order(st, thread) {
            order::lemma_unqueued(st, recv_wq);
            assert(in_order(k@, thread));
        }
    }
    if let Some(receiver) = next {
        endpoint_send(k, receiver);
    }
}

/// The endpoint in a slot of a thread and the badge of the slot, or the error of
/// looking it up.
pub open spec fn endpoint_at(st: State, t: usize, index: u64) -> Result<(usize, u64), CapError> {
    match captbl::lookup_error::<EndpointCap>(st.slots(t), index) {
        Some(e) => Err(e),
        None => {
            let slot = st.slots(t)[index as int];
            match slot.cap {
                CapabilityKind::Endpoint(ep) => Ok(
                    (ep, crate::capability::badge_bits(slot.badge)),
                ),
                _ => Err(CapError::InvalidType),
            }
        },
    }
}

/// After the badge of the sender of a message has been written to where the
/// receiver wants to have it, if that is the address of a word.
pub open spec fn noted(st: State, info: Option<u64>, badge: u64) -> State {
    match info {
        Some(pa) => if pa % 8 == 0 {
            State { mem: st.mem.set_word(pa as int, badge), ..st }
        } else {
            st
        },
        None => st,
    }
}

/// Whether a badge can be written to where the receiver wants to have it.
pub open spec fn notable(st: State, info: Option<u64>) -> bool {
    info matches Some(pa) ==> pa % 8 == 0 ==> st.mem.has_bytes(pa as int, 8)
}

/// Where a receiver wants to have the badge of the sender.
pub open spec fn info_addr(st: State, t: usize, va: u64) -> Option<u64> {
    ipc::user_addr(st, t, va, PageTableFlags::USER_WRITE)
}

impl Kernel {
    /// The endpoint in a slot of a thread, and the badge of the slot.
    fn endpoint_at(&self, t: usize, index: u64) -> (r: Result<(usize, u64), CapError>)
        requires
            self@.wf(),
            t < self@.threads.len(),
        ensures
            r == endpoint_at(self@, t, index),
            r matches Ok((ep, _)) ==> ep < self@.endpoints.len(),
    {
        match self.lookup::<EndpointCap>(t, index) {
            Ok(slot) => match slot.cap {
                CapabilityKind::Endpoint(ep) => Ok((ep, badge_number(slot.badge))),
                _ => Err(CapError::InvalidType),
            },
            Err(e) => Err(e),
        }
    }

    /// Write the badge of the sender of a message to where the receiver wants to
    /// have it.
    fn note(&mut self, info: Option<u64>, badge: u64)
        requires
            old(self)@.wf(),
            notable(old(self)@, info),
        ensures
            final(self)@ == noted(old(self)@, info, badge),
            final(self)@.wf(),
            old(self)@.ordered() ==> final(self)@.ordered(),
    {
        if let Some(pa) = info {
            if pa % 8 == 0 {
                let ghost st = self@;
                self.mem.write_word(pa, badge);
                proof {
                    ipc::lemma_set_mem(st, self@.mem);
                    if st.ordered() {
                        order::lemma_going_on(st, self@);
                    }
                }
            }
        }
    }
}

/// When [`sys_endpoint_recv`] can be called.
pub open spec fn sys_endpoint_recv_pre(
    st: State,
    thread: usize,
    endpoint: u64,
    sender_info: u64,
    _dst_slot: u64,
) -> bool {
    &&& st.wf()
    &&& thread < st.threads.len()
    &&& ipc::walkable(st, thread)
    &&& endpoint_at(st, thread, endpoint) matches Ok((ep, _)) ==> recv_beginnable(
        st,
        thread,
        ep,
    ) && notable(st, info_addr(st, thread, sender_info))
}

/// What [`sys_endpoint_recv`] does.
pub open spec fn sys_endpoint_recv_post(
    st: State,
    thread: usize,
    endpoint: u64,
    sender_info: u64,
    _dst_slot: u64,
    after: State,
    r: Outcome<MessageHeader>,
) -> bool {
    match endpoint_at(st, thread, endpoint) {
        Err(e) => after == st && r == Outcome::<MessageHeader>::Done(Err(e)),
        Ok((ep, _)) => {
            let (begun, message) = recv_begun(st, thread, ep);
            let info = info_addr(st, thread, sender_info);
            match message {
                Some((hdr, badge)) => {
                    &&& after == noted(begun, info, badge)
                    &&& r matches Outcome::Done(Ok(h)) && h@ == hdr
                },
                None => {
                    &&& after == begun
                    &&& r == Outcome::<MessageHeader>::Blocked(Pending::Recv(ep, info))
                },
            }
        },
    }
}

/// Receive a message from the endpoint in a slot. The badge of the sender is
/// written to the address `sender_info`.
pub fn sys_endpoint_recv(
    k: &mut Kernel,
    thread: usize,
    endpoint: u64,
    sender_info: u64,
    _dst_slot: u64,
) -> (r: Outcome<MessageHeader>)
    requires
        sys_endpoint_recv_pre(old(k)@, thread, endpoint, sender_info, _dst_slot),
    ensures
        sys_endpoint_recv_post(old(k)@, thread, endpoint, sender_info, _dst_slot, final(k)@, r),
        final(k)@.wf(),
        final(k)@.threads.len() >= old(k)@.threads.len(),
        in_order(old(k)@, thread) ==> final(k)@.ordered(),
        in_order(old(k)@, thread) && r is Done ==> in_order(final(k)@, thread),
{
    let info: Option<u64> = k.user_addr(thread, sender_info, PageTableFlags::USER_WRITE);
    let ep: usize = match k.endpoint_at(thread, endpoint) {
        Ok((ep, _)) => ep,
        Err(e) => {
            return Outcome::Done(Err(e));
        },
    };
    match sys_endpoint_recv_inner(k, thread, ep) {
        Some((hdr, badge)) => {
            k.note(info, badge);
            Outcome::Done(Ok(hdr))
        },
        None => Outcome::Blocked(Pending::Recv(ep, info)),
    }
}

/// Go on with [`sys_endpoint_recv`] after the thread has waited.
pub fn sys_endpoint_recv_finish(k: &mut Kernel, thread: usize, endpoint: usize, info: Option<u64>) -> (r:
    MessageHeader)
    requires
        old(k)@.wf(),
        recv_resumable(old(k)@, thread, endpoint),
        notable(old(k)@, info),
    ensures
        ({
            let (resumed, (hdr, badge)) = recv_resumed(old(k)@, thread, endpoint);
            &&& final(k)@ == noted(resumed, info, badge)
            &&& r@ == hdr
        }),
        final(k)@.wf(),
        final(k)@.threads.len() == old(k)@.threads.len(),
        in_order(old(k)@, thread) ==> in_order(final(k)@, thread),
{
    let (hdr, badge) = sys_endpoint_recv_resume(k, thread, endpoint);
    k.note(info, badge);
    hdr
}

/// When [`sys_endpoint_send`] can be called.
pub open spec fn sys_endpoint_send_pre(
    st: State,
    thread: usize,
    endpoint: u64,
    hdr: MessageHeader,
    _src_slot: u64,
) -> bool {
    &&& st.wf()
    &&& thread < st.threads.len()
    &&& endpoint_at(st, thread, endpoint) matches Ok((ep, badge)) ==> send_beginnable(
        st,
        thread,
        ep,
        hdr,
        badge,
    )
}

/// What [`sys_endpoint_send`] does.
pub open spec fn sys_endpoint_send_post(
    st: State,
    thread: usize,
    endpoint: u64,
    hdr: MessageHeader,
    _src_slot: u64,
    after: State,
    r: Outcome<()>,
) -> bool {
    match endpoint_at(st, thread, endpoint) {
        Err(e) => after == st && r == Outcome::<()>::Done(Err(e)),
        Ok((ep, badge)) => {
            let (begun, done) = send_begun(st, thread, ep, hdr, badge);
            &&& after == begun
            &&& r == if done {
                Outcome::<()>::Done(Ok(()))
            } else {
                Outcome::<()>::Blocked(Pending::Send(ep))
            }
        },
    }
}

/// Send a message to the endpoint in a slot.
pub fn sys_endpoint_send(
    k: &mut Kernel,
    thread: usize,
    endpoint: u64,
    hdr: MessageHeader,
    _src_slot: u64,
) -> (r: Outcome<()>)
    requires
        sys_endpoint_send_pre(old(k)@, thread, endpoint, hdr, _src_slot),
    ensures
        sys_endpoint_send_post(old(k)@, thread, endpoint, hdr, _src_slot, final(k)@, r),
        final(k)@.wf(),
        final(k)@.threads.len() >= old(k)@.threads.len(),
        in_order(old(k)@, thread) ==> final(k)@.ordered(),
        in_order(old(k)@, thread) && r is Done ==> in_order(final(k)@, thread),
{
    match k.endpoint_at(thread, endpoint) {
        Ok((ep, badge)) => {
            if sys_endpoint_send_inner(k, thread, ep, hdr, badge) {
                Outcome::Done(Ok(()))
            } else {
                Outcome::Blocked(Pending::Send(ep))
            }
        },
        Err(e) => Outcome::Done(Err(e)),
    }
}

/// Where a reply to a message at the endpoint in a slot goes, and the badge of
/// the slot; an error if there is no such endpoint, or nobody waits for a reply
/// there.
pub open spec fn reply_at(st: State, t: usize, index: u64) -> Result<(usize, u64), CapError> {
    match endpoint_at(st, t, index) {
        Err(e) => Err(e),
        Ok((ep, badge)) => match st.endpoints[ep as int].reply_cap {
            Some(reply) => Ok((reply, badge)),
            None => Err(CapError::InvalidOperation),
        },
    }
}

/// When [`sys_endpoint_reply`] can be called.
pub open spec fn sys_endpoint_reply_pre(
    st: State,
    thread: usize,
    base_endpoint: u64,
    hdr: MessageHeader,
    _src_slot: u64,
) -> bool {
    &&& st.wf()
    &&& thread < st.threads.len()
    &&& reply_at(st, thread, base_endpoint) matches Ok((ep, badge)) ==> send_beginnable(
        st,
        thread,
        ep,
        hdr,
        badge,
    )
}

/// What [`sys_endpoint_reply`] does.
pub open spec fn sys_endpoint_reply_post(
    st: State,
    thread: usize,
    base_endpoint: u64,
    hdr: MessageHeader,
    _src_slot: u64,
    after: State,
    r: Outcome<()>,
) -> bool {
    match reply_at(st, thread, base_endpoint) {
        Err(e) => after == st && r == Outcome::<()>::Done(Err(e)),
        Ok((ep, badge)) => {
            let (begun, done) = send_begun(st, thread, ep, hdr, badge);
            &&& after == begun
            &&& r == if done {
                Outcome::<()>::Done(Ok(()))
            } else {
                Outcome::<()>::Blocked(Pending::Send(ep))
            }
        },
    }
}

/// Reply to the message at the endpoint in a slot.
pub fn sys_endpoint_reply(
    k: &mut Kernel,
    thread: usize,
    base_endpoint: u64,
    hdr: MessageHeader,
    _src_slot: u64,
) -> (r: Outcome<()>)
    requires
        sys_endpoint_reply_pre(old(k)@, thread, base_endpoint, hdr, _src_slot),
    ensures
        sys_endpoint_reply_post(old(k)@, thread, base_endpoint, hdr, _src_slot, final(k)@, r),
        final(k)@.wf(),
        final(k)@.threads.len() >= old(k)@.threads.len(),
        in_order(old(k)@, thread) ==> final(k)@.ordered(),
        in_order(old(k)@, thread) && r is Done ==> in_order(final(k)@, thread),
{
    let (base, badge) = match k.endpoint_at(thread, base_endpoint) {
        Ok(found) => found,
        Err(e) => {
            return Outcome::Done(Err(e));
        },
    };
    match k.endpoints[base].reply_cap {
        Some(ep) => {
            if sys_endpoint_send_inner(k, thread, ep, hdr, badge) {
                Outcome::Done(Ok(()))
            } else {
                Outcome::Blocked(Pending::Send(ep))
            }
        },
        None => Outcome::Done(Err(CapError::InvalidOperation)),
    }
}

/// An empty queue that nobody owns.
pub open spec fn empty_queue() -> Queue {
    Queue { owner: None, classes: Seq::new(256, |i: int| None) }
}

/// After an endpoint has been made.
pub open spec fn endpoint_made(st: State) -> State {
    State {
        queues: st.queues.push(empty_queue()).push(empty_queue()),
        endpoints: st.endpoints.push(
            Endpoint {
                recv_wait_queue: st.queues.len() as usize,
                send_wait_queue: (st.queues.len() + 1) as usize,
                reply_cap: None,
            },
        ),
        ..st
    }
}

/// With another place for replies to messages at an endpoint.
pub open spec fn set_reply(st: State, ep: usize, reply: Option<usize>) -> State {
    State {
        endpoints: st.endpoints.update(
            ep as int,
            Endpoint { reply_cap: reply, ..st.endpoints[ep as int] },
        ),
        ..st
    }
}

/// After a place for the reply to a call at an endpoint has been made.
pub open spec fn call_prepared(st: State, ep: usize) -> State {
    set_reply(endpoint_made(st), ep, Some(st.endpoints.len() as usize))
}

proof fn lemma_endpoints(st: State, after: State)
    requires
        st.wf(),
        after == (State { endpoints: after.endpoints, queues: after.queues, ..st }),
        after.queues.len() >= st.queues.len(),
        after.endpoints.len() >= st.endpoints.len(),
        forall|q: int|
            0 <= q < after.queues.len() ==> (#[trigger] after.queues[q]).wf()
                && after.queues[q].below(st.threads.len() as int),
        forall|e: int|
            0 <= e < after.endpoints.len() ==> (#[trigger] after.endpoints[e]).recv_wait_queue
                < after.queues.len() && after.endpoints[e].send_wait_queue < after.queues.len() && (
            after.endpoints[e].reply_cap matches Some(r) ==> r < after.endpoints.len()),
    ensures
        after.wf(),
{
    assert forall|i: int| 0 <= i < after.threads.len() implies #[trigger] after.thread_wf(i) by {
        assert(st.thread_wf(i));
    }
    assert forall|j: int| 0 <= j < after.jobs.len() implies #[trigger] after.job_wf(j) by {
        assert(st.job_wf(j));
        assert forall|i: int| 0 <= i < after.jobs[j].slots.len() implies after.kind_wf(
            (#[trigger] after.jobs[j].slots[i]).cap,
        ) by {
            assert(st.kind_wf(st.jobs[j].slots[i].cap));
        }
    }
    assert forall|t: int, i: int|
        0 <= t < after.blocking.len() && 0 <= i < after.blocking[t].len() implies (
    #[trigger] after.blocking[t][i]) < after.queues.len() by {
        assert(st.blocking[t][i] < st.queues.len());
    }
}

impl Kernel {
    /// Make a queue, and return its number.
    pub(crate) fn make_queue(&mut self) -> (r: usize)
        requires
            old(self)@.wf(),
        ensures
            final(self)@ == (State { queues: old(self)@.queues.push(empty_queue()), ..old(self)@ }),
            final(self)@.wf(),
            r == old(self)@.queues.len(),
    {
        let ghost st = self@;
        let q: usize = self.queues.len();
        let queue = WaitQueue::new(None);
        self.queues.push(queue);
        assert(self@ =~= (State { queues: st.queues.push(empty_queue()), ..st }));
        proof {
            assert(self@.queues[q as int].below(st.threads.len() as int));
            assert forall|i: int| 0 <= i < self@.queues.len() implies (
            #[trigger] self@.queues[i]).wf() && self@.queues[i].below(st.threads.len() as int) by {
                if i < q {
                    assert(self@.queues[i] == st.queues[i]);
                }
            }
            lemma_endpoints(st, self@);
        }
        q
    }

    /// Make an endpoint, and return its number.
    pub(crate) fn make_endpoint(&mut self) -> (r: usize)
        requires
            old(self)@.wf(),
            old(self)@.queues.len() < usize::MAX,
        ensures
            final(self)@ == endpoint_made(old(self)@),
            final(self)@.wf(),
            r == old(self)@.endpoints.len(),
            old(self)@.ordered() ==> final(self)@.ordered(),
    {
        let recv_wait_queue: usize = self.make_queue();
        let send_wait_queue: usize = self.make_queue();
        let ghost st = self@;
        let ep: usize = self.endpoints.len();
        self.endpoints.push(Endpoint { recv_wait_queue, send_wait_queue, reply_cap: None });
        assert(self@ =~= endpoint_made(old(self)@));
        proof {
            assert forall|e: int| 0 <= e < self@.endpoints.len() implies (
            #[trigger] self@.endpoints[e]).recv_wait_queue < self@.queues.len()
                && self@.endpoints[e].send_wait_queue < self@.queues.len() && (
            self@.endpoints[e].reply_cap matches Some(r) ==> r < self@.endpoints.len()) by {
                if e < ep {
                    assert(self@.endpoints[e] == st.endpoints[e]);
                }
            }
            lemma_endpoints(st, self@);
            if old(self)@.ordered() {
                order::lemma_going_on(old(self)@, self@);
            }
        }
        ep
    }

    /// Say where replies to messages at an endpoint go.
    fn set_reply(&mut self, ep: usize, reply: Option<usize>)
        requires
            old(self)@.wf(),
            ep < old(self)@.endpoints.len(),
            reply matches Some(r) ==> r < old(self)@.endpoints.len(),
        ensures
            final(self)@ == set_reply(old(self)@, ep, reply),
            final(self)@.wf(),
            old(self)@.ordered() ==> final(self)@.ordered(),
    {
        let ghost st = self@;
        let mut endpoint = self.endpoints[ep];
        endpoint.reply_cap = reply;
        self.endpoints.set(ep, endpoint);
        proof {
            assert forall|e: int| 0 <= e < self@.endpoints.len() implies (
            #[trigger] self@.endpoints[e]).recv_wait_queue < self@.queues.len()
                && self@.endpoints[e].send_wait_queue < self@.queues.len() && (
            self@.endpoints[e].reply_cap matches Some(r) ==> r < self@.endpoints.len()) by {
                assert(st.endpoints[e].recv_wait_queue < st.queues.len());
            }
            lemma_endpoints(st, self@);
            if st.ordered() {
                order::lemma_going_on(st, self@);
            }
        }
    }
}

/// Calling, from where the message has been taken: the reply is awaited where
/// the endpoint says.
pub open spec fn call_reply_begun(st: State, thread: usize, ep: usize) -> (State, Option<u64>) {
    let reply = st.endpoints[ep as int].reply_cap->0;
    let (begun, message) = recv_begun(st, thread, reply);
    match message {
        Some((hdr, _)) => (set_reply(begun, ep, None), Some(hdr)),
        None => (begun, None),
    }
}

/// Whether the reply to a call can be awaited.
pub open spec fn call_reply_beginnable(st: State, thread: usize, ep: usize) -> bool {
    &&& ep < st.endpoints.len()
    &&& st.endpoints[ep as int].reply_cap is Some
    &&& recv_beginnable(st, thread, st.endpoints[ep as int].reply_cap->0)
}

/// Await the reply to a call.
fn call_reply(k: &mut Kernel, thread: usize, ep: usize) -> (r: Outcome<MessageHeader>)
    requires
        old(k)@.wf(),
        call_reply_beginnable(old(k)@, thread, ep),
    ensures
        ({
            let (begun, message) = call_reply_begun(old(k)@, thread, ep);
            let reply = old(k)@.endpoints[ep as int].reply_cap->0;
            &&& final(k)@ == begun
            &&& match message {
                Some(hdr) => r matches Outcome::Done(Ok(h)) && h@ == hdr,
                None => r == Outcome::<MessageHeader>::Blocked(Pending::CallRecv(ep, reply)),
            }
        }),
        final(k)@.wf(),
        final(k)@.threads.len() == old(k)@.threads.len(),
        in_order(old(k)@, thread) ==> final(k)@.ordered(),
        in_order(old(k)@, thread) && r is Done ==> in_order(final(k)@, thread),
{
    match k.endpoints[ep].reply_cap {
        Some(reply) => match sys_endpoint_recv_inner(k, thread, reply) {
            Some((hdr, _)) => {
                k.set_reply(ep, None);
                Outcome::Done(Ok(hdr))
            },
            None => Outcome::Blocked(Pending::CallRecv(ep, reply)),
        },
        None => Outcome::Done(Err(CapError::InvalidOperation)),
    }
}

/// When [`sys_endpoint_call`] can be called.
pub open spec fn sys_endpoint_call_pre(
    st: State,
    thread: usize,
    endpoint: u64,
    hdr: MessageHeader,
    _cap_slot: u64,
) -> bool {
    &&& st.wf()
    &&& thread < st.threads.len()
    &&& st.queues.len() < usize::MAX
    &&& endpoint_at(st, thread, endpoint) matches Ok((ep, badge)) ==> {
        let prepared = call_prepared(st, ep);
        let (sent, done) = send_begun(prepared, thread, ep, hdr, badge);
        &&& send_beginnable(prepared, thread, ep, hdr, badge)
        &&& done ==> call_reply_beginnable(sent, thread, ep)
    }
}

/// What [`sys_endpoint_call`] does.
pub open spec fn sys_endpoint_call_post(
    st: State,
    thread: usize,
    endpoint: u64,
    hdr: MessageHeader,
    _cap_slot: u64,
    after: State,
    r: Outcome<MessageHeader>,
) -> bool {
    match endpoint_at(st, thread, endpoint) {
        Err(e) => after == st && r == Outcome::<MessageHeader>::Done(Err(e)),
        Ok((ep, badge)) => {
            let (sent, done) = send_begun(
                call_prepared(st, ep),
                thread,
                ep,
                hdr,
                badge,
            );
            let (begun, message) = call_reply_begun(sent, thread, ep);
            if !done {
                &&& after == sent
                &&& r == Outcome::<MessageHeader>::Blocked(Pending::CallSend(ep))
            } else {
                &&& after == begun
                &&& match message {
                    Some(hdr) => r matches Outcome::Done(Ok(h)) && h@ == hdr,
                    None => r == Outcome::<MessageHeader>::Blocked(
                        Pending::CallRecv(ep, sent.endpoints[ep as int].reply_cap->0),
                    ),
                }
            }
        },
    }
}

/// Send a message to the endpoint in a slot, and receive the reply.
pub fn sys_endpoint_call(
    k: &mut Kernel,
    thread: usize,
    endpoint: u64,
    hdr: MessageHeader,
    _cap_slot: u64,
) -> (r: Outcome<MessageHeader>)
    requires
        sys_endpoint_call_pre(old(k)@, thread, endpoint, hdr, _cap_slot),
    ensures
        sys_endpoint_call_post(old(k)@, thread, endpoint, hdr, _cap_slot, final(k)@, r),
        final(k)@.wf(),
        final(k)@.threads.len() >= old(k)@.threads.len(),
        in_order(old(k)@, thread) ==> final(k)@.ordered(),
        in_order(old(k)@, thread) && r is Done ==> in_order(final(k)@, thread),
{
    let (ep, badge) = match k.endpoint_at(thread, endpoint) {
        Ok(found) => found,
        Err(e) => {
            return Outcome::Done(Err(e));
        },
    };
    let reply: usize = k.make_endpoint();
    k.set_reply(ep, Some(reply));
    if !sys_endpoint_send_inner(k, thread, ep, hdr, badge) {
        return Outcome::Blocked(Pending::CallSend(ep));
    }
    call_reply(k, thread, ep)
}

/// Go on with [`sys_endpoint_call`] after the thread has waited for a receiver.
pub fn sys_endpoint_call_sent(k: &mut Kernel, thread: usize, ep: usize) -> (r: Outcome<
    MessageHeader,
>)
    requires
        old(k)@.wf(),
        send_resumable(old(k)@, thread, ep),
        call_reply_beginnable(send_resumed(old(k)@, thread, ep), thread, ep),
    ensures
        ({
            let sent = send_resumed(old(k)@, thread, ep);
            let (begun, message) = call_reply_begun(sent, thread, ep);
            &&& final(k)@ == begun
            &&& match message {
                Some(hdr) => r matches Outcome::Done(Ok(h)) && h@ == hdr,
                None => r == Outcome::<MessageHeader>::Blocked(
                    Pending::CallRecv(ep, sent.endpoints[ep as int].reply_cap->0),
                ),
            }
        }),
        final(k)@.wf(),
        final(k)@.threads.len() == old(k)@.threads.len(),
        in_order(old(k)@, thread) ==> final(k)@.ordered(),
        in_order(old(k)@, thread) && r is Done ==> in_order(final(k)@, thread),
{
    sys_endpoint_send_resume(k, thread, ep);
    call_reply(k, thread, ep)
}

/// Go on with [`sys_endpoint_call`] after the thread has waited for the reply.
pub fn sys_endpoint_call_finish(k: &mut Kernel, thread: usize, ep: usize, reply: usize) -> (r:
    MessageHeader)
    requires
        old(k)@.wf(),
        ep < old(k)@.endpoints.len(),
        recv_resumable(old(k)@, thread, reply),
    ensures
        ({
            let (resumed, (hdr, badge)) = recv_resumed(old(k)@, thread, reply);
            &&& final(k)@ == set_reply(resumed, ep, None)
            &&& r@ == hdr
        }),
        final(k)@.wf(),
        final(k)@.threads.len() == old(k)@.threads.len(),
        in_order(old(k)@, thread) ==> in_order(final(k)@, thread),
{
    let (hdr, _) = sys_endpoint_recv_resume(k, thread, reply);
    k.set_reply(ep, None);
    hdr
}

/// A message that is sent to an endpoint where a receiver waits arrives: the
/// receiver can run, finds the header and the badge when it does, and has in its
/// registers the words of a message of up to four.
pub proof fn law_message_arrives(
    st: State,
    thread: usize,
    ep: usize,
    hdr: MessageHeader,
    badge: u64,
    receiver: usize,
)
    requires
        st.wf(),
        send_beginnable(st, thread, ep, hdr, badge),
        st.queues[recv_queue(st, ep) as int].next() == Some(receiver),
        receiver != thread,
    ensures
        ({
            let (after, done) = send_begun(st, thread, ep, hdr, badge);
            let sent = st.threads[thread as int].trapframe.frame;
            let got = after.threads[receiver as int].trapframe.frame;
            let len = ipc::message_len(hdr@);
            &&& done
            &&& after.state(receiver) is Runnable
            &&& after.blocked_on(receiver) is None
            &&& recv_resumed(after, receiver, ep).1 == (hdr@, badge)
            &&& 1 <= len <= 4 ==> got.a4 == sent.a4
            &&& 2 <= len <= 4 ==> got.a5 == sent.a5
            &&& 3 <= len <= 4 ==> got.a6 == sent.a6
            &&& len == 4 ==> got.a7 == sent.a7
        }),
{
    let q = recv_queue(st, ep);
    ipc::lemma_popped(st.queues[q as int], st.threads.len() as int);
    state::lemma_set_queue(st, q, st.queues[q as int].popped());
    let popped = ipc::unqueued(st, q);
    let marked = set_fastpath(
        popped,
        receiver,
        Some((hdr, badge)),
        popped.threads[receiver as int].private.recv_fastpath,
    );
    assert(popped.thread_wf(receiver as int));
    state::lemma_set_thread(popped, receiver, marked.threads[receiver as int]);
    ipc::lemma_transferred(marked, receiver, thread);
    let moved = ipc::transferred(marked, receiver, thread);
    assert(moved.threads[receiver as int].private == marked.threads[receiver as int].private);
    assert(moved.threads[thread as int].trapframe == marked.threads[thread as int].trapframe);
    let handed = handed_over(popped, receiver, thread, hdr, badge);
    assert(handed.threads[receiver as int].private == marked.threads[receiver as int].private);
}

/// What memory holds when a message is copied to a receiver that waits: the
/// capability that the message carries, if it does, has been received.
pub open spec fn memory_at_copy(
    st: State,
    thread: usize,
    ep: usize,
    hdr: MessageHeader,
    badge: u64,
    receiver: usize,
) -> Mem {
    let popped = ipc::unqueued(st, recv_queue(st, ep));
    let marked = set_fastpath(
        popped,
        receiver,
        Some((hdr, badge)),
        popped.threads[receiver as int].private.recv_fastpath,
    );
    ipc::transferred(marked, receiver, thread).mem
}

/// A long message arrives, too: of a message of more than four words, each word of
/// the buffer of the sender is in the buffer of the receiver. Where the sender
/// sends no capability, those are the words that the buffer held when the message
/// was sent.
pub proof fn law_long_message_arrives(
    st: State,
    thread: usize,
    ep: usize,
    hdr: MessageHeader,
    badge: u64,
    receiver: usize,
    w: int,
)
    requires
        st.wf(),
        send_beginnable(st, thread, ep, hdr, badge),
        st.queues[recv_queue(st, ep) as int].next() == Some(receiver),
        receiver != thread,
        st.threads[thread as int].private.ipc_buffer is Some,
        st.threads[receiver as int].private.ipc_buffer is Some,
        st.threads[thread as int].private.ipc_buffer
            != st.threads[receiver as int].private.ipc_buffer,
        4 < ipc::message_len(hdr@),
        0 <= w < ipc::message_len(hdr@),
    ensures
        ({
            let (after, done) = send_begun(st, thread, ep, hdr, badge);
            let from = st.threads[thread as int].private.ipc_buffer->0.phys as int / 4096;
            let to = st.threads[receiver as int].private.ipc_buffer->0.phys as int / 4096;
            let mem = memory_at_copy(st, thread, ep, hdr, badge, receiver);
            &&& done
            &&& after.state(receiver) is Runnable
            &&& recv_resumed(after, receiver, ep).1 == (hdr@, badge)
            &&& after.mem.at(to, w) == mem.at(from, w)
            &&& st.threads[thread as int].trapframe.frame.a3 == 0 ==> mem == st.mem
        }),
{
    law_message_arrives(st, thread, ep, hdr, badge, receiver);
    let q = recv_queue(st, ep);
    ipc::lemma_popped(st.queues[q as int], st.threads.len() as int);
    state::lemma_set_queue(st, q, st.queues[q as int].popped());
    let popped = ipc::unqueued(st, q);
    let marked = set_fastpath(
        popped,
        receiver,
        Some((hdr, badge)),
        popped.threads[receiver as int].private.recv_fastpath,
    );
    assert(popped.thread_wf(receiver as int));
    state::lemma_set_thread(popped, receiver, marked.threads[receiver as int]);
    ipc::lemma_transferred(marked, receiver, thread);
    let moved = ipc::transferred(marked, receiver, thread);
    assert(moved.threads[receiver as int].private == marked.threads[receiver as int].private);
    assert(moved.threads[thread as int].private == marked.threads[thread as int].private);
    let handed = handed_over(popped, receiver, thread, hdr, badge);
    assert(handed.mem == send_begun(st, thread, ep, hdr, badge).0.mem);
}

/// A message of a sender that waits at an endpoint is taken: the receiver gets
/// its header and the badge of the slot through which it was sent, and the sender
/// can run.
pub proof fn law_waiting_message_is_taken(st: State, thread: usize, ep: usize, sender: usize)
    requires
        st.wf(),
        recv_beginnable(st, thread, ep),
        st.queues[send_queue(st, ep) as int].next() == Some(sender),
        st.blocked_on(thread) is None,
    ensures
        ({
            let frame = st.threads[sender as int].trapframe.frame;
            recv_begun(st, thread, ep).1 == Some(
                (
                    frame.a2,
                    crate::capability::badge_bits(st.slots(sender)[frame.a1 as int].badge),
                ),
            )
        }),
{
    let q = send_queue(st, ep);
    ipc::lemma_popped(st.queues[q as int], st.threads.len() as int);
    let popped = ipc::unqueued(st, q);
    let held = ipc::recv_held(popped, thread, sender, ep);
    assert(held.threads[sender as int].trapframe == st.threads[sender as int].trapframe);
    assert(held.threads[sender as int].job == st.threads[sender as int].job);
}

/// Of a message whose sender waited, what the receiver has once it has taken it: of up to
/// four words, those of the sender's registers from `a4` on, and of more, those of the
/// sender's buffer. The buffer of the sender is as it was, but where the captr of a
/// capability that was sent along has been written.
pub open spec fn has_taken(st: State, after: State, thread: usize, sender: usize) -> bool {
    let tx = st.threads[sender as int];
    let rx = st.threads[thread as int];
    let sent = tx.trapframe.frame;
    let got = after.threads[thread as int].trapframe.frame;
    // The words of a message are one more than the low nine bits of its header say.
    let words = sent.a2 as int % 512 + 1;
    &&& words <= 4 ==> {
        &&& got.a4 == sent.a4
        &&& got.a5 == if words >= 2 {
            sent.a5
        } else {
            rx.trapframe.frame.a5
        }
        &&& got.a6 == if words >= 3 {
            sent.a6
        } else {
            rx.trapframe.frame.a6
        }
        &&& got.a7 == if words >= 4 {
            sent.a7
        } else {
            rx.trapframe.frame.a7
        }
    }
    &&& words > 4 ==> (rx.private.ipc_buffer matches Some(into) ==> (
    tx.private.ipc_buffer matches Some(from) ==> forall|w: int|
        0 <= w < words ==> #[trigger] after.mem.at(into.phys as int / 4096, w) == after.mem.at(
            from.phys as int / 4096,
            w,
        )))
    &&& tx.private.ipc_buffer matches Some(from) ==> (rx.private.ipc_buffer != Some(from)
        || words <= 4) && (sent.a3 == 0 || rx.trapframe.frame.a3 == 0) ==> forall|w: int|
        0 <= w < 512 ==> #[trigger] after.mem.at(from.phys as int / 4096, w) == st.mem.at(
            from.phys as int / 4096,
            w,
        )
}

/// A message whose sender waits arrives, whether the receiver takes it when it comes or
/// has waited, too: all its words do, in registers or in the buffer.
#[verifier::spinoff_prover]
#[verifier::rlimit(40)]
pub proof fn law_waiting_message_arrives(st: State, thread: usize, ep: usize, sender: usize)
    requires
        st.wf(),
        st.queues[send_queue(st, ep) as int].next() == Some(sender),
        st.blocked_on(thread) is None,
    ensures
        recv_beginnable(st, thread, ep) ==> has_taken(
            st,
            recv_begun(st, thread, ep).0,
            thread,
            sender,
        ),
        recv_resumable(st, thread, ep) && st.threads[thread as int].private.send_fastpath is None
            ==> has_taken(st, recv_resumed(st, thread, ep).0, thread, sender),
{
    let q = send_queue(st, ep);
    let popped = ipc::unqueued(st, q);
    if recv_beginnable(st, thread, ep) || (recv_resumable(st, thread, ep) && st.threads[
        thread as int
    ].private.send_fastpath is None) {
        ipc::lemma_popped(st.queues[q as int], st.threads.len() as int);
        state::lemma_set_queue(st, q, st.queues[q as int].popped());
        lemma_taken(popped, thread, sender, ep);
        let done = ipc::recv_done(popped, thread, sender, ep);
        assert(has_taken(popped, done, thread, sender));
        assert(has_taken(st, done, thread, sender));
        let begun = set_fastpath(
            done,
            sender,
            done.threads[sender as int].private.send_fastpath,
            true,
        );
        assert(begun.threads[thread as int].trapframe == done.threads[thread as int].trapframe);
        assert(has_taken(st, begun, thread, sender));
    }
}

/// The sender of a message that was taken can run, and knows that it was.
#[verifier::spinoff_prover]
#[verifier::rlimit(40)]
pub proof fn lemma_sender_runs(st: State, thread: usize, ep: usize, sender: usize)
    requires
        st.wf(),
        recv_beginnable(st, thread, ep),
        st.queues[send_queue(st, ep) as int].next() == Some(sender),
        st.blocked_on(thread) is None,
        sender != thread,
    ensures
        ({
            let after = recv_begun(st, thread, ep).0;
            &&& after.threads.len() == st.threads.len()
            &&& after.state(sender) is Runnable
            &&& after.blocked_on(sender) is None
            &&& after.threads[sender as int].private.recv_fastpath
            &&& after.mem.same_extent(st.mem)
        }),
{
    let q = send_queue(st, ep);
    ipc::lemma_popped(st.queues[q as int], st.threads.len() as int);
    let popped = ipc::unqueued(st, q);
    let held = ipc::recv_held(popped, thread, sender, ep);
    ipc::lemma_moved_threads(held, thread, sender);
    let copied = ipc::recv_copied(popped, thread, sender, ep);
    assert(copied.threads[sender as int].blocked_on_wq is None);
    assert(copied.threads[thread as int].blocked_on_wq == held.threads[thread as int].blocked_on_wq);
}

/// What a receiver has that takes the message of a sender.
#[verifier::spinoff_prover]
#[verifier::rlimit(40)]
proof fn lemma_taken(st: State, thread: usize, sender: usize, ep: usize)
    requires
        st.wf(),
        ipc::receivable(st, thread, sender, ep),
        st.blocked_on(thread) is None,
    ensures
        has_taken(st, ipc::recv_done(st, thread, sender, ep), thread, sender),
        ipc::recv_done(st, thread, sender, ep).threads.len() == st.threads.len(),
{
    let held = ipc::recv_held(st, thread, sender, ep);
    let moved = ipc::transferred(held, thread, sender);
    let copied = ipc::recv_copied(st, thread, sender, ep);
    let woken = ipc::recv_woken(st, thread, sender, ep);
    let done = ipc::recv_done(st, thread, sender, ep);
    assert(held.mem == st.mem);
    assert(held.threads[sender as int].trapframe == st.threads[sender as int].trapframe);
    assert(held.threads[thread as int].trapframe == st.threads[thread as int].trapframe);
    ipc::lemma_moved_threads(held, thread, sender);
    assert(copied.threads[sender as int].blocked_on_wq is None);
    assert(done.mem == copied.mem);
    assert(done.threads[thread as int].trapframe == copied.threads[thread as int].trapframe);
    let sent = st.threads[sender as int].trapframe.frame;
    let words = sent.a2 as int % 512 + 1;
    assert(ipc::message_len(sent.a2) == words);
    if sent.a3 == 0 || st.threads[thread as int].trapframe.frame.a3 == 0 {
        assert(moved == held);
    }
    ipc::lemma_delivered(moved, thread, sender, words);
}

/// Once a place for the reply to a call has been made, all that is referred to exists.
pub proof fn lemma_call_prepared(st: State, ep: usize)
    requires
        st.wf(),
        ep < st.endpoints.len(),
        st.queues.len() < usize::MAX,
        st.endpoints.len() < usize::MAX,
    ensures
        call_prepared(st, ep).wf(),
{
    let after = call_prepared(st, ep);
    let n = st.endpoints.len() as int;
    assert forall|q: int| 0 <= q < after.queues.len() implies (#[trigger] after.queues[q]).wf()
        && after.queues[q].below(st.threads.len() as int) by {
        if q < st.queues.len() {
            assert(after.queues[q] == st.queues[q]);
        }
    }
    assert forall|e: int| 0 <= e < after.endpoints.len() implies (
    #[trigger] after.endpoints[e]).recv_wait_queue < after.queues.len()
        && after.endpoints[e].send_wait_queue < after.queues.len() && (
    after.endpoints[e].reply_cap matches Some(r) ==> r < after.endpoints.len()) by {
        if e < n {
            assert(st.endpoints[e].recv_wait_queue < st.queues.len());
        }
    }
    lemma_endpoints(st, after);
}

/// A queue that has just been made hands nobody out.
pub proof fn law_new_queue_is_empty(n: int)
    requires
        0 <= n <= 256,
    ensures
        empty_queue().owner is None,
        empty_queue().next() is None,
        wait_queue::waiting_class(empty_queue().classes, n) is None,
    decreases n,
{
    if n > 0 {
        law_new_queue_is_empty(n - 1);
    }
    if n < 256 {
        lemma_nobody(256);
    }
}

proof fn lemma_nobody(n: int)
    requires
        0 <= n <= 256,
    ensures
        wait_queue::waiting_class(empty_queue().classes, n) is None,
    decreases n,
{
    if n > 0 {
        lemma_nobody(n - 1);
    }
}

/// Nobody can reply where nobody called: a reply is refused where no call waits
/// for one, and is not once a call has been prepared.
pub proof fn law_reply_needs_call(st: State, t: usize, index: u64, ep: usize, badge: u64)
    requires
        st.wf(),
        t < st.threads.len(),
        endpoint_at(st, t, index) == Ok::<(usize, u64), CapError>((ep, badge)),
    ensures
        st.endpoints[ep as int].reply_cap is None ==> reply_at(st, t, index) == Err::<
            (usize, u64),
            CapError,
        >(CapError::InvalidOperation),
        reply_at(call_prepared(st, ep), t, index) == Ok::<(usize, u64), CapError>(
            (st.endpoints.len() as usize, badge),
        ),
{
    assert(st.thread_wf(t as int));
    let job = st.threads[t as int].job;
    assert(st.job_wf(job as int));
    assert(st.kind_wf(st.jobs[job as int].slots[index as int].cap));
}

} // verus!
