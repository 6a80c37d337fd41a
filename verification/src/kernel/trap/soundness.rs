//! What keeps the kernel sound.

use vstd::prelude::*;

use super::dispatch;
use super::dispatch::{Handled, IntoTrapframe};
use super::endpoints;
use super::endpoints::Pending;
use super::interrupts;
use super::interrupts::InterruptKind;
use super::signals;
use super::syscalls;
use super::thread_calls;
use crate::capability::CapResult;
use crate::kernel::boot::{idle, window};
use crate::kernel::capability::thread::{Thread, ThreadPriorities, ThreadState};
use crate::kernel::capability::wait_queue;
use crate::kernel::capability::wait_queue::Queue;
use crate::kernel::capability::{CapabilityKind, CapabilitySlotInner};
use crate::kernel::dispatch as scheduling;
use crate::kernel::ipc;
use crate::kernel::slots;
use crate::kernel::state::State;
use crate::kernel::threads;
use crate::syscalls::SyscallNumber;

verus! {

/// Whether a thread does what it did, at the same priority and with the same page
/// table.
pub open spec fn undisturbed(a: Thread, b: Thread) -> bool {
    &&& b.private.prio == a.private.prio
    &&& b.private.state == a.private.state
    &&& b.private.hartid == a.private.hartid
    &&& b.private.root_pgtbl == a.private.root_pgtbl
    &&& b.blocked_on_wq == a.blocked_on_wq
}

/// Whether no thread was disturbed on the way from one state to another, and nobody
/// began or ceased to wait.
pub open spec fn calm(a: State, b: State) -> bool {
    &&& b.threads.len() == a.threads.len()
    &&& forall|t: int|
        0 <= t < a.threads.len() ==> undisturbed(a.threads[t], #[trigger] b.threads[t])
    &&& a.queues.len() <= b.queues.len()
    &&& forall|q: int| 0 <= q < a.queues.len() ==> #[trigger] b.queues[q] == a.queues[q]
    &&& forall|q: int|
        a.queues.len() <= q < b.queues.len() ==> #[trigger] b.queues[q] == endpoints::empty_queue()
    &&& b.sched.like(a.sched)
}

/// Whether the kernel is in order, and the page tables are trees if they were.
pub open spec fn kept(a: State, b: State) -> bool {
    b.ordered() && (a.trees() ==> b.trees())
}

/// Whether the slots of a state, if they were sound, are those of another one, but for
/// some that are sound.
pub open spec fn slots_kept(a: State, b: State) -> bool {
    a.trees() ==> forall|j: int, i: int|
        0 <= j < b.jobs.len() && 0 <= i < b.jobs[j].slots.len() ==> b.slot_sound(
            (#[trigger] b.jobs[j].slots[i]).cap,
        ) || (j < a.jobs.len() && i < a.jobs[j].slots.len() && a.jobs[j].slots[i].cap
            == b.jobs[j].slots[i].cap)
}

/// A page table stays a tree while memory is only handed out.
proof fn lemma_tree_stays(a: State, b: State, root: int)
    requires
        a.is_tree(root),
        idle::extends(a.mem, b.mem),
    ensures
        b.is_tree(root),
{
    window::lemma_tree_before(b.mem, a.mem, root);
}

/// What disturbs no thread, writes to no page table and makes sound slots keeps the
/// kernel sound.
proof fn lemma_calm(a: State, b: State)
    requires
        a.ordered(),
        b.wf(),
        calm(a, b),
        idle::extends(a.mem, b.mem),
        slots_kept(a, b),
    ensures
        kept(a, b),
{
    assert forall|t: int| 0 <= t < b.threads.len() implies #[trigger] b.tame(t) by {
        assert(a.tame(t));
        assert(undisturbed(a.threads[t], b.threads[t]));
    }
    assert forall|t: int| 0 <= t < b.threads.len() implies #[trigger] b.waits(t) by {
        assert(a.waits(t));
        assert(a.thread_wf(t));
        assert(undisturbed(a.threads[t], b.threads[t]));
    }
    assert forall|q: int| 0 <= q < b.queues.len() implies #[trigger] b.queue_tame(q) by {
        if q < a.queues.len() {
            assert(a.queue_tame(q));
            assert(b.queues[q] == a.queues[q]);
            assert(a.queues[q].below(a.threads.len() as int));
            if let Some(t) = a.queues[q].owner {
                assert(undisturbed(a.threads[t as int], b.threads[t as int]));
            }
        } else {
            assert(b.queues[q] == endpoints::empty_queue());
        }
    }
    if a.trees() {
        assert forall|t: int| 0 <= t < b.threads.len() implies ((
        #[trigger] b.threads[t]).private.root_pgtbl matches Some(table) ==> b.is_tree(
            table.root as int,
        )) by {
            assert(undisturbed(a.threads[t], b.threads[t]));
            if let Some(table) = a.threads[t].private.root_pgtbl {
                lemma_tree_stays(a, b, table.root as int);
            }
        }
    }
    if a.trees() {
        assert forall|j: int, i: int|
            0 <= j < b.jobs.len() && 0 <= i < b.jobs[j].slots.len() implies b.slot_sound(
            (#[trigger] b.jobs[j].slots[i]).cap,
        ) by {
            if !b.slot_sound(b.jobs[j].slots[i].cap) {
                assert(a.slot_sound(a.jobs[j].slots[i].cap));
                if let CapabilityKind::PgTbl(table) = a.jobs[j].slots[i].cap {
                    lemma_tree_stays(a, b, table.root as int);
                }
            }
        }
    }
}

/// When a hart looks for a thread to run, the page tables stay trees, and the links
/// between threads stay as they are; a thread that it finds does not wait.
pub proof fn lemma_scheduling(st: State)
    requires
        st.ordered(),
    ensures
        scheduling::scheduled(st).0.linked(),
        scheduling::scheduled(st).0.owners_fit(),
        st.trees() ==> scheduling::scheduled(st).0.trees(),
        scheduling::scheduled(st).1 matches scheduling::Decision::Run(t)
            ==> scheduling::scheduled(st).0.blocked_on(t) is None,
{
    let (after, decision) = scheduling::scheduled(st);
    scheduling::law_scheduled_thread_runs(st);
    if let scheduling::Decision::Run(t) = decision {
        assert(st.waits(t as int));
    }
    assert(after.mem == st.mem && after.queues == st.queues && after.jobs == st.jobs);
    assert(after.sched.queues.dom() =~= st.sched.queues.dom());
    assert forall|t: int| 0 <= t < after.threads.len() implies #[trigger] after.tame(t) by {
        assert(st.tame(t));
    }
    assert forall|t: int| 0 <= t < after.threads.len() implies #[trigger] after.waits(t) by {
        assert(st.waits(t));
    }
    assert forall|q: int| 0 <= q < after.queues.len() implies #[trigger] after.queue_tame(q) by {
        assert(st.queue_tame(q));
        assert(st.queues[q].below(st.threads.len() as int));
    }
    if st.trees() {
        assert forall|t: int| 0 <= t < after.threads.len() implies ((
        #[trigger] after.threads[t]).private.root_pgtbl matches Some(table) ==> after.is_tree(
            table.root as int,
        )) by {
            assert(st.threads[t].private.root_pgtbl == after.threads[t].private.root_pgtbl);
        }
    }
    if st.trees() {
        assert forall|j: int, i: int|
            0 <= j < after.jobs.len() && 0 <= i < after.jobs[j].slots.len() implies after.slot_sound(
            (#[trigger] after.jobs[j].slots[i]).cap,
        ) by {
            assert(st.slot_sound(st.jobs[j].slots[i].cap));
        }
    }
}

// ---- system calls that disturb no thread ----

/// Whether no thread was disturbed on the way from one state to another, no page table
/// was written to, and the slots are sound.
pub open spec fn still(a: State, b: State) -> bool {
    &&& calm(a, b)
    &&& idle::extends(a.mem, b.mem)
    &&& slots_kept(a, b)
}

/// What an operation leaves that disturbed nothing is sound, once the answer is in the
/// registers of the thread.
proof fn lemma_answered(a: State, mid: State, thread: usize, after: State)
    requires
        a.ordered(),
        thread < a.threads.len(),
        still(a, mid),
        after == threads::set_frame(mid, thread, after.threads[thread as int].trapframe.frame),
        after.wf(),
    ensures
        kept(a, after),
        after.blocked_on(thread) == a.blocked_on(thread),
{
    assert(undisturbed(a.threads[thread as int], mid.threads[thread as int]));
    assert forall|t: int| 0 <= t < a.threads.len() implies undisturbed(
        a.threads[t],
        #[trigger] after.threads[t],
    ) by {
        assert(undisturbed(a.threads[t], mid.threads[t]));
    }
    assert(after.jobs == mid.jobs && after.mem == mid.mem);
    if a.trees() {
        assert forall|j: int, i: int|
            0 <= j < after.jobs.len() && 0 <= i < after.jobs[j].slots.len() implies after.slot_sound(
            (#[trigger] after.jobs[j].slots[i]).cap,
        ) || (j < a.jobs.len() && i < a.jobs[j].slots.len() && a.jobs[j].slots[i].cap
            == after.jobs[j].slots[i].cap) by {
            assert(mid.jobs[j].slots[i] == after.jobs[j].slots[i]);
        }
    }
    lemma_calm(a, after);
}

/// To do nothing disturbs nothing.
proof fn lemma_nothing(a: State)
    requires
        a.wf(),
    ensures
        still(a, a),
{
}

/// To fill a slot with what is sound disturbs nothing.
proof fn lemma_filled(a: State, made: State, job: usize, captr: int, slot: CapabilitySlotInner)
    requires
        still(a, made),
        job < made.jobs.len(),
        0 <= captr < made.jobs[job as int].slots.len(),
        a.trees() ==> made.slot_sound(slot.cap),
        slot.cap matches CapabilityKind::Thread(t) ==> t < made.threads.len(),
    ensures
        still(a, slots::filled(made, job, captr, slot)),
{
    let f = slots::filled(made, job, captr, slot);
    assert forall|t: int| 0 <= t < a.threads.len() implies undisturbed(
        a.threads[t],
        #[trigger] f.threads[t],
    ) by {
        assert(undisturbed(a.threads[t], made.threads[t]));
    }
    if a.trees() {
        assert forall|j: int, i: int|
            0 <= j < f.jobs.len() && 0 <= i < f.jobs[j].slots.len() implies f.slot_sound(
            (#[trigger] f.jobs[j].slots[i]).cap,
        ) || (j < a.jobs.len() && i < a.jobs[j].slots.len() && a.jobs[j].slots[i].cap
            == f.jobs[j].slots[i].cap) by {
            if !(j == job && i == captr) {
                assert(made.jobs[j].slots[i] == f.jobs[j].slots[i]);
            }
        }
    }
}

/// To put what has been made into the next slot of a thread disturbs nothing.
proof fn lemma_created(a: State, thread: usize, made: State, cap: CapabilityKind, after: State)
    requires
        a.wf(),
        thread < a.threads.len(),
        still(a, made),
        made.threads == a.threads,
        forall|j: int| 0 <= j < a.jobs.len() ==> #[trigger] made.jobs[j] == a.jobs[j],
        made.jobs.len() >= a.jobs.len(),
        a.trees() ==> made.slot_sound(cap),
        !(cap is Thread),
        after == syscalls::created(a, thread, made, cap).0,
    ensures
        still(a, after),
{
    assert(a.thread_wf(thread as int));
    let job = a.threads[thread as int].job;
    let captr = crate::kernel::capability::captbl::next_slot(a.slots(thread));
    if captr < a.slots(thread).len() {
        assert(made.jobs[job as int] == a.jobs[job as int]);
        assert(a.job_wf(job as int));
        crate::kernel::capability::captbl::law_next_slot(a.slots(thread), 1);
        lemma_filled(a, made, job, captr, CapabilitySlotInner::holding(cap));
    } else {
        lemma_nothing(a);
    }
}

/// The system calls that disturb no thread, and write to no page table.
pub open spec fn is_calm(call: SyscallNumber) -> bool {
    match call {
        SyscallNumber::PageMap
        | SyscallNumber::ThreadSuspend
        | SyscallNumber::ThreadResume
        | SyscallNumber::ThreadStart
        | SyscallNumber::ThreadConfigure
        | SyscallNumber::ThreadSetPriority
        | SyscallNumber::JobCreateThread
        | SyscallNumber::NotificationSignal
        | SyscallNumber::NotificationWait
        | SyscallNumber::EndpointRecv
        | SyscallNumber::EndpointSend
        | SyscallNumber::EndpointReply
        | SyscallNumber::EndpointCall
        | SyscallNumber::Yield => false,
        _ => true,
    }
}

/// To delete a capability disturbs nothing.
proof fn lemma_delete(st: State, thread: usize, index: u64, mid: State, r: CapResult<()>)
    requires
        st.wf(),
        thread < st.threads.len(),
        syscalls::sys_delete_post(st, thread, index, mid, r),
    ensures
        still(st, mid),
{
    assert(st.thread_wf(thread as int));
    let job = st.threads[thread as int].job;
    assert(st.job_wf(job as int));
    if mid == slots::emptied(st, job, index as int) && 0 <= index < st.slots(thread).len() {
        assert(st.kind_wf(st.jobs[job as int].slots[index as int].cap));
        assert forall|t: int| 0 <= t < st.threads.len() implies undisturbed(
            st.threads[t],
            #[trigger] mid.threads[t],
        ) by {}
        if st.trees() {
            assert forall|j: int, i: int|
                0 <= j < mid.jobs.len() && 0 <= i < mid.jobs[j].slots.len() implies mid.slot_sound(
                (#[trigger] mid.jobs[j].slots[i]).cap,
            ) || (j < st.jobs.len() && i < st.jobs[j].slots.len() && st.jobs[j].slots[i].cap
                == mid.jobs[j].slots[i].cap) by {}
        }
    }
}

/// To grant a capability disturbs nothing.
proof fn lemma_grant(
    st: State,
    thread: usize,
    from: u64,
    rights: crate::capability::CapRights,
    badge: u64,
    mid: State,
    r: CapResult<u64>,
)
    requires
        st.ordered(),
        thread < st.threads.len(),
        syscalls::sys_grant_post(st, thread, from, rights, badge, mid, r),
    ensures
        still(st, mid),
{
    assert(st.thread_wf(thread as int));
    let job = st.threads[thread as int].job;
    assert(st.job_wf(job as int));
    crate::kernel::capability::captbl::law_next_slot(st.slots(thread), 1);
    lemma_nothing(st);
    if mid != st {
        let slot = slots::limited(
            st.slots(thread)[from as int].cap,
            crate::kernel::capability::badge_of(badge),
            rights,
        );
        assert(st.kind_wf(st.jobs[job as int].slots[from as int].cap));
        assert(st.trees() ==> st.slot_sound(st.jobs[job as int].slots[from as int].cap));
        lemma_filled(
            st,
            st,
            job,
            crate::kernel::capability::captbl::next_slot(st.slots(thread)),
            slot,
        );
    }
}

/// To make a notification, an endpoint or a job disturbs nothing.
proof fn lemma_made(st: State, thread: usize, parent: Option<usize>)
    requires
        st.wf(),
        thread < st.threads.len(),
    ensures
        still(st, syscalls::notification_made(st)),
        still(st, endpoints::endpoint_made(st)),
        still(st, syscalls::job_made(st, parent)),
{
    lemma_nothing(st);
    let j = syscalls::job_made(st, parent);
    if st.trees() {
        assert forall|k: int, i: int|
            0 <= k < j.jobs.len() && 0 <= i < j.jobs[k].slots.len() implies j.slot_sound(
            (#[trigger] j.jobs[k].slots[i]).cap,
        ) || (k < st.jobs.len() && i < st.jobs[k].slots.len() && st.jobs[k].slots[i].cap
            == j.jobs[k].slots[i].cap) by {}
    }
}

/// To hand out memory disturbs nothing.
proof fn lemma_handed_out(st: State, n: int)
    requires
        st.wf(),
        0 <= n <= st.mem.available(),
    ensures
        still(st, (State { mem: st.mem.grow_by(n), ..st })),
        n == 1 ==> st.mem.grow_by(1) == st.mem.grow(),
{
    let b = State { mem: st.mem.grow_by(n), ..st };
    window::lemma_from_grow(st.mem, st.mem.next(), n);
    assert(b.mem.frames() == st.mem.frames() + n);
    if st.trees() {
        assert forall|j: int, i: int|
            0 <= j < b.jobs.len() && 0 <= i < b.jobs[j].slots.len() implies b.slot_sound(
            (#[trigger] b.jobs[j].slots[i]).cap,
        ) || (j < st.jobs.len() && i < st.jobs[j].slots.len() && st.jobs[j].slots[i].cap
            == b.jobs[j].slots[i].cap) by {}
    }
}

/// A system call that disturbs no thread keeps the kernel sound.
pub proof fn law_calm_calls_keep_soundness(st: State, thread: usize, after: State, h: Handled)
    requires
        st.ordered(),
        dispatch::syscall_pre(st, thread),
        is_calm(SyscallNumber::of_number(st.threads[thread as int].trapframe.frame.a0)),
        dispatch::syscall_post(st, thread, after, h),
        after.wf(),
    ensures
        kept(st, after),
        after.blocked_on(thread) == st.blocked_on(thread),
{
    let frame = st.threads[thread as int].trapframe.frame;
    lemma_nothing(st);
    match SyscallNumber::of_number(frame.a0) {
        SyscallNumber::CaptrDelete => {
            let (mid, r) = choose|mid: State, r: CapResult<()>|
                #![trigger syscalls::sys_delete_post(st, thread, frame.a1, mid, r)]
                syscalls::sys_delete_post(st, thread, frame.a1, mid, r) && dispatch::plain(
                    mid,
                    thread,
                    r.registers(),
                    after,
                    h,
                ) && h.also is Nothing;
            lemma_delete(st, thread, frame.a1, mid, r);
            lemma_answered(st, mid, thread, after);
        },
        SyscallNumber::CaptrGrant => {
            let rights = dispatch::user_rights(frame.a2);
            let (mid, r) = choose|mid: State, r: CapResult<u64>|
                #![trigger syscalls::sys_grant_post(st, thread, frame.a1, rights, frame.a3, mid, r)]
                syscalls::sys_grant_post(st, thread, frame.a1, rights, frame.a3, mid, r)
                    && dispatch::plain(mid, thread, r.registers(), after, h) && h.also is Nothing;
            lemma_grant(st, thread, frame.a1, rights, frame.a3, mid, r);
            lemma_answered(st, mid, thread, after);
        },
        SyscallNumber::NotificationCreate => {
            let (mid, r) = choose|mid: State, r: CapResult<u64>|
                #![trigger syscalls::sys_notification_create_post(st, thread, mid, r)]
                syscalls::sys_notification_create_post(st, thread, mid, r) && dispatch::plain(
                    mid,
                    thread,
                    r.registers(),
                    after,
                    h,
                ) && h.also is Nothing;
            lemma_made(st, thread, None);
            lemma_created(
                st,
                thread,
                syscalls::notification_made(st),
                CapabilityKind::Notification(st.notifications.len() as usize),
                mid,
            );
            lemma_answered(st, mid, thread, after);
        },
        SyscallNumber::EndpointCreate => {
            let (mid, r) = choose|mid: State, r: CapResult<u64>|
                #![trigger syscalls::sys_endpoint_create_post(st, thread, mid, r)]
                syscalls::sys_endpoint_create_post(st, thread, mid, r) && dispatch::plain(
                    mid,
                    thread,
                    r.registers(),
                    after,
                    h,
                ) && h.also is Nothing;
            lemma_made(st, thread, None);
            lemma_created(
                st,
                thread,
                endpoints::endpoint_made(st),
                CapabilityKind::Endpoint(st.endpoints.len() as usize),
                mid,
            );
            lemma_answered(st, mid, thread, after);
        },
        SyscallNumber::JobCreate => {
            let (mid, r) = choose|mid: State, r: CapResult<u64>|
                #![trigger syscalls::sys_job_create_post(st, thread, frame.a1, mid, r)]
                syscalls::sys_job_create_post(st, thread, frame.a1, mid, r) && dispatch::plain(
                    mid,
                    thread,
                    r.registers(),
                    after,
                    h,
                ) && h.also is Nothing;
            if let Ok(p) = syscalls::job_at(st, thread, frame.a1) {
                lemma_made(st, thread, Some(p));
                if mid != st {
                    lemma_created(
                        st,
                        thread,
                        syscalls::job_made(st, Some(p)),
                        CapabilityKind::Job(st.jobs.len() as usize),
                        mid,
                    );
                }
            }
            lemma_answered(st, mid, thread, after);
        },
        _ => {
            lemma_other_calm_calls(st, thread, after, h);
        },
    }
}

/// A page table that has just been made is a tree.
proof fn lemma_new_table(st: State)
    requires
        st.wf(),
        st.mem.available() > 0,
    ensures
        (State { mem: st.mem.grow(), ..st }).is_tree(st.mem.next()),
{
    let m = st.mem.grow();
    let root = st.mem.next();
    assert(m.frames() == st.mem.frames() + 1);
    assert forall|i: int| 0 <= i < 512 implies #[trigger] m.at(root, i) == 0 by {}
    crate::kernel::boot::process::lemma_empty_table(m, root);
}

/// The rest of the system calls that disturb no thread keep the kernel sound.
#[verifier::spinoff_prover]
#[verifier::rlimit(60)]
proof fn lemma_other_calm_calls(st: State, thread: usize, after: State, h: Handled)
    requires
        st.ordered(),
        dispatch::syscall_pre(st, thread),
        is_calm(SyscallNumber::of_number(st.threads[thread as int].trapframe.frame.a0)),
        ({
            let call = SyscallNumber::of_number(st.threads[thread as int].trapframe.frame.a0);
            !(call is CaptrDelete) && !(call is CaptrGrant) && !(call is NotificationCreate) && !(
            call is EndpointCreate) && !(call is JobCreate)
        }),
        dispatch::syscall_post(st, thread, after, h),
        after.wf(),
    ensures
        kept(st, after),
        after.blocked_on(thread) == st.blocked_on(thread),
{
    let frame = st.threads[thread as int].trapframe.frame;
    lemma_nothing(st);
    match SyscallNumber::of_number(frame.a0) {
        SyscallNumber::PageCreate => {
            let (mid, r) = choose|mid: State, r: CapResult<u64>|
                #![trigger syscalls::sys_page_create_post(st, thread, frame.a1, mid, r)]
                syscalls::sys_page_create_post(st, thread, frame.a1, mid, r) && dispatch::plain(
                    mid,
                    thread,
                    r.registers(),
                    after,
                    h,
                ) && h.also is Nothing;
            if mid != st {
                let size = (frame.a1 % 256) as u8;
                let gap = syscalls::page_gap(st.mem.next(), size);
                let n = gap + syscalls::page_frames(size);
                lemma_handed_out(st, n);
                lemma_created(
                    st,
                    thread,
                    (State { mem: st.mem.grow_by(n), ..st }),
                    CapabilityKind::Page(
                        crate::kernel::capability::Page {
                            phys: ((st.mem.next() + gap) * 4096) as u64,
                            size_log2: size,
                            is_device: false,
                        },
                    ),
                    mid,
                );
            }
            lemma_answered(st, mid, thread, after);
        },
        SyscallNumber::PageTableCreate => {
            let (mid, r) = choose|mid: State, r: CapResult<u64>|
                #![trigger syscalls::sys_pgtbl_create_post(st, thread, mid, r)]
                syscalls::sys_pgtbl_create_post(st, thread, mid, r) && dispatch::plain(
                    mid,
                    thread,
                    r.registers(),
                    after,
                    h,
                ) && h.also is Nothing;
            if mid != st {
                lemma_handed_out(st, 1);
                lemma_new_table(st);
                lemma_created(
                    st,
                    thread,
                    (State { mem: st.mem.grow(), ..st }),
                    CapabilityKind::PgTbl(
                        crate::kernel::paging::SharedPageTable { root: st.mem.next() as u64 },
                    ),
                    mid,
                );
            }
            lemma_answered(st, mid, thread, after);
        },
        _ => {
            lemma_last_calm_calls(st, thread, after, h);
        },
    }
}

/// The thread of a slot exists.
pub proof fn lemma_thread_at(st: State, thread: usize, index: u64)
    requires
        st.wf(),
        thread < st.threads.len(),
    ensures
        thread_calls::thread_at(st, thread, index) matches Ok(t) ==> t < st.threads.len(),
{
    assert(st.thread_wf(thread as int));
    let job = st.threads[thread as int].job;
    assert(st.job_wf(job as int));
    if thread_calls::thread_at(st, thread, index) is Ok {
        assert(st.kind_wf(st.jobs[job as int].slots[index as int].cap));
    }
}

/// To change nothing but what a thread holds besides its priority, its page table and
/// what it does disturbs nothing.
proof fn lemma_touched(st: State, t: usize, thread: Thread)
    requires
        st.wf(),
        t < st.threads.len(),
        undisturbed(st.threads[t as int], thread),
    ensures
        still(st, st.set_thread(t, thread)),
{
    let b = st.set_thread(t, thread);
    assert forall|i: int| 0 <= i < st.threads.len() implies undisturbed(
        st.threads[i],
        #[trigger] b.threads[i],
    ) by {}
    if st.trees() {
        assert forall|j: int, i: int|
            0 <= j < b.jobs.len() && 0 <= i < b.jobs[j].slots.len() implies b.slot_sound(
            (#[trigger] b.jobs[j].slots[i]).cap,
        ) || (j < st.jobs.len() && i < st.jobs[j].slots.len() && st.jobs[j].slots[i].cap
            == b.jobs[j].slots[i].cap) by {}
    }
}

/// What only concerns notifications, handlers and pools disturbs nothing.
proof fn lemma_elsewhere(a: State, b: State)
    requires
        a.wf(),
        b == (State {
            notifications: b.notifications,
            handlers: b.handlers,
            pools: b.pools,
            ..a
        }),
    ensures
        still(a, b),
{
    if a.trees() {
        assert forall|j: int, i: int|
            0 <= j < b.jobs.len() && 0 <= i < b.jobs[j].slots.len() implies b.slot_sound(
            (#[trigger] b.jobs[j].slots[i]).cap,
        ) || (j < a.jobs.len() && i < a.jobs[j].slots.len() && a.jobs[j].slots[i].cap
            == b.jobs[j].slots[i].cap) by {}
    }
}

/// The system calls that change the registers or the buffer of a thread keep the
/// kernel sound.
proof fn lemma_register_calls(st: State, thread: usize, after: State, h: Handled)
    requires
        st.ordered(),
        thread < st.threads.len(),
        after.wf(),
        ({
            ||| dispatch::thread_write_registers_handled(st, thread, after, h)
            ||| dispatch::thread_set_ipc_buffer_handled(st, thread, after, h)
        }),
    ensures
        kept(st, after),
        after.blocked_on(thread) == st.blocked_on(thread),
{
    let frame = st.threads[thread as int].trapframe.frame;
    lemma_nothing(st);
    lemma_thread_at(st, thread, frame.a1);
    if dispatch::thread_write_registers_handled(st, thread, after, h) {
        let (mid, r) = choose|mid: State, r: CapResult<()>|
            #![trigger thread_calls::sys_thread_write_registers_post(
                st,
                thread,
                frame.a1,
                frame.a2,
                mid,
                r,
            )]
            thread_calls::sys_thread_write_registers_post(st, thread, frame.a1, frame.a2, mid, r)
                && dispatch::plain(mid, thread, r.registers(), after, h) && h.also is Nothing;
        if mid != st {
            let t = thread_calls::thread_at(st, thread, frame.a1)->Ok_0;
            lemma_touched(st, t, mid.threads[t as int]);
        }
        lemma_answered(st, mid, thread, after);
    } else {
        let (mid, r) = choose|mid: State, r: CapResult<()>|
            #![trigger thread_calls::sys_thread_set_ipc_buffer_post(
                st,
                thread,
                frame.a1,
                frame.a2,
                mid,
                r,
            )]
            thread_calls::sys_thread_set_ipc_buffer_post(st, thread, frame.a1, frame.a2, mid, r)
                && dispatch::plain(mid, thread, r.registers(), after, h) && h.also is Nothing;
        if mid != st {
            let t = thread_calls::thread_at(st, thread, frame.a1)->Ok_0;
            lemma_touched(st, t, mid.threads[t as int]);
        }
        lemma_answered(st, mid, thread, after);
    }
}

/// The system calls on notifications, handlers and pools that disturb no thread keep
/// the kernel sound.
proof fn lemma_signal_calls(st: State, thread: usize, after: State, h: Handled)
    requires
        st.ordered(),
        thread < st.threads.len(),
        after.wf(),
        ({
            ||| dispatch::notification_poll_handled(st, thread, after, h)
            ||| dispatch::intr_handler_bind_handled(st, thread, after, h)
            ||| dispatch::intr_handler_unbind_handled(st, thread, after, h)
        }),
    ensures
        kept(st, after),
        after.blocked_on(thread) == st.blocked_on(thread),
{
    let frame = st.threads[thread as int].trapframe.frame;
    lemma_nothing(st);
    if dispatch::notification_poll_handled(st, thread, after, h) {
        let (mid, r) = choose|mid: State, r: CapResult<u64>|
            #![trigger signals::sys_notification_poll_post(st, thread, frame.a1, mid, r)]
            signals::sys_notification_poll_post(st, thread, frame.a1, mid, r) && dispatch::plain(
                mid,
                thread,
                r.registers(),
                after,
                h,
            ) && h.also is Nothing;
        lemma_elsewhere(st, mid);
        lemma_answered(st, mid, thread, after);
    } else if dispatch::intr_handler_bind_handled(st, thread, after, h) {
        let (mid, r) = choose|mid: State, r: CapResult<()>|
            #![trigger signals::sys_intr_handler_bind_post(st, thread, frame.a1, frame.a2, mid, r)]
            signals::sys_intr_handler_bind_post(st, thread, frame.a1, frame.a2, mid, r)
                && dispatch::plain(mid, thread, r.registers(), after, h) && h.also is Nothing;
        lemma_elsewhere(st, mid);
        lemma_answered(st, mid, thread, after);
    } else {
        let (mid, r) = choose|mid: State, r: CapResult<()>|
            #![trigger signals::sys_intr_handler_unbind_post(st, thread, frame.a1, mid, r)]
            signals::sys_intr_handler_unbind_post(st, thread, frame.a1, mid, r) && dispatch::plain(
                mid,
                thread,
                r.registers(),
                after,
                h,
            ) && h.also is Nothing;
        lemma_elsewhere(st, mid);
        lemma_answered(st, mid, thread, after);
    }
}

/// To make a handler of an interrupt keeps the kernel sound.
proof fn lemma_pool_calls(st: State, thread: usize, after: State, h: Handled)
    requires
        st.ordered(),
        thread < st.threads.len(),
        after.wf(),
        dispatch::intr_pool_get_handled(st, thread, after, h),
    ensures
        kept(st, after),
        after.blocked_on(thread) == st.blocked_on(thread),
{
    let frame = st.threads[thread as int].trapframe.frame;
    lemma_nothing(st);
    let (mid, r) = choose|mid: State, r: (CapResult<u64>, Option<u16>)|
        #![trigger signals::sys_intr_pool_get_post(st, thread, frame.a1, frame.a2, mid, r)]
        signals::sys_intr_pool_get_post(st, thread, frame.a1, frame.a2, mid, r) && dispatch::plain(
            mid,
            thread,
            r.0.registers(),
            after,
            h,
        ) && h.also == dispatch::enabling(r.1);
    if signals::handler_error(st, thread, frame.a1, frame.a2) is None {
        let p = signals::pool_at(st, thread, frame.a1)->Ok_0;
        let made = signals::handler_made(st, p, signals::irq_of(frame.a2));
        lemma_elsewhere(st, made);
        assert(st.thread_wf(thread as int));
        let job = st.threads[thread as int].job;
        assert(st.job_wf(job as int));
        let captr = crate::kernel::capability::captbl::next_slot(made.slots(thread));
        crate::kernel::capability::captbl::law_next_slot(made.slots(thread), 1);
        if captr < made.slots(thread).len() {
            lemma_filled(
                st,
                made,
                job,
                captr,
                CapabilitySlotInner::holding(
                    CapabilityKind::InterruptHandler(st.handlers.len() as usize),
                ),
            );
        }
    }
    lemma_answered(st, mid, thread, after);
}

/// The last of the system calls that disturb no thread keep the kernel sound.
proof fn lemma_last_calm_calls(st: State, thread: usize, after: State, h: Handled)
    requires
        st.ordered(),
        thread < st.threads.len(),
        after.wf(),
        dispatch::syscall_post(st, thread, after, h),
        ({
            let call = SyscallNumber::of_number(st.threads[thread as int].trapframe.frame.a0);
            is_calm(call) && !(call is CaptrDelete) && !(call is CaptrGrant) && !(
            call is NotificationCreate) && !(call is EndpointCreate) && !(call is JobCreate) && !(
            call is PageCreate) && !(call is PageTableCreate)
        }),
    ensures
        kept(st, after),
        after.blocked_on(thread) == st.blocked_on(thread),
{
    let frame = st.threads[thread as int].trapframe.frame;
    let call = SyscallNumber::of_number(frame.a0);
    if call is ThreadWriteRegisters || call is ThreadSetIpcBuffer {
        lemma_register_calls(st, thread, after, h);
    } else if call is NotificationPoll || call is IntrHandlerBind || call is IntrHandlerUnbind {
        lemma_signal_calls(st, thread, after, h);
    } else if call is IntrPoolGet {
        lemma_pool_calls(st, thread, after, h);
    } else {
        lemma_nothing(st);
        lemma_answered(st, st, thread, after);
    }
}

// ---- what disturbs one thread ----

/// Whether every queue has the owner that it had, and the classes that it had, and no
/// class is above the priorities that threads have.
pub open spec fn queues_kept(a: State, b: State) -> bool {
    &&& b.queues.len() == a.queues.len()
    &&& forall|q: int|
        0 <= q < a.queues.len() ==> (#[trigger] b.queues[q]).owner == a.queues[q].owner
            && classes_kept(a.queues[q], b.queues[q])
}

/// Whether a queue has the classes that another one has, and none above the priorities
/// that threads have.
pub open spec fn classes_kept(a: Queue, b: Queue) -> bool {
    &&& forall|c: int| 0 <= c < 256 && a.classes[c] is Some ==> (#[trigger] b.classes[c]) is Some
    &&& forall|c: int| 160 <= c < 256 ==> (#[trigger] b.classes[c]) is None
}

/// Whether on the way from one state to another only the thread `t` was disturbed, and
/// it is where it should be.
pub open spec fn settled(a: State, b: State, t: usize) -> bool {
    &&& b.threads.len() == a.threads.len()
    &&& forall|o: int|
        0 <= o < a.threads.len() && o != t ==> undisturbed(a.threads[o], #[trigger] b.threads[o])
    &&& b.threads[t as int].private.root_pgtbl == a.threads[t as int].private.root_pgtbl
    &&& b.tame(t as int)
    &&& b.waits(t as int)
    &&& a.fit(t) ==> b.fit(t)
    &&& queues_kept(a, b)
    &&& b.sched.like(a.sched)
    &&& b.mem == a.mem
    &&& b.jobs == a.jobs
}

/// What disturbs one thread only, and leaves it where it should be, keeps the kernel
/// sound.
proof fn lemma_settled(a: State, b: State, t: usize)
    requires
        a.ordered(),
        b.wf(),
        t < a.threads.len(),
        settled(a, b, t),
    ensures
        kept(a, b),
{
    assert forall|o: int| 0 <= o < b.threads.len() implies #[trigger] b.tame(o) by {
        assert(a.tame(o));
        if o != t {
            assert(undisturbed(a.threads[o], b.threads[o]));
        }
    }
    assert forall|o: int| 0 <= o < b.threads.len() implies #[trigger] b.waits(o) by {
        assert(a.waits(o));
        assert(a.tame(o));
        assert(a.thread_wf(o));
        if o != t {
            assert(undisturbed(a.threads[o], b.threads[o]));
            if let Some(q) = a.threads[o].blocked_on_wq {
                let c = wait_queue::class_of(a.threads[o].private.prio.level());
                assert(a.queues[q as int].classes[c] is Some);
                assert(b.queues[q as int].owner == a.queues[q as int].owner);
                assert(a.queues[q as int].wf());
                assert(b.queues[q as int].classes[c] is Some);
            }
        }
    }
    assert forall|q: int| 0 <= q < b.queues.len() implies (b.queues[q].owner matches Some(o)
        ==> b.fit(o)) && #[trigger] b.queue_tame(q) by {
        assert(a.queue_tame(q));
        assert(b.queues[q].owner == a.queues[q].owner);
        assert(a.queues[q].below(a.threads.len() as int));
        if let Some(o) = a.queues[q].owner {
            assert(a.fit(o));
            if o != t {
                assert(undisturbed(a.threads[o as int], b.threads[o as int]));
            }
        }
    }
    assert forall|q: int| 0 <= q < b.queues.len() implies ((
    #[trigger] b.queues[q]).owner matches Some(o) ==> b.fit(o)) by {
        assert(b.queue_tame(q));
    }
    if a.trees() {
        assert forall|o: int| 0 <= o < b.threads.len() implies ((
        #[trigger] b.threads[o]).private.root_pgtbl matches Some(table) ==> b.is_tree(
            table.root as int,
        )) by {
            assert(a.threads[o].private.root_pgtbl == b.threads[o].private.root_pgtbl) by {
                if o != t {
                    assert(undisturbed(a.threads[o], b.threads[o]));
                }
            }
        }
    }
    if a.trees() {
        assert forall|j: int, i: int|
            0 <= j < b.jobs.len() && 0 <= i < b.jobs[j].slots.len() implies b.slot_sound(
            (#[trigger] b.jobs[j].slots[i]).cap,
        ) by {
            assert(a.slot_sound(a.jobs[j].slots[i].cap));
        }
    }
}

/// The queues of a sound kernel are kept where nothing happens to them.
proof fn lemma_same_queues(a: State, b: State)
    requires
        a.linked(),
        b.queues == a.queues,
    ensures
        queues_kept(a, b),
{
    assert forall|q: int| 0 <= q < a.queues.len() implies (#[trigger] b.queues[q]).owner
        == a.queues[q].owner && classes_kept(a.queues[q], b.queues[q]) by {
        assert(a.queue_tame(q));
    }
}

/// A thread that begins to wait keeps the kernel sound.
pub proof fn law_waiting_keeps_soundness(st: State, t: usize, q: usize)
    requires
        st.ordered(),
        t < st.threads.len(),
        q < st.queues.len(),
        st.sched.has(st.threads[t as int].private.hartid),
        ipc::blocked(st, t, q).wf(),
    ensures
        kept(st, ipc::blocked(st, t, q)),
{
    let b = ipc::blocked(st, t, q);
    assert(st.tame(t as int));
    assert(st.thread_wf(t as int));
    let c = wait_queue::class_of(st.level(t));
    assert(0 <= c < 160);
    assert forall|k: int| 0 <= k < st.queues.len() implies (#[trigger] b.queues[k]).owner
        == st.queues[k].owner && classes_kept(st.queues[k], b.queues[k]) by {
        assert(st.queue_tame(k));
        assert(st.queues[k].wf());
    }
    assert(b.sched.queues.dom() =~= st.sched.queues.dom());
    assert(b.queues[q as int].classes[c] is Some);
    lemma_settled(st, b, t);
}

/// To take a thread out of a queue keeps the classes of the queue.
proof fn lemma_popped_kept(queue: Queue)
    requires
        queue.wf(),
        forall|c: int| 160 <= c < 256 ==> (#[trigger] queue.classes[c]) is None,
    ensures
        queue.popped().owner == queue.owner,
        classes_kept(queue, queue.popped()),
{
    wait_queue::lemma_waiting_class(queue.classes, 256);
}

/// A signal keeps the kernel sound, and the thread that it wakes, if it wakes one,
/// waits no longer.
pub proof fn law_signal_keeps_soundness(st: State, n: usize, bits: u64)
    requires
        st.ordered(),
        signals::signallable(st, n),
        signals::signalled(st, n, bits).0.wf(),
    ensures
        kept(st, signals::signalled(st, n, bits).0),
        forall|t: int|
            0 <= t < st.threads.len() && st.threads[t].blocked_on_wq is None ==> (
            #[trigger] signals::signalled(st, n, bits).0.threads[t]).blocked_on_wq is None,
        signals::signalled(st, n, bits).0.threads.len() == st.threads.len(),
{
    let b = signals::signalled(st, n, bits).0;
    let q = st.notifications[n as int].wait_queue;
    let queue = st.queues[q as int];
    assert(st.queue_tame(q as int));
    assert(queue.wf() && queue.below(st.threads.len() as int));
    lemma_popped_kept(queue);
    ipc::lemma_popped(queue, st.threads.len() as int);
    assert forall|k: int| 0 <= k < st.queues.len() implies (#[trigger] b.queues[k]).owner
        == st.queues[k].owner && classes_kept(st.queues[k], b.queues[k]) by {
        assert(st.queue_tame(k));
    }
    match queue.next() {
        Some(t) => {
            assert(st.tame(t as int));
            assert(st.thread_wf(t as int));
            scheduling::law_chosen_hart_exists(st, t);
            assert(b.sched.queues.dom() =~= st.sched.queues.dom());
            lemma_settled(st, b, t);
        },
        None => {
            lemma_settled_none(st, b);
        },
    }
}

/// What disturbs no thread and only takes from queues keeps the kernel sound.
proof fn lemma_settled_none(a: State, b: State)
    requires
        a.ordered(),
        b.wf(),
        b.threads == a.threads,
        queues_kept(a, b),
        b.sched.like(a.sched),
        b.mem == a.mem,
        b.jobs == a.jobs,
    ensures
        kept(a, b),
{
    if a.threads.len() > 0 {
        assert(a.tame(0) && a.waits(0) && a.thread_wf(0));
        if let Some(q) = a.threads[0].blocked_on_wq {
            let c = wait_queue::class_of(a.threads[0].private.prio.level());
            assert(a.queues[q as int].wf());
            assert(a.queues[q as int].classes[c] is Some);
            assert(b.queues[q as int].owner == a.queues[q as int].owner);
            assert(b.queues[q as int].classes[c] is Some);
        }
        lemma_settled(a, b, 0);
    } else {
        assert forall|q: int| 0 <= q < b.queues.len() implies #[trigger] b.queue_tame(q)
            && b.queues[q].owner is None by {
            assert(a.queue_tame(q));
            assert(a.queues[q].below(0));
            assert(b.queues[q].owner == a.queues[q].owner);
        }
        if a.trees() {
            assert forall|j: int, i: int|
                0 <= j < b.jobs.len() && 0 <= i < b.jobs[j].slots.len() implies b.slot_sound(
                (#[trigger] b.jobs[j].slots[i]).cap,
            ) by {
                assert(a.slot_sound(a.jobs[j].slots[i].cap));
            }
        }
    }
}

/// To give a thread that does not wait other priorities, and to put it into the run
/// queue of the current hart, keeps the kernel sound, if the priorities are below 32
/// and the thread stays fit to be waited for.
proof fn lemma_reprioritized(st: State, t: usize, prio: ThreadPriorities, state: ThreadState)
    requires
        st.ordered(),
        t < st.threads.len(),
        st.blocked_on(t) is None,
        signals::reprioritizable(st, t, prio),
        0 <= st.prio(t).base_prio + st.prio(t).prio_boost ==> 0 <= prio.base_prio + prio.prio_boost,
        signals::reprioritized(st, t, prio).set_state(t, state).wf(),
    ensures
        kept(st, signals::reprioritized(st, t, prio).set_state(t, state)),
        signals::reprioritized(st, t, prio).set_state(t, state).blocked_on(t) is None,
{
    let b = signals::reprioritized(st, t, prio).set_state(t, state);
    lemma_same_queues(st, b);
    assert(st.thread_wf(t as int));
    assert(b.sched.queues.dom() =~= st.sched.queues.dom());
    lemma_settled(st, b, t);
}

/// To let a thread that does not wait do something else keeps the kernel sound.
pub proof fn lemma_set_state(st: State, t: usize, state: ThreadState)
    requires
        st.ordered(),
        t < st.threads.len(),
        st.blocked_on(t) is None,
        st.set_state(t, state).wf(),
    ensures
        kept(st, st.set_state(t, state)),
{
    let b = st.set_state(t, state);
    lemma_same_queues(st, b);
    assert(st.tame(t as int));
    lemma_settled(st, b, t);
}

/// To take the hart from a thread that does not wait keeps the kernel sound.
pub proof fn law_preemption_keeps_soundness(st: State, t: usize, kind: InterruptKind)
    requires
        st.ordered(),
        t < st.threads.len(),
        st.blocked_on(t) is None,
        interrupts::preemptable(st, t, kind),
        interrupts::preempted(st, t, kind).wf(),
    ensures
        kept(st, interrupts::preempted(st, t, kind)),
{
    if st.level(t) >= 0 && kind is Timer {
        lemma_reprioritized(st, t, st.prio(t).diminished(), ThreadState::Runnable);
    } else {
        lemma_set_state(st, t, ThreadState::Runnable);
    }
}

/// An interrupt keeps the kernel sound, whatever the thread that runs, which does not
/// wait, loses by it.
pub proof fn law_interrupts_keep_soundness(
    st: State,
    t: usize,
    pool: usize,
    scause: u64,
    irq: u32,
)
    requires
        st.ordered(),
        t < st.threads.len(),
        st.blocked_on(t) is None,
        interrupts::interruptible(st, pool, scause, irq),
        interrupts::after_interrupt(st, pool, scause, irq).wf(),
        interrupts::user_interruptible(
            interrupts::after_interrupt(st, pool, scause, irq),
            t,
            interrupts::kind_of(scause),
        ),
        interrupts::user_interrupted(
            interrupts::after_interrupt(st, pool, scause, irq),
            t,
            interrupts::kind_of(scause),
        ).0.wf(),
    ensures
        kept(st, interrupts::after_interrupt(st, pool, scause, irq)),
        kept(
            st,
            interrupts::user_interrupted(
                interrupts::after_interrupt(st, pool, scause, irq),
                t,
                interrupts::kind_of(scause),
            ).0,
        ),
        interrupts::user_interrupted(
            interrupts::after_interrupt(st, pool, scause, irq),
            t,
            interrupts::kind_of(scause),
        ).0.blocked_on(t) is None,
{
    let kind = interrupts::kind_of(scause);
    let mid = interrupts::after_interrupt(st, pool, scause, irq);
    let number = (irq % 0x1_0000) as u16;
    if kind is External && st.pools[pool as int].dom().contains(number) {
        let h = st.pools[pool as int][number];
        if let Some((n, bits)) = st.handlers[h as int].notification {
            law_signal_keeps_soundness(st, n, bits);
            assert(mid.threads[t as int].blocked_on_wq is None);
        }
    }
    assert(kept(st, mid));
    assert(mid.blocked_on(t) is None);
    let after = interrupts::user_interrupted(mid, t, kind).0;
    let state = mid.state(t);
    if !(state is Suspended) && (state is Blocking || kind is Timer || kind is Software) {
        if mid.level(t) < 0 {
            lemma_set_state(mid, t, ThreadState::Runnable);
        } else if !(state is Blocking || (kind is Software && !(state is Running))) {
            law_preemption_keeps_soundness(mid, t, kind);
        }
    }
}

// ---- system calls that disturb one thread ----

/// What is there is there before the answer is in the registers of a thread, too.
proof fn lemma_before_answer(mid: State, thread: usize, after: State)
    requires
        thread < mid.threads.len(),
        after == threads::set_frame(mid, thread, after.threads[thread as int].trapframe.frame),
        after.wf(),
    ensures
        mid.wf(),
{
    assert(after.thread_wf(thread as int));
    let back = after.set_thread(thread, mid.threads[thread as int]);
    assert(back.threads =~= mid.threads);
    assert(back =~= mid);
    assert(back.thread_wf(thread as int));
    crate::kernel::state::lemma_set_thread(after, thread, mid.threads[thread as int]);
}

/// An answer in the registers of a thread keeps the kernel sound.
proof fn lemma_then_answered(mid: State, thread: usize, after: State)
    requires
        mid.ordered(),
        thread < mid.threads.len(),
        after == threads::set_frame(mid, thread, after.threads[thread as int].trapframe.frame),
        after.wf(),
    ensures
        kept(mid, after),
        after.blocked_on(thread) == mid.blocked_on(thread),
{
    lemma_nothing(mid);
    lemma_answered(mid, mid, thread, after);
}

/// To let a thread run that does not wait keeps the kernel sound.
pub proof fn law_resuming_keeps_soundness(st: State, t: usize)
    requires
        st.ordered(),
        t < st.threads.len(),
        st.blocked_on(t) is None,
        threads::resumed(st, t).wf(),
    ensures
        kept(st, threads::resumed(st, t)),
{
    let b = threads::resumed(st, t);
    lemma_same_queues(st, b);
    assert(st.tame(t as int));
    scheduling::law_chosen_hart_exists(st, t);
    assert(b.sched.queues.dom() =~= st.sched.queues.dom());
    lemma_settled(st, b, t);
}

/// To prepare a thread that is to be started disturbs nothing.
proof fn lemma_prepared(
    st: State,
    thread: usize,
    t: usize,
    entry: u64,
    stack: u64,
    arg1: u64,
    arg2: u64,
)
    requires
        st.ordered(),
        thread < st.threads.len(),
        t < st.threads.len(),
        thread_calls::startable(st, thread, t, arg1),
    ensures
        ({
            let prepared = thread_calls::start_prepared(st, thread, t, entry, stack, arg1, arg2);
            &&& kept(st, prepared)
            &&& calm(st, prepared)
        }),
{
    assert(st.thread_wf(thread as int));
    assert(st.thread_wf(t as int));
    let from = st.threads[thread as int].job;
    let job = st.threads[t as int].job;
    assert(st.job_wf(from as int));
    assert(st.job_wf(job as int));
    lemma_nothing(st);
    let given = thread_calls::start_given(st, thread, t, arg1).0;
    let prepared = thread_calls::start_prepared(st, thread, t, entry, stack, arg1, arg2);
    assert(still(st, given) && given.wf()) by {
        if given != st {
            let held = st.slots(thread)[arg1 as int];
            assert(st.kind_wf(st.jobs[from as int].slots[arg1 as int].cap));
            assert(st.trees() ==> st.slot_sound(st.jobs[from as int].slots[arg1 as int].cap));
            let captr = crate::kernel::capability::captbl::next_slot(st.jobs[job as int].slots);
            crate::kernel::capability::captbl::law_next_slot(st.jobs[job as int].slots, 1);
            let slot = slots::limited(held.cap, held.badge, held.rights);
            lemma_filled(st, st, job, captr, slot);
            slots::lemma_filled(st, job, captr, slot);
        }
    }
    assert(undisturbed(st.threads[t as int], given.threads[t as int]));
    assert(given.thread_wf(t as int));
    crate::kernel::state::lemma_set_thread(given, t, prepared.threads[t as int]);
    lemma_answered(st, given, t, prepared);
    assert forall|o: int| 0 <= o < st.threads.len() implies undisturbed(
        st.threads[o],
        #[trigger] prepared.threads[o],
    ) by {
        assert(undisturbed(st.threads[o], given.threads[o]));
    }
}

/// A thread that has just been made, and waits for nothing, keeps the kernel sound.
proof fn lemma_thread_made(st: State, name: Seq<char>, job: usize)
    requires
        st.ordered(),
        threads::thread_made(st, name, None, job).wf(),
        st.mem.available() > threads::STACK_FRAMES,
    ensures
        kept(st, threads::thread_made(st, name, None, job)),
{
    let b = threads::thread_made(st, name, None, job);
    let n = st.threads.len() as int;
    let m1 = st.mem.grow();
    assert(m1.frames() == st.mem.frames() + 1);
    window::lemma_from_grow(st.mem, st.mem.next(), 1);
    window::lemma_from_grow(m1, m1.next(), threads::STACK_FRAMES as int);
    window::lemma_same_below_less(b.mem, m1, st.mem.next(), m1.next());
    window::lemma_same_below_trans(b.mem, m1, st.mem, st.mem.next());
    assert(idle::extends(st.mem, b.mem));
    assert forall|t: int| 0 <= t < b.threads.len() implies #[trigger] b.tame(t) && b.waits(t) by {
        if t < n {
            assert(st.tame(t) && st.waits(t) && st.thread_wf(t));
            assert(b.threads[t] == st.threads[t]);
        }
    }
    assert forall|t: int| 0 <= t < b.threads.len() implies #[trigger] b.waits(t) by {
        assert(b.tame(t));
    }
    assert forall|q: int| 0 <= q < b.queues.len() implies #[trigger] b.queue_tame(q) && (
    b.queues[q].owner matches Some(o) ==> b.fit(o)) by {
        assert(st.queue_tame(q));
        assert(st.queues[q].below(n));
    }
    assert forall|q: int| 0 <= q < b.queues.len() implies ((
    #[trigger] b.queues[q]).owner matches Some(o) ==> b.fit(o)) by {
        assert(b.queue_tame(q));
    }
    if st.trees() {
        assert forall|t: int| 0 <= t < b.threads.len() implies ((
        #[trigger] b.threads[t]).private.root_pgtbl matches Some(table) ==> b.is_tree(
            table.root as int,
        )) by {
            if t < n {
                assert(b.threads[t] == st.threads[t]);
                if let Some(table) = st.threads[t].private.root_pgtbl {
                    lemma_tree_stays(st, b, table.root as int);
                }
            }
        }
    }
    if st.trees() {
        assert forall|j: int, i: int|
            0 <= j < b.jobs.len() && 0 <= i < b.jobs[j].slots.len() implies b.slot_sound(
            (#[trigger] b.jobs[j].slots[i]).cap,
        ) by {
            assert(st.slot_sound(st.jobs[j].slots[i].cap));
            if let CapabilityKind::PgTbl(table) = st.jobs[j].slots[i].cap {
                lemma_tree_stays(st, b, table.root as int);
            }
        }
    }
}

/// The system calls of which it is known that they keep the kernel sound, and when:
/// those that disturb no thread, and of the others those that wait for a notification,
/// signal one, yield, make a thread, or start one; and those that suspend a thread, or
/// let it run again, where that thread does not wait.
pub open spec fn is_settling(st: State, thread: usize) -> bool {
    let frame = st.threads[thread as int].trapframe.frame;
    let call = SyscallNumber::of_number(frame.a0);
    match call {
        SyscallNumber::NotificationWait
        | SyscallNumber::NotificationSignal
        | SyscallNumber::Yield
        | SyscallNumber::JobCreateThread
        | SyscallNumber::ThreadStart => true,
        SyscallNumber::ThreadSuspend | SyscallNumber::ThreadResume => {
            thread_calls::thread_at(st, thread, frame.a1) matches Ok(t) ==> st.blocked_on(t) is None
        },
        SyscallNumber::ThreadSetPriority => {
            thread_calls::thread_at(st, thread, frame.a1) matches Ok(t) ==> st.blocked_on(t) is None
                && 0 <= signals::prio_of(frame.a2) + st.prio(t).prio_boost
        },
        _ => is_calm(call),
    }
}

/// Whether the system call of a thread leaves the kernel in order. What may not is to
/// suspend a thread that waits, or to let it run, while it stays in its queue; and to
/// give such a thread another priority, or a thread one that is below 0.
pub open spec fn is_orderly(st: State, thread: usize) -> bool {
    let call = SyscallNumber::of_number(st.threads[thread as int].trapframe.frame.a0);
    call is ThreadSuspend || call is ThreadResume || call is ThreadSetPriority ==> is_settling(
        st,
        thread,
    )
}

/// To suspend a thread that does not wait, or to let it run again, keeps the kernel
/// sound.
proof fn lemma_suspend_calls(st: State, thread: usize, after: State, h: Handled)
    requires
        st.ordered(),
        thread < st.threads.len(),
        after.wf(),
        thread_calls::thread_at(
            st,
            thread,
            st.threads[thread as int].trapframe.frame.a1,
        ) matches Ok(t) ==> st.blocked_on(t) is None,
        ({
            ||| dispatch::thread_suspend_handled(st, thread, after, h)
            ||| dispatch::thread_resume_handled(st, thread, after, h)
        }),
    ensures
        kept(st, after),
        after.blocked_on(thread) == st.blocked_on(thread),
{
    let frame = st.threads[thread as int].trapframe.frame;
    lemma_thread_at(st, thread, frame.a1);
    if dispatch::thread_suspend_handled(st, thread, after, h) {
        let (mid, r) = choose|mid: State, r: CapResult<()>|
            #![trigger thread_calls::sys_thread_suspend_post(st, thread, frame.a1, mid, r)]
            thread_calls::sys_thread_suspend_post(st, thread, frame.a1, mid, r) && dispatch::plain(
                mid,
                thread,
                r.registers(),
                after,
                h,
            ) && h.also is Nothing;
        lemma_before_answer(mid, thread, after);
        if let Ok(t) = thread_calls::thread_at(st, thread, frame.a1) {
            lemma_set_state(st, t, ThreadState::Suspended);
        }
        lemma_then_answered(mid, thread, after);
    } else {
        let (mid, r) = choose|mid: State, r: CapResult<()>|
            #![trigger thread_calls::sys_thread_resume_post(st, thread, frame.a1, mid, r)]
            thread_calls::sys_thread_resume_post(st, thread, frame.a1, mid, r) && dispatch::plain(
                mid,
                thread,
                r.registers(),
                after,
                h,
            ) && h.also is Nothing;
        lemma_before_answer(mid, thread, after);
        if mid != st {
            let t = thread_calls::thread_at(st, thread, frame.a1)->Ok_0;
            law_resuming_keeps_soundness(st, t);
        }
        lemma_then_answered(mid, thread, after);
    }
}

/// To give a thread that does not wait another base priority keeps the kernel sound.
pub proof fn law_base_priority_keeps_soundness(st: State, t: usize, base_prio: i8)
    requires
        st.ordered(),
        t < st.threads.len(),
        st.blocked_on(t) is None,
        0 <= base_prio + st.prio(t).prio_boost,
        signals::base_settable(st, t, base_prio),
        signals::base_set(st, t, base_prio).wf(),
    ensures
        kept(st, signals::base_set(st, t, base_prio)),
{
    let b = signals::base_set(st, t, base_prio);
    lemma_same_queues(st, b);
    assert(st.tame(t as int));
    assert(b.thread_wf(t as int));
    assert(b.sched.queues.dom() =~= st.sched.queues.dom());
    lemma_settled(st, b, t);
}

/// To set the base priority of a thread that does not wait keeps the kernel sound.
proof fn lemma_priority_calls(st: State, thread: usize, after: State, h: Handled)
    requires
        st.ordered(),
        dispatch::syscall_pre(st, thread),
        after.wf(),
        is_settling(st, thread),
        dispatch::syscall_post(st, thread, after, h),
        SyscallNumber::of_number(
            st.threads[thread as int].trapframe.frame.a0,
        ) is ThreadSetPriority,
    ensures
        kept(st, after),
        after.blocked_on(thread) == st.blocked_on(thread),
{
    let frame = st.threads[thread as int].trapframe.frame;
    lemma_thread_at(st, thread, frame.a1);
    let (mid, r) = choose|mid: State, r: CapResult<()>|
        #![trigger signals::sys_thread_set_priority_post(st, thread, frame.a1, frame.a2, mid, r)]
        signals::sys_thread_set_priority_post(st, thread, frame.a1, frame.a2, mid, r)
            && dispatch::plain(mid, thread, r.registers(), after, h) && h.also is Nothing;
    lemma_before_answer(mid, thread, after);
    if mid != st {
        let t = thread_calls::thread_at(st, thread, frame.a1)->Ok_0;
        law_base_priority_keeps_soundness(st, t, signals::prio_of(frame.a2) as i8);
    }
    lemma_then_answered(mid, thread, after);
}

/// To start a thread keeps the kernel sound.
proof fn lemma_start_calls(st: State, thread: usize, after: State, h: Handled)
    requires
        st.ordered(),
        thread < st.threads.len(),
        after.wf(),
        dispatch::syscall_pre(st, thread),
        SyscallNumber::of_number(
            st.threads[thread as int].trapframe.frame.a0,
        ) is ThreadStart,
        dispatch::thread_start_handled(st, thread, after, h),
    ensures
        kept(st, after),
        after.blocked_on(thread) == st.blocked_on(thread),
{
    let frame = st.threads[thread as int].trapframe.frame;
    lemma_thread_at(st, thread, frame.a1);
    let (mid, r) = choose|mid: State, r: CapResult<()>|
        #![trigger thread_calls::sys_thread_start_post(
            st,
            thread,
            frame.a1,
            frame.a2,
            frame.a3,
            frame.a4,
            frame.a5,
            mid,
            r,
        )]
        thread_calls::sys_thread_start_post(
            st,
            thread,
            frame.a1,
            frame.a2,
            frame.a3,
            frame.a4,
            frame.a5,
            mid,
            r,
        ) && dispatch::plain(mid, thread, r.registers(), after, h) && h.also is Nothing;
    if let Ok(t) = thread_calls::thread_at(st, thread, frame.a1) {
        if st.state(t) is Suspended {
            lemma_prepared(st, thread, t, frame.a2, frame.a3, frame.a4, frame.a5);
            let prepared = thread_calls::start_prepared(
                st,
                thread,
                t,
                frame.a2,
                frame.a3,
                frame.a4,
                frame.a5,
            );
            assert(undisturbed(st.threads[t as int], prepared.threads[t as int]));
            assert(undisturbed(st.threads[thread as int], prepared.threads[thread as int]));
            assert(st.waits(t as int));
            lemma_before_answer(mid, thread, after);
            if st.threads[t as int].private.root_pgtbl is Some {
                law_resuming_keeps_soundness(prepared, t);
            }
        }
    }
    lemma_then_answered(mid, thread, after);
}

/// To make a thread keeps the kernel sound.
proof fn lemma_create_calls(st: State, thread: usize, after: State, h: Handled)
    requires
        st.ordered(),
        thread < st.threads.len(),
        after.wf(),
        dispatch::syscall_pre(st, thread),
        SyscallNumber::of_number(
            st.threads[thread as int].trapframe.frame.a0,
        ) is JobCreateThread,
        dispatch::job_create_thread_handled(st, thread, after, h),
    ensures
        kept(st, after),
        after.blocked_on(thread) == st.blocked_on(thread),
{
    let frame = st.threads[thread as int].trapframe.frame;
    let ptr = crate::addr::virt::canonical(frame.a2);
    let (mid, r) = choose|mid: State, r: CapResult<u64>|
        #![trigger signals::sys_job_create_thread_post(
            st,
            thread,
            frame.a1,
            ptr,
            frame.a3,
            mid,
            r,
        )]
        signals::sys_job_create_thread_post(st, thread, frame.a1, ptr, frame.a3, mid, r)
            && dispatch::plain(mid, thread, r.registers(), after, h) && h.also is Nothing;
    if mid != st {
        let name = vstd::utf8::decode_utf8(signals::name_bytes(st, thread, ptr, frame.a3));
        let job = syscalls::job_at(st, thread, frame.a1)->Ok_0;
        let made = threads::thread_made(st, name, None, job);
        let n = st.threads.len() as usize;
        assert(st.thread_wf(thread as int));
        let own = st.threads[thread as int].job;
        assert(st.job_wf(own as int));
        let captr = crate::kernel::capability::captbl::next_slot(st.slots(thread));
        crate::kernel::capability::captbl::law_next_slot(st.slots(thread), 1);
        assert(job < st.jobs.len()) by {
            assert(st.kind_wf(st.jobs[own as int].slots[frame.a1 as int].cap));
        }
        assert(made.mem.wf()) by {
            let m1 = st.mem.grow();
            assert(m1.frames() == st.mem.frames() + 1);
            assert(made.mem.frames() == m1.frames() + threads::STACK_FRAMES);
        }
        threads::lemma_thread_made(st, name, None, job, made.mem);
        assert(made =~= State { mem: made.mem, ..threads::thread_made(st, name, None, job) });
        lemma_thread_made(st, name, job);
        lemma_nothing(made);
        lemma_filled(
            made,
            made,
            own,
            captr,
            CapabilitySlotInner::holding(CapabilityKind::Thread(n)),
        );
        assert(made.threads[thread as int] == st.threads[thread as int]);
        assert(undisturbed(made.threads[thread as int], mid.threads[thread as int]));
        lemma_answered(made, mid, thread, after);
    } else {
        lemma_then_answered(mid, thread, after);
    }
}

/// To signal a notification, to wait for one, and to yield keep the kernel sound.
proof fn lemma_notification_calls(st: State, thread: usize, after: State, h: Handled)
    requires
        st.ordered(),
        dispatch::syscall_pre(st, thread),
        st.blocked_on(thread) is None,
        after.wf(),
        dispatch::syscall_post(st, thread, after, h),
        ({
            let call = SyscallNumber::of_number(st.threads[thread as int].trapframe.frame.a0);
            call is NotificationSignal || call is NotificationWait || call is Yield
        }),
    ensures
        kept(st, after),
        h.pending is None ==> after.blocked_on(thread) is None,
{
    let frame = st.threads[thread as int].trapframe.frame;
    let call = SyscallNumber::of_number(frame.a0);
    lemma_nothing(st);
    if call is NotificationSignal {
        let (mid, r) = choose|mid: State, r: CapResult<Option<u64>>|
            #![trigger signals::sys_notification_signal_post(st, thread, frame.a1, mid, r)]
            signals::sys_notification_signal_post(st, thread, frame.a1, mid, r) && match r {
                Ok(hart) => dispatch::plain(mid, thread, (0, 0), after, h) && h.also
                    == dispatch::ipi_to(hart),
                Err(e) => dispatch::plain(mid, thread, (e.number(), 0), after, h)
                    && h.also is Nothing,
            };
        if let Ok((n, bits)) = signals::notification_at(st, thread, frame.a1) {
            let q = st.notifications[n as int].wait_queue;
            assert(st.queues[q as int].wf());
            ipc::lemma_popped(st.queues[q as int], st.threads.len() as int);
            assert(mid.threads.len() == st.threads.len());
            lemma_before_answer(mid, thread, after);
            law_signal_keeps_soundness(st, n, bits);
            assert(mid.threads[thread as int].blocked_on_wq is None);
        }
        lemma_then_answered(mid, thread, after);
    } else if call is NotificationWait {
        let (mid, r) = choose|mid: State, r: endpoints::Outcome<u64>|
            #![trigger signals::sys_notification_wait_post(st, thread, frame.a1, mid, r)]
            signals::sys_notification_wait_post(st, thread, frame.a1, mid, r) && h.also is Nothing
                && match r {
                endpoints::Outcome::Done(result) => dispatch::plain(
                    mid,
                    thread,
                    result.registers(),
                    after,
                    h,
                ),
                endpoints::Outcome::Blocked(pending) => after == mid && h.pending == Some(pending),
            };
        match signals::notification_at(st, thread, frame.a1) {
            Ok((n, _)) => {
                assert(st.thread_wf(thread as int));
                let job = st.threads[thread as int].job;
                assert(st.job_wf(job as int));
                assert(st.kind_wf(st.jobs[job as int].slots[frame.a1 as int].cap));
                let taken = signals::word_taken(st, n);
                lemma_elsewhere(st, taken);
                lemma_word_taken(st, n);
                lemma_calm(st, taken);
                if st.notifications[n as int].word != 0 {
                    lemma_then_answered(mid, thread, after);
                } else {
                    law_waiting_keeps_soundness(
                        taken,
                        thread,
                        st.notifications[n as int].wait_queue,
                    );
                }
            },
            Err(_) => {
                lemma_then_answered(mid, thread, after);
            },
        }
    } else {
        let (mid, r) = choose|mid: State, r: endpoints::Outcome<()>|
            #![trigger signals::sys_yield_post(st, thread, mid, r)]
            signals::sys_yield_post(st, thread, mid, r) && h.also is Nothing && match r {
                endpoints::Outcome::Done(result) => dispatch::plain(
                    mid,
                    thread,
                    result.registers(),
                    after,
                    h,
                ),
                endpoints::Outcome::Blocked(pending) => after == mid && h.pending == Some(pending),
            };
        let b = mid.set_state(thread, st.state(thread));
        assert(b.threads =~= mid.threads);
        assert(b =~= mid);
        lemma_reprioritized(st, thread, st.prio(thread).relaxed(), st.state(thread));
    }
}

/// To read the word of a notification and to clear it keeps what is there.
proof fn lemma_word_taken(st: State, n: usize)
    requires
        st.wf(),
        n < st.notifications.len(),
    ensures
        signals::word_taken(st, n).wf(),
{
    let b = signals::word_taken(st, n);
    assert forall|t: int| 0 <= t < b.threads.len() implies #[trigger] b.thread_wf(t) by {
        assert(st.thread_wf(t));
    }
    assert forall|j: int| 0 <= j < b.jobs.len() implies #[trigger] b.job_wf(j) by {
        assert(st.job_wf(j));
        assert forall|i: int| 0 <= i < b.jobs[j].slots.len() implies b.kind_wf(
            (#[trigger] b.jobs[j].slots[i]).cap,
        ) by {
            assert(st.kind_wf(st.jobs[j].slots[i].cap));
        }
    }
}

/// To go on with a call that waited for a notification, or only gave up the hart, keeps
/// the kernel sound.
pub proof fn law_going_on_keeps_soundness(
    st: State,
    thread: usize,
    pending: Pending,
    after: State,
    h: Handled,
)
    requires
        st.ordered(),
        dispatch::resume_pre(st, thread, pending),
        pending is Notification || pending is Yield,
        dispatch::resume_post(st, thread, pending, after, h),
        after.wf(),
    ensures
        kept(st, after),
        after.blocked_on(thread) == st.blocked_on(thread),
{
    if let Pending::Notification(n) = pending {
        let taken = signals::word_taken(st, n);
        lemma_elsewhere(st, taken);
        lemma_word_taken(st, n);
        lemma_calm(st, taken);
        lemma_then_answered(taken, thread, after);
    } else {
        lemma_then_answered(st, thread, after);
    }
}

/// A system call of a thread that does not wait keeps the kernel sound, if it is one of
/// those that are known to; and where the call is done, the thread still does not wait.
pub proof fn law_calls_keep_soundness(st: State, thread: usize, after: State, h: Handled)
    requires
        st.ordered(),
        dispatch::syscall_pre(st, thread),
        st.blocked_on(thread) is None,
        is_settling(st, thread),
        dispatch::syscall_post(st, thread, after, h),
        after.wf(),
    ensures
        kept(st, after),
        h.pending is None ==> after.blocked_on(thread) is None,
{
    let call = SyscallNumber::of_number(st.threads[thread as int].trapframe.frame.a0);
    if call is NotificationSignal || call is NotificationWait || call is Yield {
        lemma_notification_calls(st, thread, after, h);
    } else if call is ThreadSetPriority {
        lemma_priority_calls(st, thread, after, h);
    } else if call is JobCreateThread {
        lemma_create_calls(st, thread, after, h);
    } else if call is ThreadStart {
        lemma_start_calls(st, thread, after, h);
    } else if call is ThreadSuspend || call is ThreadResume {
        lemma_suspend_calls(st, thread, after, h);
    } else {
        law_calm_calls_keep_soundness(st, thread, after, h);
    }
}

/// Once the thread has been entered from userspace, the kernel is as sound as before.
pub proof fn lemma_entered(st: State, t: usize, epc: u64)
    requires
        st.ordered(),
        t < st.threads.len(),
        interrupts::set_epc(st, t, epc).wf(),
    ensures
        kept(st, interrupts::set_epc(st, t, epc)),
        interrupts::set_epc(st, t, epc).blocked_on(t) == st.blocked_on(t),
{
    lemma_nothing(st);
    lemma_answered(st, st, t, interrupts::set_epc(st, t, epc));
}

/// What leaves threads, queues, memory and slots alone keeps the kernel sound.
pub proof fn lemma_left_alone(a: State, b: State)
    requires
        a.ordered(),
        b.wf(),
        b.threads.len() == a.threads.len(),
        forall|t: int|
            0 <= t < a.threads.len() ==> undisturbed(a.threads[t], #[trigger] b.threads[t]),
        b.queues == a.queues,
        b.sched == a.sched,
        b.mem == a.mem,
        b.jobs == a.jobs,
    ensures
        kept(a, b),
{
    lemma_calm(a, b);
}

} // verus!
