//! The system calls on capabilities, memory, jobs and threads.

use vstd::prelude::*;

use crate::addr::{Identity, VirtualConst};
use crate::capability::{AnyCap, CapError, CapResult, CapRights, CapabilityType, Job as JobCap};
use crate::kernel::capability::captbl;
use crate::kernel::capability::captbl::Captbl;
use crate::kernel::capability::{
    make_badge, owned, CapabilityKind, CapabilitySlotInner, EndpointRef, JobRef, Notification,
    NotificationRef, Page,
};
use crate::kernel::ipc;
use crate::kernel::kalloc::phys;
use crate::kernel::paging;
use crate::kernel::paging::{PageTable, SharedPageTable};
use crate::kernel::physmem::{Mem, PhysicalMemory};
use crate::kernel::slots;
use crate::kernel::state::{Job, JobView, Kernel, State};
use crate::kernel::threads;

verus! {

/// How much memory is in use, in bytes.
#[derive(Copy, Clone, Debug, PartialEq, Eq, Structural)]
pub struct MemoryUsage {
    pub used: u64,
    pub total: u64,
    pub free: u64,
}

/// How much memory is in use, given how many pages are free and how many there
/// are.
pub fn sys_debug_dump_root(free: u64, total: u64) -> (r: MemoryUsage)
    requires
        free <= total,
        total * 4096 <= u64::MAX,
    ensures
        r.used == (total - free) * 4096,
        r.total == total * 4096,
        r.free == free * 4096,
{
    let used: u64 = total - free;
    MemoryUsage { used: used * 4096, total: total * 4096, free: free * 4096 }
}

/// When [`sys_debug_cap_identify`] can be called.
pub open spec fn sys_debug_cap_identify_pre(st: State, thread: usize, index: u64) -> bool {
    &&& st.wf()
    &&& thread < st.threads.len()
}

/// What [`sys_debug_cap_identify`] does.
pub open spec fn sys_debug_cap_identify_post(
    st: State,
    thread: usize,
    index: u64,
    r: CapResult<CapabilityType>,
) -> bool {
    r == match captbl::lookup_error::<AnyCap>(st.slots(thread), index) {
        Some(e) => Err::<CapabilityType, CapError>(e),
        None => Ok::<CapabilityType, CapError>(st.slots(thread)[index as int].cap.ty()),
    }
}

/// The type of the capability in a slot.
pub fn sys_debug_cap_identify(
    k: &Kernel,
    thread: usize,
    index: u64,
) -> (r: CapResult<CapabilityType>)
    requires
        sys_debug_cap_identify_pre(k@, thread, index),
    ensures
        sys_debug_cap_identify_post(k@, thread, index, r),
{
    match k.lookup::<AnyCap>(thread, index) {
        Ok(slot) => Ok(slot.cap.cap_type()),
        Err(e) => Err(e),
    }
}

/// When [`sys_debug_cap_slot`] can be called.
pub open spec fn sys_debug_cap_slot_pre(st: State, thread: usize, index: u64) -> bool {
    &&& st.wf()
    &&& thread < st.threads.len()
}

/// What [`sys_debug_cap_slot`] does.
pub open spec fn sys_debug_cap_slot_post(
    st: State,
    thread: usize,
    index: u64,
    r: CapResult<CapabilitySlotInner>,
) -> bool {
    r == match captbl::lookup_error::<AnyCap>(st.slots(thread), index) {
        Some(e) => Err::<CapabilitySlotInner, CapError>(e),
        None => Ok::<CapabilitySlotInner, CapError>(st.slots(thread)[index as int]),
    }
}

/// What a slot holds.
pub fn sys_debug_cap_slot(
    k: &Kernel,
    thread: usize,
    index: u64,
) -> (r: CapResult<CapabilitySlotInner>)
    requires
        sys_debug_cap_slot_pre(k@, thread, index),
    ensures
        sys_debug_cap_slot_post(k@, thread, index, r),
{
    k.lookup::<AnyCap>(thread, index)
}

/// The bytes of memory from a physical address on.
pub open spec fn bytes_at(mem: Mem, pa: int, len: int) -> Seq<u8> {
    Seq::new(len as nat, |i: int| mem.byte(pa + i))
}

/// Read bytes of memory from a physical address on.
pub(crate) fn read_bytes(mem: &PhysicalMemory, pa: u64, len: u64) -> (r: Vec<u8>)
    requires
        mem@.wf(),
        mem@.has_bytes(pa as int, len as int),
    ensures
        r@ == bytes_at(mem@, pa as int, len as int),
{
    let mut bytes: Vec<u8> = Vec::new();
    let mut i: u64 = 0;
    while i < len
        invariant
            i <= len,
            mem@.wf(),
            mem@.has_bytes(pa as int, len as int),
            bytes@ == bytes_at(mem@, pa as int, i as int),
        decreases len - i,
    {
        bytes.push(mem.read_byte(pa + i));
        i += 1;
        assert(bytes@ =~= bytes_at(mem@, pa as int, i as int));
    }
    assert(bytes@ =~= bytes_at(mem@, pa as int, len as int));
    bytes
}

/// Calls [`String::from_utf8`]: the text that bytes encode in UTF-8, or `None`
/// if they encode none.
#[verifier::external_body]
pub(crate) fn decode_utf8(bytes: Vec<u8>) -> (r: Option<String>)
    ensures
        r is Some <==> vstd::utf8::valid_utf8(bytes@),
        r matches Some(text) ==> text@ == vstd::utf8::decode_utf8(bytes@),
{
    String::from_utf8(bytes).ok()
}

/// When [`sys_debug_print`] can be called.
pub open spec fn sys_debug_print_pre(
    st: State,
    thread: usize,
    str_ptr: u64,
    str_len: u64,
) -> bool {
    &&& st.wf()
    &&& thread < st.threads.len()
    &&& ipc::walkable(st, thread)
    &&& st.threads[thread as int].private.root_pgtbl is Some
    &&& ({
        let root = st.threads[thread as int].private.root_pgtbl->0.root as int;
        let pa = paging::walk_addr(st.mem, root, str_ptr);
        &&& paging::walk_spec(st.mem, root, str_ptr) is Some
        &&& st.mem.has_bytes(pa, str_len as int)
        &&& vstd::utf8::valid_utf8(bytes_at(st.mem, pa, str_len as int))
    })
}

/// What [`sys_debug_print`] does.
pub open spec fn sys_debug_print_post(
    st: State,
    thread: usize,
    str_ptr: u64,
    str_len: u64,
    r: String,
) -> bool {
    let root = st.threads[thread as int].private.root_pgtbl->0.root as int;
    let pa = paging::walk_addr(st.mem, root, str_ptr);
    r@ == vstd::utf8::decode_utf8(bytes_at(st.mem, pa, str_len as int))
}

/// The text at an address of a thread, to be printed.
pub fn sys_debug_print(
    k: &Kernel,
    thread: usize,
    str_ptr: VirtualConst<u8, Identity>,
    str_len: u64,
) -> (r: String)
    requires
        sys_debug_print_pre(k@, thread, str_ptr@, str_len),
    ensures
        sys_debug_print_post(k@, thread, str_ptr@, str_len, r),
{
    if let Some(table) = k.threads[thread].private.root_pgtbl {
        if let Some((pa, _)) = table.walk(&k.mem, str_ptr) {
            let bytes = read_bytes(&k.mem, pa.into_usize(), str_len);
            if let Some(text) = decode_utf8(bytes) {
                return text;
            }
        }
    }
    String::new()
}

/// When [`sys_grant`] can be called.
pub open spec fn sys_grant_pre(
    st: State,
    thread: usize,
    from_index: u64,
    rights: CapRights,
    badge: u64,
) -> bool {
    &&& st.wf()
    &&& thread < st.threads.len()
    &&& captbl::lookup_error::<AnyCap>(st.slots(thread), from_index) is None
        ==> crate::kernel::capability::countable(
        st.threads,
        st.slots(thread)[from_index as int].cap,
    )
}

/// What [`sys_grant`] does.
pub open spec fn sys_grant_post(
    st: State,
    thread: usize,
    from_index: u64,
    rights: CapRights,
    badge: u64,
    after: State,
    r: CapResult<u64>,
) -> bool {
    let slots = st.slots(thread);
    let captr = captbl::next_slot(slots);
    match captbl::lookup_error::<AnyCap>(slots, from_index) {
        Some(e) => r == Err::<u64, CapError>(e) && after == st,
        None => if captr >= slots.len() {
            r == Err::<u64, CapError>(CapError::NotEnoughResources) && after == st
        } else {
            &&& r == Ok::<u64, CapError>(captr as u64)
            &&& after == slots::filled(
                st,
                st.threads[thread as int].job,
                captr,
                slots::limited(
                    slots[from_index as int].cap,
                    crate::kernel::capability::badge_of(badge),
                    rights,
                ),
            )
        },
    }
}

/// Copy the capability of a slot to the next slot, with a badge and at most the
/// given rights. Returns the captr of the copy.
pub fn sys_grant(
    k: &mut Kernel,
    thread: usize,
    from_index: u64,
    rights: CapRights,
    badge: u64,
) -> (r: CapResult<u64>)
    requires
        sys_grant_pre(old(k)@, thread, from_index, rights, badge),
    ensures
        sys_grant_post(old(k)@, thread, from_index, rights, badge, final(k)@, r),
        final(k)@.wf(),
        final(k)@.threads.len() >= old(k)@.threads.len(),
{
    let from = match k.lookup::<AnyCap>(thread, from_index) {
        Ok(slot) => slot,
        Err(e) => {
            return Err(e);
        },
    };
    assert(k@.thread_wf(thread as int));
    let job: usize = k.threads[thread].job;
    let captr: u64 = match k.next_slot(job) {
        Ok(captr) => captr,
        Err(e) => {
            return Err(e);
        },
    };
    k.fill_limited(job, captr, owned(from.cap), make_badge(badge), rights);
    Ok(captr)
}

/// When [`sys_delete`] can be called.
pub open spec fn sys_delete_pre(st: State, thread: usize, index: u64) -> bool {
    &&& st.wf()
    &&& thread < st.threads.len()
}

/// What [`sys_delete`] does.
pub open spec fn sys_delete_post(
    st: State,
    thread: usize,
    index: u64,
    after: State,
    r: CapResult<()>,
) -> bool {
    match captbl::lookup_error::<AnyCap>(st.slots(thread), index) {
        Some(e) => r == Err::<(), CapError>(e) && after == st,
        None => {
            &&& r == Ok::<(), CapError>(())
            &&& after == slots::emptied(
                st,
                st.threads[thread as int].job,
                index as int,
            )
        },
    }
}

/// Empty a slot.
pub fn sys_delete(k: &mut Kernel, thread: usize, index: u64) -> (r: CapResult<()>)
    requires
        sys_delete_pre(old(k)@, thread, index),
    ensures
        sys_delete_post(old(k)@, thread, index, final(k)@, r),
        final(k)@.wf(),
        final(k)@.threads.len() >= old(k)@.threads.len(),
{
    assert(k@.thread_wf(thread as int));
    let job: usize = k.threads[thread].job;
    match k.empty(job, index) {
        Ok(_) => Ok(()),
        Err(e) => Err(e),
    }
}

/// The copy of a capability has no more rights than were asked for, and no more
/// than there are.
pub proof fn law_grant_limits_rights(cap: CapabilityKind, badge: Option<u64>, rights: CapRights)
    ensures
        slots::limited(cap, badge, rights).rights.wf(),
        slots::limited(cap, badge, rights).rights.bits & rights.bits == slots::limited(
            cap,
            badge,
            rights,
        ).rights.bits,
{
    let bits = rights.bits;
    assert(7 & bits < 8 && (7 & bits) & bits == 7 & bits) by (bit_vector);
}

/// What has been granted can be looked up by the captr that was returned.
pub proof fn law_granted_is_found(st: State, job: usize, slot: CapabilitySlotInner)
    requires
        st.wf(),
        job < st.jobs.len(),
        captbl::next_slot(st.jobs[job as int].slots) < st.jobs[job as int].slots.len(),
        st.jobs[job as int].slots.len() <= u64::MAX,
    ensures
        ({
            let captr = captbl::next_slot(st.jobs[job as int].slots);
            let after = slots::filled(st, job, captr, slot).jobs[job as int].slots;
            &&& captbl::lookup_error::<AnyCap>(after, captr as u64) is None
            &&& after[captr] == slot
            &&& forall|i: int|
                0 <= i < after.len() && i != captr ==> #[trigger] after[i]
                    == st.jobs[job as int].slots[i]
        }),
{
    assert(st.job_wf(job as int));
    captbl::law_next_slot(st.jobs[job as int].slots, 1);
}

/// After a slot has been deleted it is empty, and the others are as they were.
pub proof fn law_deleted_is_empty(st: State, job: usize, captr: int)
    requires
        job < st.jobs.len(),
        0 <= captr < st.jobs[job as int].slots.len(),
    ensures
        ({
            let after = slots::emptied(st, job, captr).jobs[job as int].slots;
            &&& after[captr].cap is Empty
            &&& forall|i: int|
                0 <= i < after.len() && i != captr ==> #[trigger] after[i]
                    == st.jobs[job as int].slots[i]
        }),
{
}

/// After an object has been made, of which `made` is the state and `cap` what
/// refers to it, and the next slot of a thread has been made to hold it.
pub open spec fn created(st: State, thread: usize, made: State, cap: CapabilityKind) -> (
    State,
    Result<u64, CapError>,
) {
    let job = st.threads[thread as int].job;
    let captr = captbl::next_slot(st.slots(thread));
    if captr < st.slots(thread).len() {
        (
            slots::filled(made, job, captr, CapabilitySlotInner::holding(cap)),
            Ok(captr as u64),
        )
    } else {
        (st, Err(CapError::NotEnoughResources))
    }
}

/// After a notification has been made.
pub open spec fn notification_made(st: State) -> State {
    State {
        queues: st.queues.push(super::endpoints::empty_queue()),
        notifications: st.notifications.push(
            Notification { word: 0, wait_queue: st.queues.len() as usize },
        ),
        ..st
    }
}

/// When [`sys_notification_create`] can be called.
pub open spec fn sys_notification_create_pre(st: State, thread: usize) -> bool {
    &&& st.wf()
    &&& thread < st.threads.len()
}

/// What [`sys_notification_create`] does.
pub open spec fn sys_notification_create_post(
    st: State,
    thread: usize,
    after: State,
    r: CapResult<u64>,
) -> bool {
    (after, r) == created(
        st,
        thread,
        notification_made(st),
        CapabilityKind::Notification(st.notifications.len() as usize),
    )
}

/// Make a notification. Returns its captr.
pub fn sys_notification_create(k: &mut Kernel, thread: usize) -> (r: CapResult<u64>)
    requires
        sys_notification_create_pre(old(k)@, thread),
    ensures
        sys_notification_create_post(old(k)@, thread, final(k)@, r),
        final(k)@.wf(),
        final(k)@.threads.len() >= old(k)@.threads.len(),
{
    assert(k@.thread_wf(thread as int));
    let job: usize = k.threads[thread].job;
    let captr: u64 = match k.next_slot(job) {
        Ok(captr) => captr,
        Err(e) => {
            return Err(e);
        },
    };
    let wait_queue: usize = k.make_queue();
    let ghost st = k@;
    let n: usize = k.notifications.len();
    k.notifications.push(Notification { word: 0, wait_queue });
    assert(k@ =~= notification_made(old(k)@));
    proof {
        let after = k@;
        assert forall|i: int| 0 <= i < after.threads.len() implies #[trigger] after.thread_wf(
            i,
        ) by {
            assert(st.thread_wf(i));
        }
        assert forall|j: int| 0 <= j < after.jobs.len() implies #[trigger] after.job_wf(j) by {
            assert(st.job_wf(j));
            assert forall|i: int| 0 <= i < after.jobs[j].slots.len() implies after.kind_wf(
                (#[trigger] after.jobs[j].slots[i]).cap,
            ) by {
                assert(st.kind_wf(st.jobs[j].slots[i].cap));
            }
        }
        assert forall|i: int| 0 <= i < after.notifications.len() implies (
        #[trigger] after.notifications[i]).wait_queue < after.queues.len() by {
            if i < n {
                assert(after.notifications[i] == st.notifications[i]);
            }
        }
    }
    k.fill(job, captr, NotificationRef(n));
    Ok(captr)
}

/// When [`sys_endpoint_create`] can be called.
pub open spec fn sys_endpoint_create_pre(st: State, thread: usize) -> bool {
    &&& st.wf()
    &&& thread < st.threads.len()
    &&& st.queues.len() < usize::MAX
}

/// What [`sys_endpoint_create`] does.
pub open spec fn sys_endpoint_create_post(
    st: State,
    thread: usize,
    after: State,
    r: CapResult<u64>,
) -> bool {
    (after, r) == created(
        st,
        thread,
        super::endpoints::endpoint_made(st),
        CapabilityKind::Endpoint(st.endpoints.len() as usize),
    )
}

/// Make an endpoint. Returns its captr.
pub fn sys_endpoint_create(k: &mut Kernel, thread: usize) -> (r: CapResult<u64>)
    requires
        sys_endpoint_create_pre(old(k)@, thread),
    ensures
        sys_endpoint_create_post(old(k)@, thread, final(k)@, r),
        final(k)@.wf(),
        final(k)@.threads.len() >= old(k)@.threads.len(),
{
    assert(k@.thread_wf(thread as int));
    let job: usize = k.threads[thread].job;
    let captr: u64 = match k.next_slot(job) {
        Ok(captr) => captr,
        Err(e) => {
            return Err(e);
        },
    };
    let ep: usize = k.make_endpoint();
    k.fill(job, captr, EndpointRef(ep));
    Ok(captr)
}

/// The base-2 logarithm of the number of slots of a job's capability table.
pub const JOB_SLOTS_LOG2: u8 = 16;

/// How many jobs there can be from the root of the tree of jobs to any one,
/// both counted.
pub const MAX_JOB_DEPTH: u64 = 32;

/// The depth of a job that is made in another one, or of one that is not.
pub open spec fn job_depth(st: State, parent: Option<usize>) -> int {
    match parent {
        Some(p) => st.jobs[p as int].depth + 1,
        None => 1,
    }
}

/// After a job has been made.
pub open spec fn job_made(st: State, parent: Option<usize>) -> State {
    State {
        jobs: st.jobs.push(
            JobView {
                slots: Seq::new(
                    0x1_0000,
                    |i: int| CapabilitySlotInner::holding(CapabilityKind::Empty),
                ),
                parent,
                depth: job_depth(st, parent) as u64,
            },
        ),
        ..st
    }
}

impl Job {
    /// Make a job, whose parent is another one. `None` if the tree of jobs would
    /// become too deep.
    pub fn new(k: &mut Kernel, parent: Option<usize>) -> (r: Option<usize>)
        requires
            old(k)@.wf(),
            parent matches Some(p) ==> p < old(k)@.jobs.len(),
        ensures
            r is Some <==> job_depth(old(k)@, parent) <= MAX_JOB_DEPTH,
            r is None ==> final(k)@ == old(k)@,
            r matches Some(j) ==> j == old(k)@.jobs.len() && final(k)@ == job_made(
                old(k)@,
                parent,
            ),
            final(k)@.wf(),
    {
        let ghost st = k@;
        let above: u64 = match parent {
            Some(p) => {
                assert(k@.jobs[p as int] == k.jobs@[p as int]@);
                k.jobs[p].depth
            },
            None => 0,
        };
        if above >= MAX_JOB_DEPTH {
            return None;
        }
        let captbl = Captbl::new(JOB_SLOTS_LOG2);
        proof {
            vstd::arithmetic::power2::lemma2_to64();
            assert(captbl@.len() == 0x1_0000);
        }
        let job = Job { captbl, parent, depth: above + 1 };
        let j: usize = k.jobs.len();
        k.jobs.push(job);
        proof {
            let after = k@;
            assert(after.jobs[j as int].slots =~= job_made(st, parent).jobs[j as int].slots);
            assert(after =~= job_made(st, parent));
            assert forall|i: int| 0 <= i < after.threads.len() implies #[trigger] after.thread_wf(
                i,
            ) by {
                assert(st.thread_wf(i));
            }
            assert forall|n: int| 0 <= n < after.jobs.len() implies #[trigger] after.job_wf(n) by {
                if n < j {
                    assert(st.job_wf(n));
                    assert(after.jobs[n] == st.jobs[n]);
                }
                assert forall|i: int| 0 <= i < after.jobs[n].slots.len() implies after.kind_wf(
                    (#[trigger] after.jobs[n].slots[i]).cap,
                ) by {
                    if n < j {
                        assert(st.kind_wf(st.jobs[n].slots[i].cap));
                    }
                }
            }
        }
        Some(j)
    }
}

/// The job in a slot of a thread, or the error of looking it up.
pub open spec fn job_at(st: State, t: usize, index: u64) -> Result<usize, CapError> {
    match captbl::lookup_error::<JobCap>(st.slots(t), index) {
        Some(e) => Err(e),
        None => match st.slots(t)[index as int].cap {
            CapabilityKind::Job(j) => Ok(j),
            _ => Err(CapError::InvalidType),
        },
    }
}

/// When [`sys_job_create`] can be called.
pub open spec fn sys_job_create_pre(st: State, thread: usize, parent: u64) -> bool {
    &&& st.wf()
    &&& thread < st.threads.len()
}

/// What [`sys_job_create`] does.
pub open spec fn sys_job_create_post(
    st: State,
    thread: usize,
    parent: u64,
    after: State,
    r: CapResult<u64>,
) -> bool {
    match job_at(st, thread, parent) {
        Err(e) => r == Err::<u64, CapError>(e) && after == st,
        Ok(p) => if captbl::next_slot(st.slots(thread)) < st.slots(thread).len()
            && job_depth(st, Some(p)) > MAX_JOB_DEPTH {
            r == Err::<u64, CapError>(CapError::InvalidOperation) && after == st
        } else {
            (after, r) == created(
                st,
                thread,
                job_made(st, Some(p)),
                CapabilityKind::Job(st.jobs.len() as usize),
            )
        },
    }
}

/// Make a job in the job of a slot. Returns its captr.
pub fn sys_job_create(k: &mut Kernel, thread: usize, parent: u64) -> (r: CapResult<u64>)
    requires
        sys_job_create_pre(old(k)@, thread, parent),
    ensures
        sys_job_create_post(old(k)@, thread, parent, final(k)@, r),
        final(k)@.wf(),
        final(k)@.threads.len() >= old(k)@.threads.len(),
{
    let parent: usize = match k.lookup::<JobCap>(thread, parent) {
        Ok(slot) => match slot.cap {
            CapabilityKind::Job(j) => j,
            _ => {
                return Err(CapError::InvalidType);
            },
        },
        Err(e) => {
            return Err(e);
        },
    };
    assert(k@.thread_wf(thread as int));
    let job: usize = k.threads[thread].job;
    let captr: u64 = match k.next_slot(job) {
        Ok(captr) => captr,
        Err(e) => {
            return Err(e);
        },
    };
    match Job::new(k, Some(parent)) {
        Some(j) => {
            k.fill(job, captr, JobRef(j));
            Ok(captr)
        },
        None => Err(CapError::InvalidOperation),
    }
}

/// No job is deeper in the tree of jobs than the limit, if none was before.
pub proof fn law_job_depth(st: State, parent: Option<usize>)
    requires
        parent matches Some(p) ==> p < st.jobs.len(),
        job_depth(st, parent) <= MAX_JOB_DEPTH,
        forall|j: int|
            0 <= j < st.jobs.len() ==> (#[trigger] st.jobs[j]).depth <= MAX_JOB_DEPTH,
    ensures
        forall|j: int|
            0 <= j < job_made(st, parent).jobs.len() ==> (#[trigger] job_made(
                st,
                parent,
            ).jobs[j]).depth <= MAX_JOB_DEPTH,
{
    let after = job_made(st, parent).jobs;
    assert forall|j: int| 0 <= j < after.len() implies (#[trigger] after[j]).depth
        <= MAX_JOB_DEPTH by {
        if j < st.jobs.len() {
            assert(after[j] == st.jobs[j]);
        }
    }
}

/// Whether pages of a size, given as its base-2 logarithm, can be made.
pub open spec fn is_page_size(size_log2: u8) -> bool {
    size_log2 == 12 || size_log2 == 21 || size_log2 == 30
}

/// The number of frames of a page of a size that can be made.
pub open spec fn page_frames(size_log2: u8) -> int {
    if size_log2 == 12 {
        1
    } else if size_log2 == 21 {
        512
    } else {
        0x4_0000
    }
}

/// The number of frames from the frame `next` on that are left out so that a
/// page begins at a multiple of its size.
pub open spec fn page_gap(next: int, size_log2: u8) -> int {
    if size_log2 == 12 {
        0
    } else if size_log2 == 21 {
        (512 - next % 512) % 512
    } else {
        (0x4_0000 - next % 0x4_0000) % 0x4_0000
    }
}

/// When [`sys_page_create`] can be called.
pub open spec fn sys_page_create_pre(st: State, thread: usize, size_log2: u64) -> bool {
    let size = (size_log2 % 256) as u8;
    &&& st.wf()
    &&& thread < st.threads.len()
    &&& is_page_size(size) && captbl::next_slot(st.slots(thread)) < st.slots(thread).len()
        ==> st.mem.available() >= page_gap(st.mem.next(), size) + page_frames(size)
}

/// What [`sys_page_create`] does.
pub open spec fn sys_page_create_post(
    st: State,
    thread: usize,
    size_log2: u64,
    after: State,
    r: CapResult<u64>,
) -> bool {
    let size = (size_log2 % 256) as u8;
    let gap = page_gap(st.mem.next(), size);
    let page = Page {
        phys: ((st.mem.next() + gap) * 4096) as u64,
        size_log2: size,
        is_device: false,
    };
    if !is_page_size(size) {
        r == Err::<u64, CapError>(CapError::InvalidSize) && after == st
    } else {
        (after, r) == created(
            st,
            thread,
            (State { mem: st.mem.grow_by(gap + page_frames(size)), ..st }),
            CapabilityKind::Page(page),
        )
    }
}

/// A page begins at a multiple of its size.
pub proof fn law_pages_are_aligned(
    st: State,
    thread: usize,
    size_log2: u64,
    after: State,
    r: CapResult<u64>,
)
    requires
        sys_page_create_pre(st, thread, size_log2),
        sys_page_create_post(st, thread, size_log2, after, r),
        st.slots(thread).len() <= u64::MAX,
        r is Ok,
    ensures
        after.slots(thread)[r->Ok_0 as int].cap matches CapabilityKind::Page(page) && page.phys
            % super::thread_calls::bytes_of_log2(page.size_log2) == 0,
{
    captbl::law_next_slot(st.slots(thread), 1);
    assert(st.thread_wf(thread as int));
    let size = (size_log2 % 256) as u8;
    let gap = page_gap(st.mem.next(), size);
    let phys = (st.mem.next() + gap) * 4096;
    let captr = r->Ok_0 as int;
    assert(captr == captbl::next_slot(st.slots(thread)));
    assert(after.threads[thread as int].job == st.threads[thread as int].job);
    assert(after.slots(thread)[captr].cap == CapabilityKind::Page(
        Page { phys: phys as u64, size_log2: size, is_device: false },
    ));
    assert(st.mem.next() + gap <= st.mem.first + st.mem.limit);
    if size == 21 {
        assert((st.mem.next() + gap) % 512 == 0);
        assert(phys % 0x20_0000 == 0);
    } else if size == 30 {
        assert((st.mem.next() + gap) % 0x4_0000 == 0);
        assert(phys % 0x4000_0000 == 0);
    }
}

/// Make a page of a size, given as its base-2 logarithm modulo 256. Returns its
/// captr.
pub fn sys_page_create(k: &mut Kernel, thread: usize, size_log2: u64) -> (r: CapResult<u64>)
    requires
        sys_page_create_pre(old(k)@, thread, size_log2),
    ensures
        sys_page_create_post(old(k)@, thread, size_log2, final(k)@, r),
        final(k)@.wf(),
        final(k)@.threads.len() >= old(k)@.threads.len(),
{
    let size: u8 = (size_log2 % 256) as u8;
    if size != 12 && size != 21 && size != 30 {
        return Err(CapError::InvalidSize);
    }
    assert(k@.thread_wf(thread as int));
    let job: usize = k.threads[thread].job;
    let captr: u64 = match k.next_slot(job) {
        Ok(captr) => captr,
        Err(e) => {
            return Err(e);
        },
    };
    let next: u64 = k.mem.next_frame();
    let (gap, frames): (u64, u64) = if size == 12 {
        (0, 1)
    } else if size == 21 {
        ((512 - next % 512) % 512, 512)
    } else {
        ((0x4_0000 - next % 0x4_0000) % 0x4_0000, 0x4_0000)
    };
    let ghost st = k@;
    let first: u64 = k.mem.allocate_run(gap + frames);
    proof {
        ipc::lemma_set_mem(st, k@.mem);
    }
    k.fill(job, captr, Page::new((first + gap) * 4096, size));
    Ok(captr)
}

/// When [`sys_pgtbl_create`] can be called.
pub open spec fn sys_pgtbl_create_pre(st: State, thread: usize) -> bool {
    &&& st.wf()
    &&& thread < st.threads.len()
    &&& captbl::next_slot(st.slots(thread)) < st.slots(thread).len() ==> st.mem.available() > 0
}

/// What [`sys_pgtbl_create`] does.
pub open spec fn sys_pgtbl_create_post(
    st: State,
    thread: usize,
    after: State,
    r: CapResult<u64>,
) -> bool {
    (after, r) == created(
        st,
        thread,
        (State { mem: st.mem.grow(), ..st }),
        CapabilityKind::PgTbl(SharedPageTable { root: st.mem.next() as u64 }),
    )
}

/// Make a page table that maps nothing. Returns its captr.
pub fn sys_pgtbl_create(k: &mut Kernel, thread: usize) -> (r: CapResult<u64>)
    requires
        sys_pgtbl_create_pre(old(k)@, thread),
    ensures
        sys_pgtbl_create_post(old(k)@, thread, final(k)@, r),
        final(k)@.wf(),
        final(k)@.threads.len() >= old(k)@.threads.len(),
{
    assert(k@.thread_wf(thread as int));
    let job: usize = k.threads[thread].job;
    let captr: u64 = match k.next_slot(job) {
        Ok(captr) => captr,
        Err(e) => {
            return Err(e);
        },
    };
    let ghost st = k@;
    let table = SharedPageTable::from_inner(PageTable::new(&mut k.mem));
    proof {
        ipc::lemma_set_mem(st, k@.mem);
    }
    k.fill(job, captr, table);
    Ok(captr)
}

} // verus!
