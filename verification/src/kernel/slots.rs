//! The capability tables of jobs, as threads use them.

use vstd::prelude::*;

use super::capability::captbl;
use super::capability::thread::Thread;
use super::capability::{AnyCapVal, Capability, CapabilityKind, CapabilitySlotInner, CapabilityValue};
use super::state;
use super::state::{JobView, Kernel, State};
use crate::capability::{AnyCap, CapError, CapResult, CapRights};

verus! {

/// After a slot of a job has been made to hold `slot`.
pub open spec fn filled(st: State, job: usize, captr: int, slot: CapabilitySlotInner) -> State {
    State {
        threads: super::capability::counted(st.threads, slot.cap),
        ..st.set_slots(job, st.jobs[job as int].slots.update(captr, slot))
    }
}

/// After the next slot of a job, if there is one, has been made to hold `slot`.
pub open spec fn granted(st: State, job: usize, slot: CapabilitySlotInner) -> State {
    let captr = captbl::next_slot(st.jobs[job as int].slots);
    if captr < st.jobs[job as int].slots.len() {
        filled(st, job, captr, slot)
    } else {
        st
    }
}

/// A slot with a badge and at most the given rights.
pub open spec fn limited(
    cap: CapabilityKind,
    badge: Option<u64>,
    rights: CapRights,
) -> CapabilitySlotInner {
    CapabilitySlotInner { cap, badge, rights: CapRights { bits: 7 & rights.bits } }
}

/// After a slot of a job has been emptied.
pub open spec fn emptied(st: State, job: usize, captr: int) -> State {
    let slots = st.jobs[job as int].slots;
    State {
        threads: super::capability::discounted(st.threads, slots[captr].cap),
        ..st.set_slots(
            job,
            slots.update(captr, CapabilitySlotInner::holding(CapabilityKind::Empty)),
        )
    }
}

/// To fill a slot with what exists keeps all that is referred to in existence.
pub proof fn lemma_filled(st: State, job: usize, captr: int, slot: CapabilitySlotInner)
    requires
        st.wf(),
        job < st.jobs.len(),
        0 <= captr < st.jobs[job as int].slots.len(),
        st.kind_wf(slot.cap),
    ensures
        filled(st, job, captr, slot).wf(),
{
    let slots = st.jobs[job as int].slots.update(captr, slot);
    assert(st.job_wf(job as int));
    assert forall|i: int| 0 <= i < slots.len() implies st.kind_wf((#[trigger] slots[i]).cap) by {
        if i != captr {
            assert(st.kind_wf(st.jobs[job as int].slots[i].cap));
        }
    }
    state::lemma_set_slots(st, job, slots);
    let after = st.set_slots(job, slots);
    match slot.cap {
        CapabilityKind::Thread(t) => {
            let thread = filled(st, job, captr, slot).threads[t as int];
            assert(after.thread_wf(t as int));
            state::lemma_set_thread(after, t, thread);
            assert(filled(st, job, captr, slot) =~= after.set_thread(t, thread));
        },
        _ => {
            assert(filled(st, job, captr, slot) =~= after);
        },
    }
}

/// And so does emptying a slot.
pub proof fn lemma_emptied(st: State, job: usize, captr: int)
    requires
        st.wf(),
        job < st.jobs.len(),
        0 <= captr < st.jobs[job as int].slots.len(),
    ensures
        emptied(st, job, captr).wf(),
{
    let old_slots = st.jobs[job as int].slots;
    let slots = old_slots.update(captr, CapabilitySlotInner::holding(CapabilityKind::Empty));
    assert(st.job_wf(job as int));
    assert forall|i: int| 0 <= i < slots.len() implies st.kind_wf((#[trigger] slots[i]).cap) by {
        if i != captr {
            assert(st.kind_wf(st.jobs[job as int].slots[i].cap));
        }
    }
    state::lemma_set_slots(st, job, slots);
    let after = st.set_slots(job, slots);
    assert(st.kind_wf(old_slots[captr].cap));
    match old_slots[captr].cap {
        CapabilityKind::Thread(t) => {
            let thread = emptied(st, job, captr).threads[t as int];
            assert(after.thread_wf(t as int));
            state::lemma_set_thread(after, t, thread);
            assert(emptied(st, job, captr) =~= after.set_thread(t, thread));
        },
        _ => {
            assert(emptied(st, job, captr) =~= after);
        },
    }
}

impl Kernel {
    /// Look up a slot of the capability table of a thread.
    pub(crate) fn lookup<C: Capability>(&self, t: usize, index: u64) -> (r: CapResult<
        CapabilitySlotInner,
    >)
        requires
            self@.wf(),
            t < self@.threads.len(),
        ensures
            r is Ok <==> captbl::lookup_error::<C>(self@.slots(t), index) is None,
            r matches Err(e) ==> captbl::lookup_error::<C>(self@.slots(t), index) == Some(e),
            r matches Ok(slot) ==> slot == self@.slots(t)[index as int] && C::accepts(slot.cap.ty())
                && self@.kind_wf(slot.cap),
    {
        assert(self@.thread_wf(t as int));
        let job: usize = self.threads[t].job;
        assert(self@.job_wf(job as int));
        assert(self@.jobs[job as int] == self.jobs@[job as int]@);
        match self.jobs[job].captbl.get::<C>(index) {
            Ok(slot) => {
                assert(self@.kind_wf(self@.jobs[job as int].slots[index as int].cap));
                Ok(slot.slot)
            },
            Err(e) => Err(e),
        }
    }

    /// The slot of a job that is filled next; an error if there is none.
    pub(crate) fn next_slot(&self, job: usize) -> (r: CapResult<u64>)
        requires
            self@.wf(),
            job < self@.jobs.len(),
        ensures
            ({
                let slots = self@.jobs[job as int].slots;
                let captr = captbl::next_slot(slots);
                &&& 1 <= captr
                &&& r == if captr < slots.len() {
                    Ok::<u64, CapError>(captr as u64)
                } else {
                    Err::<u64, CapError>(CapError::NotEnoughResources)
                }
                &&& r matches Ok(captr) ==> captr == captbl::next_slot(slots)
            }),
    {
        assert(self@.job_wf(job as int));
        assert(self@.jobs[job as int] == self.jobs@[job as int]@);
        proof {
            captbl::law_next_slot(self@.jobs[job as int].slots, 1);
        }
        let captr: u64 = self.jobs[job].captbl.next_slot();
        if captr < self.jobs[job].captbl.slots.len() as u64 {
            Ok(captr)
        } else {
            Err(CapError::NotEnoughResources)
        }
    }

    /// Make the next slot of a job hold a value.
    pub(crate) fn fill<T: CapabilityValue>(&mut self, job: usize, captr: u64, val: T)
        requires
            old(self)@.wf(),
            job < old(self)@.jobs.len(),
            captr == captbl::next_slot(old(self)@.jobs[job as int].slots),
            captr < old(self)@.jobs[job as int].slots.len(),
            old(self)@.kind_wf(val.kind()),
            super::capability::countable(old(self)@.threads, val.kind()),
        ensures
            final(self)@ == filled(
                old(self)@,
                job,
                captr as int,
                CapabilitySlotInner::holding(val.kind()),
            ),
            final(self)@.wf(),
    {
        proof {
            lemma_filled(
                self@,
                job,
                captr as int,
                CapabilitySlotInner::holding(val.kind()),
            );
        }
        assert(self@.jobs[job as int] == self.jobs@[job as int]@);
        if let Ok(slot) = self.jobs[job].captbl.get_or_insert_mut(captr) {
            let _ = slot.replace::<T, AnyCap>(val, &mut self.threads);
        }
        assert(self@ =~= filled(
            old(self)@,
            job,
            captr as int,
            CapabilitySlotInner::holding(val.kind()),
        ));
    }

    /// Make the next slot of a job hold a value, with a badge and at most the
    /// given rights.
    pub(crate) fn fill_limited(
        &mut self,
        job: usize,
        captr: u64,
        val: AnyCapVal,
        badge: Option<u64>,
        rights: CapRights,
    )
        requires
            old(self)@.wf(),
            job < old(self)@.jobs.len(),
            captr == captbl::next_slot(old(self)@.jobs[job as int].slots),
            captr < old(self)@.jobs[job as int].slots.len(),
            old(self)@.kind_wf(val.kind()),
            super::capability::countable(old(self)@.threads, val.kind()),
        ensures
            final(self)@ == filled(
                old(self)@,
                job,
                captr as int,
                limited(val.kind(), badge, rights),
            ),
            final(self)@.wf(),
    {
        proof {
            lemma_filled(self@, job, captr as int, limited(val.kind(), badge, rights));
        }
        assert(self@.jobs[job as int] == self.jobs@[job as int]@);
        if let Ok(slot) = self.jobs[job].captbl.get_or_insert_mut(captr) {
            let mut into = slot.replace::<AnyCapVal, AnyCap>(val, &mut self.threads);
            into.set_badge(badge);
            into.update_rights(rights);
        }
        assert(self@ =~= filled(
            old(self)@,
            job,
            captr as int,
            limited(val.kind(), badge, rights),
        ));
    }

    /// Empty a slot of a job.
    pub(crate) fn empty(&mut self, job: usize, index: u64) -> (r: CapResult<()>)
        requires
            old(self)@.wf(),
            job < old(self)@.jobs.len(),
        ensures
            ({
                let error = captbl::lookup_error::<AnyCap>(old(self)@.jobs[job as int].slots, index);
                &&& r is Ok <==> error is None
                &&& r matches Err(e) ==> error == Some(e) && final(self)@ == old(self)@
                &&& r is Ok ==> final(self)@ == emptied(old(self)@, job, index as int)
            }),
            final(self)@.wf(),
    {
        assert(self@.job_wf(job as int));
        assert(self@.jobs[job as int] == self.jobs@[job as int]@);
        proof {
            let slots = self@.jobs[job as int].slots;
            if 0 <= index < slots.len() {
                assert(self@.kind_wf(slots[index as int].cap));
                lemma_emptied(self@, job, index as int);
            }
        }
        match self.jobs[job].captbl.get_mut::<AnyCap>(index) {
            Ok(slot) => {
                let _ = slot.delete(&mut self.threads);
                assert(self@ =~= emptied(old(self)@, job, index as int));
                Ok(())
            },
            Err(e) => {
                assert(self@ =~= old(self)@);
                Err(e)
            },
        }
    }
}

/// How many of the first `n` slots refer to a thread.
pub open spec fn references_in(slots: Seq<CapabilitySlotInner>, t: usize, n: int) -> int
    decreases n,
{
    if n <= 0 {
        0
    } else {
        references_in(slots, t, n - 1) + (if slots[n - 1].cap == CapabilityKind::Thread(t) {
            1int
        } else {
            0
        })
    }
}

/// How many slots of the first `n` jobs refer to a thread.
pub open spec fn references(jobs: Seq<JobView>, t: usize, n: int) -> int
    decreases n,
{
    if n <= 0 {
        0
    } else {
        references(jobs, t, n - 1) + references_in(
            jobs[n - 1].slots,
            t,
            jobs[n - 1].slots.len() as int,
        )
    }
}

/// Whether each thread counts the slots that refer to it.
pub open spec fn refs_counted(st: State) -> bool {
    forall|t: usize|
        t < st.threads.len() ==> (#[trigger] st.threads[t as int]).slot_refcount == references(
            st.jobs,
            t,
            st.jobs.len() as int,
        )
}

proof fn lemma_references_in(
    slots: Seq<CapabilitySlotInner>,
    i: int,
    slot: CapabilitySlotInner,
    t: usize,
    n: int,
)
    requires
        0 <= i < slots.len(),
        0 <= n <= slots.len(),
    ensures
        references_in(slots.update(i, slot), t, n) == references_in(slots, t, n) + (if i < n {
            (if slot.cap == CapabilityKind::Thread(t) {
                1int
            } else {
                0
            }) - (if slots[i].cap == CapabilityKind::Thread(t) {
                1int
            } else {
                0
            })
        } else {
            0
        }),
        references_in(slots, t, n) >= 0,
        i < n && slots[i].cap == CapabilityKind::Thread(t) ==> references_in(slots, t, n) >= 1,
    decreases n,
{
    if n > 0 {
        lemma_references_in(slots, i, slot, t, n - 1);
    }
}

proof fn lemma_references(
    st: State,
    job: usize,
    i: int,
    slot: CapabilitySlotInner,
    t: usize,
    n: int,
)
    requires
        job < st.jobs.len(),
        0 <= i < st.jobs[job as int].slots.len(),
        0 <= n <= st.jobs.len(),
    ensures
        ({
            let slots = st.jobs[job as int].slots;
            let after = st.set_slots(job, slots.update(i, slot)).jobs;
            &&& references(after, t, n) == references(st.jobs, t, n) + (if job < n {
                (if slot.cap == CapabilityKind::Thread(t) {
                    1int
                } else {
                    0
                }) - (if slots[i].cap == CapabilityKind::Thread(t) {
                    1int
                } else {
                    0
                })
            } else {
                0
            })
            &&& references(st.jobs, t, n) >= 0
            &&& job < n && slots[i].cap == CapabilityKind::Thread(t) ==> references(st.jobs, t, n) >= 1
        }),
    decreases n,
{
    if n > 0 {
        lemma_references(st, job, i, slot, t, n - 1);
        let slots = st.jobs[job as int].slots;
        lemma_references_in(slots, i, slot, t, slots.len() as int);
        if n - 1 != job {
            if st.jobs[n - 1].slots.len() > 0 {
                lemma_references_in(
                    st.jobs[n - 1].slots,
                    0,
                    slot,
                    t,
                    st.jobs[n - 1].slots.len() as int,
                );
            }
        }
    }
}

/// If each thread counts the slots that refer to it, it still does after an
/// empty slot has been filled.
pub proof fn law_fill_counts_references(
    st: State,
    job: usize,
    captr: int,
    slot: CapabilitySlotInner,
)
    requires
        st.wf(),
        refs_counted(st),
        job < st.jobs.len(),
        0 <= captr < st.jobs[job as int].slots.len(),
        st.jobs[job as int].slots[captr].cap is Empty,
        super::capability::countable(st.threads, slot.cap),
    ensures
        refs_counted(filled(st, job, captr, slot)),
{
    let after = filled(st, job, captr, slot);
    assert forall|t: usize| t < after.threads.len() implies (#[trigger] after.threads[
        t as int
    ]).slot_refcount == references(after.jobs, t, after.jobs.len() as int) by {
        assert(st.threads[t as int].slot_refcount == references(
            st.jobs,
            t,
            st.jobs.len() as int,
        ));
        lemma_references(st, job, captr, slot, t, st.jobs.len() as int);
    }
}

/// And after a slot has been emptied.
pub proof fn law_delete_counts_references(st: State, job: usize, captr: int)
    requires
        st.wf(),
        refs_counted(st),
        job < st.jobs.len(),
        0 <= captr < st.jobs[job as int].slots.len(),
    ensures
        refs_counted(emptied(st, job, captr)),
{
    let after = emptied(st, job, captr);
    let empty = CapabilitySlotInner::holding(CapabilityKind::Empty);
    assert(st.job_wf(job as int));
    assert(st.kind_wf(st.jobs[job as int].slots[captr].cap));
    assert forall|t: usize| t < after.threads.len() implies (#[trigger] after.threads[
        t as int
    ]).slot_refcount == references(after.jobs, t, after.jobs.len() as int) by {
        assert(st.threads[t as int].slot_refcount == references(
            st.jobs,
            t,
            st.jobs.len() as int,
        ));
        lemma_references(st, job, captr, empty, t, st.jobs.len() as int);
    }
}

} // verus!
