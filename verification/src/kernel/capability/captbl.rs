//! Capability tables.

use vstd::prelude::*;

use core::marker::PhantomData;

use super::slotref::{SlotRef, SlotRefMut};
use crate::kernel::sync::arc_like::ArcLike;
use super::{Capability, CapabilityKind, CapabilitySlotInner};
use crate::capability::{CapError, CapResult, Empty as EmptyCap};

verus! {

/// A capability table: `2^n` slots, of which the first one is its header.
pub struct Captbl {
    pub slots: Vec<CapabilitySlotInner>,
}

/// The header of a capability table.
#[derive(Copy, Clone, Debug, PartialEq, Eq, Structural)]
pub struct CaptblHeader {
    /// The number of slots, as a power of two.
    pub n_slots_log2: u8,
    /// How many references to the table there are.
    pub slot_rc: u64,
}

impl ArcLike for CaptblHeader {
    open spec fn count(&self) -> u64 {
        self.slot_rc
    }

    open spec fn referent(&self) -> int {
        self.n_slots_log2 as int
    }

    fn refcount(&self) -> (r: u64) {
        self.slot_rc
    }

    fn set_refcount(&mut self, n: u64) {
        self.slot_rc = n;
    }
}

/// The least index from `i` on whose slot is empty; the length of the table if
/// there is none.
pub open spec fn first_empty(slots: Seq<CapabilitySlotInner>, i: int) -> int
    decreases slots.len() - i,
{
    if i >= slots.len() {
        slots.len() as int
    } else if slots[i].cap is Empty {
        i
    } else {
        first_empty(slots, i + 1)
    }
}

/// The index of the slot that is filled next.
pub open spec fn next_slot(slots: Seq<CapabilitySlotInner>) -> int {
    first_empty(slots, 1)
}

/// What looking up the slot at `index` as one of type `C` yields: the error, or
/// `None` if the slot is there and of that type.
pub open spec fn lookup_error<C: Capability>(
    slots: Seq<CapabilitySlotInner>,
    index: u64,
) -> Option<CapError> {
    if index == 0 || index >= slots.len() {
        Some(CapError::NotPresent)
    } else if !C::accepts(slots[index as int].cap.ty()) {
        Some(CapError::InvalidType)
    } else {
        None
    }
}

impl Captbl {
    /// What the slots hold.
    pub open spec fn view(&self) -> Seq<CapabilitySlotInner> {
        self.slots@
    }

    /// A table of `2^n_slots_log2` empty slots.
    pub fn new(n_slots_log2: u8) -> (r: Self)
        requires
            0 < n_slots_log2 < 32,
        ensures
            r@.len() == vstd::arithmetic::power2::pow2(n_slots_log2 as nat),
            forall|i: int|
                0 <= i < r@.len() ==> #[trigger] r@[i] == CapabilitySlotInner::holding(
                    CapabilityKind::Empty,
                ),
    {
        proof {
            vstd::arithmetic::power2::lemma2_to64();
            vstd::arithmetic::power2::lemma_pow2_strictly_increases(n_slots_log2 as nat, 32);
            vstd::bits::lemma_u32_shl_is_mul(1, n_slots_log2 as u32);
        }
        let n_slots: u32 = 1u32 << (n_slots_log2 as u32);
        let mut slots: Vec<CapabilitySlotInner> = Vec::new();
        let mut i: u32 = 0;
        while i < n_slots
            invariant
                i <= n_slots,
                slots@.len() == i,
                forall|j: int|
                    0 <= j < i ==> #[trigger] slots@[j] == CapabilitySlotInner::holding(
                        CapabilityKind::Empty,
                    ),
            decreases n_slots - i,
        {
            slots.push(CapabilitySlotInner::default());
            i += 1;
        }
        Captbl { slots }
    }

    /// Look up a slot, to read it.
    pub fn get<C: Capability>(&self, index: u64) -> (r: CapResult<SlotRef<C>>)
        ensures
            r is Ok <==> lookup_error::<C>(self@, index) is None,
            r matches Err(e) ==> lookup_error::<C>(self@, index) == Some(e),
            r matches Ok(slot) ==> slot.slot == self@[index as int] && slot.wf(),
    {
        if index == 0 {
            return Err(CapError::NotPresent);
        }
        if index >= self.slots.len() as u64 {
            return Err(CapError::NotPresent);
        }
        let slot = self.slots[index as usize];
        if !C::is_valid_type(slot.cap.cap_type()) {
            return Err(CapError::InvalidType);
        }
        Ok(SlotRef { slot, phantom: PhantomData })
    }

    /// Look up a slot, to change it.
    pub fn get_mut<'a, C: Capability>(&'a mut self, index: u64) -> (r: CapResult<SlotRefMut<'a, C>>)
        ensures
            r is Ok <==> lookup_error::<C>(old(self)@, index) is None,
            r matches Err(e) ==> lookup_error::<C>(old(self)@, index) == Some(e) && final(self)@
                == old(self)@,
            r matches Ok(slot) ==> *slot.slot == old(self)@[index as int] && C::accepts(
                slot.slot.cap.ty(),
            ) && final(self)@ == old(self)@.update(index as int, *final(slot.slot)),
    {
        if index == 0 {
            return Err(CapError::NotPresent);
        }
        if index >= self.slots.len() as u64 {
            return Err(CapError::NotPresent);
        }
        if !C::is_valid_type(self.slots[index as usize].cap.cap_type()) {
            return Err(CapError::InvalidType);
        }
        Ok(SlotRefMut { slot: &mut self.slots[index as usize], phantom: PhantomData })
    }

    /// The index of the slot that is filled next.
    pub fn next_slot(&self) -> (r: u64)
        requires
            self@.len() > 0,
        ensures
            r == next_slot(self@),
    {
        let mut i: usize = 1;
        while i < self.slots.len()
            invariant
                1 <= i <= self@.len(),
                first_empty(self@, 1) == first_empty(self@, i as int),
            decreases self@.len() - i,
        {
            match self.slots[i].cap {
                CapabilityKind::Empty => {
                    return i as u64;
                },
                _ => {},
            }
            i += 1;
        }
        i as u64
    }

    /// The empty slot at an index that [`Self::next_slot`] gave.
    pub fn get_or_insert_mut<'a>(&'a mut self, index: u64) -> (r: CapResult<
        SlotRefMut<'a, EmptyCap>,
    >)
        requires
            index == next_slot(old(self)@),
        ensures
            r is Ok <==> index < old(self)@.len(),
            r matches Err(e) ==> e == CapError::NotEnoughResources && final(self)@ == old(self)@,
            r matches Ok(slot) ==> *slot.slot == old(self)@[index as int] && slot.slot.cap is Empty
                && final(self)@ == old(self)@.update(index as int, *final(slot.slot)),
    {
        if index >= self.slots.len() as u64 {
            return Err(CapError::NotEnoughResources);
        }
        proof {
            law_next_slot(self@, 1);
        }
        Ok(SlotRefMut { slot: &mut self.slots[index as usize], phantom: PhantomData })
    }
}

/// The slot that is filled next is empty, and none before it, from `i` on, is.
pub proof fn law_next_slot(slots: Seq<CapabilitySlotInner>, i: int)
    requires
        0 <= i <= slots.len(),
    ensures
        i <= first_empty(slots, i) <= slots.len(),
        first_empty(slots, i) < slots.len() ==> slots[first_empty(slots, i)].cap is Empty,
        forall|j: int| i <= j < first_empty(slots, i) ==> !(#[trigger] slots[j].cap is Empty),
    decreases slots.len() - i,
{
    if i < slots.len() && !(slots[i].cap is Empty) {
        law_next_slot(slots, i + 1);
    }
}

} // verus!
