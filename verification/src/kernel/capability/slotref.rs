//! References to slots of capability tables.

use vstd::prelude::*;

use core::marker::PhantomData;

use super::thread::Thread;
use super::{
    copy_hook, delete_hook, owned, AnyCapVal, CapToOwned, Capability, CapabilityKind,
    CapabilitySlotInner, CapabilityValue, Notification,
};
use crate::capability::paging::PageTable as PageTableCap;
use crate::capability::{
    AnyCap, CapRights, CapabilityType, Empty as EmptyCap, Notification as NotificationCap,
};
use crate::kernel::paging::SharedPageTable;

verus! {

/// A slot that is being read, as one of type `C`.
pub struct SlotRef<C> {
    pub slot: CapabilitySlotInner,
    pub phantom: PhantomData<C>,
}

impl<C: Capability> SlotRef<C> {
    /// The slot is of the right type.
    pub open spec fn wf(self) -> bool {
        C::accepts(self.slot.cap.ty())
    }

    /// Forget the type of the slot.
    pub fn upcast(self) -> (r: SlotRef<AnyCap>)
        ensures
            r.slot == self.slot,
    {
        SlotRef { slot: self.slot, phantom: PhantomData }
    }

    /// The badge of the slot.
    pub fn badge(&self) -> (r: Option<u64>)
        ensures
            r == self.slot.badge,
    {
        self.slot.badge
    }
}

impl SlotRef<AnyCap> {
    /// The type of the capability in the slot.
    pub fn cap_type(&self) -> (r: CapabilityType)
        ensures
            r == self.slot.cap.ty(),
    {
        self.slot.cap.cap_type()
    }

    /// The slot as one of type `C`; `None` if it is not of that type.
    pub fn downcast<C: Capability>(self) -> (r: Option<SlotRef<C>>)
        ensures
            r is Some <==> C::accepts(self.slot.cap.ty()),
            r matches Some(slot) ==> slot.slot == self.slot && slot.wf(),
    {
        if C::is_valid_type(self.slot.cap.cap_type()) {
            Some(SlotRef { slot: self.slot, phantom: PhantomData })
        } else {
            None
        }
    }
}

impl SlotRef<PageTableCap> {
    /// The page table in the slot.
    pub fn table(&self) -> (r: SharedPageTable)
        requires
            self.wf(),
        ensures
            self.slot.cap == CapabilityKind::PgTbl(r),
    {
        match self.slot.cap {
            CapabilityKind::PgTbl(table) => table,
            _ => SharedPageTable { root: 0 },
        }
    }
}

impl SlotRef<NotificationCap> {
    /// The signals of the notification in the slot that have not been read
    /// yet.
    pub fn word(&self, notifications: &Vec<Notification>) -> (r: u64)
        requires
            self.wf(),
            self.slot.cap matches CapabilityKind::Notification(n) ==> n < notifications@.len(),
        ensures
            self.slot.cap matches CapabilityKind::Notification(n) ==> r
                == notifications@[n as int].word,
    {
        match self.slot.cap {
            CapabilityKind::Notification(n) => notifications[n].word,
            _ => 0,
        }
    }
}

impl CapToOwned for SlotRef<AnyCap> {
    open spec fn held(&self) -> CapabilityKind {
        self.slot.cap
    }

    fn to_owned_cap(&self) -> (r: AnyCapVal) {
        owned(self.slot.cap)
    }
}

/// A slot that can be changed, as one of type `C`.
pub struct SlotRefMut<'a, C> {
    pub slot: &'a mut CapabilitySlotInner,
    pub phantom: PhantomData<C>,
}

impl<'a, C: Capability> SlotRefMut<'a, C> {
    /// The slot is of the right type.
    pub open spec fn wf(self) -> bool {
        C::accepts(self.slot.cap.ty())
    }

    /// Forget the type of the slot.
    pub fn upcast_mut(self) -> (r: SlotRefMut<'a, AnyCap>)
        ensures
            *r.slot == *old(self.slot),
            *final(r.slot) == *final(self.slot),
    {
        SlotRefMut { slot: self.slot, phantom: PhantomData }
    }

    /// Give the slot a badge.
    pub fn set_badge(&mut self, badge: Option<u64>)
        ensures
            *final(self).slot == (CapabilitySlotInner { badge, ..*old(self).slot }),
            *final(final(self).slot) == *final(old(self).slot),
    {
        self.slot.badge = badge;
    }

    /// Take away the rights that are not in `rights`.
    pub fn update_rights(&mut self, rights: CapRights)
        ensures
            *final(self).slot == (CapabilitySlotInner {
                rights: CapRights { bits: old(self).slot.rights.bits & rights.bits },
                ..*old(self).slot
            }),
            *final(final(self).slot) == *final(old(self).slot),
    {
        self.slot.rights = self.slot.rights.intersection(rights);
    }

    /// Empty the slot.
    pub fn delete(self, threads: &mut Vec<Thread>) -> (r: SlotRefMut<'a, EmptyCap>)
        requires
            self.slot.cap matches CapabilityKind::Thread(t) ==> t < old(threads)@.len(),
        ensures
            *r.slot == CapabilitySlotInner::holding(CapabilityKind::Empty),
            *final(r.slot) == *final(self.slot),
            final(threads)@ == super::discounted(old(threads)@, old(self.slot).cap),
    {
        delete_hook(self.slot.cap, threads);
        let slot = self.slot;
        *slot = CapabilitySlotInner {
            cap: CapabilityKind::Empty,
            badge: None,
            rights: CapRights::all(),
        };
        SlotRefMut { slot, phantom: PhantomData }
    }

    /// Exchange the contents of two slots.
    pub fn swap<D: Capability>(self, other: SlotRefMut<'a, D>) -> (r: (
        SlotRefMut<'a, D>,
        SlotRefMut<'a, C>,
    ))
        ensures
            *r.0.slot == *old(other.slot),
            *r.1.slot == *old(self.slot),
            *final(r.0.slot) == *final(self.slot),
            *final(r.1.slot) == *final(other.slot),
    {
        let this = self.slot;
        let that = other.slot;
        let held = *this;
        *this = *that;
        *that = held;
        (
            SlotRefMut { slot: this, phantom: PhantomData },
            SlotRefMut { slot: that, phantom: PhantomData },
        )
    }
}

impl<'a> SlotRefMut<'a, AnyCap> {
    /// The type of the capability in the slot.
    pub fn cap_type(&self) -> (r: CapabilityType)
        ensures
            r == old(self.slot).cap.ty(),
    {
        self.slot.cap.cap_type()
    }

    /// The slot as one of type `C`; `None` if it is not of that type.
    pub fn downcast_mut<C: Capability>(self) -> (r: Option<SlotRefMut<'a, C>>)
        ensures
            r is Some <==> C::accepts(old(self.slot).cap.ty()),
            r matches Some(slot) ==> *slot.slot == *old(self.slot),
            r matches Some(slot) ==> *final(slot.slot) == *final(self.slot),
            r is None ==> *final(self.slot) == *old(self.slot),
    {
        if C::is_valid_type(self.slot.cap.cap_type()) {
            Some(SlotRefMut { slot: self.slot, phantom: PhantomData })
        } else {
            None
        }
    }
}

impl<'a> CapToOwned for SlotRefMut<'a, AnyCap> {
    open spec fn held(&self) -> CapabilityKind {
        self.slot.cap
    }

    fn to_owned_cap(&self) -> (r: AnyCapVal) {
        owned(self.slot.cap)
    }
}

impl<'a> SlotRefMut<'a, EmptyCap> {
    /// Put a value into an empty slot, without a badge and with all rights.
    pub fn replace<T: CapabilityValue, C: Capability>(
        self,
        val: T,
        threads: &mut Vec<Thread>,
    ) -> (r: SlotRefMut<'a, C>)
        requires
            super::countable(old(threads)@, val.kind()),
        ensures
            *r.slot == CapabilitySlotInner::holding(val.kind()),
            *final(r.slot) == *final(self.slot),
            final(threads)@ == super::counted(old(threads)@, val.kind()),
    {
        let cap = val.into_kind();
        let slot = self.slot;
        *slot = CapabilitySlotInner { cap, badge: None, rights: CapRights::all() };
        copy_hook(cap, threads);
        SlotRefMut { slot, phantom: PhantomData }
    }
}

} // verus!
