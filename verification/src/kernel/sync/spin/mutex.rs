//! A lock that one hart can hold.

use vstd::prelude::*;

use crate::kernel::registers;
use crate::kernel::registers::{Hart, InterruptDisabler};

verus! {

/// A Mutex backed by a spin-lock.
///
/// Locks are to be released in the opposite order in which they were taken, and
/// interrupts are to stay off while one is held: otherwise an interrupt may come
/// in between, and wait for a lock that is held.
pub struct SpinMutex<T> {
    pub data: T,
    /// The number of the hart that holds the lock and one, or 0 if none does.
    pub locked: u64,
}

/// What comes of trying to take a lock.
#[derive(Copy, Clone, Debug, PartialEq, Eq, Structural)]
pub enum Attempt {
    /// The lock is taken.
    Taken,
    /// Another hart holds the lock.
    Held,
    /// This hart holds the lock itself, and would wait forever.
    Deadlock,
}

/// The lock word with which a hart holds a mutex.
pub open spec fn holder(hartid: u64) -> u64 {
    (hartid + 1) as u64
}

/// What comes of a hart trying to take a mutex with the given lock word.
pub open spec fn attempt_spec(word: u64, hartid: u64) -> Attempt {
    if word == 0 {
        Attempt::Taken
    } else if word == holder(hartid) {
        Attempt::Deadlock
    } else {
        Attempt::Held
    }
}

/// Try to take a mutex: if its lock word is 0, it becomes that of the hart.
pub fn attempt(word: &mut u64, hartid: u64) -> (r: Attempt)
    requires
        hartid < u64::MAX,
    ensures
        r == attempt_spec(*old(word), hartid),
        *final(word) == if r is Taken {
            holder(hartid)
        } else {
            *old(word)
        },
{
    if *word == 0 {
        *word = hartid + 1;
        Attempt::Taken
    } else if *word == hartid + 1 {
        Attempt::Deadlock
    } else {
        Attempt::Held
    }
}

/// The data of a mutex that is held.
pub struct SpinMutexGuard<'a, T> {
    pub mutex: &'a mut SpinMutex<T>,
    pub disabler: InterruptDisabler,
}

impl<T> SpinMutex<T> {
    /// A mutex that nobody holds.
    pub fn new(data: T) -> (r: Self)
        ensures
            r.data == data,
            r.locked == 0,
    {
        SpinMutex { data, locked: 0 }
    }

    /// Forcibly unlock this `SpinMutex`, whoever holds it.
    pub fn force_unlock(&mut self)
        ensures
            final(self).locked == 0,
            final(self).data == old(self).data,
    {
        self.locked = 0;
    }

    /// Try to lock the `SpinMutex`, returning `None` if it is not available.
    /// Interrupts are off while it is locked.
    pub fn try_lock<'a>(&'a mut self, hart: &mut Hart) -> (r: Option<SpinMutexGuard<'a, T>>)
        requires
            old(hart).id() < u64::MAX,
            old(hart).local() ==> old(hart).ctx.holding_disabler < u64::MAX,
            old(self).locked != holder(old(hart).id()),
        ensures
            r is Some <==> old(self).locked == 0,
            r is None ==> *final(self) == *old(self) && *final(hart)
                == old(hart).pushed().popped(),
            r matches Some(guard) ==> {
                &&& *final(hart) == old(hart).pushed()
                &&& guard.mutex.locked == holder(old(hart).id())
                &&& guard.mutex.data == old(self).data
                &&& *final(guard.mutex) == *final(self)
            },
    {
        let hartid: u64 = registers::hartid(&hart.csr, &hart.ctx);
        let disabler = InterruptDisabler::new(hart);
        match attempt(&mut self.locked, hartid) {
            Attempt::Taken => Some(SpinMutexGuard { mutex: self, disabler }),
            _ => {
                disabler.release(hart);
                None
            },
        }
    }

    /// One round of waiting for the `SpinMutex`: `None` if it is not available,
    /// and the hart has to try again. Interrupts stay off until then.
    pub fn lock<'a>(&'a mut self, hart: &Hart, disabler: InterruptDisabler) -> (r: Result<
        SpinMutexGuard<'a, T>,
        InterruptDisabler,
    >)
        requires
            hart.id() < u64::MAX,
            old(self).locked != holder(hart.id()),
        ensures
            r is Ok <==> old(self).locked == 0,
            r matches Err(d) ==> *final(self) == *old(self) && d == disabler,
            r matches Ok(guard) ==> {
                &&& guard.mutex.locked == holder(hart.id())
                &&& guard.mutex.data == old(self).data
                &&& *final(guard.mutex) == *final(self)
            },
    {
        let hartid: u64 = registers::hartid(&hart.csr, &hart.ctx);
        match attempt(&mut self.locked, hartid) {
            Attempt::Taken => Ok(SpinMutexGuard { mutex: self, disabler }),
            _ => Err(disabler),
        }
    }
}

impl<'a, T> SpinMutexGuard<'a, T> {
    /// The data.
    pub fn get(&self) -> (r: &T)
        ensures
            *r == old(self.mutex).data,
    {
        &self.mutex.data
    }

    /// Replace the data, returning what was there.
    pub fn replace(&mut self, data: T) -> (r: T)
        ensures
            r == old(self).mutex.data,
            final(self).mutex.data == data,
            final(self).mutex.locked == old(self).mutex.locked,
            *final(final(self).mutex) == *final(old(self).mutex),
            final(self).disabler == old(self).disabler,
    {
        let mut data = data;
        core::mem::swap(&mut self.mutex.data, &mut data);
        data
    }

    /// Unlock the mutex; interrupts are enabled again if they were before.
    pub fn release(self, hart: &mut Hart)
        requires
            old(hart).local() ==> old(hart).ctx.holding_disabler > 0,
        ensures
            final(self.mutex).locked == 0,
            final(self.mutex).data == old(self.mutex).data,
            *final(hart) == (Hart { csr: old(hart).csr.off(), ..*old(hart) }).popped(),
    {
        let _ = hart.csr.intr_off();
        let mutex = self.mutex;
        mutex.locked = 0;
        self.disabler.release(hart);
    }
}

/// No two harts hold a mutex: once one has taken it, no other hart can take it
/// until it is unlocked.
pub proof fn law_mutual_exclusion(word: u64, a: u64, b: u64)
    requires
        a < u64::MAX,
        b < u64::MAX,
        attempt_spec(word, a) is Taken,
    ensures
        attempt_spec(holder(a), b) == if a == b {
            Attempt::Deadlock
        } else {
            Attempt::Held
        },
{
}

/// A lock that nobody holds is taken by whoever tries to, and once a hart has taken it, it is
/// that hart that holds it: no two harts are told apart wrongly.
pub proof fn law_free_locks_are_taken(a: u64, b: u64)
    requires
        a < u64::MAX,
        b < u64::MAX,
    ensures
        attempt_spec(0, a) is Taken,
        holder(a) != 0,
        holder(a) == holder(b) <==> a == b,
{
}

} // verus!
