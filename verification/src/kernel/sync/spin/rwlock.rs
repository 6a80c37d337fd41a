//! A lock that one hart can hold for writing, or any number for reading.

use vstd::prelude::*;

use super::mutex::Attempt;
use crate::kernel::registers;
use crate::kernel::registers::{Hart, InterruptDisabler};

verus! {

/// From here on, lock words stand for a hart that writes.
pub const WRITER: u64 = 0xFFFF_FFFF;

/// Who holds a lock.
pub enum Holders {
    /// So many readers.
    Readers(int),
    /// A hart that writes.
    Writer(int),
}

/// Who holds a lock with the given lock word.
pub open spec fn holders(word: u64) -> Holders {
    if word >= WRITER {
        Holders::Writer(word - WRITER)
    } else {
        Holders::Readers(word as int)
    }
}

/// Whether a hart would wait for itself.
pub open spec fn deadlock(word: u64, hartid: u64) -> bool {
    holders(word) == Holders::Writer(hartid as int)
}

/// What comes of a hart trying to read.
pub open spec fn read_spec(word: u64, hartid: u64) -> Attempt {
    match holders(word) {
        Holders::Readers(_) => Attempt::Taken,
        Holders::Writer(h) => if h == hartid {
            Attempt::Deadlock
        } else {
            Attempt::Held
        },
    }
}

/// What comes of a hart trying to write, if it reads itself `own` times.
pub open spec fn write_spec(word: u64, hartid: u64, own: int) -> Attempt {
    match holders(word) {
        Holders::Readers(n) => if n == own {
            Attempt::Taken
        } else {
            Attempt::Held
        },
        Holders::Writer(h) => if h == hartid {
            Attempt::Deadlock
        } else {
            Attempt::Held
        },
    }
}

/// Try to read: if no hart writes, there is one more reader. There must not be
/// too many.
pub fn attempt_read(word: &mut u64, hartid: u64) -> (r: Attempt)
    requires
        *old(word) != WRITER - 1,
        hartid < 0x4000_0000_0000_0000,
    ensures
        r == read_spec(*old(word), hartid),
        r is Taken ==> holders(*final(word)) == Holders::Readers(*old(word) + 1),
        !(r is Taken) ==> *final(word) == *old(word),
{
    if *word >= WRITER {
        if *word == WRITER + hartid {
            Attempt::Deadlock
        } else {
            Attempt::Held
        }
    } else {
        *word = *word + 1;
        Attempt::Taken
    }
}

/// Try to write: if nobody holds the lock but the `own` times that the hart
/// reads itself, it writes.
pub fn attempt_write(word: &mut u64, hartid: u64, own: u64) -> (r: Attempt)
    requires
        hartid < 0x4000_0000_0000_0000,
        own < WRITER,
    ensures
        r == write_spec(*old(word), hartid, own as int),
        r is Taken ==> holders(*final(word)) == Holders::Writer(hartid as int),
        !(r is Taken) ==> *final(word) == *old(word),
{
    if *word == own {
        *word = WRITER + hartid;
        Attempt::Taken
    } else if *word == WRITER + hartid {
        Attempt::Deadlock
    } else {
        Attempt::Held
    }
}

/// A `RwLock` backed by a spin-lock.
///
/// Locks are to be released in the opposite order in which they were taken, and
/// interrupts are to stay off while one is held: otherwise an interrupt may come
/// in between, and wait for a lock that is held.
pub struct SpinRwLock<T> {
    pub data: T,
    /// The number of readers; from [`WRITER`] on, the number of the hart that
    /// writes.
    pub state: u64,
}

/// The data of a lock that is held for reading.
pub struct SpinRwLockReadGuard<'a, T> {
    pub rwlock: &'a mut SpinRwLock<T>,
    pub disabler: InterruptDisabler,
}

/// The data of a lock that is held for writing.
pub struct SpinRwLockWriteGuard<'a, T> {
    pub rwlock: &'a mut SpinRwLock<T>,
    pub disabler: InterruptDisabler,
}

impl<T> SpinRwLock<T> {
    /// A lock that nobody holds.
    pub fn new(data: T) -> (r: Self)
        ensures
            r.data == data,
            holders(r.state) == Holders::Readers(0),
    {
        SpinRwLock { data, state: 0 }
    }

    /// Forcibly unlock this `SpinRwLock`, whoever holds it.
    pub fn force_unlock(&mut self)
        ensures
            holders(final(self).state) == Holders::Readers(0),
            final(self).data == old(self).data,
    {
        self.state = 0;
    }

    /// Try to lock the `SpinRwLock` as readable, returning `None` if it is not
    /// available. Interrupts are off while it is locked.
    pub fn try_read<'a>(&'a mut self, hart: &mut Hart) -> (r: Option<SpinRwLockReadGuard<'a, T>>)
        requires
            old(hart).id() < 0x4000_0000_0000_0000,
            old(hart).local() ==> old(hart).ctx.holding_disabler < u64::MAX,
            old(self).state != WRITER - 1,
            !deadlock(old(self).state, old(hart).id()),
        ensures
            r is Some <==> holders(old(self).state) is Readers,
            r is None ==> *final(self) == *old(self) && *final(hart)
                == old(hart).pushed().popped(),
            r matches Some(guard) ==> {
                &&& *final(hart) == old(hart).pushed()
                &&& holders(guard.rwlock.state) == Holders::Readers(old(self).state + 1)
                &&& guard.rwlock.data == old(self).data
                &&& *final(guard.rwlock) == *final(self)
            },
    {
        let hartid: u64 = registers::hartid(&hart.csr, &hart.ctx);
        let disabler = InterruptDisabler::new(hart);
        match attempt_read(&mut self.state, hartid) {
            Attempt::Taken => Some(SpinRwLockReadGuard { rwlock: self, disabler }),
            _ => {
                disabler.release(hart);
                None
            },
        }
    }

    /// One round of waiting for the `SpinRwLock` to become readable: an error if
    /// it is not available, and the hart has to try again. Interrupts stay off
    /// until then.
    pub fn read<'a>(&'a mut self, hart: &Hart, disabler: InterruptDisabler) -> (r: Result<
        SpinRwLockReadGuard<'a, T>,
        InterruptDisabler,
    >)
        requires
            hart.id() < 0x4000_0000_0000_0000,
            old(self).state != WRITER - 1,
            !deadlock(old(self).state, hart.id()),
        ensures
            r is Ok <==> holders(old(self).state) is Readers,
            r matches Err(d) ==> *final(self) == *old(self) && d == disabler,
            r matches Ok(guard) ==> {
                &&& holders(guard.rwlock.state) == Holders::Readers(old(self).state + 1)
                &&& guard.rwlock.data == old(self).data
                &&& *final(guard.rwlock) == *final(self)
            },
    {
        let hartid: u64 = registers::hartid(&hart.csr, &hart.ctx);
        match attempt_read(&mut self.state, hartid) {
            Attempt::Taken => Ok(SpinRwLockReadGuard { rwlock: self, disabler }),
            _ => Err(disabler),
        }
    }

    /// Try to lock the `SpinRwLock` as writable, returning `None` if it is not
    /// available. Interrupts are off while it is locked.
    pub fn try_write<'a>(&'a mut self, hart: &mut Hart) -> (r: Option<SpinRwLockWriteGuard<'a, T>>)
        requires
            old(hart).id() < 0x4000_0000_0000_0000,
            old(hart).local() ==> old(hart).ctx.holding_disabler < u64::MAX,
            !deadlock(old(self).state, old(hart).id()),
        ensures
            r is Some <==> holders(old(self).state) == Holders::Readers(0),
            r is None ==> *final(self) == *old(self) && *final(hart)
                == old(hart).pushed().popped(),
            r matches Some(guard) ==> {
                &&& *final(hart) == old(hart).pushed()
                &&& holders(guard.rwlock.state) == Holders::Writer(old(hart).id() as int)
                &&& guard.rwlock.data == old(self).data
                &&& *final(guard.rwlock) == *final(self)
            },
    {
        let hartid: u64 = registers::hartid(&hart.csr, &hart.ctx);
        let disabler = InterruptDisabler::new(hart);
        match attempt_write(&mut self.state, hartid, 0) {
            Attempt::Taken => Some(SpinRwLockWriteGuard { rwlock: self, disabler }),
            _ => {
                disabler.release(hart);
                None
            },
        }
    }

    /// One round of waiting for the `SpinRwLock` to become writable: an error if
    /// it is not available, and the hart has to try again. Interrupts stay off
    /// until then.
    pub fn write<'a>(&'a mut self, hart: &Hart, disabler: InterruptDisabler) -> (r: Result<
        SpinRwLockWriteGuard<'a, T>,
        InterruptDisabler,
    >)
        requires
            hart.id() < 0x4000_0000_0000_0000,
            !deadlock(old(self).state, hart.id()),
        ensures
            r is Ok <==> holders(old(self).state) == Holders::Readers(0),
            r matches Err(d) ==> *final(self) == *old(self) && d == disabler,
            r matches Ok(guard) ==> {
                &&& holders(guard.rwlock.state) == Holders::Writer(hart.id() as int)
                &&& guard.rwlock.data == old(self).data
                &&& *final(guard.rwlock) == *final(self)
            },
    {
        let hartid: u64 = registers::hartid(&hart.csr, &hart.ctx);
        match attempt_write(&mut self.state, hartid, 0) {
            Attempt::Taken => Ok(SpinRwLockWriteGuard { rwlock: self, disabler }),
            _ => Err(disabler),
        }
    }
}

impl<'a, T> SpinRwLockReadGuard<'a, T> {
    /// The data.
    pub fn get(&self) -> (r: &T)
        ensures
            *r == old(self.rwlock).data,
    {
        &self.rwlock.data
    }

    /// One round of waiting for this to be the only reader, and becoming the
    /// writer then: an error if there are other readers, and the hart has to try
    /// again.
    pub fn upgrade(self, hart: &Hart) -> (r: Result<SpinRwLockWriteGuard<'a, T>, Self>)
        requires
            hart.id() < 0x4000_0000_0000_0000,
            !deadlock(old(self.rwlock).state, hart.id()),
        ensures
            r is Ok <==> holders(old(self.rwlock).state) == Holders::Readers(1),
            r matches Err(guard) ==> *guard.rwlock == *old(self.rwlock) && *final(guard.rwlock)
                == *final(self.rwlock) && guard.disabler == self.disabler,
            r matches Ok(guard) ==> {
                &&& holders(guard.rwlock.state) == Holders::Writer(hart.id() as int)
                &&& guard.rwlock.data == old(self.rwlock).data
                &&& *final(guard.rwlock) == *final(self.rwlock)
                &&& guard.disabler == self.disabler
            },
    {
        let hartid: u64 = registers::hartid(&hart.csr, &hart.ctx);
        let rwlock = self.rwlock;
        match attempt_write(&mut rwlock.state, hartid, 1) {
            Attempt::Taken => Ok(SpinRwLockWriteGuard { rwlock, disabler: self.disabler }),
            _ => Err(SpinRwLockReadGuard { rwlock, disabler: self.disabler }),
        }
    }

    /// One reader less; interrupts are enabled again if they were before.
    pub fn release(self, hart: &mut Hart)
        requires
            old(hart).local() ==> old(hart).ctx.holding_disabler > 0,
            0 < old(self.rwlock).state < WRITER,
        ensures
            holders(final(self.rwlock).state) == Holders::Readers(old(self.rwlock).state - 1),
            final(self.rwlock).data == old(self.rwlock).data,
            *final(hart) == (Hart { csr: old(hart).csr.off(), ..*old(hart) }).popped(),
    {
        let _ = hart.csr.intr_off();
        let rwlock = self.rwlock;
        rwlock.state = rwlock.state - 1;
        self.disabler.release(hart);
    }
}

impl<'a, T> SpinRwLockWriteGuard<'a, T> {
    /// The data.
    pub fn get(&self) -> (r: &T)
        ensures
            *r == old(self.rwlock).data,
    {
        &self.rwlock.data
    }

    /// Replace the data, returning what was there.
    pub fn replace(&mut self, data: T) -> (r: T)
        ensures
            r == old(self).rwlock.data,
            final(self).rwlock.data == data,
            final(self).rwlock.state == old(self).rwlock.state,
            *final(final(self).rwlock) == *final(old(self).rwlock),
            final(self).disabler == old(self).disabler,
    {
        let mut data = data;
        core::mem::swap(&mut self.rwlock.data, &mut data);
        data
    }

    /// Unlock the lock; interrupts are enabled again if they were before.
    pub fn release(self, hart: &mut Hart)
        requires
            old(hart).local() ==> old(hart).ctx.holding_disabler > 0,
        ensures
            holders(final(self.rwlock).state) == Holders::Readers(0),
            final(self.rwlock).data == old(self.rwlock).data,
            *final(hart) == (Hart { csr: old(hart).csr.off(), ..*old(hart) }).popped(),
    {
        let _ = hart.csr.intr_off();
        let rwlock = self.rwlock;
        rwlock.state = 0;
        self.disabler.release(hart);
    }
}

/// Who writes is alone: while a hart writes, no hart can begin to read or to
/// write; and a hart can begin to write only while nobody reads but itself.
pub proof fn law_writer_is_alone(word: u64, writer: u64, other: u64, own: int)
    requires
        holders(word) == Holders::Writer(writer as int) || write_spec(word, writer, own) is Taken,
        own >= 0,
    ensures
        holders(word) is Writer ==> !(read_spec(word, other) is Taken) && !(write_spec(
            word,
            other,
            own,
        ) is Taken),
        write_spec(word, writer, own) is Taken ==> holders(word) == Holders::Readers(own),
{
}

/// Harts that read share a lock, however many there are; one that wants to write has it only
/// if nobody else does; and while one writes, it is the only one that is told that it would
/// wait for itself.
pub proof fn law_readers_share(readers: u64, writer: u64, hart: u64)
    requires
        readers < WRITER,
        writer < 0x4000_0000_0000_0000,
        hart < 0x4000_0000_0000_0000,
    ensures
        read_spec(readers, hart) is Taken,
        write_spec(readers, hart, 0) is Taken <==> readers == 0,
        write_spec(readers, hart, 1) is Taken <==> readers == 1,
        read_spec((WRITER + writer) as u64, hart) is Deadlock <==> hart == writer,
        write_spec((WRITER + writer) as u64, hart, 0) is Deadlock <==> hart == writer,
        !(read_spec((WRITER + writer) as u64, hart) is Taken),
        !(write_spec((WRITER + writer) as u64, hart, 0) is Taken),
{
}

} // verus!
