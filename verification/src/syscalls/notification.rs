//! Syscalls relating to notifications.

use vstd::prelude::*;

use super::{Ecall, SyscallNumber};

verus! {

/// Wait for a notification. The reply is that of [`super::Reply::signals`].
pub fn wait(notification: u64) -> (r: Ecall)
    ensures
        r == Ecall::of(SyscallNumber::NotificationWait, notification, 0, 0),
{
    Ecall::new(SyscallNumber::NotificationWait, notification, 0, 0)
}

/// Signal a notification. The reply has no value.
pub fn signal(notification: u64) -> (r: Ecall)
    ensures
        r == Ecall::of(SyscallNumber::NotificationSignal, notification, 0, 0),
{
    Ecall::new(SyscallNumber::NotificationSignal, notification, 0, 0)
}

/// Poll a notification. The reply is that of [`super::Reply::signals`].
pub fn poll(notification: u64) -> (r: Ecall)
    ensures
        r == Ecall::of(SyscallNumber::NotificationPoll, notification, 0, 0),
{
    Ecall::new(SyscallNumber::NotificationPoll, notification, 0, 0)
}

} // verus!
