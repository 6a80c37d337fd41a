//! Locks for which a hart waits by trying again.

pub mod mutex;
pub mod rwlock;
