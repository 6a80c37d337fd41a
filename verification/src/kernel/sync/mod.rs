//! Locks and reference counts.

pub mod arc_like;
pub mod spin;
