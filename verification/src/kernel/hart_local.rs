//! What each hart has for itself.

use vstd::prelude::*;

use super::proc::context::Context;
use crate::addr::mappings::KERNEL_PHYS_OFFSET;

verus! {

/// What a hart has for itself.
#[derive(Copy, Clone, Debug, PartialEq, Eq, Structural)]
pub struct HartCtx {
    /// The hart ID
    pub hartid: u64,
    /// What thread are we running?
    pub thread: Option<usize>,
    /// Register spill area for this hart
    pub context: Context,
    /// Interval for timer interrupts
    pub timer_interval: u64,
    /// Time base frequency
    pub timebase_freq: u64,
    /// How many interrupt disablers are held.
    pub holding_disabler: u64,
    /// Whether interrupts were enabled before the first disabler.
    pub intena: bool,
    /// Whether interrupts stay disabled after the last disabler.
    pub inhibit_intena: bool,
}

impl HartCtx {
    /// A hart that runs nothing, before anything is known of it.
    pub fn new() -> (r: Self)
        ensures
            r == (HartCtx {
                hartid: 0,
                thread: None,
                context: Context::zeroed(),
                timer_interval: 0,
                timebase_freq: 0,
                holding_disabler: 0,
                intena: false,
                inhibit_intena: false,
            }),
    {
        HartCtx {
            hartid: 0,
            thread: None,
            context: Context::default(),
            timer_interval: 0,
            timebase_freq: 0,
            holding_disabler: 0,
            intena: false,
            inhibit_intena: false,
        }
    }

    /// Call a function with this context.
    pub fn with<R, F: FnOnce(&Self) -> R>(&self, f: F) -> (r: R)
        requires
            f.requires((self,)),
        ensures
            f.ensures((self,), r),
    {
        f(self)
    }
}

impl Default for HartCtx {
    fn default() -> (r: Self)
        ensures
            r == (HartCtx {
                hartid: 0,
                thread: None,
                context: Context::zeroed(),
                timer_interval: 0,
                timebase_freq: 0,
                holding_disabler: 0,
                intena: false,
                inhibit_intena: false,
            }),
    {
        HartCtx::new()
    }
}

/// Whether hart-local data is set up: before that, the thread pointer holds the
/// number of the hart, and there are fewer harts than this.
pub fn enabled(tp: u64) -> (r: bool)
    ensures
        r == (tp > KERNEL_PHYS_OFFSET),
{
    tp > KERNEL_PHYS_OFFSET
}

/// How many bytes of hart-local data there are: those that have a first value,
/// and behind them those that begin as zeroes.
pub fn local_size(tdata_start: u64, tdata_end: u64, tbss_start: u64, tbss_end: u64) -> (r: u64)
    requires
        tdata_start <= tdata_end,
        tbss_start <= tbss_end,
        (tdata_end - tdata_start) + (tbss_end - tbss_start) <= u64::MAX,
    ensures
        r == (tdata_end - tdata_start) + (tbss_end - tbss_start),
{
    (tdata_end - tdata_start) + (tbss_end - tbss_start)
}

} // verus!
