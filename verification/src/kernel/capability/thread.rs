//! Threads, and the priorities at which they run.

use vstd::prelude::*;

use super::Page;
use crate::capability::MessageHeader;
use crate::kernel::paging::SharedPageTable;
use crate::kernel::proc::context::Context;
use crate::kernel::trampoline::Trapframe;

verus! {

/// The size of a thread's kernel stack.
pub const THREAD_STACK_SIZE: u64 = 0x8_0000;

/// Where a trapframe is mapped in a page table that maps nothing else above
/// the lower half.
pub const TRAPFRAME_ADDR: u64 = 0xFFFF_FFFF_FFFF_D000;

/// What a thread is doing.
#[derive(Copy, Clone, Debug, PartialEq, Eq, Structural)]
pub enum ThreadState {
    /// It has no page table yet.
    Uninit,
    /// It does not run until it is resumed.
    Suspended,
    /// It waits for another thread.
    Blocking,
    /// It waits for a hart to run on.
    Runnable,
    /// It runs on a hart.
    Running,
}

impl ThreadState {
    /// The number that stands for a state.
    pub open spec fn number(self) -> u8 {
        match self {
            ThreadState::Uninit => 0,
            ThreadState::Suspended => 1,
            ThreadState::Blocking => 2,
            ThreadState::Runnable => 3,
            ThreadState::Running => 4,
        }
    }

    /// The state that a number stands for.
    pub open spec fn of_number(value: u8) -> ThreadState {
        if value == 1 {
            ThreadState::Suspended
        } else if value == 2 {
            ThreadState::Blocking
        } else if value == 3 {
            ThreadState::Runnable
        } else if value == 4 {
            ThreadState::Running
        } else {
            ThreadState::Uninit
        }
    }
}

impl From<u8> for ThreadState {
    fn from(value: u8) -> (r: Self) {
        match value {
            1 => ThreadState::Suspended,
            2 => ThreadState::Blocking,
            3 => ThreadState::Runnable,
            4 => ThreadState::Running,
            _ => ThreadState::Uninit,
        }
    }
}

impl vstd::std_specs::convert::FromSpecImpl<u8> for ThreadState {
    open spec fn obeys_from_spec() -> bool {
        true
    }

    open spec fn from_spec(value: u8) -> Self {
        ThreadState::of_number(value)
    }
}

impl From<ThreadState> for u8 {
    fn from(value: ThreadState) -> (r: u8) {
        match value {
            ThreadState::Uninit => 0,
            ThreadState::Suspended => 1,
            ThreadState::Blocking => 2,
            ThreadState::Runnable => 3,
            ThreadState::Running => 4,
        }
    }
}

impl vstd::std_specs::convert::FromSpecImpl<ThreadState> for u8 {
    open spec fn obeys_from_spec() -> bool {
        true
    }

    open spec fn from_spec(value: ThreadState) -> u8 {
        value.number()
    }
}

/// Every state is the state of its number.
pub proof fn law_thread_state_numbers(state: ThreadState)
    ensures
        ThreadState::of_number(state.number()) == state,
{
}

/// The priorities of a thread.
#[derive(Copy, Clone, Debug, PartialEq, Eq, Structural)]
pub struct ThreadPriorities {
    /// The priority that the thread has been given.
    pub base_prio: i8,
    /// The highest priority of those that wait for the thread.
    pub inherited_prio: i8,
    /// A thread that blocks often is preferred, within limits, over one that
    /// uses up its time.
    pub prio_boost: i8,
}

impl ThreadPriorities {
    /// Whether the base priority can be boosted within the range of priorities.
    pub open spec fn fits(self) -> bool {
        i8::MIN <= self.base_prio + self.prio_boost <= i8::MAX
    }

    /// The priority at which the thread runs.
    pub open spec fn level(self) -> i8 {
        if self.inherited_prio > self.base_prio + self.prio_boost {
            self.inherited_prio
        } else {
            (self.base_prio + self.prio_boost) as i8
        }
    }

    /// After a boost: one step up, as long as the boost is below 4 and the
    /// boosted priority below 32.
    pub open spec fn boosted(self) -> ThreadPriorities {
        if self.prio_boost < 4 && self.base_prio + self.prio_boost < 32 {
            ThreadPriorities { prio_boost: (self.prio_boost + 1) as i8, ..self }
        } else {
            self
        }
    }

    /// One step down, as long as the boost is above -4 and the boosted priority
    /// above 0.
    pub open spec fn diminished(self) -> ThreadPriorities {
        if self.prio_boost > -4 && self.base_prio + self.prio_boost > 0 {
            ThreadPriorities { prio_boost: (self.prio_boost - 1) as i8, ..self }
        } else {
            self
        }
    }

    /// One step down, as long as both the boost and the boosted priority are
    /// above 0.
    pub open spec fn relaxed(self) -> ThreadPriorities {
        if self.prio_boost > 0 && self.base_prio + self.prio_boost > 0 {
            ThreadPriorities { prio_boost: (self.prio_boost - 1) as i8, ..self }
        } else {
            self
        }
    }

    /// Boost the priority by one step.
    pub fn boost(&mut self)
        requires
            old(self).fits(),
        ensures
            *final(self) == old(self).boosted(),
    {
        let prio_boost: i8 = self.prio_boost();
        if prio_boost < 4 && (self.base_prio() + prio_boost) < 32 {
            self.prio_boost = prio_boost + 1;
        }
    }

    /// Take back a boost, by one step.
    pub fn saturating_diminish(&mut self)
        requires
            old(self).fits(),
        ensures
            *final(self) == old(self).relaxed(),
    {
        let prio_boost: i8 = self.prio_boost();
        if prio_boost > 0 && (self.base_prio() + prio_boost) > 0 {
            self.prio_boost = prio_boost - 1;
        }
    }

    /// The boost.
    #[inline]
    pub fn prio_boost(&self) -> (r: i8)
        ensures
            r == self.prio_boost,
    {
        self.prio_boost
    }

    /// The base priority.
    #[inline]
    pub fn base_prio(&self) -> (r: i8)
        ensures
            r == self.base_prio,
    {
        self.base_prio
    }

    /// The inherited priority.
    #[inline]
    pub fn inherited_prio(&self) -> (r: i8)
        ensures
            r == self.inherited_prio,
    {
        self.inherited_prio
    }

    /// Diminish the priority by one step.
    pub fn diminish(&mut self)
        requires
            old(self).fits(),
        ensures
            *final(self) == old(self).diminished(),
    {
        let prio_boost: i8 = self.prio_boost();
        if prio_boost > -4 && (self.base_prio() + prio_boost) > 0 {
            self.prio_boost = prio_boost - 1;
        }
    }

    /// The priority at which the thread runs: the higher one of the inherited
    /// and the boosted base priority.
    pub fn effective(&self) -> (r: i8)
        requires
            self.fits(),
        ensures
            r == self.level(),
    {
        let own: i8 = self.base_prio() + self.prio_boost();
        if self.inherited_prio() > own {
            self.inherited_prio()
        } else {
            own
        }
    }
}

/// However often a thread is boosted and diminished, its boost stays between
/// -4 and 4.
pub proof fn law_boost_is_bounded(p: ThreadPriorities)
    requires
        -4 <= p.prio_boost <= 4,
    ensures
        -4 <= p.boosted().prio_boost <= 4,
        -4 <= p.diminished().prio_boost <= 4,
        -4 <= p.relaxed().prio_boost <= 4,
{
}

/// To boost a thread never lowers the priority at which it runs, and to
/// diminish it never raises that priority; neither changes the base priority
/// or the inherited one.
pub proof fn law_boost_is_monotone(p: ThreadPriorities)
    requires
        p.fits(),
    ensures
        p.level() <= p.boosted().level(),
        p.diminished().level() <= p.level(),
        p.relaxed().level() <= p.level(),
        p.boosted().base_prio == p.base_prio,
        p.boosted().inherited_prio == p.inherited_prio,
        p.diminished().base_prio == p.base_prio,
        p.diminished().inherited_prio == p.inherited_prio,
        p.relaxed().base_prio == p.base_prio,
        p.relaxed().inherited_prio == p.inherited_prio,
{
}

/// A boost that took effect is undone by diminishing.
pub proof fn law_diminish_undoes_boost(p: ThreadPriorities)
    requires
        p.boosted() != p,
        p.prio_boost >= -4,
        p.base_prio + p.prio_boost >= 0,
    ensures
        p.boosted().diminished() == p,
{
}

/// A set of harts, one bit for each.
#[derive(Copy, Clone, Debug, PartialEq, Eq, Structural)]
pub struct HartMask(pub u64);

/// Whether the bit of a hart is set in a mask.
pub open spec fn has_hart(mask: u64, hart: u64) -> bool {
    mask & (1u64 << hart) != 0
}

/// The harts below `n` whose bits are set in a mask, in ascending order.
pub open spec fn harts_below(mask: u64, n: int) -> Seq<u64>
    decreases n,
{
    if n <= 0 {
        Seq::empty()
    } else if has_hart(mask, (n - 1) as u64) {
        harts_below(mask, n - 1).push((n - 1) as u64)
    } else {
        harts_below(mask, n - 1)
    }
}

impl HartMask {
    /// The harts of the mask, of the `n_harts` harts that there are, in
    /// ascending order.
    pub fn harts(self, n_harts: u64) -> (r: Vec<u64>)
        requires
            n_harts <= 64,
        ensures
            r@ == harts_below(self.0, n_harts as int),
    {
        let mut harts: Vec<u64> = Vec::new();
        let mut hart: u64 = 0;
        while hart < n_harts
            invariant
                hart <= n_harts <= 64,
                harts@ == harts_below(self.0, hart as int),
            decreases n_harts - hart,
        {
            if self.0 & (1u64 << hart) != 0 {
                harts.push(hart);
            }
            hart += 1;
        }
        harts
    }
}

/// The harts of a mask are those whose bits are set, each once.
pub proof fn law_harts_of_mask(mask: u64, n: int)
    requires
        0 <= n <= 64,
    ensures
        forall|h: u64| #[trigger]
            harts_below(mask, n).contains(h) <==> h < n && has_hart(mask, h),
        forall|i: int, j: int|
            0 <= i < j < harts_below(mask, n).len() ==> harts_below(mask, n)[i]
                < harts_below(mask, n)[j],
    decreases n,
{
    if n > 0 {
        law_harts_of_mask(mask, n - 1);
        let before = harts_below(mask, n - 1);
        let all = harts_below(mask, n);
        assert forall|h: u64| #[trigger] all.contains(h) <==> h < n && has_hart(mask, h) by {
            if has_hart(mask, (n - 1) as u64) {
                assert(all == before.push((n - 1) as u64));
                if h == n - 1 {
                    assert(all[all.len() - 1] == h);
                } else {
                    assert(before.contains(h) <==> h < n - 1 && has_hart(mask, h));
                    if before.contains(h) {
                        let i = choose|i: int| 0 <= i < before.len() && before[i] == h;
                        assert(all[i] == h);
                    }
                    if all.contains(h) {
                        let i = choose|i: int| 0 <= i < all.len() && all[i] == h;
                        assert(before[i] == h);
                    }
                }
            } else {
                assert(before.contains(h) <==> h < n - 1 && has_hart(mask, h));
            }
        }
        assert forall|i: int, j: int| 0 <= i < j < all.len() implies all[i] < all[j] by {
            if j == before.len() {
                assert(before.contains(before[i]));
            }
        }
    }
}

/// What a thread holds that only the kernel sees.
#[derive(Copy, Clone, Debug)]
pub struct ThreadProtected {
    /// The page table of the thread, if it has been given one.
    pub root_pgtbl: Option<SharedPageTable>,
    pub asid: u16,
    /// Where the trapframe is mapped in the page table.
    pub trapframe_addr: u64,
    pub prio: ThreadPriorities,
    pub state: ThreadState,
    /// The hart on which the thread ran last; `u64::MAX` if it never ran.
    pub hartid: u64,
    /// The page through which the thread sends and receives longer messages.
    pub ipc_buffer: Option<Page>,
    /// The header and badge of a message that was handed to the thread while it
    /// waited.
    pub send_fastpath: Option<(MessageHeader, u64)>,
    /// Whether the message of the thread was taken while it waited.
    pub recv_fastpath: bool,
}

/// A thread. Other objects are referred to by their numbers.
#[derive(Copy, Clone, Debug)]
pub struct Thread {
    pub trapframe: OwnedTrapframe,
    pub stack: ThreadKernelStack,
    pub private: ThreadProtected,
    pub context: Context,
    pub tid: u64,
    /// The job whose capabilities the thread uses.
    pub job: usize,
    pub waiting_on: u64,
    /// How many slots hold the thread.
    pub slot_refcount: u64,
    /// The wait queue in which the thread is.
    pub blocked_on_wq: Option<usize>,
    pub affinity: HartMask,
}

/// A trapframe, with the page that it is mapped from.
#[derive(Copy, Clone, Debug, PartialEq, Eq, Structural)]
pub struct OwnedTrapframe {
    /// The page number of the frame.
    pub inner: u64,
    pub frame: Trapframe,
}

/// The kernel stack of a thread.
#[derive(Copy, Clone, Debug, PartialEq, Eq, Structural)]
pub struct ThreadKernelStack {
    /// The page number of its first frame.
    pub inner: u64,
}

/// The states of a thread are counted from 0 on, in this order; every other number is that of
/// a thread that is not ready.
pub proof fn law_states_in_order(i: int, value: u8)
    requires
        0 <= i < 5,
    ensures
        ({
            let states = seq![
                ThreadState::Uninit,
                ThreadState::Suspended,
                ThreadState::Blocking,
                ThreadState::Runnable,
                ThreadState::Running,
            ];
            &&& states[i].number() == i
            &&& value < 5 ==> ThreadState::of_number(value) == states[value as int]
        }),
        value >= 5 ==> ThreadState::of_number(value) is Uninit,
{
}

/// The priority of a thread is the higher one of what it inherits and of its own, which is
/// its base and its boost.
pub proof fn law_level_is_the_higher(p: ThreadPriorities)
    requires
        p.fits(),
    ensures
        p.level() >= p.base_prio + p.prio_boost,
        p.level() >= p.inherited_prio,
        p.level() == p.base_prio + p.prio_boost || p.level() == p.inherited_prio,
{
}

/// The boost of a thread changes by one step: it rises up to 4 and falls down to -4, or to 0
/// where the thread only lets others run; and the priority of its own does not rise above 32
/// nor fall below 0 by it.
pub proof fn law_boost_changes_by_one(p: ThreadPriorities)
    requires
        -4 <= p.prio_boost <= 4,
        0 <= p.base_prio < 32,
    ensures
        p.boosted().prio_boost == p.prio_boost + 1 || p.boosted() == p,
        p.boosted() == p <==> p.prio_boost == 4 || p.base_prio + p.prio_boost >= 32,
        p.diminished().prio_boost == p.prio_boost - 1 || p.diminished() == p,
        p.diminished() == p <==> p.prio_boost == -4 || p.base_prio + p.prio_boost <= 0,
        p.relaxed().prio_boost == p.prio_boost - 1 || p.relaxed() == p,
        p.relaxed() == p <==> p.prio_boost <= 0 || p.base_prio + p.prio_boost <= 0,
{
}

} // verus!
