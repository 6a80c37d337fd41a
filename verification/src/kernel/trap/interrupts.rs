//! What the kernel does when it is entered: for an interrupt of a device, at the
//! end of the time of a thread, or for a system call.

use vstd::prelude::*;

use super::dispatch;
use super::dispatch::{syscall, Handled};
use super::endpoints;
use super::signals;
use super::soundness;
use crate::addr::mappings;
use crate::addr::Ppn;
use crate::kernel::capability::thread::{
    OwnedTrapframe, Thread, ThreadState, THREAD_STACK_SIZE,
};
use crate::kernel::paging::Satp;
use crate::kernel::proc::context::Context;
use crate::kernel::state;
use crate::kernel::state::{Kernel, State};
use crate::kernel::threads;
use crate::kernel::trampoline::Trapframe;

verus! {

/// The numbers of the interrupts of devices that the kernel itself uses.
#[derive(Copy, Clone, Debug, PartialEq, Eq, Structural)]
pub struct Irqs {
    pub uart: u32,
}

/// The kinds of interrupts.
#[derive(Copy, Clone, Debug, PartialEq, Eq, Structural)]
pub enum InterruptKind {
    /// Another hart asks for something.
    Software,
    /// The time of a thread is over.
    Timer,
    /// A device asks for something.
    External,
    /// It is not known which.
    Unknown,
}

/// Whether a cause of a trap is an interrupt.
pub open spec fn is_interrupt(scause: u64) -> bool {
    scause >= 0x8000_0000_0000_0000
}

/// The kind of interrupt that a cause of a trap stands for.
pub open spec fn kind_of(scause: u64) -> InterruptKind {
    if is_interrupt(scause) && scause % 256 == 9 {
        InterruptKind::External
    } else if is_interrupt(scause) && scause % 256 == 5 {
        InterruptKind::Timer
    } else if is_interrupt(scause) && scause % 256 == 1 {
        InterruptKind::Software
    } else {
        InterruptKind::Unknown
    }
}

proof fn lemma_cause_bits(scause: u64)
    by (bit_vector)
    ensures
        scause & 0x8000_0000_0000_0000 != 0 <==> scause >= 0x8000_0000_0000_0000,
        scause & 0xff == scause % 256,
{
}

/// The kind of interrupt that a cause of a trap stands for.
pub fn interrupt_kind(scause: u64) -> (r: InterruptKind)
    ensures
        r == kind_of(scause),
{
    proof {
        lemma_cause_bits(scause);
    }
    if scause & 0x8000_0000_0000_0000 == 0 {
        return InterruptKind::Unknown;
    }
    match scause & 0xff {
        9 => InterruptKind::External,
        5 => InterruptKind::Timer,
        1 => InterruptKind::Software,
        _ => InterruptKind::Unknown,
    }
}

/// What the cause of an exception is called.
pub open spec fn exception_name(id: u64) -> Seq<char> {
    if id == 0 {
        "insn addr misaligned"@
    } else if id == 1 {
        "insn addr fault"@
    } else if id == 2 {
        "illegal insn"@
    } else if id == 3 {
        "breakpoint"@
    } else if id == 4 {
        "load addr misaligned"@
    } else if id == 5 {
        "load access fault"@
    } else if id == 6 {
        "store/AMO addr misaligned"@
    } else if id == 7 {
        "store/AMO access fault"@
    } else if id == 8 {
        "U-mode envcall"@
    } else if id == 9 {
        "S-mode envcall"@
    } else if id == 12 {
        "insn page fault"@
    } else if id == 13 {
        "load page fault"@
    } else if id == 15 {
        "store/AMO page fault"@
    } else if 24 <= id <= 31 || 48 <= id <= 63 {
        "unknown"@
    } else {
        "reserved"@
    }
}

/// What the cause of an exception is called.
pub fn describe_exception(id: u64) -> (r: &'static str)
    ensures
        r@ == exception_name(id),
{
    match id {
        0 => "insn addr misaligned",
        1 => "insn addr fault",
        2 => "illegal insn",
        3 => "breakpoint",
        4 => "load addr misaligned",
        5 => "load access fault",
        6 => "store/AMO addr misaligned",
        7 => "store/AMO access fault",
        8 => "U-mode envcall",
        9 => "S-mode envcall",
        12 => "insn page fault",
        13 => "load page fault",
        15 => "store/AMO page fault",
        _ => if (24 <= id && id <= 31) || (48 <= id && id <= 63) {
            "unknown"
        } else {
            "reserved"
        },
    }
}

/// After a device has raised the interrupt `irq`: if there is a handler of it in
/// the pool, and it signals a notification, that is signalled. The second result
/// is the hart that has to be interrupted. The interrupt 0 is none.
pub open spec fn raised(st: State, pool: usize, irq: u32) -> (State, Option<u64>) {
    let number = (irq % 0x1_0000) as u16;
    if irq == 0 || !st.pools[pool as int].dom().contains(number) {
        (st, None)
    } else {
        match st.handlers[st.pools[pool as int][number] as int].notification {
            Some((n, bits)) => signals::signalled(st, n, bits),
            None => (st, None),
        }
    }
}

/// Whether the interrupt `irq` can be handled.
pub open spec fn raisable(st: State, pool: usize, irq: u32) -> bool {
    let number = (irq % 0x1_0000) as u16;
    &&& pool < st.pools.len()
    &&& irq != 0 && st.pools[pool as int].dom().contains(number) ==> (
    st.handlers[st.pools[pool as int][number] as int].notification matches Some((n, _))
        ==> signals::signallable(st, n))
}

/// What an interrupt asks for.
#[derive(Copy, Clone, Debug, PartialEq, Eq, Structural)]
pub struct Interrupted {
    /// Its kind.
    pub kind: InterruptKind,
    /// The hart that has to be interrupted in turn.
    pub ipi: Option<u64>,
    /// Whether the interrupt has to be completed at the interrupt controller.
    pub complete: bool,
}

/// Handle an interrupt. For one of a device, `irq` is its number, as claimed from
/// the interrupt controller.
pub fn device_interrupt(k: &mut Kernel, pool: usize, scause: u64, irq: u32) -> (r: Interrupted)
    requires
        old(k)@.wf(),
        kind_of(scause) is External ==> raisable(old(k)@, pool, irq),
    ensures
        ({
            let external = kind_of(scause) is External;
            let (after, ipi) = raised(old(k)@, pool, irq);
            &&& final(k)@ == if external {
                after
            } else {
                old(k)@
            }
            &&& r == Interrupted {
                kind: if external && irq == 0 {
                    InterruptKind::Unknown
                } else {
                    kind_of(scause)
                },
                ipi: if external {
                    ipi
                } else {
                    None
                },
                complete: external && irq != 0,
            }
        }),
        final(k)@.wf(),
        final(k)@.threads.len() == old(k)@.threads.len(),
        old(k)@.ordered() ==> soundness::kept(old(k)@, final(k)@),
{
    let ghost st = k@;
    let kind = interrupt_kind(scause);
    if kind != InterruptKind::External {
        return Interrupted { kind, ipi: None, complete: false };
    }
    if irq == 0 {
        return Interrupted { kind: InterruptKind::Unknown, ipi: None, complete: false };
    }
    let number: u16 = (irq % 0x1_0000) as u16;
    let mut ipi: Option<u64> = None;
    assert(k@.pools[pool as int] == k.pools@[pool as int].map@);
    if let Some(h) = k.pools[pool].find(number) {
        if let Some((n, bits)) = k.handlers[h].notification {
            ipi = k.signal(n, bits);
            proof {
                if st.ordered() {
                    soundness::law_signal_keeps_soundness(st, n, bits);
                }
            }
        }
    }
    Interrupted { kind: InterruptKind::External, ipi, complete: true }
}

/// When the timer is to interrupt next.
pub fn next_deadline(now: u64, interval: u64) -> (r: u64)
    requires
        now + interval <= u64::MAX,
    ensures
        r == now + interval,
{
    now + interval
}

/// What a hart does after a trap has been handled.
#[derive(Copy, Clone, Debug, PartialEq, Eq, Structural)]
pub enum Next {
    /// It goes on with what it did.
    Return,
    /// It looks for a thread to run; the thread goes on from here later.
    Yield,
    /// It looks for a thread to run; the thread does not go on from here.
    YieldFinal,
}

/// After the hart has been taken from a running thread: at the end of its time,
/// the thread is diminished, and goes behind the others of its priority. The idle
/// thread is in no run queue.
pub open spec fn preempted(st: State, t: usize, kind: InterruptKind) -> State {
    if st.level(t) >= 0 && kind is Timer {
        signals::reprioritized(st, t, st.prio(t).diminished()).set_state(t, ThreadState::Runnable)
    } else {
        st.set_state(t, ThreadState::Runnable)
    }
}

/// Whether the hart can be taken from a thread.
pub open spec fn preemptable(st: State, t: usize, kind: InterruptKind) -> bool {
    st.level(t) >= 0 && kind is Timer ==> signals::reprioritizable(st, t, st.prio(t).diminished())
}

impl Kernel {
    /// Make a thread runnable.
    fn ready(&mut self, t: usize)
        requires
            old(self)@.wf(),
            t < old(self)@.threads.len(),
        ensures
            final(self)@ == old(self)@.set_state(t, ThreadState::Runnable),
            final(self)@.wf(),
            final(self)@.threads.len() == old(self)@.threads.len(),
    {
        assert(self@.thread_wf(t as int));
        proof {
            state::lemma_set_thread(
                self@,
                t,
                self@.set_state(t, ThreadState::Runnable).threads[t as int],
            );
        }
        self.set_state(t, ThreadState::Runnable);
    }

    /// Take the hart from a running thread.
    fn preempt(&mut self, t: usize, kind: InterruptKind)
        requires
            old(self)@.wf(),
            t < old(self)@.threads.len(),
            preemptable(old(self)@, t, kind),
        ensures
            final(self)@ == preempted(old(self)@, t, kind),
            final(self)@.wf(),
            final(self)@.threads.len() == old(self)@.threads.len(),
    {
        assert(self@.thread_wf(t as int));
        let mut prio = self.threads[t].private.prio;
        if prio.effective() >= 0 && kind == InterruptKind::Timer {
            prio.diminish();
            self.reprioritize(t, prio);
        }
        self.ready(t);
    }
}

/// The state after an interrupt has been handled, before anything is done with
/// the thread that it interrupted.
pub open spec fn after_interrupt(st: State, pool: usize, scause: u64, irq: u32) -> State {
    if kind_of(scause) is External {
        raised(st, pool, irq).0
    } else {
        st
    }
}

/// Whether an interrupt is one that the kernel knows and can handle.
pub open spec fn interruptible(st: State, pool: usize, scause: u64, irq: u32) -> bool {
    &&& !(kind_of(scause) is Unknown)
    &&& kind_of(scause) is External ==> irq != 0 && raisable(st, pool, irq)
}

/// What handling an interrupt that the kernel knows asks for.
pub open spec fn interrupt_asks(st: State, pool: usize, scause: u64, irq: u32) -> Interrupted {
    let external = kind_of(scause) is External;
    Interrupted {
        kind: kind_of(scause),
        ipi: if external {
            raised(st, pool, irq).1
        } else {
            None
        },
        complete: external,
    }
}

/// What the kernel does when it is interrupted itself, while `current` runs on
/// the hart. The interrupt must be one that it knows.
///
/// A running thread loses its hart at the end of its time, and when another hart
/// asks for it.
pub fn kernel_trap(
    k: &mut Kernel,
    pool: usize,
    scause: u64,
    irq: u32,
    current: Option<usize>,
) -> (r: (Next, Interrupted))
    requires
        old(k)@.wf(),
        interruptible(old(k)@, pool, scause, irq),
        current matches Some(t) ==> {
            let handled = after_interrupt(old(k)@, pool, scause, irq);
            &&& t < handled.threads.len()
            &&& handled.state(t) is Running ==> preemptable(handled, t, kind_of(scause))
        },
    ensures
        ({
            let handled = after_interrupt(old(k)@, pool, scause, irq);
            let kind = kind_of(scause);
            let running = current is Some && handled.state(current->0) is Running;
            if (kind is Timer || kind is Software) && running {
                final(k)@ == preempted(handled, current->0, kind) && r.0 is Yield
            } else {
                final(k)@ == handled && r.0 is Return
            }
        }),
        r.1 == interrupt_asks(old(k)@, pool, scause, irq),
        final(k)@.wf(),
        old(k)@.ordered() && (current matches Some(t) ==> old(k)@.blocked_on(t) is None)
            ==> soundness::kept(old(k)@, final(k)@),
{
    let ghost st = k@;
    let interrupted = device_interrupt(k, pool, scause, irq);
    let kind = interrupted.kind;
    if kind == InterruptKind::Timer || kind == InterruptKind::Software {
        if let Some(t) = current {
            if k.threads[t].private.state == ThreadState::Running {
                k.preempt(t, kind);
                proof {
                    if st.ordered() && st.blocked_on(t) is None {
                        soundness::law_preemption_keeps_soundness(st, t, kind);
                    }
                }
                return (Next::Yield, interrupted);
            }
        }
    }
    (Next::Return, interrupted)
}

/// What happens to a thread that was interrupted: one that has been suspended
/// leaves its hart for good; one that waits leaves it until it is woken; and one
/// that runs loses it at the end of its time, or when another hart asks for it.
pub open spec fn user_interrupted(st: State, t: usize, kind: InterruptKind) -> (State, Next) {
    let state = st.state(t);
    if state is Suspended {
        (st, Next::YieldFinal)
    } else if state is Blocking || kind is Timer || kind is Software {
        if st.level(t) < 0 {
            (st.set_state(t, ThreadState::Runnable), Next::Yield)
        } else if state is Blocking || (kind is Software && !(state is Running)) {
            (st, Next::Yield)
        } else {
            (preempted(st, t, kind), Next::Yield)
        }
    } else {
        (st, Next::Return)
    }
}

/// Whether a thread can be interrupted.
pub open spec fn user_interruptible(st: State, t: usize, kind: InterruptKind) -> bool {
    &&& t < st.threads.len()
    &&& !(st.state(t) is Suspended) && !(st.state(t) is Blocking) ==> preemptable(st, t, kind)
}

/// What the kernel does with a thread that was interrupted.
fn user_interrupt(k: &mut Kernel, t: usize, kind: InterruptKind) -> (r: Next)
    requires
        old(k)@.wf(),
        user_interruptible(old(k)@, t, kind),
    ensures
        (final(k)@, r) == user_interrupted(old(k)@, t, kind),
        final(k)@.wf(),
        final(k)@.threads.len() == old(k)@.threads.len(),
{
    let state = k.threads[t].private.state;
    if state == ThreadState::Suspended {
        return Next::YieldFinal;
    }
    if state == ThreadState::Blocking || kind == InterruptKind::Timer || kind
        == InterruptKind::Software {
        assert(k@.thread_wf(t as int));
        if k.threads[t].private.prio.effective() < 0 {
            k.ready(t);
        } else if state != ThreadState::Blocking {
            if kind == InterruptKind::Timer || state == ThreadState::Running {
                k.preempt(t, kind);
            }
        }
        return Next::Yield;
    }
    Next::Return
}

/// After a system call: a thread that has been suspended leaves its hart for
/// good, and one that waits lets others run first.
pub open spec fn syscall_left(st: State, t: usize) -> (State, Next) {
    match st.state(t) {
        ThreadState::Suspended => (st, Next::YieldFinal),
        ThreadState::Blocking => (st.set_state(t, ThreadState::Runnable), Next::Yield),
        _ => (st, Next::Return),
    }
}

/// What the kernel does with a thread after a system call.
pub fn leave_syscall(k: &mut Kernel, t: usize) -> (r: Next)
    requires
        old(k)@.wf(),
        t < old(k)@.threads.len(),
    ensures
        (final(k)@, r) == syscall_left(old(k)@, t),
        final(k)@.wf(),
        endpoints::in_order(old(k)@, t) ==> soundness::kept(old(k)@, final(k)@)
            && endpoints::in_order(final(k)@, t),
{
    let ghost st = k@;
    match k.threads[t].private.state {
        ThreadState::Suspended => Next::YieldFinal,
        ThreadState::Blocking => {
            k.ready(t);
            proof {
                if endpoints::in_order(st, t) {
                    soundness::lemma_set_state(st, t, ThreadState::Runnable);
                }
            }
            Next::Yield
        },
        _ => Next::Return,
    }
}

/// How a trap of userspace was handled.
pub struct UserTrap {
    /// What the hart does next.
    pub next: Next,
    /// For a system call: what is left to do.
    pub handled: Option<Handled>,
    /// For an interrupt: what it asks for.
    pub interrupted: Option<Interrupted>,
}

/// With the address at which a thread goes on.
pub open spec fn set_epc(st: State, t: usize, epc: u64) -> State {
    threads::set_frame(
        st,
        t,
        Trapframe { user_epc: epc, ..st.threads[t as int].trapframe.frame },
    )
}

/// When a trap of userspace can be handled: it is a system call or an interrupt.
pub open spec fn user_trap_pre(
    st: State,
    t: usize,
    pool: usize,
    scause: u64,
    sepc: u64,
    irq: u32,
) -> bool {
    &&& st.wf()
    &&& t < st.threads.len()
    &&& is_interrupt(scause) || scause == 8
    &&& scause == 8 ==> sepc + 4 <= u64::MAX && dispatch::syscall_pre(
        set_epc(st, t, (sepc + 4) as u64),
        t,
    )
    &&& scause != 8 ==> {
        let entered = set_epc(st, t, sepc);
        &&& interruptible(entered, pool, scause, irq)
        &&& user_interruptible(after_interrupt(entered, pool, scause, irq), t, kind_of(scause))
    }
}

/// What handling a trap of userspace does. A system call is resumed at the
/// instruction behind it.
pub open spec fn user_trap_post(
    st: State,
    t: usize,
    pool: usize,
    scause: u64,
    sepc: u64,
    irq: u32,
    after: State,
    r: UserTrap,
) -> bool {
    if scause == 8 {
        let entered = set_epc(st, t, (sepc + 4) as u64);
        exists|mid: State, h: Handled|
            #![trigger dispatch::syscall_post(entered, t, mid, h)]
            {
                &&& dispatch::syscall_post(entered, t, mid, h)
                &&& r.handled == Some(h)
                &&& r.interrupted is None
                &&& if h.pending is Some {
                    after == mid && r.next is Yield
                } else {
                    (after, r.next) == syscall_left(mid, t)
                }
            }
    } else {
        let entered = set_epc(st, t, sepc);
        let handled = after_interrupt(entered, pool, scause, irq);
        &&& (after, r.next) == user_interrupted(handled, t, kind_of(scause))
        &&& r.handled is None
        &&& r.interrupted == Some(interrupt_asks(entered, pool, scause, irq))
    }
}

/// Whether a trap of userspace leaves the kernel in order: it is, the thread does not
/// wait, and if it makes a system call, that is one that does so.
pub open spec fn stays_in_order(st: State, t: usize, scause: u64, sepc: u64) -> bool {
    &&& endpoints::in_order(st, t)
    &&& scause == 8 ==> soundness::is_orderly(set_epc(st, t, (sepc + 4) as u64), t)
}

/// Whether it is known that a trap of userspace keeps the page tables trees as well: if
/// the thread makes a system call, that is one that writes neither to page tables nor to
/// what userspace can.
pub open spec fn keeps_trees(st: State, t: usize, scause: u64, sepc: u64) -> bool {
    scause == 8 ==> soundness::is_settling(set_epc(st, t, (sepc + 4) as u64), t)
}

/// What the kernel does when it is entered from userspace, where the thread `t`
/// was at `sepc`.
pub fn user_trap(k: &mut Kernel, t: usize, pool: usize, scause: u64, sepc: u64, irq: u32) -> (r:
    UserTrap)
    requires
        user_trap_pre(old(k)@, t, pool, scause, sepc, irq),
    ensures
        user_trap_post(old(k)@, t, pool, scause, sepc, irq, final(k)@, r),
        final(k)@.wf(),
        stays_in_order(old(k)@, t, scause, sepc) ==> final(k)@.ordered(),
        stays_in_order(old(k)@, t, scause, sepc) && r.next is Return ==> endpoints::in_order(
            final(k)@,
            t,
        ),
        stays_in_order(old(k)@, t, scause, sepc) && keeps_trees(old(k)@, t, scause, sepc)
            ==> soundness::kept(old(k)@, final(k)@),
{
    let ghost st = k@;
    let mut frame = k.threads[t].trapframe.frame;
    if scause == 8 {
        // System call instructions are 4 bytes long: skip to the one behind.
        frame.user_epc = sepc + 4;
        k.set_frame(t, frame);
        let ghost entered = k@;
        let handled = syscall(k, t);
        let ghost mid = k@;
        let next = if handled.pending.is_some() {
            Next::Yield
        } else {
            leave_syscall(k, t)
        };
        proof {
            if stays_in_order(st, t, scause, sepc) {
                soundness::lemma_entered(st, t, (sepc + 4) as u64);
                if keeps_trees(st, t, scause, sepc) {
                    soundness::law_calls_keep_soundness(entered, t, mid, handled);
                }
                if handled.pending is None && mid.state(t) is Blocking {
                    soundness::lemma_set_state(mid, t, ThreadState::Runnable);
                }
            }
        }
        UserTrap { next, handled: Some(handled), interrupted: None }
    } else {
        frame.user_epc = sepc;
        k.set_frame(t, frame);
        let ghost entered = k@;
        let interrupted = device_interrupt(k, pool, scause, irq);
        let next = user_interrupt(k, t, interrupted.kind);
        proof {
            if stays_in_order(st, t, scause, sepc) {
                soundness::lemma_entered(st, t, sepc);
                soundness::law_interrupts_keep_soundness(entered, t, pool, scause, irq);
            }
        }
        UserTrap { next, handled: None, interrupted: Some(interrupted) }
    }
}

/// What a hart needs to return to userspace.
#[derive(Copy, Clone, Debug, PartialEq, Eq, Structural)]
pub struct UserReturn {
    /// Where the thread goes on.
    pub sepc: u64,
    /// Where its trapframe is mapped.
    pub sscratch: u64,
    /// Its page table.
    pub satp: u64,
}

/// What a thread's trapframe holds while the thread is in userspace, so that the
/// kernel can be entered: the kernel's page table, stack and hart-local data, and
/// the address of its trap handler.
pub open spec fn entry_frame(
    st: State,
    t: usize,
    kernel_satp: u64,
    kernel_trap: u64,
    kernel_tp: u64,
) -> Trapframe {
    let thread = st.threads[t as int];
    Trapframe {
        kernel_satp,
        kernel_sp: threads::stack_top(st.layout, thread.stack) as u64,
        kernel_trap,
        kernel_tp,
        ..thread.trapframe.frame
    }
}

/// The kernel once the current hart is about to return to userspace, where the thread
/// `t` goes on: the trapframe of the thread holds what the kernel is entered with, and
/// its address space is noted as that of the hart.
pub open spec fn returning(
    st: State,
    t: usize,
    kernel_satp: u64,
    kernel_trap: u64,
    kernel_tp: u64,
) -> State {
    State {
        current_asid: st.current_asid.insert(st.hart, st.threads[t as int].private.asid),
        ..threads::set_frame(st, t, entry_frame(st, t, kernel_satp, kernel_trap, kernel_tp))
    }
}

/// Which address space a hart is in says nothing about what there is.
proof fn lemma_current_asid(a: State, b: State)
    requires
        a.wf(),
        b == (State { current_asid: b.current_asid, ..a }),
    ensures
        b.wf(),
{
    assert forall|t: int| 0 <= t < b.threads.len() implies #[trigger] b.thread_wf(t) by {
        assert(a.thread_wf(t));
    }
    assert forall|j: int| 0 <= j < b.jobs.len() implies #[trigger] b.job_wf(j) by {
        assert(a.job_wf(j));
    }
}

/// Prepare to return to userspace, where the thread `t` goes on.
pub fn user_trap_ret(k: &mut Kernel, t: usize, kernel_satp: u64, kernel_trap: u64, kernel_tp: u64) -> (r:
    UserReturn)
    requires
        old(k)@.wf(),
        t < old(k)@.threads.len(),
        old(k)@.threads[t as int].private.root_pgtbl is Some,
        old(k)@.threads[t as int].private.root_pgtbl->0.root
            < crate::kernel::physmem::DIRECT_MAPPED_PAGES,
        old(k)@.threads[t as int].stack.inner + threads::STACK_FRAMES
            <= crate::kernel::physmem::DIRECT_MAPPED_PAGES,
    ensures
        final(k)@ == returning(old(k)@, t, kernel_satp, kernel_trap, kernel_tp),
        final(k)@.wf(),
        old(k)@.ordered() ==> soundness::kept(old(k)@, final(k)@),
        ({
            let thread = old(k)@.threads[t as int];
            &&& r.sepc == thread.trapframe.frame.user_epc
            &&& r.sscratch == thread.private.trapframe_addr
            &&& r.satp == 0x8000_0000_0000_0000 + thread.private.asid * 0x1000_0000_0000
                + thread.private.root_pgtbl->0.root
        }),
{
    let thread = k.threads[t];
    proof {
        mappings::law_direct_map_inverts(k@.layout, (thread.stack.inner * 4096) as u64);
    }
    let mut frame = thread.trapframe.frame;
    frame.kernel_satp = kernel_satp;
    frame.kernel_sp = thread.stack.as_phys().into_virt(&k.layout).into_usize() + THREAD_STACK_SIZE;
    frame.kernel_trap = kernel_trap;
    frame.kernel_tp = kernel_tp;
    k.set_frame(t, frame);
    let ghost framed = k@;
    let hart: u64 = k.hart;
    let _ = k.current_asid.insert(hart, thread.private.asid);
    proof {
        lemma_current_asid(framed, k@);
        if old(k)@.ordered() {
            soundness::lemma_left_alone(old(k)@, k@);
        }
    }
    let root: u64 = match thread.private.root_pgtbl {
        Some(table) => table.root,
        None => 0,
    };
    let satp = Satp { asid: thread.private.asid, ppn: Ppn::from_usize_truncate(root) };
    UserReturn {
        sepc: frame.user_epc,
        sscratch: thread.private.trapframe_addr,
        satp: satp.encode().as_usize(),
    }
}

impl Thread {
    /// Let the thread leave its hart for good: if it runs again, it does so as if
    /// for the first time. Returns the context that it leaves.
    pub fn yield_to_scheduler_final(k: &mut Kernel, this: usize) -> (r: Context)
        requires
            old(k)@.wf(),
            this < old(k)@.threads.len(),
            old(k)@.threads[this as int].stack.inner + threads::STACK_FRAMES
                <= crate::kernel::physmem::DIRECT_MAPPED_PAGES,
        ensures
            r == old(k)@.threads[this as int].context,
            final(k)@ == old(k)@.set_thread(
                this,
                Thread {
                    context: threads::first_context(
                        old(k)@.layout,
                        old(k)@.code,
                        old(k)@.threads[this as int].stack,
                    ),
                    ..old(k)@.threads[this as int]
                },
            ),
            final(k)@.wf(),
            old(k)@.ordered() ==> soundness::kept(old(k)@, final(k)@),
    {
        let ghost st = k@;
        assert(k@.thread_wf(this as int));
        let mut thread = k.threads[this];
        let context = thread.context;
        proof {
            mappings::law_direct_map_inverts(k@.layout, (thread.stack.inner * 4096) as u64);
        }
        let top: u64 = thread.stack.as_phys().into_virt(&k.layout).into_usize()
            + THREAD_STACK_SIZE;
        thread.context = Context::starting_at(k.code.user_trap_ret, top);
        proof {
            state::lemma_set_thread(k@, this, thread);
        }
        k.set_thread(this, thread);
        proof {
            if st.ordered() {
                soundness::lemma_left_alone(st, k@);
            }
        }
        context
    }
}

/// A thread that has been interrupted at the end of its time can run again, and
/// is in the run queue of its priority on the current hart.
pub proof fn law_preempted_runs_again(st: State, t: usize)
    requires
        st.wf(),
        t < st.threads.len(),
        st.blocked_on(t) is None,
        preemptable(st, t, InterruptKind::Timer),
        st.level(t) >= 0,
    ensures
        preempted(st, t, InterruptKind::Timer).state(t) is Runnable,
        preempted(st, t, InterruptKind::Timer).sched.at(
            st.hart,
            st.prio(t).diminished().level(),
        ).last() == t,
{
    assert(st.thread_wf(t as int));
    let prio = st.prio(t).diminished();
    crate::kernel::capability::thread::law_boost_is_monotone(st.prio(t));
    let dequeued = crate::kernel::dispatch::dequeued(st, t);
    assert(dequeued.sched.has(st.hart));
    assert(dequeued.sched.queues[st.hart].len() == 32);
}

/// The highest bit of the cause of a trap tells interrupts from exceptions, and the rest is
/// its code: 1 is an interrupt of another hart, 5 is the timer, and 9 is a device. The codes
/// are told apart by their lowest eight bits.
pub proof fn law_causes_are_told_apart(scause: u64)
    ensures
        scause < 0x8000_0000_0000_0000 ==> kind_of(scause) is Unknown && !is_interrupt(scause),
        scause >= 0x8000_0000_0000_0000 ==> is_interrupt(scause) && {
            let code = (scause - 0x8000_0000_0000_0000) % 256;
            &&& kind_of(scause) is Software <==> code == 1
            &&& kind_of(scause) is Timer <==> code == 5
            &&& kind_of(scause) is External <==> code == 9
        },
{
}

/// A system call goes on behind the instruction that made it, four bytes long. If the call
/// has been answered, the thread goes on, unless the call suspended it, or it is to wait.
#[verifier::spinoff_prover]
#[verifier::rlimit(50)]
pub proof fn law_calls_go_on_behind(
    st: State,
    t: usize,
    pool: usize,
    sepc: u64,
    irq: u32,
    after: State,
    r: UserTrap,
)
    requires
        user_trap_pre(st, t, pool, 8, sepc, irq),
        user_trap_post(st, t, pool, 8, sepc, irq, after, r),
    ensures
        ({
            let was = st.threads[t as int];
            let frame = Trapframe { user_epc: (sepc + 4) as u64, ..was.trapframe.frame };
            let entered = State {
                threads: st.threads.update(
                    t as int,
                    Thread { trapframe: OwnedTrapframe { frame, ..was.trapframe }, ..was },
                ),
                ..st
            };
            &&& r.interrupted is None
            &&& r.handled matches Some(h) && exists|mid: State|
                #![trigger dispatch::syscall_post(entered, t, mid, h)]
                dispatch::syscall_post(entered, t, mid, h) && if h.pending is Some {
                    after == mid && r.next is Yield
                } else {
                    match mid.threads[t as int].private.state {
                        ThreadState::Suspended => after == mid && r.next is YieldFinal,
                        ThreadState::Blocking => {
                            &&& t < mid.threads.len() ==> after.threads[
                                t as int
                            ].private.state is Runnable
                            &&& r.next is Yield
                        },
                        _ => after == mid && r.next is Return,
                    }
                }
        }),
{
    let was = st.threads[t as int];
    let frame = Trapframe { user_epc: (sepc + 4) as u64, ..was.trapframe.frame };
    let entered = State {
        threads: st.threads.update(
            t as int,
            Thread { trapframe: OwnedTrapframe { frame, ..was.trapframe }, ..was },
        ),
        ..st
    };
    assert(entered == set_epc(st, t, (sepc + 4) as u64));
    let (mid, h) = choose|mid: State, h: Handled|
        #![trigger dispatch::syscall_post(entered, t, mid, h)]
        {
            &&& dispatch::syscall_post(entered, t, mid, h)
            &&& r.handled == Some(h)
            &&& r.interrupted is None
            &&& if h.pending is Some {
                after == mid && r.next is Yield
            } else {
                (after, r.next) == syscall_left(mid, t)
            }
        };
    assert(dispatch::syscall_post(entered, t, mid, h));
}

/// A thread whose time is up, or whose hart was asked by another one to look again, is
/// runnable and gives up the hart; only in the first case it goes behind the others of the
/// priority that is left of its boost. It goes on where it was. Neither concerns a device.
#[verifier::spinoff_prover]
#[verifier::rlimit(50)]
pub proof fn law_interrupted_threads_give_way(
    st: State,
    t: usize,
    pool: usize,
    scause: u64,
    sepc: u64,
    irq: u32,
    after: State,
    r: UserTrap,
)
    requires
        user_trap_pre(st, t, pool, scause, sepc, irq),
        user_trap_post(st, t, pool, scause, sepc, irq, after, r),
        scause == 0x8000_0000_0000_0001 || scause == 0x8000_0000_0000_0005,
        st.threads[t as int].private.state is Running,
        st.threads[t as int].blocked_on_wq is None,
        st.level(t) >= 0,
    ensures
        after.threads[t as int].private.state is Runnable,
        after.threads[t as int].trapframe.frame.user_epc == sepc,
        after.threads[t as int].trapframe.frame.a0 == st.threads[t as int].trapframe.frame.a0,
        r.next is Yield,
        r.handled is None,
        r.interrupted matches Some(i) && i.ipi is None && !i.complete,
        scause == 0x8000_0000_0000_0001 ==> after.sched == st.sched && after.threads[
            t as int
        ].private.prio == st.threads[t as int].private.prio,
        scause == 0x8000_0000_0000_0005 ==> {
            let prio = st.prio(t).diminished();
            &&& after.sched.queues[st.hart][prio.level() as int].last() == t
            &&& after.threads[t as int].private.prio == prio
        },
{
    let entered = set_epc(st, t, sepc);
    assert(st.thread_wf(t as int));
    state::lemma_set_thread(st, t, entered.threads[t as int]);
    assert(entered.blocked_on(t) is None);
    if scause == 0x8000_0000_0000_0005 {
        law_preempted_runs_again(entered, t);
    }
}

/// An interrupt of a device is reported to the controller, and signals the notification
/// that its handler is bound to, with the bits that it is bound with; without a handler, or
/// with one that is bound to nothing, nothing happens. A thread that runs then does not
/// change, and one that is suspended does not go on.
#[verifier::spinoff_prover]
#[verifier::rlimit(50)]
pub proof fn law_devices_signal(
    st: State,
    t: usize,
    pool: usize,
    scause: u64,
    sepc: u64,
    irq: u32,
    after: State,
    r: UserTrap,
)
    requires
        user_trap_pre(st, t, pool, scause, sepc, irq),
        user_trap_post(st, t, pool, scause, sepc, irq, after, r),
        scause == 0x8000_0000_0000_0009,
        0 < irq < 0x1_0000,
    ensures
        ({
            let entered = set_epc(st, t, sepc);
            let bound = st.pools[pool as int].dom().contains(irq as u16);
            let handler = st.handlers[st.pools[pool as int][irq as u16] as int];
            &&& entered.threads[t as int].trapframe.frame.user_epc == sepc
            &&& r.interrupted matches Some(i) && i.complete && {
                if bound && handler.notification is Some {
                    let (n, bits) = handler.notification->0;
                    let (mid, ipi) = signals::signalled(entered, n, bits);
                    i.ipi == ipi && (mid.threads[t as int].private.state is Running ==> after == mid)
                } else {
                    i.ipi is None && (st.threads[t as int].private.state is Running ==> after
                        == entered)
                }
            }
            &&& r.next is Return ==> !(after.threads[t as int].private.state is Suspended)
        }),
{
}

/// A thread returns to userspace with the registers that it has; beside them stands how the
/// kernel is entered the next time: on the top of the kernel stack of the thread, which is
/// 128 frames large. The hart uses the address space of the thread, and no other thread
/// changes.
pub proof fn law_threads_return_as_they_were(
    st: State,
    t: usize,
    kernel_satp: u64,
    kernel_trap: u64,
    kernel_tp: u64,
    other: int,
)
    requires
        t < st.threads.len(),
        st.threads[t as int].stack.inner * 4096 + st.layout.physical_offset + 128 * 4096
            <= u64::MAX,
        0 <= other < st.threads.len(),
        other != t,
    ensures
        ({
            let was = st.threads[t as int];
            let after = returning(st, t, kernel_satp, kernel_trap, kernel_tp);
            let frame = after.threads[t as int].trapframe.frame;
            &&& frame.kernel_satp == kernel_satp && frame.kernel_trap == kernel_trap
                && frame.kernel_tp == kernel_tp
            &&& frame.kernel_sp == st.layout.physical_offset + (was.stack.inner + 128) * 4096
            &&& was.trapframe.frame == Trapframe {
                kernel_satp: was.trapframe.frame.kernel_satp,
                kernel_trap: was.trapframe.frame.kernel_trap,
                kernel_tp: was.trapframe.frame.kernel_tp,
                kernel_sp: was.trapframe.frame.kernel_sp,
                ..frame
            }
            &&& after.threads[t as int].private == was.private
            &&& after.threads[other] == st.threads[other]
            &&& after.current_asid.dom().contains(st.hart)
            &&& after.current_asid[st.hart] == was.private.asid
            &&& after.mem == st.mem && after.sched == st.sched
        }),
{
}

/// The exceptions have the names of their codes, from 0 on; those from 24 to 31 and from 48
/// to 63 are not known, and all others are reserved.
pub proof fn law_names_of_exceptions(id: u64)
    ensures
        ({
            let names = seq![
                "insn addr misaligned"@,
                "insn addr fault"@,
                "illegal insn"@,
                "breakpoint"@,
                "load addr misaligned"@,
                "load access fault"@,
                "store/AMO addr misaligned"@,
                "store/AMO access fault"@,
                "U-mode envcall"@,
                "S-mode envcall"@,
                "reserved"@,
                "reserved"@,
                "insn page fault"@,
                "load page fault"@,
                "reserved"@,
                "store/AMO page fault"@,
            ];
            &&& id < 16 ==> exception_name(id) == names[id as int]
            &&& 24 <= id < 32 || 48 <= id < 64 ==> exception_name(id) == "unknown"@
            &&& 16 <= id < 24 || 32 <= id < 48 || id >= 64 ==> exception_name(id) == "reserved"@
        }),
{
}

} // verus!
