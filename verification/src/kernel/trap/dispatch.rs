//! How the system calls of userspace are told apart, and what they answer.

use vstd::prelude::*;

use super::endpoints;
use super::endpoints::{
    sys_endpoint_call, sys_endpoint_call_finish, sys_endpoint_call_sent, sys_endpoint_recv,
    sys_endpoint_recv_finish, sys_endpoint_reply, sys_endpoint_send, sys_endpoint_send_resume,
    Outcome, Pending,
};
use super::signals;
use super::signals::{
    sys_intr_handler_ack, sys_intr_handler_bind, sys_intr_handler_unbind, sys_intr_pool_get,
    sys_job_create_thread, sys_notification_poll, sys_notification_signal, sys_notification_wait,
    sys_notification_wait_finish, sys_thread_set_priority, sys_yield,
};
use super::soundness;
use super::syscalls;
use super::syscalls::{
    sys_debug_cap_identify, sys_debug_cap_slot, sys_debug_dump_root, sys_debug_print, sys_delete,
    sys_endpoint_create, sys_grant, sys_job_create, sys_notification_create, sys_page_create,
    sys_pgtbl_create, MemoryUsage,
};
use super::thread_calls;
use super::thread_calls::{
    sys_page_map, sys_thread_configure, sys_thread_resume, sys_thread_set_ipc_buffer,
    sys_thread_start, sys_thread_suspend, sys_thread_write_registers,
};
use crate::addr::virt;
use crate::addr::VirtualConst;
use crate::capability::paging::PageTableFlags as UserFlags;
use crate::capability::{CapError, CapResult, CapRights, CapabilityType, MessageHeader};
use crate::kernel::capability::CapabilitySlotInner;
use crate::kernel::order;
use crate::kernel::state::{Kernel, State};
use crate::kernel::threads;
use crate::kernel::trampoline::Trapframe;
use crate::syscalls::SyscallNumber;

verus! {

/// Values that a system call can answer.
pub trait IntoTrapframe: Sized {
    /// What the registers `a0` and `a1` hold then.
    spec fn registers(self) -> (u64, u64);

    /// What the registers `a0` and `a1` hold then.
    fn into_trapframe(self) -> (r: (u64, u64))
        ensures
            r == self.registers(),
    ;
}

impl<T: IntoTrapframe, E: IntoTrapframe> IntoTrapframe for Result<T, E> {
    open spec fn registers(self) -> (u64, u64) {
        match self {
            Ok(v) => (0, v.registers().0),
            Err(e) => (e.registers().0, 0),
        }
    }

    fn into_trapframe(self) -> (r: (u64, u64)) {
        match self {
            Ok(v) => (0, v.into_trapframe().0),
            Err(e) => (e.into_trapframe().0, 0),
        }
    }
}

impl IntoTrapframe for () {
    open spec fn registers(self) -> (u64, u64) {
        (0, 0)
    }

    fn into_trapframe(self) -> (r: (u64, u64)) {
        (0, 0)
    }
}

impl IntoTrapframe for u64 {
    open spec fn registers(self) -> (u64, u64) {
        (self, 0)
    }

    fn into_trapframe(self) -> (r: (u64, u64)) {
        (self, 0)
    }
}

impl IntoTrapframe for CapError {
    open spec fn registers(self) -> (u64, u64) {
        (self.number(), 0)
    }

    fn into_trapframe(self) -> (r: (u64, u64)) {
        (self.code(), 0)
    }
}

impl IntoTrapframe for CapabilityType {
    open spec fn registers(self) -> (u64, u64) {
        (self.number() as u64, 0)
    }

    fn into_trapframe(self) -> (r: (u64, u64)) {
        (self.code() as u64, 0)
    }
}

impl IntoTrapframe for MessageHeader {
    open spec fn registers(self) -> (u64, u64) {
        (self@, 0)
    }

    fn into_trapframe(self) -> (r: (u64, u64)) {
        (self.into_raw(), 0)
    }
}

/// What a system call answers is what userspace reads out of it: the value, or
/// the error.
pub proof fn law_answers_are_read_back(r: CapResult<u64>)
    requires
        r matches Err(e) ==> e != CapError::NoError,
    ensures
        r matches Ok(value) ==> r.registers() == (0u64, value),
        r matches Err(e) ==> r.registers().0 != 0 && CapError::of_number(r.registers().0) == e,
{
}

/// What is to be done outside of the kernel after a system call.
pub enum Also {
    /// Nothing.
    Nothing,
    /// Interrupt a hart.
    Interrupt(u64),
    /// Enable an interrupt at the interrupt controller.
    Enable(u16),
    /// Complete an interrupt at the interrupt controller.
    Complete(u32),
    /// Print a text.
    Print(String),
    /// Print how much memory is in use.
    Usage(MemoryUsage),
    /// Print what a slot holds.
    Show(CapabilitySlotInner),
}

/// How a system call was handled.
pub struct Handled {
    /// What is left to do once the thread runs again, if it has to give up its
    /// hart.
    pub pending: Option<Pending>,
    /// What is to be done outside of the kernel.
    pub also: Also,
}

/// The interrupt of a hart, if there is one to interrupt.
pub open spec fn ipi_to(hart: Option<u64>) -> Also {
    match hart {
        Some(hart) => Also::Interrupt(hart),
        None => Also::Nothing,
    }
}

/// The enabling of an interrupt, if there is one to enable.
pub open spec fn enabling(irq: Option<u16>) -> Also {
    match irq {
        Some(irq) => Also::Enable(irq),
        None => Also::Nothing,
    }
}

/// The rights that an argument stands for.
pub open spec fn user_rights(bits: u64) -> CapRights {
    CapRights { bits: bits % 8 }
}

/// The flags that an argument stands for.
pub open spec fn user_flags(bits: u64) -> UserFlags {
    UserFlags { bits: (((bits / 2) % 8) * 2) as u8 }
}

/// With what a system call answers in the registers of a thread.
pub open spec fn replied(st: State, thread: usize, registers: (u64, u64)) -> State {
    threads::set_frame(
        st,
        thread,
        Trapframe {
            a0: registers.0,
            a1: registers.1,
            ..st.threads[thread as int].trapframe.frame
        },
    )
}

/// A system call that left `st` is done, and answers `registers`.
pub open spec fn plain(
    st: State,
    thread: usize,
    registers: (u64, u64),
    after: State,
    h: Handled,
) -> bool {
    after == replied(st, thread, registers) && h.pending is None
}

impl Kernel {
    /// Put what a system call answers into the registers of a thread.
    fn reply(&mut self, thread: usize, registers: (u64, u64))
        requires
            old(self)@.wf(),
            thread < old(self)@.threads.len(),
        ensures
            final(self)@ == replied(old(self)@, thread, registers),
            final(self)@.wf(),
            final(self)@.threads.len() == old(self)@.threads.len(),
            endpoints::in_order(old(self)@, thread) ==> endpoints::in_order(final(self)@, thread),
    {
        let ghost st = self@;
        let mut frame = self.threads[thread].trapframe.frame;
        frame.a0 = registers.0;
        frame.a1 = registers.1;
        self.set_frame(thread, frame);
        proof {
            if st.ordered() {
                order::lemma_going_on(st, self@);
            }
        }
    }
}

/// Whether handling a system call of a thread that does not wait has left the kernel in
/// order, if it was, and the thread does not wait if the call is done.
pub open spec fn keeps_order(st: State, thread: usize, after: State, h: Handled) -> bool {
    endpoints::in_order(st, thread) ==> after.ordered() && (h.pending is None
        ==> endpoints::in_order(after, thread))
}

/// What handling [`SyscallNumber::CaptrDelete`] does.
pub open spec fn delete_handled(st: State, thread: usize, after: State, h: Handled) -> bool {
    let frame = st.threads[thread as int].trapframe.frame;
    exists|mid: State, r: CapResult<()>|
        #![trigger syscalls::sys_delete_post(st, thread, frame.a1, mid, r)]
        syscalls::sys_delete_post(st, thread, frame.a1, mid, r)
            && plain(mid, thread, r.registers(), after, h)
            && h.also is Nothing
}

fn on_delete(k: &mut Kernel, thread: usize) -> (h: Handled)
    requires
        thread < old(k)@.threads.len(),
        syscalls::sys_delete_pre(
            old(k)@,
            thread,
            old(k)@.threads[thread as int].trapframe.frame.a1,
        ),
    ensures
        delete_handled(old(k)@, thread, final(k)@, h),
        final(k)@.wf(),
        final(k)@.threads.len() >= old(k)@.threads.len(),
{
    let frame = k.threads[thread].trapframe.frame;
    let r = sys_delete(k, thread, frame.a1);
    k.reply(thread, r.into_trapframe());
    Handled { pending: None, also: Also::Nothing }
}

/// What handling [`SyscallNumber::CaptrGrant`] does.
pub open spec fn grant_handled(st: State, thread: usize, after: State, h: Handled) -> bool {
    let frame = st.threads[thread as int].trapframe.frame;
    exists|mid: State, r: CapResult<u64>|
        #![trigger syscalls::sys_grant_post(
            st,
            thread,
            frame.a1,
            user_rights(frame.a2),
            frame.a3,
            mid,
            r,
        )]
        syscalls::sys_grant_post(st, thread, frame.a1, user_rights(frame.a2), frame.a3, mid, r)
            && plain(mid, thread, r.registers(), after, h)
            && h.also is Nothing
}

fn on_grant(k: &mut Kernel, thread: usize) -> (h: Handled)
    requires
        thread < old(k)@.threads.len(),
        syscalls::sys_grant_pre(
            old(k)@,
            thread,
            old(k)@.threads[thread as int].trapframe.frame.a1,
            user_rights(old(k)@.threads[thread as int].trapframe.frame.a2),
            old(k)@.threads[thread as int].trapframe.frame.a3,
        ),
    ensures
        grant_handled(old(k)@, thread, final(k)@, h),
        final(k)@.wf(),
        final(k)@.threads.len() >= old(k)@.threads.len(),
{
    let frame = k.threads[thread].trapframe.frame;
    let r = sys_grant(k, thread, frame.a1, CapRights::from(frame.a2), frame.a3);
    k.reply(thread, r.into_trapframe());
    Handled { pending: None, also: Also::Nothing }
}

/// What handling [`SyscallNumber::DebugCapIdentify`] does.
pub open spec fn debug_cap_identify_handled(
    st: State,
    thread: usize,
    after: State,
    h: Handled,
) -> bool {
    let frame = st.threads[thread as int].trapframe.frame;
    exists|r: CapResult<CapabilityType>|
        #![trigger syscalls::sys_debug_cap_identify_post(st, thread, frame.a1, r)]
        syscalls::sys_debug_cap_identify_post(st, thread, frame.a1, r)
            && plain(st, thread, r.registers(), after, h)
            && h.also is Nothing
}

fn on_debug_cap_identify(k: &mut Kernel, thread: usize) -> (h: Handled)
    requires
        thread < old(k)@.threads.len(),
        syscalls::sys_debug_cap_identify_pre(
            old(k)@,
            thread,
            old(k)@.threads[thread as int].trapframe.frame.a1,
        ),
    ensures
        debug_cap_identify_handled(old(k)@, thread, final(k)@, h),
        final(k)@.wf(),
        final(k)@.threads.len() >= old(k)@.threads.len(),
{
    let frame = k.threads[thread].trapframe.frame;
    let r = sys_debug_cap_identify(k, thread, frame.a1);
    k.reply(thread, r.into_trapframe());
    Handled { pending: None, also: Also::Nothing }
}

/// What handling [`SyscallNumber::NotificationCreate`] does.
pub open spec fn notification_create_handled(
    st: State,
    thread: usize,
    after: State,
    h: Handled,
) -> bool {
    let frame = st.threads[thread as int].trapframe.frame;
    exists|mid: State, r: CapResult<u64>|
        #![trigger syscalls::sys_notification_create_post(st, thread, mid, r)]
        syscalls::sys_notification_create_post(st, thread, mid, r)
            && plain(mid, thread, r.registers(), after, h)
            && h.also is Nothing
}

fn on_notification_create(k: &mut Kernel, thread: usize) -> (h: Handled)
    requires
        thread < old(k)@.threads.len(),
        syscalls::sys_notification_create_pre(old(k)@, thread),
    ensures
        notification_create_handled(old(k)@, thread, final(k)@, h),
        final(k)@.wf(),
        final(k)@.threads.len() >= old(k)@.threads.len(),
{
    let r = sys_notification_create(k, thread);
    k.reply(thread, r.into_trapframe());
    Handled { pending: None, also: Also::Nothing }
}

/// What handling [`SyscallNumber::EndpointCreate`] does.
pub open spec fn endpoint_create_handled(
    st: State,
    thread: usize,
    after: State,
    h: Handled,
) -> bool {
    let frame = st.threads[thread as int].trapframe.frame;
    exists|mid: State, r: CapResult<u64>|
        #![trigger syscalls::sys_endpoint_create_post(st, thread, mid, r)]
        syscalls::sys_endpoint_create_post(st, thread, mid, r)
            && plain(mid, thread, r.registers(), after, h)
            && h.also is Nothing
}

fn on_endpoint_create(k: &mut Kernel, thread: usize) -> (h: Handled)
    requires
        thread < old(k)@.threads.len(),
        syscalls::sys_endpoint_create_pre(old(k)@, thread),
    ensures
        endpoint_create_handled(old(k)@, thread, final(k)@, h),
        final(k)@.wf(),
        final(k)@.threads.len() >= old(k)@.threads.len(),
{
    let r = sys_endpoint_create(k, thread);
    k.reply(thread, r.into_trapframe());
    Handled { pending: None, also: Also::Nothing }
}

/// What handling [`SyscallNumber::JobCreate`] does.
pub open spec fn job_create_handled(st: State, thread: usize, after: State, h: Handled) -> bool {
    let frame = st.threads[thread as int].trapframe.frame;
    exists|mid: State, r: CapResult<u64>|
        #![trigger syscalls::sys_job_create_post(st, thread, frame.a1, mid, r)]
        syscalls::sys_job_create_post(st, thread, frame.a1, mid, r)
            && plain(mid, thread, r.registers(), after, h)
            && h.also is Nothing
}

fn on_job_create(k: &mut Kernel, thread: usize) -> (h: Handled)
    requires
        thread < old(k)@.threads.len(),
        syscalls::sys_job_create_pre(
            old(k)@,
            thread,
            old(k)@.threads[thread as int].trapframe.frame.a1,
        ),
    ensures
        job_create_handled(old(k)@, thread, final(k)@, h),
        final(k)@.wf(),
        final(k)@.threads.len() >= old(k)@.threads.len(),
{
    let frame = k.threads[thread].trapframe.frame;
    let r = sys_job_create(k, thread, frame.a1);
    k.reply(thread, r.into_trapframe());
    Handled { pending: None, also: Also::Nothing }
}

/// What handling [`SyscallNumber::PageCreate`] does.
pub open spec fn page_create_handled(st: State, thread: usize, after: State, h: Handled) -> bool {
    let frame = st.threads[thread as int].trapframe.frame;
    exists|mid: State, r: CapResult<u64>|
        #![trigger syscalls::sys_page_create_post(st, thread, frame.a1, mid, r)]
        syscalls::sys_page_create_post(st, thread, frame.a1, mid, r)
            && plain(mid, thread, r.registers(), after, h)
            && h.also is Nothing
}

fn on_page_create(k: &mut Kernel, thread: usize) -> (h: Handled)
    requires
        thread < old(k)@.threads.len(),
        syscalls::sys_page_create_pre(
            old(k)@,
            thread,
            old(k)@.threads[thread as int].trapframe.frame.a1,
        ),
    ensures
        page_create_handled(old(k)@, thread, final(k)@, h),
        final(k)@.wf(),
        final(k)@.threads.len() >= old(k)@.threads.len(),
{
    let frame = k.threads[thread].trapframe.frame;
    let r = sys_page_create(k, thread, frame.a1);
    k.reply(thread, r.into_trapframe());
    Handled { pending: None, also: Also::Nothing }
}

/// What handling [`SyscallNumber::PageTableCreate`] does.
pub open spec fn pgtbl_create_handled(st: State, thread: usize, after: State, h: Handled) -> bool {
    let frame = st.threads[thread as int].trapframe.frame;
    exists|mid: State, r: CapResult<u64>|
        #![trigger syscalls::sys_pgtbl_create_post(st, thread, mid, r)]
        syscalls::sys_pgtbl_create_post(st, thread, mid, r)
            && plain(mid, thread, r.registers(), after, h)
            && h.also is Nothing
}

fn on_pgtbl_create(k: &mut Kernel, thread: usize) -> (h: Handled)
    requires
        thread < old(k)@.threads.len(),
        syscalls::sys_pgtbl_create_pre(old(k)@, thread),
    ensures
        pgtbl_create_handled(old(k)@, thread, final(k)@, h),
        final(k)@.wf(),
        final(k)@.threads.len() >= old(k)@.threads.len(),
{
    let r = sys_pgtbl_create(k, thread);
    k.reply(thread, r.into_trapframe());
    Handled { pending: None, also: Also::Nothing }
}

/// What handling [`SyscallNumber::PageMap`] does.
pub open spec fn page_map_handled(st: State, thread: usize, after: State, h: Handled) -> bool {
    let frame = st.threads[thread as int].trapframe.frame;
    exists|mid: State, r: CapResult<()>|
        #![trigger thread_calls::sys_page_map_post(
            st,
            thread,
            frame.a1,
            frame.a2,
            virt::canonical(frame.a3),
            user_flags(frame.a4),
            mid,
            r,
        )]
        thread_calls::sys_page_map_post(
            st,
            thread,
            frame.a1,
            frame.a2,
            virt::canonical(frame.a3),
            user_flags(frame.a4),
            mid,
            r,
        )
            && plain(mid, thread, r.registers(), after, h)
            && h.also is Nothing
}

fn on_page_map(k: &mut Kernel, thread: usize) -> (h: Handled)
    requires
        thread < old(k)@.threads.len(),
        thread_calls::sys_page_map_pre(
            old(k)@,
            thread,
            old(k)@.threads[thread as int].trapframe.frame.a1,
            old(k)@.threads[thread as int].trapframe.frame.a2,
            virt::canonical(old(k)@.threads[thread as int].trapframe.frame.a3),
            user_flags(old(k)@.threads[thread as int].trapframe.frame.a4),
        ),
    ensures
        page_map_handled(old(k)@, thread, final(k)@, h),
        final(k)@.wf(),
        final(k)@.threads.len() >= old(k)@.threads.len(),
        keeps_order(old(k)@, thread, final(k)@, h),
{
    let ghost st = k@;
    let frame = k.threads[thread].trapframe.frame;
    let r = sys_page_map(
        k,
        thread,
        frame.a1,
        frame.a2,
        VirtualConst::from_usize_unchecked(frame.a3),
        UserFlags::from_bits_truncate(frame.a4),
    );
    proof {
        if st.ordered() {
            order::lemma_going_on(st, k@);
        }
    }
    k.reply(thread, r.into_trapframe());
    Handled { pending: None, also: Also::Nothing }
}

/// What handling [`SyscallNumber::ThreadSuspend`] does.
pub open spec fn thread_suspend_handled(
    st: State,
    thread: usize,
    after: State,
    h: Handled,
) -> bool {
    let frame = st.threads[thread as int].trapframe.frame;
    exists|mid: State, r: CapResult<()>|
        #![trigger thread_calls::sys_thread_suspend_post(st, thread, frame.a1, mid, r)]
        thread_calls::sys_thread_suspend_post(st, thread, frame.a1, mid, r)
            && plain(mid, thread, r.registers(), after, h)
            && h.also is Nothing
}

fn on_thread_suspend(k: &mut Kernel, thread: usize) -> (h: Handled)
    requires
        thread < old(k)@.threads.len(),
        thread_calls::sys_thread_suspend_pre(
            old(k)@,
            thread,
            old(k)@.threads[thread as int].trapframe.frame.a1,
        ),
    ensures
        thread_suspend_handled(old(k)@, thread, final(k)@, h),
        final(k)@.wf(),
        final(k)@.threads.len() >= old(k)@.threads.len(),
{
    let frame = k.threads[thread].trapframe.frame;
    let r = sys_thread_suspend(k, thread, frame.a1);
    k.reply(thread, r.into_trapframe());
    Handled { pending: None, also: Also::Nothing }
}

/// What handling [`SyscallNumber::ThreadResume`] does.
pub open spec fn thread_resume_handled(st: State, thread: usize, after: State, h: Handled) -> bool {
    let frame = st.threads[thread as int].trapframe.frame;
    exists|mid: State, r: CapResult<()>|
        #![trigger thread_calls::sys_thread_resume_post(st, thread, frame.a1, mid, r)]
        thread_calls::sys_thread_resume_post(st, thread, frame.a1, mid, r)
            && plain(mid, thread, r.registers(), after, h)
            && h.also is Nothing
}

fn on_thread_resume(k: &mut Kernel, thread: usize) -> (h: Handled)
    requires
        thread < old(k)@.threads.len(),
        thread_calls::sys_thread_resume_pre(
            old(k)@,
            thread,
            old(k)@.threads[thread as int].trapframe.frame.a1,
        ),
    ensures
        thread_resume_handled(old(k)@, thread, final(k)@, h),
        final(k)@.wf(),
        final(k)@.threads.len() >= old(k)@.threads.len(),
{
    let frame = k.threads[thread].trapframe.frame;
    let r = sys_thread_resume(k, thread, frame.a1);
    k.reply(thread, r.into_trapframe());
    Handled { pending: None, also: Also::Nothing }
}

/// What handling [`SyscallNumber::ThreadStart`] does.
pub open spec fn thread_start_handled(st: State, thread: usize, after: State, h: Handled) -> bool {
    let frame = st.threads[thread as int].trapframe.frame;
    exists|mid: State, r: CapResult<()>|
        #![trigger thread_calls::sys_thread_start_post(
            st,
            thread,
            frame.a1,
            frame.a2,
            frame.a3,
            frame.a4,
            frame.a5,
            mid,
            r,
        )]
        thread_calls::sys_thread_start_post(
            st,
            thread,
            frame.a1,
            frame.a2,
            frame.a3,
            frame.a4,
            frame.a5,
            mid,
            r,
        )
            && plain(mid, thread, r.registers(), after, h)
            && h.also is Nothing
}

fn on_thread_start(k: &mut Kernel, thread: usize) -> (h: Handled)
    requires
        thread < old(k)@.threads.len(),
        thread_calls::sys_thread_start_pre(
            old(k)@,
            thread,
            old(k)@.threads[thread as int].trapframe.frame.a1,
            old(k)@.threads[thread as int].trapframe.frame.a2,
            old(k)@.threads[thread as int].trapframe.frame.a3,
            old(k)@.threads[thread as int].trapframe.frame.a4,
            old(k)@.threads[thread as int].trapframe.frame.a5,
        ),
    ensures
        thread_start_handled(old(k)@, thread, final(k)@, h),
        final(k)@.wf(),
        final(k)@.threads.len() >= old(k)@.threads.len(),
{
    let frame = k.threads[thread].trapframe.frame;
    let r = sys_thread_start(k, thread, frame.a1, frame.a2, frame.a3, frame.a4, frame.a5);
    k.reply(thread, r.into_trapframe());
    Handled { pending: None, also: Also::Nothing }
}

/// What handling [`SyscallNumber::ThreadConfigure`] does.
pub open spec fn thread_configure_handled(
    st: State,
    thread: usize,
    after: State,
    h: Handled,
) -> bool {
    let frame = st.threads[thread as int].trapframe.frame;
    exists|mid: State, r: CapResult<()>|
        #![trigger thread_calls::sys_thread_configure_post(
            st,
            thread,
            frame.a1,
            frame.a2,
            frame.a3,
            mid,
            r,
        )]
        thread_calls::sys_thread_configure_post(st, thread, frame.a1, frame.a2, frame.a3, mid, r)
            && plain(mid, thread, r.registers(), after, h)
            && h.also is Nothing
}

fn on_thread_configure(k: &mut Kernel, thread: usize) -> (h: Handled)
    requires
        thread < old(k)@.threads.len(),
        thread_calls::sys_thread_configure_pre(
            old(k)@,
            thread,
            old(k)@.threads[thread as int].trapframe.frame.a1,
            old(k)@.threads[thread as int].trapframe.frame.a2,
            old(k)@.threads[thread as int].trapframe.frame.a3,
        ),
    ensures
        thread_configure_handled(old(k)@, thread, final(k)@, h),
        final(k)@.wf(),
        final(k)@.threads.len() >= old(k)@.threads.len(),
        keeps_order(old(k)@, thread, final(k)@, h),
{
    let ghost st = k@;
    let frame = k.threads[thread].trapframe.frame;
    let r = sys_thread_configure(k, thread, frame.a1, frame.a2, frame.a3);
    proof {
        if st.ordered() && k@ != st {
            soundness::lemma_thread_at(st, thread, frame.a1);
            order::lemma_configured(
                st,
                thread_calls::thread_at(st, thread, frame.a1)->Ok_0,
                thread_calls::table_at(st, thread, frame.a2)->Ok_0,
                thread_calls::buffer_at(st, thread, frame.a3)->Ok_0,
                k@,
            );
        }
    }
    k.reply(thread, r.into_trapframe());
    Handled { pending: None, also: Also::Nothing }
}

/// What handling [`SyscallNumber::ThreadWriteRegisters`] does.
pub open spec fn thread_write_registers_handled(
    st: State,
    thread: usize,
    after: State,
    h: Handled,
) -> bool {
    let frame = st.threads[thread as int].trapframe.frame;
    exists|mid: State, r: CapResult<()>|
        #![trigger thread_calls::sys_thread_write_registers_post(
            st,
            thread,
            frame.a1,
            frame.a2,
            mid,
            r,
        )]
        thread_calls::sys_thread_write_registers_post(st, thread, frame.a1, frame.a2, mid, r)
            && plain(mid, thread, r.registers(), after, h)
            && h.also is Nothing
}

fn on_thread_write_registers(k: &mut Kernel, thread: usize) -> (h: Handled)
    requires
        thread < old(k)@.threads.len(),
        thread_calls::sys_thread_write_registers_pre(
            old(k)@,
            thread,
            old(k)@.threads[thread as int].trapframe.frame.a1,
            old(k)@.threads[thread as int].trapframe.frame.a2,
        ),
    ensures
        thread_write_registers_handled(old(k)@, thread, final(k)@, h),
        final(k)@.wf(),
        final(k)@.threads.len() >= old(k)@.threads.len(),
{
    let frame = k.threads[thread].trapframe.frame;
    let r = sys_thread_write_registers(k, thread, frame.a1, frame.a2);
    k.reply(thread, r.into_trapframe());
    Handled { pending: None, also: Also::Nothing }
}

/// What handling [`SyscallNumber::ThreadSetIpcBuffer`] does.
pub open spec fn thread_set_ipc_buffer_handled(
    st: State,
    thread: usize,
    after: State,
    h: Handled,
) -> bool {
    let frame = st.threads[thread as int].trapframe.frame;
    exists|mid: State, r: CapResult<()>|
        #![trigger thread_calls::sys_thread_set_ipc_buffer_post(
            st,
            thread,
            frame.a1,
            frame.a2,
            mid,
            r,
        )]
        thread_calls::sys_thread_set_ipc_buffer_post(st, thread, frame.a1, frame.a2, mid, r)
            && plain(mid, thread, r.registers(), after, h)
            && h.also is Nothing
}

fn on_thread_set_ipc_buffer(k: &mut Kernel, thread: usize) -> (h: Handled)
    requires
        thread < old(k)@.threads.len(),
        thread_calls::sys_thread_set_ipc_buffer_pre(
            old(k)@,
            thread,
            old(k)@.threads[thread as int].trapframe.frame.a1,
            old(k)@.threads[thread as int].trapframe.frame.a2,
        ),
    ensures
        thread_set_ipc_buffer_handled(old(k)@, thread, final(k)@, h),
        final(k)@.wf(),
        final(k)@.threads.len() >= old(k)@.threads.len(),
{
    let frame = k.threads[thread].trapframe.frame;
    let r = sys_thread_set_ipc_buffer(k, thread, frame.a1, frame.a2);
    k.reply(thread, r.into_trapframe());
    Handled { pending: None, also: Also::Nothing }
}

/// What handling [`SyscallNumber::ThreadSetPriority`] does.
pub open spec fn thread_set_priority_handled(
    st: State,
    thread: usize,
    after: State,
    h: Handled,
) -> bool {
    let frame = st.threads[thread as int].trapframe.frame;
    exists|mid: State, r: CapResult<()>|
        #![trigger signals::sys_thread_set_priority_post(st, thread, frame.a1, frame.a2, mid, r)]
        signals::sys_thread_set_priority_post(st, thread, frame.a1, frame.a2, mid, r)
            && plain(mid, thread, r.registers(), after, h)
            && h.also is Nothing
}

fn on_thread_set_priority(k: &mut Kernel, thread: usize) -> (h: Handled)
    requires
        thread < old(k)@.threads.len(),
        signals::sys_thread_set_priority_pre(
            old(k)@,
            thread,
            old(k)@.threads[thread as int].trapframe.frame.a1,
            old(k)@.threads[thread as int].trapframe.frame.a2,
        ),
    ensures
        thread_set_priority_handled(old(k)@, thread, final(k)@, h),
        final(k)@.wf(),
        final(k)@.threads.len() >= old(k)@.threads.len(),
{
    let frame = k.threads[thread].trapframe.frame;
    let r = sys_thread_set_priority(k, thread, frame.a1, frame.a2);
    k.reply(thread, r.into_trapframe());
    Handled { pending: None, also: Also::Nothing }
}

/// What handling [`SyscallNumber::NotificationPoll`] does.
pub open spec fn notification_poll_handled(
    st: State,
    thread: usize,
    after: State,
    h: Handled,
) -> bool {
    let frame = st.threads[thread as int].trapframe.frame;
    exists|mid: State, r: CapResult<u64>|
        #![trigger signals::sys_notification_poll_post(st, thread, frame.a1, mid, r)]
        signals::sys_notification_poll_post(st, thread, frame.a1, mid, r)
            && plain(mid, thread, r.registers(), after, h)
            && h.also is Nothing
}

fn on_notification_poll(k: &mut Kernel, thread: usize) -> (h: Handled)
    requires
        thread < old(k)@.threads.len(),
        signals::sys_notification_poll_pre(
            old(k)@,
            thread,
            old(k)@.threads[thread as int].trapframe.frame.a1,
        ),
    ensures
        notification_poll_handled(old(k)@, thread, final(k)@, h),
        final(k)@.wf(),
        final(k)@.threads.len() >= old(k)@.threads.len(),
{
    let frame = k.threads[thread].trapframe.frame;
    let r = sys_notification_poll(k, thread, frame.a1);
    k.reply(thread, r.into_trapframe());
    Handled { pending: None, also: Also::Nothing }
}

/// What handling [`SyscallNumber::IntrHandlerBind`] does.
pub open spec fn intr_handler_bind_handled(
    st: State,
    thread: usize,
    after: State,
    h: Handled,
) -> bool {
    let frame = st.threads[thread as int].trapframe.frame;
    exists|mid: State, r: CapResult<()>|
        #![trigger signals::sys_intr_handler_bind_post(st, thread, frame.a1, frame.a2, mid, r)]
        signals::sys_intr_handler_bind_post(st, thread, frame.a1, frame.a2, mid, r)
            && plain(mid, thread, r.registers(), after, h)
            && h.also is Nothing
}

fn on_intr_handler_bind(k: &mut Kernel, thread: usize) -> (h: Handled)
    requires
        thread < old(k)@.threads.len(),
        signals::sys_intr_handler_bind_pre(
            old(k)@,
            thread,
            old(k)@.threads[thread as int].trapframe.frame.a1,
            old(k)@.threads[thread as int].trapframe.frame.a2,
        ),
    ensures
        intr_handler_bind_handled(old(k)@, thread, final(k)@, h),
        final(k)@.wf(),
        final(k)@.threads.len() >= old(k)@.threads.len(),
{
    let frame = k.threads[thread].trapframe.frame;
    let r = sys_intr_handler_bind(k, thread, frame.a1, frame.a2);
    k.reply(thread, r.into_trapframe());
    Handled { pending: None, also: Also::Nothing }
}

/// What handling [`SyscallNumber::IntrHandlerUnbind`] does.
pub open spec fn intr_handler_unbind_handled(
    st: State,
    thread: usize,
    after: State,
    h: Handled,
) -> bool {
    let frame = st.threads[thread as int].trapframe.frame;
    exists|mid: State, r: CapResult<()>|
        #![trigger signals::sys_intr_handler_unbind_post(st, thread, frame.a1, mid, r)]
        signals::sys_intr_handler_unbind_post(st, thread, frame.a1, mid, r)
            && plain(mid, thread, r.registers(), after, h)
            && h.also is Nothing
}

fn on_intr_handler_unbind(k: &mut Kernel, thread: usize) -> (h: Handled)
    requires
        thread < old(k)@.threads.len(),
        signals::sys_intr_handler_unbind_pre(
            old(k)@,
            thread,
            old(k)@.threads[thread as int].trapframe.frame.a1,
        ),
    ensures
        intr_handler_unbind_handled(old(k)@, thread, final(k)@, h),
        final(k)@.wf(),
        final(k)@.threads.len() >= old(k)@.threads.len(),
{
    let frame = k.threads[thread].trapframe.frame;
    let r = sys_intr_handler_unbind(k, thread, frame.a1);
    k.reply(thread, r.into_trapframe());
    Handled { pending: None, also: Also::Nothing }
}

/// What handling [`SyscallNumber::JobCreateThread`] does.
pub open spec fn job_create_thread_handled(
    st: State,
    thread: usize,
    after: State,
    h: Handled,
) -> bool {
    let frame = st.threads[thread as int].trapframe.frame;
    exists|mid: State, r: CapResult<u64>|
        #![trigger signals::sys_job_create_thread_post(
            st,
            thread,
            frame.a1,
            virt::canonical(frame.a2),
            frame.a3,
            mid,
            r,
        )]
        signals::sys_job_create_thread_post(
            st,
            thread,
            frame.a1,
            virt::canonical(frame.a2),
            frame.a3,
            mid,
            r,
        )
            && plain(mid, thread, r.registers(), after, h)
            && h.also is Nothing
}

fn on_job_create_thread(k: &mut Kernel, thread: usize) -> (h: Handled)
    requires
        thread < old(k)@.threads.len(),
        signals::sys_job_create_thread_pre(
            old(k)@,
            thread,
            old(k)@.threads[thread as int].trapframe.frame.a1,
            virt::canonical(old(k)@.threads[thread as int].trapframe.frame.a2),
            old(k)@.threads[thread as int].trapframe.frame.a3,
        ),
    ensures
        job_create_thread_handled(old(k)@, thread, final(k)@, h),
        final(k)@.wf(),
        final(k)@.threads.len() >= old(k)@.threads.len(),
{
    let frame = k.threads[thread].trapframe.frame;
    let r = sys_job_create_thread(
        k,
        thread,
        frame.a1,
        VirtualConst::from_usize_unchecked(frame.a2),
        frame.a3,
    );
    k.reply(thread, r.into_trapframe());
    Handled { pending: None, also: Also::Nothing }
}

/// What handling [`SyscallNumber::NotificationSignal`] does.
pub open spec fn notification_signal_handled(
    st: State,
    thread: usize,
    after: State,
    h: Handled,
) -> bool {
    let frame = st.threads[thread as int].trapframe.frame;
    exists|mid: State, r: CapResult<Option<u64>>|
        #![trigger signals::sys_notification_signal_post(st, thread, frame.a1, mid, r)]
        signals::sys_notification_signal_post(st, thread, frame.a1, mid, r) && match r {
                Ok(hart) => plain(mid, thread, (0, 0), after, h) && h.also == ipi_to(hart),
                Err(e) => plain(mid, thread, (e.number(), 0), after, h) && h.also is Nothing,
            }
}

fn on_notification_signal(k: &mut Kernel, thread: usize) -> (h: Handled)
    requires
        thread < old(k)@.threads.len(),
        signals::sys_notification_signal_pre(
            old(k)@,
            thread,
            old(k)@.threads[thread as int].trapframe.frame.a1,
        ),
    ensures
        notification_signal_handled(old(k)@, thread, final(k)@, h),
        final(k)@.wf(),
        final(k)@.threads.len() >= old(k)@.threads.len(),
{
    let frame = k.threads[thread].trapframe.frame;
    let r = sys_notification_signal(k, thread, frame.a1);
    match r {
        Ok(hart) => {
            k.reply(thread, (0, 0));
            match hart {
                Some(hart) => Handled { pending: None, also: Also::Interrupt(hart) },
                None => Handled { pending: None, also: Also::Nothing },
            }
        },
        Err(e) => {
            k.reply(thread, (e.code(), 0));
            Handled { pending: None, also: Also::Nothing }
        },
    }
}

/// What handling [`SyscallNumber::IntrPoolGet`] does.
pub open spec fn intr_pool_get_handled(st: State, thread: usize, after: State, h: Handled) -> bool {
    let frame = st.threads[thread as int].trapframe.frame;
    exists|mid: State, r: (CapResult<u64>, Option<u16>)|
        #![trigger signals::sys_intr_pool_get_post(st, thread, frame.a1, frame.a2, mid, r)]
        signals::sys_intr_pool_get_post(st, thread, frame.a1, frame.a2, mid, r)
            && plain(mid, thread, r.0.registers(), after, h)
                && h.also == enabling(r.1)
}

fn on_intr_pool_get(k: &mut Kernel, thread: usize) -> (h: Handled)
    requires
        thread < old(k)@.threads.len(),
        signals::sys_intr_pool_get_pre(
            old(k)@,
            thread,
            old(k)@.threads[thread as int].trapframe.frame.a1,
            old(k)@.threads[thread as int].trapframe.frame.a2,
        ),
    ensures
        intr_pool_get_handled(old(k)@, thread, final(k)@, h),
        final(k)@.wf(),
        final(k)@.threads.len() >= old(k)@.threads.len(),
{
    let frame = k.threads[thread].trapframe.frame;
    let r = sys_intr_pool_get(k, thread, frame.a1, frame.a2);
    k.reply(thread, r.0.into_trapframe());
    match r.1 {
        Some(irq) => Handled { pending: None, also: Also::Enable(irq) },
        None => Handled { pending: None, also: Also::Nothing },
    }
}

/// What handling [`SyscallNumber::IntrHandlerAck`] does.
pub open spec fn intr_handler_ack_handled(
    st: State,
    thread: usize,
    after: State,
    h: Handled,
) -> bool {
    let frame = st.threads[thread as int].trapframe.frame;
    exists|r: CapResult<u32>|
        #![trigger signals::sys_intr_handler_ack_post(st, thread, frame.a1, r)]
        signals::sys_intr_handler_ack_post(st, thread, frame.a1, r) && match r {
                Ok(irq) => plain(st, thread, (0, 0), after, h) && h.also == Also::Complete(irq),
                Err(e) => plain(st, thread, (e.number(), 0), after, h) && h.also is Nothing,
            }
}

fn on_intr_handler_ack(k: &mut Kernel, thread: usize) -> (h: Handled)
    requires
        thread < old(k)@.threads.len(),
        signals::sys_intr_handler_ack_pre(
            old(k)@,
            thread,
            old(k)@.threads[thread as int].trapframe.frame.a1,
        ),
    ensures
        intr_handler_ack_handled(old(k)@, thread, final(k)@, h),
        final(k)@.wf(),
        final(k)@.threads.len() >= old(k)@.threads.len(),
{
    let frame = k.threads[thread].trapframe.frame;
    let r = sys_intr_handler_ack(k, thread, frame.a1);
    match r {
        Ok(x) => {
            k.reply(thread, (0, 0));
            Handled { pending: None, also: Also::Complete(x) }
        },
        Err(e) => {
            k.reply(thread, (e.code(), 0));
            Handled { pending: None, also: Also::Nothing }
        },
    }
}

/// What handling [`SyscallNumber::DebugCapSlot`] does.
pub open spec fn debug_cap_slot_handled(
    st: State,
    thread: usize,
    after: State,
    h: Handled,
) -> bool {
    let frame = st.threads[thread as int].trapframe.frame;
    exists|r: CapResult<CapabilitySlotInner>|
        #![trigger syscalls::sys_debug_cap_slot_post(st, thread, frame.a1, r)]
        syscalls::sys_debug_cap_slot_post(st, thread, frame.a1, r) && match r {
                Ok(slot) => plain(st, thread, (0, 0), after, h) && h.also == Also::Show(slot),
                Err(e) => plain(st, thread, (e.number(), 0), after, h) && h.also is Nothing,
            }
}

fn on_debug_cap_slot(k: &mut Kernel, thread: usize) -> (h: Handled)
    requires
        thread < old(k)@.threads.len(),
        syscalls::sys_debug_cap_slot_pre(
            old(k)@,
            thread,
            old(k)@.threads[thread as int].trapframe.frame.a1,
        ),
    ensures
        debug_cap_slot_handled(old(k)@, thread, final(k)@, h),
        final(k)@.wf(),
        final(k)@.threads.len() >= old(k)@.threads.len(),
{
    let frame = k.threads[thread].trapframe.frame;
    let r = sys_debug_cap_slot(k, thread, frame.a1);
    match r {
        Ok(x) => {
            k.reply(thread, (0, 0));
            Handled { pending: None, also: Also::Show(x) }
        },
        Err(e) => {
            k.reply(thread, (e.code(), 0));
            Handled { pending: None, also: Also::Nothing }
        },
    }
}

/// What handling [`SyscallNumber::DebugPrint`] does.
pub open spec fn debug_print_handled(st: State, thread: usize, after: State, h: Handled) -> bool {
    let frame = st.threads[thread as int].trapframe.frame;
    exists|r: String|
        #![trigger syscalls::sys_debug_print_post(
            st,
            thread,
            virt::canonical(frame.a1),
            frame.a2,
            r,
        )]
        syscalls::sys_debug_print_post(st, thread, virt::canonical(frame.a1), frame.a2, r)
            && plain(st, thread, (0, 0), after, h)
            && h.also == Also::Print(r)
}

fn on_debug_print(k: &mut Kernel, thread: usize) -> (h: Handled)
    requires
        thread < old(k)@.threads.len(),
        syscalls::sys_debug_print_pre(
            old(k)@,
            thread,
            virt::canonical(old(k)@.threads[thread as int].trapframe.frame.a1),
            old(k)@.threads[thread as int].trapframe.frame.a2,
        ),
    ensures
        debug_print_handled(old(k)@, thread, final(k)@, h),
        final(k)@.wf(),
        final(k)@.threads.len() >= old(k)@.threads.len(),
{
    let frame = k.threads[thread].trapframe.frame;
    let r = sys_debug_print(k, thread, VirtualConst::from_usize_unchecked(frame.a1), frame.a2);
    k.reply(thread, (0, 0));
    Handled { pending: None, also: Also::Print(r) }
}

/// What handling [`SyscallNumber::NotificationWait`] does.
pub open spec fn notification_wait_handled(
    st: State,
    thread: usize,
    after: State,
    h: Handled,
) -> bool {
    let frame = st.threads[thread as int].trapframe.frame;
    exists|mid: State, r: Outcome<u64>|
        #![trigger signals::sys_notification_wait_post(st, thread, frame.a1, mid, r)]
        signals::sys_notification_wait_post(st, thread, frame.a1, mid, r)
            && h.also is Nothing
            && match r {
            Outcome::Done(result) => plain(mid, thread, result.registers(), after, h),
            Outcome::Blocked(pending) => after == mid && h.pending == Some(pending),
        }
}

fn on_notification_wait(k: &mut Kernel, thread: usize) -> (h: Handled)
    requires
        thread < old(k)@.threads.len(),
        signals::sys_notification_wait_pre(
            old(k)@,
            thread,
            old(k)@.threads[thread as int].trapframe.frame.a1,
        ),
    ensures
        notification_wait_handled(old(k)@, thread, final(k)@, h),
        final(k)@.wf(),
        final(k)@.threads.len() >= old(k)@.threads.len(),
{
    let frame = k.threads[thread].trapframe.frame;
    let r = sys_notification_wait(k, thread, frame.a1);
    match r {
        Outcome::Done(result) => {
            k.reply(thread, result.into_trapframe());
            Handled { pending: None, also: Also::Nothing }
        },
        Outcome::Blocked(pending) => Handled { pending: Some(pending), also: Also::Nothing },
    }
}

/// What handling [`SyscallNumber::EndpointRecv`] does.
pub open spec fn endpoint_recv_handled(st: State, thread: usize, after: State, h: Handled) -> bool {
    let frame = st.threads[thread as int].trapframe.frame;
    exists|mid: State, r: Outcome<MessageHeader>|
        #![trigger endpoints::sys_endpoint_recv_post(
            st,
            thread,
            frame.a1,
            frame.a2,
            frame.a3,
            mid,
            r,
        )]
        endpoints::sys_endpoint_recv_post(st, thread, frame.a1, frame.a2, frame.a3, mid, r)
            && h.also is Nothing
            && match r {
            Outcome::Done(result) => plain(mid, thread, result.registers(), after, h),
            Outcome::Blocked(pending) => after == mid && h.pending == Some(pending),
        }
}

fn on_endpoint_recv(k: &mut Kernel, thread: usize) -> (h: Handled)
    requires
        thread < old(k)@.threads.len(),
        endpoints::sys_endpoint_recv_pre(
            old(k)@,
            thread,
            old(k)@.threads[thread as int].trapframe.frame.a1,
            old(k)@.threads[thread as int].trapframe.frame.a2,
            old(k)@.threads[thread as int].trapframe.frame.a3,
        ),
    ensures
        endpoint_recv_handled(old(k)@, thread, final(k)@, h),
        final(k)@.wf(),
        final(k)@.threads.len() >= old(k)@.threads.len(),
        keeps_order(old(k)@, thread, final(k)@, h),
{
    let frame = k.threads[thread].trapframe.frame;
    let r = sys_endpoint_recv(k, thread, frame.a1, frame.a2, frame.a3);
    match r {
        Outcome::Done(result) => {
            k.reply(thread, result.into_trapframe());
            Handled { pending: None, also: Also::Nothing }
        },
        Outcome::Blocked(pending) => Handled { pending: Some(pending), also: Also::Nothing },
    }
}

/// What handling [`SyscallNumber::EndpointSend`] does.
pub open spec fn endpoint_send_handled(st: State, thread: usize, after: State, h: Handled) -> bool {
    let frame = st.threads[thread as int].trapframe.frame;
    exists|mid: State, r: Outcome<()>|
        #![trigger endpoints::sys_endpoint_send_post(
            st,
            thread,
            frame.a1,
            MessageHeader(frame.a2),
            frame.a3,
            mid,
            r,
        )]
        endpoints::sys_endpoint_send_post(
            st,
            thread,
            frame.a1,
            MessageHeader(frame.a2),
            frame.a3,
            mid,
            r,
        )
            && h.also is Nothing
            && match r {
            Outcome::Done(result) => plain(mid, thread, result.registers(), after, h),
            Outcome::Blocked(pending) => after == mid && h.pending == Some(pending),
        }
}

fn on_endpoint_send(k: &mut Kernel, thread: usize) -> (h: Handled)
    requires
        thread < old(k)@.threads.len(),
        endpoints::sys_endpoint_send_pre(
            old(k)@,
            thread,
            old(k)@.threads[thread as int].trapframe.frame.a1,
            MessageHeader(old(k)@.threads[thread as int].trapframe.frame.a2),
            old(k)@.threads[thread as int].trapframe.frame.a3,
        ),
    ensures
        endpoint_send_handled(old(k)@, thread, final(k)@, h),
        final(k)@.wf(),
        final(k)@.threads.len() >= old(k)@.threads.len(),
        keeps_order(old(k)@, thread, final(k)@, h),
{
    let frame = k.threads[thread].trapframe.frame;
    let r = sys_endpoint_send(k, thread, frame.a1, MessageHeader::from(frame.a2), frame.a3);
    match r {
        Outcome::Done(result) => {
            k.reply(thread, result.into_trapframe());
            Handled { pending: None, also: Also::Nothing }
        },
        Outcome::Blocked(pending) => Handled { pending: Some(pending), also: Also::Nothing },
    }
}

/// What handling [`SyscallNumber::EndpointReply`] does.
pub open spec fn endpoint_reply_handled(
    st: State,
    thread: usize,
    after: State,
    h: Handled,
) -> bool {
    let frame = st.threads[thread as int].trapframe.frame;
    exists|mid: State, r: Outcome<()>|
        #![trigger endpoints::sys_endpoint_reply_post(
            st,
            thread,
            frame.a1,
            MessageHeader(frame.a2),
            frame.a3,
            mid,
            r,
        )]
        endpoints::sys_endpoint_reply_post(
            st,
            thread,
            frame.a1,
            MessageHeader(frame.a2),
            frame.a3,
            mid,
            r,
        )
            && h.also is Nothing
            && match r {
            Outcome::Done(result) => plain(mid, thread, result.registers(), after, h),
            Outcome::Blocked(pending) => after == mid && h.pending == Some(pending),
        }
}

fn on_endpoint_reply(k: &mut Kernel, thread: usize) -> (h: Handled)
    requires
        thread < old(k)@.threads.len(),
        endpoints::sys_endpoint_reply_pre(
            old(k)@,
            thread,
            old(k)@.threads[thread as int].trapframe.frame.a1,
            MessageHeader(old(k)@.threads[thread as int].trapframe.frame.a2),
            old(k)@.threads[thread as int].trapframe.frame.a3,
        ),
    ensures
        endpoint_reply_handled(old(k)@, thread, final(k)@, h),
        final(k)@.wf(),
        final(k)@.threads.len() >= old(k)@.threads.len(),
        keeps_order(old(k)@, thread, final(k)@, h),
{
    let frame = k.threads[thread].trapframe.frame;
    let r = sys_endpoint_reply(k, thread, frame.a1, MessageHeader::from(frame.a2), frame.a3);
    match r {
        Outcome::Done(result) => {
            k.reply(thread, result.into_trapframe());
            Handled { pending: None, also: Also::Nothing }
        },
        Outcome::Blocked(pending) => Handled { pending: Some(pending), also: Also::Nothing },
    }
}

/// What handling [`SyscallNumber::EndpointCall`] does.
pub open spec fn endpoint_call_handled(st: State, thread: usize, after: State, h: Handled) -> bool {
    let frame = st.threads[thread as int].trapframe.frame;
    exists|mid: State, r: Outcome<MessageHeader>|
        #![trigger endpoints::sys_endpoint_call_post(
            st,
            thread,
            frame.a1,
            MessageHeader(frame.a2),
            frame.a3,
            mid,
            r,
        )]
        endpoints::sys_endpoint_call_post(
            st,
            thread,
            frame.a1,
            MessageHeader(frame.a2),
            frame.a3,
            mid,
            r,
        )
            && h.also is Nothing
            && match r {
            Outcome::Done(result) => plain(mid, thread, result.registers(), after, h),
            Outcome::Blocked(pending) => after == mid && h.pending == Some(pending),
        }
}

fn on_endpoint_call(k: &mut Kernel, thread: usize) -> (h: Handled)
    requires
        thread < old(k)@.threads.len(),
        endpoints::sys_endpoint_call_pre(
            old(k)@,
            thread,
            old(k)@.threads[thread as int].trapframe.frame.a1,
            MessageHeader(old(k)@.threads[thread as int].trapframe.frame.a2),
            old(k)@.threads[thread as int].trapframe.frame.a3,
        ),
    ensures
        endpoint_call_handled(old(k)@, thread, final(k)@, h),
        final(k)@.wf(),
        final(k)@.threads.len() >= old(k)@.threads.len(),
        keeps_order(old(k)@, thread, final(k)@, h),
{
    let frame = k.threads[thread].trapframe.frame;
    let r = sys_endpoint_call(k, thread, frame.a1, MessageHeader::from(frame.a2), frame.a3);
    match r {
        Outcome::Done(result) => {
            k.reply(thread, result.into_trapframe());
            Handled { pending: None, also: Also::Nothing }
        },
        Outcome::Blocked(pending) => Handled { pending: Some(pending), also: Also::Nothing },
    }
}

/// What handling [`SyscallNumber::Yield`] does.
pub open spec fn yield_handled(st: State, thread: usize, after: State, h: Handled) -> bool {
    let frame = st.threads[thread as int].trapframe.frame;
    exists|mid: State, r: Outcome<()>|
        #![trigger signals::sys_yield_post(st, thread, mid, r)]
        signals::sys_yield_post(st, thread, mid, r) && h.also is Nothing && match r {
            Outcome::Done(result) => plain(mid, thread, result.registers(), after, h),
            Outcome::Blocked(pending) => after == mid && h.pending == Some(pending),
        }
}

fn on_yield(k: &mut Kernel, thread: usize) -> (h: Handled)
    requires
        thread < old(k)@.threads.len(),
        signals::sys_yield_pre(old(k)@, thread),
    ensures
        yield_handled(old(k)@, thread, final(k)@, h),
        final(k)@.wf(),
        final(k)@.threads.len() >= old(k)@.threads.len(),
{
    let r = sys_yield(k, thread);
    match r {
        Outcome::Done(result) => {
            k.reply(thread, result.into_trapframe());
            Handled { pending: None, also: Also::Nothing }
        },
        Outcome::Blocked(pending) => Handled { pending: Some(pending), also: Also::Nothing },
    }
}

/// What handling [`SyscallNumber::DebugDumpRoot`] does.
pub open spec fn debug_dump_root_handled(
    st: State,
    thread: usize,
    after: State,
    h: Handled,
) -> bool {
    &&& plain(st, thread, (0, 0), after, h)
    &&& h.also == Also::Usage(
        MemoryUsage {
            used: (st.mem.frames() * 4096) as u64,
            total: (st.mem.limit * 4096) as u64,
            free: (st.mem.available() * 4096) as u64,
        },
    )
}

fn on_debug_dump_root(k: &mut Kernel, thread: usize) -> (h: Handled)
    requires
        old(k)@.wf(),
        thread < old(k)@.threads.len(),
    ensures
        debug_dump_root_handled(old(k)@, thread, final(k)@, h),
        final(k)@.wf(),
        final(k)@.threads.len() >= old(k)@.threads.len(),
{
    let usage = sys_debug_dump_root(k.mem.num_free_pages(), k.mem.num_pages());
    k.reply(thread, (0, 0));
    Handled { pending: None, also: Also::Usage(usage) }
}

/// A call that there is none of: it is refused, and nothing else happens.
pub open spec fn refused(st: State, thread: usize, after: State, h: Handled) -> bool {
    let frame = st.threads[thread as int].trapframe.frame;
    &&& after == threads::set_frame(
        st,
        thread,
        Trapframe { a0: CapError::InvalidOperation.number(), ..frame },
    )
    &&& h.pending is None
    &&& h.also is Nothing
}

fn on_unknown(k: &mut Kernel, thread: usize) -> (h: Handled)
    requires
        old(k)@.wf(),
        thread < old(k)@.threads.len(),
    ensures
        refused(old(k)@, thread, final(k)@, h),
        final(k)@.wf(),
        final(k)@.threads.len() >= old(k)@.threads.len(),
{
    let mut frame = k.threads[thread].trapframe.frame;
    frame.a0 = CapError::InvalidOperation.code();
    k.set_frame(thread, frame);
    Handled { pending: None, also: Also::Nothing }
}

/// When the system call that is in the registers of a thread can be handled.
pub open spec fn syscall_pre(st: State, thread: usize) -> bool {
    let frame = st.threads[thread as int].trapframe.frame;
    &&& st.wf()
    &&& thread < st.threads.len()
    &&& match SyscallNumber::of_number(frame.a0) {
        SyscallNumber::CaptrDelete => syscalls::sys_delete_pre(st, thread, frame.a1),
        SyscallNumber::CaptrGrant => syscalls::sys_grant_pre(
            st,
            thread,
            frame.a1,
            user_rights(frame.a2),
            frame.a3,
        ),
        SyscallNumber::DebugCapIdentify => syscalls::sys_debug_cap_identify_pre(
            st,
            thread,
            frame.a1,
        ),
        SyscallNumber::NotificationCreate => syscalls::sys_notification_create_pre(st, thread),
        SyscallNumber::EndpointCreate => syscalls::sys_endpoint_create_pre(st, thread),
        SyscallNumber::JobCreate => syscalls::sys_job_create_pre(st, thread, frame.a1),
        SyscallNumber::PageCreate => syscalls::sys_page_create_pre(st, thread, frame.a1),
        SyscallNumber::PageTableCreate => syscalls::sys_pgtbl_create_pre(st, thread),
        SyscallNumber::PageMap => thread_calls::sys_page_map_pre(
            st,
            thread,
            frame.a1,
            frame.a2,
            virt::canonical(frame.a3),
            user_flags(frame.a4),
        ),
        SyscallNumber::ThreadSuspend => thread_calls::sys_thread_suspend_pre(st, thread, frame.a1),
        SyscallNumber::ThreadResume => thread_calls::sys_thread_resume_pre(st, thread, frame.a1),
        SyscallNumber::ThreadStart => thread_calls::sys_thread_start_pre(
            st,
            thread,
            frame.a1,
            frame.a2,
            frame.a3,
            frame.a4,
            frame.a5,
        ),
        SyscallNumber::ThreadConfigure => thread_calls::sys_thread_configure_pre(
            st,
            thread,
            frame.a1,
            frame.a2,
            frame.a3,
        ),
        SyscallNumber::ThreadWriteRegisters => thread_calls::sys_thread_write_registers_pre(
            st,
            thread,
            frame.a1,
            frame.a2,
        ),
        SyscallNumber::ThreadSetIpcBuffer => thread_calls::sys_thread_set_ipc_buffer_pre(
            st,
            thread,
            frame.a1,
            frame.a2,
        ),
        SyscallNumber::ThreadSetPriority => signals::sys_thread_set_priority_pre(
            st,
            thread,
            frame.a1,
            frame.a2,
        ),
        SyscallNumber::NotificationPoll => signals::sys_notification_poll_pre(st, thread, frame.a1),
        SyscallNumber::IntrHandlerBind => signals::sys_intr_handler_bind_pre(
            st,
            thread,
            frame.a1,
            frame.a2,
        ),
        SyscallNumber::IntrHandlerUnbind => signals::sys_intr_handler_unbind_pre(
            st,
            thread,
            frame.a1,
        ),
        SyscallNumber::JobCreateThread => signals::sys_job_create_thread_pre(
            st,
            thread,
            frame.a1,
            virt::canonical(frame.a2),
            frame.a3,
        ),
        SyscallNumber::NotificationSignal => signals::sys_notification_signal_pre(
            st,
            thread,
            frame.a1,
        ),
        SyscallNumber::IntrPoolGet => signals::sys_intr_pool_get_pre(
            st,
            thread,
            frame.a1,
            frame.a2,
        ),
        SyscallNumber::IntrHandlerAck => signals::sys_intr_handler_ack_pre(st, thread, frame.a1),
        SyscallNumber::DebugCapSlot => syscalls::sys_debug_cap_slot_pre(st, thread, frame.a1),
        SyscallNumber::DebugPrint => syscalls::sys_debug_print_pre(
            st,
            thread,
            virt::canonical(frame.a1),
            frame.a2,
        ),
        SyscallNumber::NotificationWait => signals::sys_notification_wait_pre(st, thread, frame.a1),
        SyscallNumber::EndpointRecv => endpoints::sys_endpoint_recv_pre(
            st,
            thread,
            frame.a1,
            frame.a2,
            frame.a3,
        ),
        SyscallNumber::EndpointSend => endpoints::sys_endpoint_send_pre(
            st,
            thread,
            frame.a1,
            MessageHeader(frame.a2),
            frame.a3,
        ),
        SyscallNumber::EndpointReply => endpoints::sys_endpoint_reply_pre(
            st,
            thread,
            frame.a1,
            MessageHeader(frame.a2),
            frame.a3,
        ),
        SyscallNumber::EndpointCall => endpoints::sys_endpoint_call_pre(
            st,
            thread,
            frame.a1,
            MessageHeader(frame.a2),
            frame.a3,
        ),
        SyscallNumber::Yield => signals::sys_yield_pre(st, thread),
        _ => true,
    }
}

/// What handling the system call that is in the registers of a thread does.
pub open spec fn syscall_post(st: State, thread: usize, after: State, h: Handled) -> bool {
    match SyscallNumber::of_number(st.threads[thread as int].trapframe.frame.a0) {
        SyscallNumber::CaptrDelete => delete_handled(st, thread, after, h),
        SyscallNumber::CaptrGrant => grant_handled(st, thread, after, h),
        SyscallNumber::DebugCapIdentify => debug_cap_identify_handled(st, thread, after, h),
        SyscallNumber::NotificationCreate => notification_create_handled(st, thread, after, h),
        SyscallNumber::EndpointCreate => endpoint_create_handled(st, thread, after, h),
        SyscallNumber::JobCreate => job_create_handled(st, thread, after, h),
        SyscallNumber::PageCreate => page_create_handled(st, thread, after, h),
        SyscallNumber::PageTableCreate => pgtbl_create_handled(st, thread, after, h),
        SyscallNumber::PageMap => page_map_handled(st, thread, after, h),
        SyscallNumber::ThreadSuspend => thread_suspend_handled(st, thread, after, h),
        SyscallNumber::ThreadResume => thread_resume_handled(st, thread, after, h),
        SyscallNumber::ThreadStart => thread_start_handled(st, thread, after, h),
        SyscallNumber::ThreadConfigure => thread_configure_handled(st, thread, after, h),
        SyscallNumber::ThreadWriteRegisters => thread_write_registers_handled(st, thread, after, h),
        SyscallNumber::ThreadSetIpcBuffer => thread_set_ipc_buffer_handled(st, thread, after, h),
        SyscallNumber::ThreadSetPriority => thread_set_priority_handled(st, thread, after, h),
        SyscallNumber::NotificationPoll => notification_poll_handled(st, thread, after, h),
        SyscallNumber::IntrHandlerBind => intr_handler_bind_handled(st, thread, after, h),
        SyscallNumber::IntrHandlerUnbind => intr_handler_unbind_handled(st, thread, after, h),
        SyscallNumber::JobCreateThread => job_create_thread_handled(st, thread, after, h),
        SyscallNumber::NotificationSignal => notification_signal_handled(st, thread, after, h),
        SyscallNumber::IntrPoolGet => intr_pool_get_handled(st, thread, after, h),
        SyscallNumber::IntrHandlerAck => intr_handler_ack_handled(st, thread, after, h),
        SyscallNumber::DebugCapSlot => debug_cap_slot_handled(st, thread, after, h),
        SyscallNumber::DebugPrint => debug_print_handled(st, thread, after, h),
        SyscallNumber::NotificationWait => notification_wait_handled(st, thread, after, h),
        SyscallNumber::EndpointRecv => endpoint_recv_handled(st, thread, after, h),
        SyscallNumber::EndpointSend => endpoint_send_handled(st, thread, after, h),
        SyscallNumber::EndpointReply => endpoint_reply_handled(st, thread, after, h),
        SyscallNumber::EndpointCall => endpoint_call_handled(st, thread, after, h),
        SyscallNumber::Yield => yield_handled(st, thread, after, h),
        SyscallNumber::DebugDumpRoot => debug_dump_root_handled(st, thread, after, h),
        _ => refused(st, thread, after, h),
    }
}

/// Handle the system call that is in the registers of a thread: `a0` says which
/// one it is, `a1` to `a7` are its arguments, and the answer goes to `a0` and
/// `a1`.
pub fn syscall(k: &mut Kernel, thread: usize) -> (h: Handled)
    requires
        syscall_pre(old(k)@, thread),
    ensures
        syscall_post(old(k)@, thread, final(k)@, h),
        final(k)@.wf(),
        final(k)@.threads.len() >= old(k)@.threads.len(),
        soundness::is_orderly(old(k)@, thread) ==> keeps_order(old(k)@, thread, final(k)@, h),
{
    let ghost st = k@;
    let handled = match SyscallNumber::from(k.threads[thread].trapframe.frame.a0) {
        SyscallNumber::CaptrDelete => on_delete(k, thread),
        SyscallNumber::CaptrGrant => on_grant(k, thread),
        SyscallNumber::DebugCapIdentify => on_debug_cap_identify(k, thread),
        SyscallNumber::NotificationCreate => on_notification_create(k, thread),
        SyscallNumber::EndpointCreate => on_endpoint_create(k, thread),
        SyscallNumber::JobCreate => on_job_create(k, thread),
        SyscallNumber::PageCreate => on_page_create(k, thread),
        SyscallNumber::PageTableCreate => on_pgtbl_create(k, thread),
        SyscallNumber::PageMap => on_page_map(k, thread),
        SyscallNumber::ThreadSuspend => on_thread_suspend(k, thread),
        SyscallNumber::ThreadResume => on_thread_resume(k, thread),
        SyscallNumber::ThreadStart => on_thread_start(k, thread),
        SyscallNumber::ThreadConfigure => on_thread_configure(k, thread),
        SyscallNumber::ThreadWriteRegisters => on_thread_write_registers(k, thread),
        SyscallNumber::ThreadSetIpcBuffer => on_thread_set_ipc_buffer(k, thread),
        SyscallNumber::ThreadSetPriority => on_thread_set_priority(k, thread),
        SyscallNumber::NotificationPoll => on_notification_poll(k, thread),
        SyscallNumber::IntrHandlerBind => on_intr_handler_bind(k, thread),
        SyscallNumber::IntrHandlerUnbind => on_intr_handler_unbind(k, thread),
        SyscallNumber::JobCreateThread => on_job_create_thread(k, thread),
        SyscallNumber::NotificationSignal => on_notification_signal(k, thread),
        SyscallNumber::IntrPoolGet => on_intr_pool_get(k, thread),
        SyscallNumber::IntrHandlerAck => on_intr_handler_ack(k, thread),
        SyscallNumber::DebugCapSlot => on_debug_cap_slot(k, thread),
        SyscallNumber::DebugPrint => on_debug_print(k, thread),
        SyscallNumber::NotificationWait => on_notification_wait(k, thread),
        SyscallNumber::EndpointRecv => on_endpoint_recv(k, thread),
        SyscallNumber::EndpointSend => on_endpoint_send(k, thread),
        SyscallNumber::EndpointReply => on_endpoint_reply(k, thread),
        SyscallNumber::EndpointCall => on_endpoint_call(k, thread),
        SyscallNumber::Yield => on_yield(k, thread),
        SyscallNumber::DebugDumpRoot => on_debug_dump_root(k, thread),
        _ => on_unknown(k, thread),
    };
    proof {
        if soundness::is_settling(st, thread) && endpoints::in_order(st, thread) {
            soundness::law_calls_keep_soundness(st, thread, k@, handled);
        }
    }
    handled
}

/// When a system call that had to wait can go on.
pub open spec fn resume_pre(st: State, thread: usize, pending: Pending) -> bool {
    &&& st.wf()
    &&& thread < st.threads.len()
    &&& match pending {
        Pending::Notification(n) => n < st.notifications.len(),
        Pending::Recv(ep, info) => endpoints::recv_resumable(st, thread, ep) && endpoints::notable(
            st,
            info,
        ),
        Pending::Send(ep) => endpoints::send_resumable(st, thread, ep),
        Pending::CallSend(ep) => endpoints::send_resumable(st, thread, ep)
            && endpoints::call_reply_beginnable(
            endpoints::send_resumed(st, thread, ep),
            thread,
            ep,
        ),
        Pending::CallRecv(ep, reply) => ep < st.endpoints.len() && endpoints::recv_resumable(
            st,
            thread,
            reply,
        ),
        Pending::Yield => true,
    }
}

/// What going on with a system call that had to wait does.
pub open spec fn resume_post(
    st: State,
    thread: usize,
    pending: Pending,
    after: State,
    h: Handled,
) -> bool {
    &&& h.also is Nothing
    &&& match pending {
        Pending::Notification(n) => plain(
            signals::word_taken(st, n),
            thread,
            (0, st.notifications[n as int].word),
            after,
            h,
        ),
        Pending::Recv(ep, info) => {
            let (resumed, (hdr, badge)) = endpoints::recv_resumed(st, thread, ep);
            plain(endpoints::noted(resumed, info, badge), thread, (0, hdr), after, h)
        },
        Pending::Send(ep) => plain(
            endpoints::send_resumed(st, thread, ep),
            thread,
            (0, 0),
            after,
            h,
        ),
        Pending::CallSend(ep) => {
            let sent = endpoints::send_resumed(st, thread, ep);
            let (begun, message) = endpoints::call_reply_begun(sent, thread, ep);
            match message {
                Some(hdr) => plain(begun, thread, (0, hdr), after, h),
                None => after == begun && h.pending == Some(
                    Pending::CallRecv(ep, sent.endpoints[ep as int].reply_cap->0),
                ),
            }
        },
        Pending::CallRecv(ep, reply) => {
            let (resumed, (hdr, badge)) = endpoints::recv_resumed(st, thread, reply);
            plain(endpoints::set_reply(resumed, ep, None), thread, (0, hdr), after, h)
        },
        Pending::Yield => plain(st, thread, (0, 0), after, h),
    }
}

/// Go on with a system call that had to wait.
pub fn resume(k: &mut Kernel, thread: usize, pending: Pending) -> (h: Handled)
    requires
        resume_pre(old(k)@, thread, pending),
    ensures
        resume_post(old(k)@, thread, pending, final(k)@, h),
        final(k)@.wf(),
        final(k)@.threads.len() >= old(k)@.threads.len(),
        keeps_order(old(k)@, thread, final(k)@, h),
        pending is Notification || pending is Yield ==> (old(k)@.ordered() ==> soundness::kept(
            old(k)@,
            final(k)@,
        )),
{
    let ghost st = k@;
    match pending {
        Pending::Notification(n) => {
            let word: u64 = sys_notification_wait_finish(k, n);
            k.reply(thread, (0, word));
            proof {
                if st.ordered() {
                    soundness::law_going_on_keeps_soundness(
                        st,
                        thread,
                        pending,
                        k@,
                        Handled { pending: None, also: Also::Nothing },
                    );
                }
            }
        },
        Pending::Recv(ep, info) => {
            let hdr = sys_endpoint_recv_finish(k, thread, ep, info);
            k.reply(thread, (0, hdr.into_raw()));
        },
        Pending::Send(ep) => {
            sys_endpoint_send_resume(k, thread, ep);
            k.reply(thread, (0, 0));
        },
        Pending::CallSend(ep) => {
            let r = sys_endpoint_call_sent(k, thread, ep);
            match r {
                Outcome::Done(result) => {
                    k.reply(thread, result.into_trapframe());
                },
                Outcome::Blocked(pending) => {
                    return Handled { pending: Some(pending), also: Also::Nothing };
                },
            }
        },
        Pending::CallRecv(ep, reply) => {
            let hdr = sys_endpoint_call_finish(k, thread, ep, reply);
            k.reply(thread, (0, hdr.into_raw()));
        },
        Pending::Yield => {
            k.reply(thread, (0, 0));
            proof {
                if st.ordered() {
                    soundness::law_going_on_keeps_soundness(
                        st,
                        thread,
                        pending,
                        k@,
                        Handled { pending: None, also: Also::Nothing },
                    );
                }
            }
        },
    }
    Handled { pending: None, also: Also::Nothing }
}

} // verus!
