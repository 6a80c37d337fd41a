//! What the system calls do for the thread that makes them, register by register: the
//! number of the call is in `a0` and its arguments in `a1` to `a5`; the answer is an
//! error in `a0`, 0 if there is none, and a value in `a1`.

use vstd::arithmetic::power2;
use vstd::prelude::*;

use super::dispatch;
use super::dispatch::{Also, Handled, IntoTrapframe};
use super::endpoints;
use super::signals;
use super::syscalls;
use super::thread_calls;
use crate::addr::virt;
use crate::capability::paging::PageTableFlags as UserFlags;
use crate::capability::{CapResult, CapRights, CapabilityType, MessageHeader};
use crate::kernel::capability::captbl;
use crate::kernel::capability::thread::{
    OwnedTrapframe, Thread, ThreadProtected, ThreadState,
};
use crate::kernel::capability::wait_queue;
use crate::kernel::capability::{
    CapabilityKind, CapabilitySlotInner, Endpoint, InterruptHandler, Notification, Page,
};
use crate::kernel::dispatch as scheduling;
use crate::kernel::ipc;
use crate::kernel::paging;
use crate::kernel::paging::{PageSize, SharedPageTable};
use crate::kernel::physmem::{Mem, DIRECT_MAPPED_PAGES};
use crate::kernel::state::{JobView, State};
use crate::kernel::threads;
use crate::kernel::trampoline::Trapframe;

verus! {

/// Whether a call did nothing but answer.
pub open spec fn only_answers(st: State, thread: usize, after: State, a0: u64, a1: u64) -> bool {
    let caller = st.threads[thread as int];
    after == st.set_thread(
        thread,
        Thread {
            trapframe: OwnedTrapframe {
                frame: Trapframe { a0, a1, ..caller.trapframe.frame },
                ..caller.trapframe
            },
            ..caller
        },
    )
}

/// The error of looking up a slot that has to hold something that it does not: 1 if there
/// is no such slot, 2 if it holds something else.
pub open spec fn slot_error(slots: Seq<CapabilitySlotInner>, index: u64) -> u64 {
    if index == 0 || index >= slots.len() {
        1
    } else {
        2
    }
}

/// Whether there is a slot, and it holds a thread.
pub open spec fn holds_thread(slots: Seq<CapabilitySlotInner>, index: u64) -> bool {
    0 < index < slots.len() && slots[index as int].cap is Thread
}

/// Whether the slots of all tables can be told apart by captrs.
pub open spec fn captrs_suffice(st: State) -> bool {
    forall|j: int| 0 <= j < st.jobs.len() ==> (#[trigger] st.jobs[j]).slots.len() <= u64::MAX
}

/// Once a thread has been started, it runs from the address in `a2` of the caller on the
/// stack in `a3`, with `a5` in its own `a1` and, in its `a0`, the captr of a copy of what
/// the slot `a4` holds, or 0 if there is no such slot; its other registers stay as they
/// were. What is not the slot of a suspended thread is refused, and changes nothing.
#[verifier::spinoff_prover]
#[verifier::rlimit(40)]
pub proof fn law_thread_start(st: State, thread: usize, after: State, h: Handled)
    requires
        dispatch::syscall_pre(st, thread),
        dispatch::syscall_post(st, thread, after, h),
        st.threads[thread as int].trapframe.frame.a0 == 9,
        captrs_suffice(st),
    ensures
        ({
            let call = st.threads[thread as int].trapframe.frame;
            let slots = st.slots(thread);
            let t = slots[call.a1 as int].cap->Thread_0;
            let was = st.threads[t as int];
            let is = after.threads[t as int];
            let copy = is.trapframe.frame.a0;
            if !holds_thread(slots, call.a1) {
                only_answers(st, thread, after, slot_error(slots, call.a1), 0)
            } else if was.private.state != ThreadState::Suspended {
                only_answers(st, thread, after, 5, 0)
            } else {
                t != thread ==> {
                    &&& is.trapframe.frame == Trapframe {
                        user_epc: call.a2,
                        sp: call.a3,
                        a0: copy,
                        a1: call.a5,
                        ..was.trapframe.frame
                    }
                    &&& call.a4 == 0 || call.a4 >= slots.len() ==> copy == 0
                    &&& 0 < call.a4 < slots.len() ==> {
                        let given = after.slots(t)[copy as int];
                        &&& 0 < copy < st.slots(t).len()
                        &&& st.slots(t)[copy as int].cap is Empty
                        &&& given.cap == slots[call.a4 as int].cap
                        &&& given.badge == slots[call.a4 as int].badge
                        &&& given.rights.bits == 7 & slots[call.a4 as int].rights.bits
                    }
                    &&& is.private.state == if was.private.root_pgtbl is Some {
                        ThreadState::Runnable
                    } else {
                        ThreadState::Suspended
                    }
                    &&& after.threads[thread as int].trapframe.frame == Trapframe {
                        a0: if was.private.root_pgtbl is Some {
                            0
                        } else {
                            5
                        },
                        a1: 0,
                        ..call
                    }
                }
            }
        }),
{
    let call = st.threads[thread as int].trapframe.frame;
    assert(st.thread_wf(thread as int));
    let job = st.threads[thread as int].job;
    assert(st.job_wf(job as int));
    if holds_thread(st.slots(thread), call.a1) {
        assert(st.kind_wf(st.jobs[job as int].slots[call.a1 as int].cap));
        let t = st.slots(thread)[call.a1 as int].cap->Thread_0;
        assert(st.thread_wf(t as int));
        assert(st.job_wf(st.threads[t as int].job as int));
        captbl::law_next_slot(st.slots(t), 1);
    }
}

/// Once the registers of a suspended thread have been written, each of them is the word
/// of the structure at the address `a2` of the caller that is as far from its beginning as
/// the register is from the first: the registers x1 to x31, and then the program counter.
#[verifier::spinoff_prover]
#[verifier::rlimit(40)]
pub proof fn law_thread_write_registers(st: State, thread: usize, after: State, h: Handled)
    requires
        dispatch::syscall_pre(st, thread),
        dispatch::syscall_post(st, thread, after, h),
        st.threads[thread as int].trapframe.frame.a0 == 8,
    ensures
        ({
            let call = st.threads[thread as int].trapframe.frame;
            let slots = st.slots(thread);
            let t = slots[call.a1 as int].cap->Thread_0;
            let was = st.threads[t as int].trapframe.frame;
            let f = after.threads[t as int].trapframe.frame;
            let registers = seq![
                f.ra, f.sp, f.gp, f.tp, f.t0, f.t1, f.t2, f.s0, f.s1, f.a0, f.a1, f.a2, f.a3,
                f.a4, f.a5, f.a6, f.a7, f.s2, f.s3, f.s4, f.s5, f.s6, f.s7, f.s8, f.s9, f.s10,
                f.s11, f.t3, f.t4, f.t5, f.t6, f.user_epc,
            ];
            match ipc::user_addr(st, thread, call.a2, 19) {
                None => only_answers(st, thread, after, 5, 0),
                Some(at) => if !holds_thread(slots, call.a1) {
                    only_answers(st, thread, after, slot_error(slots, call.a1), 0)
                } else if st.state(t) != ThreadState::Suspended {
                    only_answers(st, thread, after, 5, 0)
                } else {
                    &&& after.threads[thread as int].trapframe.frame.a0 == 0
                    &&& t != thread ==> {
                        &&& forall|i: int|
                            0 <= i < 32 ==> #[trigger] registers[i] == st.mem.word(at + 8 * i)
                        &&& f.kernel_sp == was.kernel_sp && f.kernel_tp == was.kernel_tp
                        &&& f.kernel_trap == was.kernel_trap && f.kernel_satp == was.kernel_satp
                    }
                },
            }
        }),
{
    let call = st.threads[thread as int].trapframe.frame;
    assert(st.thread_wf(thread as int));
    let job = st.threads[thread as int].job;
    assert(st.job_wf(job as int));
    if holds_thread(st.slots(thread), call.a1) {
        assert(st.kind_wf(st.jobs[job as int].slots[call.a1 as int].cap));
    }
}

/// The least address and the number of bytes of what a page is mapped to, as powers of
/// two: 4 KiB, 2 MiB and 1 GiB.
proof fn lemma_page_bytes(size_log2: u8)
    requires
        size_log2 == 12 || size_log2 == 21 || size_log2 == 30,
    ensures
        power2::pow2(size_log2 as nat) == thread_calls::bytes_of_log2(size_log2),
{
    power2::lemma2_to64();
}

/// The page numbers of an address are those of its low 39 bits.
proof fn lemma_pages_of(va: u64)
    ensures
        ({
            let low = va as int % 0x80_0000_0000;
            &&& virt::vpn(va, 2) == low / 0x4000_0000
            &&& virt::vpn(va, 1) == (low / 0x20_0000) % 512
            &&& virt::vpn(va, 0) == (low / 0x1000) % 512
            &&& va as int % 0x1000 == low % 0x1000
            &&& va as int % 0x20_0000 == low % 0x20_0000
            &&& va as int % 0x4000_0000 == low % 0x4000_0000
        }),
{
    assert(va % 0x1000 == (va % 0x80_0000_0000) % 0x1000 && va % 0x20_0000 == (va % 0x80_0000_0000)
        % 0x20_0000 && va % 0x4000_0000 == (va % 0x80_0000_0000) % 0x4000_0000) by (bit_vector);
    assert((va / 0x4000_0000) % 512 == (va % 0x80_0000_0000) / 0x4000_0000 && (va / 0x20_0000) % 512
        == ((va % 0x80_0000_0000) / 0x20_0000) % 512 && (va / 0x1000) % 512 == ((va
        % 0x80_0000_0000) / 0x1000) % 512) by (bit_vector);
}

/// Numbers that agree in the page numbers of a page agree in the page.
proof fn lemma_page_numbers(a: int, b: int)
    requires
        0 <= a < 0x80_0000_0000,
        0 <= b < 0x80_0000_0000,
    ensures
        a / 0x4000_0000 == b / 0x4000_0000 && (a / 0x20_0000) % 512 == (b / 0x20_0000) % 512 <==> a
            / 0x20_0000 == b / 0x20_0000,
        a / 0x4000_0000 == b / 0x4000_0000 && (a / 0x20_0000) % 512 == (b / 0x20_0000) % 512 && (a
            / 0x1000) % 512 == (b / 0x1000) % 512 <==> a / 0x1000 == b / 0x1000,
{
    let (a0, b0) = (a / 0x1000, b / 0x1000);
    let (a1, b1) = (a / 0x20_0000, b / 0x20_0000);
    assert(a1 == a0 / 512 && b1 == b0 / 512);
    assert(a / 0x4000_0000 == a1 / 512 && b / 0x4000_0000 == b1 / 512);
}

/// Numbers have the same quotient as a multiple of the divisor if, and only if, they are
/// less than the divisor behind it.
proof fn lemma_in_range(a: int, b: int, n: int)
    requires
        n > 0,
        a % n == 0,
    ensures
        a <= b < a + n <==> a / n == b / n,
        a <= b < a + n ==> b % n == b - a,
{
    vstd::arithmetic::div_mod::lemma_fundamental_div_mod(a, n);
    vstd::arithmetic::div_mod::lemma_fundamental_div_mod(b, n);
    let (q, r) = (b / n, b % n);
    let p = a / n;
    assert(b == n * q + r && 0 <= r < n && a == n * p);
    assert(a <= b < a + n <==> p == q) by (nonlinear_arith)
        requires
            b == n * q + r,
            0 <= r < n,
            a == n * p,
    ;
}

/// Two addresses are in the same page if, and only if, one lies in the bytes from the
/// beginning of the page on.
proof fn lemma_same_page(to: u64, va: u64, size_log2: u8)
    requires
        size_log2 == 12 || size_log2 == 21 || size_log2 == 30,
        to < 0x40_0000_0000,
        to as int % thread_calls::bytes_of_log2(size_log2) as int == 0,
    ensures
        ({
            let bytes = thread_calls::bytes_of_log2(size_log2) as int;
            let size = match size_log2 {
                12 => PageSize::Base,
                21 => PageSize::Mega,
                _ => PageSize::Giga,
            };
            paging::same_page(
                virt::vpn(to, 2),
                virt::vpn(to, 1),
                virt::vpn(to, 0),
                virt::vpn(va, 2),
                virt::vpn(va, 1),
                virt::vpn(va, 0),
                size,
            ) <==> to <= va as int % 0x80_0000_0000 < to + bytes
        }),
        ({
            let bytes = thread_calls::bytes_of_log2(size_log2) as int;
            let low = va as int % 0x80_0000_0000;
            to <= low < to + bytes ==> va as int % bytes == low - to
        }),
{
    let low = va as int % 0x80_0000_0000;
    lemma_pages_of(va);
    lemma_pages_of(to);
    assert(to as int % 0x80_0000_0000 == to);
    assert(0 <= low < 0x80_0000_0000);
    lemma_page_numbers(to as int, low);
    lemma_in_range(to as int, low, thread_calls::bytes_of_log2(size_log2) as int);
}

/// After a page of 4 KiB, 2 MiB or 1 GiB has been mapped, each address of its bytes is
/// translated to the physical address as far behind the beginning of the page, and may be
/// read, written or executed as far as that was asked for and the rights of the page
/// allow it; all other addresses are translated as before.
#[verifier::spinoff_prover]
#[verifier::rlimit(40)]
pub proof fn law_page_is_mapped(
    mem: Mem,
    table: SharedPageTable,
    page: Page,
    rights: CapRights,
    to: u64,
    flags: UserFlags,
    va: u64,
)
    requires
        mem.wf(),
        thread_calls::user_mappable(mem, table, page, to),
        paging::unshared(mem, table.root as int),
        page.phys < DIRECT_MAPPED_PAGES * 4096,
        to < 0x40_0000_0000,
        to as int % power2::pow2(page.size_log2 as nat) as int == 0,
        paging::flags_access(thread_calls::mapping_flags(flags, rights)),
    ensures
        ({
            let after = thread_calls::user_mapped(mem, table, page, rights, to, flags);
            let root = table.root as int;
            let low = va as int % 0x80_0000_0000;
            if to <= low < to + power2::pow2(page.size_log2 as nat) {
                paging::walk_spec(after, root, va) matches Some((pa, f)) && {
                    &&& pa == page.phys + (low - to)
                    &&& f % 2 == 1 && (f / 16) % 2 == 1
                    &&& (f / 2) % 2 == 1 <==> (flags.bits / 2) % 2 == 1 && rights.bits % 2 == 1
                    &&& (f / 4) % 2 == 1 <==> (flags.bits / 4) % 2 == 1 && (rights.bits / 2) % 2
                        == 1
                    &&& (f / 8) % 2 == 1 <==> (flags.bits / 8) % 2 == 1 && (rights.bits / 4) % 2
                        == 1
                }
            } else {
                paging::walk_spec(after, root, va) == paging::walk_spec(mem, root, va)
            }
        }),
        thread_calls::map_error(page, to) is None,
{
    lemma_page_bytes(page.size_log2);
    let f = thread_calls::mapping_flags(flags, rights);
    let size = thread_calls::size_of_log2(page.size_log2);
    lemma_mapping_flags(flags, rights);
    lemma_same_page(to, va, page.size_log2);
    assert(size.offset(va) == va as int % thread_calls::bytes_of_log2(page.size_log2) as int);
    paging::law_walk_after_map(mem, table.root as int, page.phys, to, f, size, va);
}

/// The bits of the flags with which a page is mapped.
proof fn lemma_mapping_flags(flags: UserFlags, rights: CapRights)
    ensures
        ({
            let f = thread_calls::mapping_flags(flags, rights);
            &&& f % 2 == 1 && (f / 16) % 2 == 1
            &&& (f / 2) % 2 == 1 <==> (flags.bits / 2) % 2 == 1 && rights.bits % 2 == 1
            &&& (f / 4) % 2 == 1 <==> (flags.bits / 4) % 2 == 1 && (rights.bits / 2) % 2 == 1
            &&& (f / 8) % 2 == 1 <==> (flags.bits / 8) % 2 == 1 && (rights.bits / 4) % 2 == 1
            &&& paging::flags_valid(f)
        }),
{
    reveal(paging::flags_valid);
    let b = flags.bits;
    let m = rights.pgtbl_mask();
    assert(((b & m) | 209) % 2 == 1 && (((b & m) | 209) / 16) % 2 == 1 && ((((b & m) | 209) / 2) % 2
        == 1 <==> (b / 2) % 2 == 1 && (m / 2) % 2 == 1) && ((((b & m) | 209) / 4) % 2 == 1 <==> (b
        / 4) % 2 == 1 && (m / 4) % 2 == 1) && ((((b & m) | 209) / 8) % 2 == 1 <==> (b / 8) % 2 == 1
        && (m / 8) % 2 == 1)) by (bit_vector);
}

/// Whether there is a slot, and it holds a page.
pub open spec fn holds_page(slots: Seq<CapabilitySlotInner>, index: u64) -> bool {
    0 < index < slots.len() && slots[index as int].cap is Page
}

/// Whether there is a slot, and it holds a page table.
pub open spec fn holds_table(slots: Seq<CapabilitySlotInner>, index: u64) -> bool {
    0 < index < slots.len() && slots[index as int].cap is PgTbl
}

/// The call that maps the page of the slot `a1` into the page table of the slot `a2`, at
/// the address `a3` and for the accesses `a4`: each address of the bytes of the page is
/// translated to the physical address as far behind its beginning, and all others are as
/// before. What is not the slot of a page or of a page table, an address that is not of
/// the lower half or not a multiple of the size of the page is refused, and changes
/// nothing.
#[verifier::spinoff_prover]
#[verifier::rlimit(40)]
pub proof fn law_page_map(st: State, thread: usize, after: State, h: Handled, va: u64)
    requires
        dispatch::syscall_pre(st, thread),
        dispatch::syscall_post(st, thread, after, h),
        st.threads[thread as int].trapframe.frame.a0 == 2,
    ensures
        ({
            let call = st.threads[thread as int].trapframe.frame;
            let slots = st.slots(thread);
            let slot = slots[call.a1 as int];
            let page = slot.cap->Page_0;
            let bytes = power2::pow2(page.size_log2 as nat);
            let root = slots[call.a2 as int].cap->PgTbl_0.root as int;
            let low = va as int % 0x80_0000_0000;
            if call.a1 == call.a2 {
                only_answers(st, thread, after, 5, 0)
            } else if !holds_page(slots, call.a1) {
                only_answers(st, thread, after, slot_error(slots, call.a1), 0)
            } else if !holds_table(slots, call.a2) {
                only_answers(st, thread, after, slot_error(slots, call.a2), 0)
            } else if call.a3 >= 0x40_0000_0000 {
                only_answers(st, thread, after, 5, 0)
            } else if call.a3 as int % bytes as int != 0 {
                only_answers(st, thread, after, 4, 0)
            } else {
                &&& only_answers((State { mem: after.mem, ..st }), thread, after, 0, 0)
                &&& st.is_tree(root) && page.phys < DIRECT_MAPPED_PAGES * 4096 && asks_for_access(
                    call.a4,
                    slot.rights,
                ) ==> if call.a3 <= low < call.a3 + bytes {
                    paging::walk_spec(after.mem, root, va) matches Some((pa, f)) && {
                        &&& pa == page.phys + (low - call.a3)
                        &&& f % 2 == 1 && (f / 16) % 2 == 1
                        &&& (f / 2) % 2 == 1 <==> (call.a4 / 2) % 2 == 1 && slot.rights.bits % 2
                            == 1
                        &&& (f / 4) % 2 == 1 <==> (call.a4 / 4) % 2 == 1 && (slot.rights.bits / 2)
                            % 2 == 1
                        &&& (f / 8) % 2 == 1 <==> (call.a4 / 8) % 2 == 1 && (slot.rights.bits / 4)
                            % 2 == 1
                    }
                } else {
                    paging::walk_spec(after.mem, root, va) == paging::walk_spec(st.mem, root, va)
                }
            }
        }),
{
    let call = st.threads[thread as int].trapframe.frame;
    let slots = st.slots(thread);
    let slot = slots[call.a1 as int];
    let page = slot.cap->Page_0;
    let table = slots[call.a2 as int].cap->PgTbl_0;
    let flags = dispatch::user_flags(call.a4);
    lemma_user_flags(call.a4);
    if call.a1 != call.a2 && holds_page(slots, call.a1) && holds_table(slots, call.a2) {
        lemma_page_bytes(page.size_log2);
        if asks_for_access(call.a4, slot.rights) {
            lemma_mapping_flags(flags, slot.rights);
            reveal(paging::flags_access);
            if call.a3 < 0x40_0000_0000 && call.a3 as int % power2::pow2(page.size_log2 as nat) as int == 0
                && st.is_tree(table.root as int) && page.phys < DIRECT_MAPPED_PAGES * 4096 {
                law_page_is_mapped(st.mem, table, page, slot.rights, call.a3, flags, va);
            }
        }
    }
}

/// Whether some access was asked for that the rights of a page allow.
pub open spec fn asks_for_access(flags: u64, rights: CapRights) -> bool {
    ||| (flags / 2) % 2 == 1 && rights.bits % 2 == 1
    ||| (flags / 4) % 2 == 1 && (rights.bits / 2) % 2 == 1
    ||| (flags / 8) % 2 == 1 && (rights.bits / 4) % 2 == 1
}

proof fn lemma_user_flags(bits: u64)
    ensures
        (dispatch::user_flags(bits).bits / 2) % 2 == (bits / 2) % 2,
        (dispatch::user_flags(bits).bits / 4) % 2 == (bits / 4) % 2,
        (dispatch::user_flags(bits).bits / 8) % 2 == (bits / 8) % 2,
{
    let low = ((bits / 2) % 8) * 2;
    assert(0 <= low < 16);
    let w = low as u64;
    assert(w == ((bits / 2) % 8) * 2);
    assert((w / 2) % 2 == (bits / 2) % 2 && (w / 4) % 2 == (bits / 4) % 2 && (w / 8) % 2 == (bits
        / 8) % 2) by (bit_vector)
        requires
            w == ((bits / 2) % 8) * 2,
    ;
}

/// The slots of a thread that runs refer to what exists.
proof fn lemma_slots(st: State, thread: usize)
    requires
        st.wf(),
        thread < st.threads.len(),
    ensures
        st.threads[thread as int].job < st.jobs.len(),
        st.slots(thread).len() > 0,
        forall|i: int|
            0 <= i < st.slots(thread).len() ==> st.kind_wf((#[trigger] st.slots(thread)[i]).cap),
        1 <= captbl::next_slot(st.slots(thread)) <= st.slots(thread).len(),
        captbl::next_slot(st.slots(thread)) < st.slots(thread).len() ==> is_next(
            st.slots(thread),
            captbl::next_slot(st.slots(thread)),
        ),
        captbl::next_slot(st.slots(thread)) == st.slots(thread).len() ==> is_full(
            st.slots(thread),
        ),
{
    assert(st.thread_wf(thread as int));
    assert(st.job_wf(st.threads[thread as int].job as int));
    captbl::law_next_slot(st.slots(thread), 1);
}

/// Whether a slot is the first one that is empty; the slot 0 is never used.
pub open spec fn is_next(slots: Seq<CapabilitySlotInner>, captr: int) -> bool {
    &&& 0 < captr < slots.len()
    &&& slots[captr].cap is Empty
    &&& forall|i: int| 0 < i < captr ==> !((#[trigger] slots[i]).cap is Empty)
}

/// Whether no slot is empty.
pub open spec fn is_full(slots: Seq<CapabilitySlotInner>) -> bool {
    forall|i: int| 0 < i < slots.len() ==> !((#[trigger] slots[i]).cap is Empty)
}

/// Whether a call has put what it made into the first slot of the caller that was empty,
/// and answers with its captr; but for that, the kernel is as `made` says.
pub open spec fn enters(
    st: State,
    thread: usize,
    after: State,
    made: State,
    slot: CapabilitySlotInner,
) -> bool {
    let captr = after.threads[thread as int].trapframe.frame.a1;
    let job = st.threads[thread as int].job as int;
    &&& is_next(st.slots(thread), captr as int)
    &&& only_answers(
        (State {
            jobs: made.jobs.update(
                job,
                JobView {
                    slots: made.jobs[job].slots.update(captr as int, slot),
                    ..made.jobs[job]
                },
            ),
            ..made
        }),
        thread,
        after,
        0,
        captr,
    )
}

/// A slot with all rights and no badge.
pub open spec fn plain_slot(cap: CapabilityKind) -> CapabilitySlotInner {
    CapabilitySlotInner { cap, badge: None, rights: CapRights { bits: 7 } }
}

/// With one more slot that refers to what `cap` says, if that is a thread.
pub open spec fn referred(st: State, cap: CapabilityKind) -> State {
    match cap {
        CapabilityKind::Thread(t) => State {
            threads: st.threads.update(
                t as int,
                Thread {
                    slot_refcount: (st.threads[t as int].slot_refcount + 1) as u64,
                    ..st.threads[t as int]
                },
            ),
            ..st
        },
        _ => st,
    }
}

/// The call that suspends the thread of the slot `a1`: it is suspended, and nothing else
/// changes. What is not the slot of a thread is refused.
#[verifier::spinoff_prover]
#[verifier::rlimit(40)]
pub proof fn law_thread_suspend(st: State, thread: usize, after: State, h: Handled)
    requires
        dispatch::syscall_pre(st, thread),
        dispatch::syscall_post(st, thread, after, h),
        st.threads[thread as int].trapframe.frame.a0 == 5,
    ensures
        ({
            let call = st.threads[thread as int].trapframe.frame;
            let slots = st.slots(thread);
            let t = slots[call.a1 as int].cap->Thread_0;
            let was = st.threads[t as int];
            if !holds_thread(slots, call.a1) {
                only_answers(st, thread, after, slot_error(slots, call.a1), 0)
            } else {
                only_answers(
                    st.set_thread(
                        t,
                        Thread {
                            private: ThreadProtected {
                                state: ThreadState::Suspended,
                                ..was.private
                            },
                            ..was
                        },
                    ),
                    thread,
                    after,
                    0,
                    0,
                )
            }
        }),
{
    let call = st.threads[thread as int].trapframe.frame;
    let slots = st.slots(thread);
    lemma_slots(st, thread);
}

/// The call that lets the thread of the slot `a1` run: it can run, and is the last one of
/// its priority in the run queue of some hart. A thread without a page table is refused, as
/// is what is not the slot of a thread.
#[verifier::spinoff_prover]
#[verifier::rlimit(40)]
pub proof fn law_thread_resume(st: State, thread: usize, after: State, h: Handled)
    requires
        dispatch::syscall_pre(st, thread),
        dispatch::syscall_post(st, thread, after, h),
        st.threads[thread as int].trapframe.frame.a0 == 7,
    ensures
        ({
            let call = st.threads[thread as int].trapframe.frame;
            let slots = st.slots(thread);
            let t = slots[call.a1 as int].cap->Thread_0;
            if !holds_thread(slots, call.a1) {
                only_answers(st, thread, after, slot_error(slots, call.a1), 0)
            } else if st.threads[t as int].private.root_pgtbl is None {
                only_answers(st, thread, after, 5, 0)
            } else {
                let hart = scheduling::hart_for(st, t);
                let prio = st.level(t) as int;
                &&& after.state(t) == ThreadState::Runnable
                &&& after.threads[thread as int].trapframe.frame == Trapframe {
                    a0: 0,
                    a1: 0,
                    ..call
                }
                &&& st.sched.has(hart)
                &&& after.sched.queues[hart][prio] == st.sched.queues[hart][prio].push(t)
                &&& forall|g: u64, p: int|
                    st.sched.has(g) && 0 <= p < 32 && (g != hart || p != prio) ==> (
                    #[trigger] after.sched.queues[g][p]) == st.sched.queues[g][p]
                &&& after.jobs == st.jobs && after.mem == st.mem && after.queues == st.queues
            }
        }),
{
    let call = st.threads[thread as int].trapframe.frame;
    let slots = st.slots(thread);
    lemma_slots(st, thread);
    if holds_thread(slots, call.a1) {
        let t = slots[call.a1 as int].cap->Thread_0;
        assert(st.kind_wf(slots[call.a1 as int].cap));
        assert(st.thread_wf(t as int));
        let ready = st.set_state(t, ThreadState::Runnable);
        assert(scheduling::hart_for(ready, t) == scheduling::hart_for(st, t));
        scheduling::law_chosen_hart_exists(st, t);
    }
}

/// The call that sets the buffer of the thread of the slot `a1` to the page of the slot
/// `a2`, which must be a page of 4 KiB of memory that can be read and written: that is the
/// buffer of the thread, and nothing else changes.
#[verifier::spinoff_prover]
#[verifier::rlimit(40)]
pub proof fn law_thread_set_ipc_buffer(st: State, thread: usize, after: State, h: Handled)
    requires
        dispatch::syscall_pre(st, thread),
        dispatch::syscall_post(st, thread, after, h),
        st.threads[thread as int].trapframe.frame.a0 == 23,
    ensures
        ({
            let call = st.threads[thread as int].trapframe.frame;
            let slots = st.slots(thread);
            let t = slots[call.a1 as int].cap->Thread_0;
            let slot = slots[call.a2 as int];
            let page = slot.cap->Page_0;
            let was = st.threads[t as int];
            if !holds_thread(slots, call.a1) {
                only_answers(st, thread, after, slot_error(slots, call.a1), 0)
            } else if !holds_page(slots, call.a2) {
                only_answers(st, thread, after, slot_error(slots, call.a2), 0)
            } else if slot.rights.bits % 2 == 0 || (slot.rights.bits / 2) % 2 == 0
                || page.size_log2 != 12 || page.is_device {
                only_answers(st, thread, after, 5, 0)
            } else {
                only_answers(
                    st.set_thread(
                        t,
                        Thread {
                            private: ThreadProtected { ipc_buffer: Some(page), ..was.private },
                            ..was
                        },
                    ),
                    thread,
                    after,
                    0,
                    0,
                )
            }
        }),
{
    let call = st.threads[thread as int].trapframe.frame;
    let slots = st.slots(thread);
    lemma_slots(st, thread);
    lemma_read_write(slots[call.a2 as int].rights.bits);
}

proof fn lemma_read_write(bits: u64)
    by (bit_vector)
    ensures
        bits & 3 == 3 <==> bits % 2 == 1 && (bits / 2) % 2 == 1,
{
}

/// The call that empties the slot `a1`: it is empty then, and the others are as they were.
/// There must be such a slot.
#[verifier::spinoff_prover]
#[verifier::rlimit(40)]
pub proof fn law_captr_delete(st: State, thread: usize, after: State, h: Handled)
    requires
        dispatch::syscall_pre(st, thread),
        dispatch::syscall_post(st, thread, after, h),
        st.threads[thread as int].trapframe.frame.a0 == 0,
    ensures
        ({
            let call = st.threads[thread as int].trapframe.frame;
            let slots = st.slots(thread);
            let job = st.threads[thread as int].job as int;
            if call.a1 == 0 || call.a1 >= slots.len() {
                only_answers(st, thread, after, 1, 0)
            } else {
                &&& after.threads[thread as int].trapframe.frame == Trapframe {
                    a0: 0,
                    a1: 0,
                    ..call
                }
                &&& after.slots(thread) == slots.update(
                    call.a1 as int,
                    plain_slot(CapabilityKind::Empty),
                )
                &&& forall|j: int|
                    0 <= j < st.jobs.len() && j != job ==> (#[trigger] after.jobs[j]) == st.jobs[j]
                &&& after.mem == st.mem && after.queues == st.queues && after.sched == st.sched
                &&& forall|t: int|
                    0 <= t < st.threads.len() && slots[call.a1 as int].cap
                        != CapabilityKind::Thread(t as usize) && t != thread
                        ==> (#[trigger] after.threads[t]) == st.threads[t]
                &&& slots[call.a1 as int].cap matches CapabilityKind::Thread(t)
                    ==> st.threads[t as int].slot_refcount > 0
                    ==> after.threads[t as int].slot_refcount == st.threads[t as int].slot_refcount
                    - 1
            }
        }),
{
    let call = st.threads[thread as int].trapframe.frame;
    let slots = st.slots(thread);
    lemma_slots(st, thread);
    if 0 < call.a1 && call.a1 < slots.len() {
        assert(st.kind_wf(slots[call.a1 as int].cap));
    }
}

/// The call that copies what the slot `a1` holds, with the rights `a2` and the badge `a3`:
/// the copy is in the first slot that was empty, whose captr is the answer.
#[verifier::spinoff_prover]
#[verifier::rlimit(40)]
pub proof fn law_captr_grant(st: State, thread: usize, after: State, h: Handled)
    requires
        dispatch::syscall_pre(st, thread),
        dispatch::syscall_post(st, thread, after, h),
        st.threads[thread as int].trapframe.frame.a0 == 10,
        captrs_suffice(st),
    ensures
        ({
            let call = st.threads[thread as int].trapframe.frame;
            let slots = st.slots(thread);
            let slot = slots[call.a1 as int];
            if call.a1 == 0 || call.a1 >= slots.len() {
                only_answers(st, thread, after, 1, 0)
            } else if is_full(slots) {
                only_answers(st, thread, after, 3, 0)
            } else {
                enters(
                    st,
                    thread,
                    after,
                    referred(st, slot.cap),
                    CapabilitySlotInner {
                        cap: slot.cap,
                        badge: if call.a3 == 0 {
                            None
                        } else {
                            Some(call.a3)
                        },
                        rights: CapRights { bits: call.a2 % 8 },
                    },
                )
            }
        }),
{
    let call = st.threads[thread as int].trapframe.frame;
    let slots = st.slots(thread);
    lemma_slots(st, thread);
    let bits = call.a2 % 8;
    assert(7 & bits == bits) by (bit_vector)
        requires
            bits < 8,
    ;
    if 0 < call.a1 && call.a1 < slots.len() {
        assert(st.kind_wf(slots[call.a1 as int].cap));
    }
}

/// The call that makes a notification: it has no signals, nobody waits for any, and the
/// answer is the captr of the slot that holds it.
#[verifier::spinoff_prover]
#[verifier::rlimit(40)]
pub proof fn law_notification_create(st: State, thread: usize, after: State, h: Handled)
    requires
        dispatch::syscall_pre(st, thread),
        dispatch::syscall_post(st, thread, after, h),
        st.threads[thread as int].trapframe.frame.a0 == 11,
        captrs_suffice(st),
    ensures
        ({
            let call = st.threads[thread as int].trapframe.frame;
            let slots = st.slots(thread);
            let n = st.notifications.len();
            if is_full(slots) {
                only_answers(st, thread, after, 3, 0)
            } else {
                enters(
                    st,
                    thread,
                    after,
                    (State {
                        queues: st.queues.push(endpoints::empty_queue()),
                        notifications: st.notifications.push(
                            Notification { word: 0, wait_queue: st.queues.len() as usize },
                        ),
                        ..st
                    }),
                    plain_slot(CapabilityKind::Notification(n as usize)),
                )
            }
        }),
{
    let call = st.threads[thread as int].trapframe.frame;
    let slots = st.slots(thread);
    lemma_slots(st, thread);
}

/// The call that makes an endpoint: nobody waits there, and the answer is the captr of the
/// slot that holds it.
#[verifier::spinoff_prover]
#[verifier::rlimit(40)]
pub proof fn law_endpoint_create(st: State, thread: usize, after: State, h: Handled)
    requires
        dispatch::syscall_pre(st, thread),
        dispatch::syscall_post(st, thread, after, h),
        st.threads[thread as int].trapframe.frame.a0 == 24,
        captrs_suffice(st),
    ensures
        ({
            let call = st.threads[thread as int].trapframe.frame;
            let slots = st.slots(thread);
            let q = st.queues.len();
            if is_full(slots) {
                only_answers(st, thread, after, 3, 0)
            } else {
                enters(
                    st,
                    thread,
                    after,
                    (State {
                        queues: st.queues.push(endpoints::empty_queue()).push(
                            endpoints::empty_queue(),
                        ),
                        endpoints: st.endpoints.push(
                            Endpoint {
                                recv_wait_queue: q as usize,
                                send_wait_queue: (q + 1) as usize,
                                reply_cap: None,
                            },
                        ),
                        ..st
                    }),
                    plain_slot(CapabilityKind::Endpoint(st.endpoints.len() as usize)),
                )
            }
        }),
{
    let call = st.threads[thread as int].trapframe.frame;
    let slots = st.slots(thread);
    lemma_slots(st, thread);
}

/// The call that makes a job in the job of the slot `a1`: it has 65536 slots, all of them
/// empty, is one deeper in the tree of jobs than that one, and the answer is the captr of the
/// slot that holds it. No job is more than 32 deep.
#[verifier::spinoff_prover]
#[verifier::rlimit(40)]
pub proof fn law_job_create(st: State, thread: usize, after: State, h: Handled)
    requires
        dispatch::syscall_pre(st, thread),
        dispatch::syscall_post(st, thread, after, h),
        st.threads[thread as int].trapframe.frame.a0 == 27,
        captrs_suffice(st),
    ensures
        ({
            let call = st.threads[thread as int].trapframe.frame;
            let slots = st.slots(thread);
            let parent = slots[call.a1 as int].cap->Job_0;
            let j = st.jobs.len() as int;
            let captr = after.threads[thread as int].trapframe.frame.a1;
            if call.a1 == 0 || call.a1 >= slots.len() || !(slots[call.a1 as int].cap is Job) {
                only_answers(st, thread, after, slot_error(slots, call.a1), 0)
            } else if is_full(slots) {
                only_answers(st, thread, after, 3, 0)
            } else if st.jobs[parent as int].depth >= 32 {
                only_answers(st, thread, after, 5, 0)
            } else {
                &&& enters(
                    st,
                    thread,
                    after,
                    (State { jobs: st.jobs.push(after.jobs[j]), ..st }),
                    plain_slot(CapabilityKind::Job(j as usize)),
                )
                &&& after.jobs[j].parent == Some(parent)
                &&& after.jobs[j].depth == st.jobs[parent as int].depth + 1
                &&& after.jobs[j].slots.len() == 65536
                &&& forall|i: int|
                    0 <= i < 65536 ==> #[trigger] after.jobs[j].slots[i] == plain_slot(
                        CapabilityKind::Empty,
                    )
            }
        }),
{
    let call = st.threads[thread as int].trapframe.frame;
    let slots = st.slots(thread);
    lemma_slots(st, thread);
    if 0 < call.a1 && call.a1 < slots.len() {
        assert(st.kind_wf(slots[call.a1 as int].cap));
    }
}

/// The call that makes a page of `2^k` bytes, where `k` is the low byte of `a1` and must be
/// 12, 21 or 30: the page begins at a multiple of its size, behind all memory that was handed
/// out, with less than one page between, and ends where the memory ends that has been handed
/// out now; it holds zeroes. The answer is the captr of the slot that holds it.
#[verifier::spinoff_prover]
#[verifier::rlimit(40)]
pub proof fn law_page_create(st: State, thread: usize, after: State, h: Handled)
    requires
        dispatch::syscall_pre(st, thread),
        dispatch::syscall_post(st, thread, after, h),
        st.threads[thread as int].trapframe.frame.a0 == 1,
        captrs_suffice(st),
    ensures
        ({
            let call = st.threads[thread as int].trapframe.frame;
            let slots = st.slots(thread);
            let k = call.a1 % 256;
            let bytes = power2::pow2(k as nat);
            let captr = after.threads[thread as int].trapframe.frame.a1;
            if k != 12 && k != 21 && k != 30 {
                only_answers(st, thread, after, 4, 0)
            } else if is_full(slots) {
                only_answers(st, thread, after, 3, 0)
            } else {
                &&& enters(
                    st,
                    thread,
                    after,
                    (State { mem: after.mem, ..st }),
                    after.slots(thread)[captr as int],
                )
                &&& after.slots(thread)[captr as int].badge is None
                &&& after.slots(thread)[captr as int].rights.bits == 7
                &&& after.slots(thread)[captr as int].cap matches CapabilityKind::Page(page) && {
                    &&& page.size_log2 == k
                    &&& !page.is_device
                    &&& page.phys as int % bytes as int == 0
                    &&& st.mem.next() * 4096 <= page.phys < st.mem.next() * 4096 + bytes
                    &&& page.phys + bytes == after.mem.next() * 4096
                }
                &&& after.mem.first == st.mem.first && after.mem.limit == st.mem.limit
                &&& st.mem.words.len() <= after.mem.words.len()
                &&& forall|i: int|
                    0 <= i < after.mem.words.len() ==> #[trigger] after.mem.words[i] == if i
                        < st.mem.words.len() {
                        st.mem.words[i]
                    } else {
                        0
                    }
            }
        }),
{
    let call = st.threads[thread as int].trapframe.frame;
    let slots = st.slots(thread);
    lemma_slots(st, thread);
    let k = call.a1 % 256;
    if k == 12 || k == 21 || k == 30 {
        lemma_page_bytes(k as u8);
        let gap = syscalls::page_gap(st.mem.next(), k as u8);
        let frames = syscalls::page_frames(k as u8);
        lemma_gap(st.mem.next(), k as u8);
        if !is_full(slots) {
            assert(after.mem.words.len() == st.mem.words.len() + 512 * (gap + frames));
            assert(after.mem.next() == st.mem.next() + gap + frames);
            assert(after.threads[thread as int].job == st.threads[thread as int].job);
        }
    }
}

/// The frames that are left out before a page are fewer than those of the page, and it
/// begins at a multiple of them.
proof fn lemma_gap(next: int, size_log2: u8)
    requires
        size_log2 == 12 || size_log2 == 21 || size_log2 == 30,
        0 <= next,
    ensures
        ({
            let gap = syscalls::page_gap(next, size_log2);
            let frames = syscalls::page_frames(size_log2);
            &&& 0 <= gap < frames
            &&& (next + gap) % frames == 0
            &&& frames * 4096 == thread_calls::bytes_of_log2(size_log2)
            &&& ((next + gap) * 4096) % (frames * 4096) == 0
        }),
{
    let gap = syscalls::page_gap(next, size_log2);
    if size_log2 == 12 {
    } else if size_log2 == 21 {
        assert((next + gap) % 512 == 0);
    } else {
        assert((next + gap) % 0x4_0000 == 0);
    }
}

/// The call that makes a page table: it is a frame that was not handed out before and holds
/// zeroes, so that it maps nothing, and the answer is the captr of the slot that holds it.
#[verifier::spinoff_prover]
#[verifier::rlimit(40)]
pub proof fn law_pgtbl_create(st: State, thread: usize, after: State, h: Handled)
    requires
        dispatch::syscall_pre(st, thread),
        dispatch::syscall_post(st, thread, after, h),
        st.threads[thread as int].trapframe.frame.a0 == 3,
        captrs_suffice(st),
    ensures
        ({
            let call = st.threads[thread as int].trapframe.frame;
            let slots = st.slots(thread);
            if is_full(slots) {
                only_answers(st, thread, after, 3, 0)
            } else {
                &&& enters(
                    st,
                    thread,
                    after,
                    (State { mem: after.mem, ..st }),
                    plain_slot(
                        CapabilityKind::PgTbl(SharedPageTable { root: st.mem.next() as u64 }),
                    ),
                )
                &&& after.mem.next() == st.mem.next() + 1
                &&& forall|i: int|
                    0 <= i < 512 ==> #[trigger] after.mem.at(st.mem.next(), i) == 0
                &&& forall|i: int|
                    0 <= i < st.mem.words.len() ==> #[trigger] after.mem.words[i]
                        == st.mem.words[i]
                &&& forall|va: u64|
                    paging::translated(after.mem, st.mem.next(), 2, va) is None
            }
        }),
{
    let call = st.threads[thread as int].trapframe.frame;
    let slots = st.slots(thread);
    lemma_slots(st, thread);
    if !is_full(slots) {
        assert(after.mem.words.len() == st.mem.words.len() + 512);
        assert forall|va: u64| paging::translated(after.mem, st.mem.next(), 2, va) is None by {
            let i = (va as int / paging::span(2)) % 512;
            assert(after.mem.at(st.mem.next(), i) == 0);
        }
    }
}

/// The call that makes a thread in the job of the slot `a1`, with the `a3` bytes at the
/// address `a2` as its name: the thread is the last one, has not been configured, and its
/// registers are zeroes; the answer is the captr of the slot that holds it.
#[verifier::spinoff_prover]
#[verifier::rlimit(40)]
pub proof fn law_job_create_thread(st: State, thread: usize, after: State, h: Handled)
    requires
        dispatch::syscall_pre(st, thread),
        dispatch::syscall_post(st, thread, after, h),
        st.threads[thread as int].trapframe.frame.a0 == 29,
        st.threads.len() <= usize::MAX,
        captrs_suffice(st),
    ensures
        ({
            let call = st.threads[thread as int].trapframe.frame;
            let slots = st.slots(thread);
            let job = slots[call.a1 as int].cap->Job_0;
            let captr = after.threads[thread as int].trapframe.frame.a1;
            let t = st.threads.len() as int;
            let made = after.threads[t];
            if call.a1 == 0 || call.a1 >= slots.len() || !(slots[call.a1 as int].cap is Job) {
                only_answers(st, thread, after, slot_error(slots, call.a1), 0)
            } else if call.a3 >= 4096 - call.a2 % 4096 {
                only_answers(st, thread, after, 5, 0)
            } else {
                after.threads[thread as int].trapframe.frame.a0 == 0 ==> {
                    &&& after.threads.len() == st.threads.len() + 1
                    &&& is_next(slots, captr as int)
                    &&& after.slots(thread)[captr as int] == plain_slot(
                        CapabilityKind::Thread(t as usize),
                    )
                    &&& made.job == job
                    &&& made.private.state == ThreadState::Uninit
                    &&& made.private.root_pgtbl is None && made.private.ipc_buffer is None
                    &&& made.private.prio.level() == 0
                    &&& made.private.hartid == u64::MAX
                    &&& made.blocked_on_wq is None
                    &&& made.slot_refcount == 1
                    &&& made.tid == st.next_tid && after.next_tid == st.next_tid + 1
                    &&& made.trapframe.frame == Trapframe::zeroed()
                    &&& made.trapframe.inner == st.mem.next()
                    &&& made.stack.inner == st.mem.next() + 1
                    &&& after.mem.next() == st.mem.next() + 1 + threads::STACK_FRAMES
                    &&& ipc::user_addr(st, thread, call.a2, 19) matches Some(at) ==> call.a2 != 0
                        ==> after.names[t] == vstd::utf8::decode_utf8(
                        Seq::new(call.a3 as nat, |i: int| st.mem.byte(at + i)),
                    )
                    &&& forall|o: int|
                        0 <= o < t && o != thread ==> (#[trigger] after.threads[o]) == st.threads[o]
                }
            }
        }),
{
    let call = st.threads[thread as int].trapframe.frame;
    let slots = st.slots(thread);
    lemma_slots(st, thread);
    if 0 < call.a1 && call.a1 < slots.len() {
        assert(st.kind_wf(slots[call.a1 as int].cap));
    }
    virt::law_canonical_idempotent(call.a2);
    assert(virt::canonical(call.a2) % 4096 == call.a2 % 4096);
    assert(virt::canonical(call.a2) == 0 <==> call.a2 == 0);
    let grown = st.mem.grow().grow_by(threads::STACK_FRAMES as int);
    assert(grown.words.len() == st.mem.words.len() + 512 * 129);
    assert(grown.next() == st.mem.next() + 129);
}

/// The call that reads the signals of the notification of the slot `a1`: they are the
/// answer, and there are none left.
#[verifier::spinoff_prover]
#[verifier::rlimit(40)]
pub proof fn law_notification_poll(st: State, thread: usize, after: State, h: Handled)
    requires
        dispatch::syscall_pre(st, thread),
        dispatch::syscall_post(st, thread, after, h),
        st.threads[thread as int].trapframe.frame.a0 == 14,
    ensures
        ({
            let call = st.threads[thread as int].trapframe.frame;
            let slots = st.slots(thread);
            let n = slots[call.a1 as int].cap->Notification_0 as int;
            if !holds_notification(slots, call.a1) {
                only_answers(st, thread, after, slot_error(slots, call.a1), 0)
            } else {
                only_answers(
                    (State {
                        notifications: st.notifications.update(
                            n,
                            Notification { word: 0, ..st.notifications[n] },
                        ),
                        ..st
                    }),
                    thread,
                    after,
                    0,
                    st.notifications[n].word,
                )
            }
        }),
{
    let call = st.threads[thread as int].trapframe.frame;
    let slots = st.slots(thread);
    lemma_slots(st, thread);
}

/// Whether there is a slot, and it holds a notification.
pub open spec fn holds_notification(slots: Seq<CapabilitySlotInner>, index: u64) -> bool {
    0 < index < slots.len() && slots[index as int].cap is Notification
}

/// The bits that a slot signals: those of its badge, if it has one.
pub open spec fn signals_of(slot: CapabilitySlotInner) -> u64 {
    match slot.badge {
        Some(bits) => bits,
        None => 0,
    }
}

/// The call that signals the notification of the slot `a1`: the bits of the badge of the
/// slot are added to its signals. If threads wait for them, the one that waits longest at the
/// highest priority can run again, on a hart that is interrupted if it is another one that is
/// idle; other threads stay as they are.
#[verifier::spinoff_prover]
#[verifier::rlimit(40)]
pub proof fn law_notification_signal(st: State, thread: usize, after: State, h: Handled)
    requires
        dispatch::syscall_pre(st, thread),
        dispatch::syscall_post(st, thread, after, h),
        st.threads[thread as int].trapframe.frame.a0 == 13,
    ensures
        ({
            let call = st.threads[thread as int].trapframe.frame;
            let slots = st.slots(thread);
            let slot = slots[call.a1 as int];
            let n = slot.cap->Notification_0 as int;
            let q = st.notifications[n].wait_queue as int;
            if !holds_notification(slots, call.a1) {
                only_answers(st, thread, after, slot_error(slots, call.a1), 0)
            } else {
                &&& after.threads[thread as int].trapframe.frame == Trapframe {
                    a0: 0,
                    a1: 0,
                    ..call
                }
                &&& after.notifications[n].word == st.notifications[n].word | signals_of(slot)
                &&& after.notifications[n].wait_queue == q
                &&& forall|m: int|
                    0 <= m < st.notifications.len() && m != n ==> (
                    #[trigger] after.notifications[m]) == st.notifications[m]
                &&& forall|k: int|
                    0 <= k < st.queues.len() && k != q ==> (#[trigger] after.queues[k])
                        == st.queues[k]
                &&& match st.queues[q].next() {
                    Some(t) => {
                        &&& after.state(t) == ThreadState::Runnable
                        &&& after.blocked_on(t) is None
                        &&& forall|o: int|
                            0 <= o < st.threads.len() && o != t && o != thread ==> (
                            #[trigger] after.threads[o]) == st.threads[o]
                        &&& h.also matches Also::Interrupt(hart) ==> hart != st.hart
                            && st.sched.is_idle(hart)
                    },
                    None => {
                        &&& after.queues[q] == st.queues[q]
                        &&& after.sched == st.sched
                        &&& h.also is Nothing
                        &&& forall|o: int|
                            0 <= o < st.threads.len() && o != thread ==> (
                            #[trigger] after.threads[o]) == st.threads[o]
                    },
                }
            }
        }),
{
    let call = st.threads[thread as int].trapframe.frame;
    let slots = st.slots(thread);
    lemma_slots(st, thread);
    if holds_notification(slots, call.a1) {
        assert(st.kind_wf(slots[call.a1 as int].cap));
        let n = slots[call.a1 as int].cap->Notification_0;
        let q = st.notifications[n as int].wait_queue;
        assert(st.queues[q as int].wf());
        ipc::lemma_popped(st.queues[q as int], st.threads.len() as int);
        wait_queue::lemma_waiting_class(st.queues[q as int].classes, 256);
    }
}

/// The call that waits for signals of the notification of the slot `a1`: if there are any,
/// it is answered with them, and there are none left; else the thread is the last one that
/// waits for them at its priority, and does not run.
#[verifier::spinoff_prover]
#[verifier::rlimit(40)]
pub proof fn law_notification_wait(st: State, thread: usize, after: State, h: Handled)
    requires
        dispatch::syscall_pre(st, thread),
        dispatch::syscall_post(st, thread, after, h),
        st.threads[thread as int].trapframe.frame.a0 == 12,
    ensures
        ({
            let call = st.threads[thread as int].trapframe.frame;
            let slots = st.slots(thread);
            let n = slots[call.a1 as int].cap->Notification_0 as int;
            let q = st.notifications[n].wait_queue;
            let word = st.notifications[n].word;
            let prio = st.level(thread) + 128;
            if !holds_notification(slots, call.a1) {
                &&& only_answers(st, thread, after, slot_error(slots, call.a1), 0)
                &&& h.pending is None
            } else if word != 0 {
                &&& h.pending is None
                &&& only_answers(
                    (State {
                        notifications: st.notifications.update(
                            n,
                            Notification { word: 0, ..st.notifications[n] },
                        ),
                        ..st
                    }),
                    thread,
                    after,
                    0,
                    word,
                )
            } else {
                &&& h.pending == Some(endpoints::Pending::Notification(n as usize))
                &&& after.state(thread) == ThreadState::Blocking
                &&& after.blocked_on(thread) == Some(q)
                &&& after.notifications == st.notifications
                &&& after.queues[q as int].classes[prio] == Some(
                    match st.queues[q as int].classes[prio] {
                        Some(threads) => threads.push(thread),
                        None => seq![thread],
                    },
                )
                &&& forall|c: int|
                    0 <= c < 256 && c != prio ==> (#[trigger] after.queues[q as int].classes[c])
                        == st.queues[q as int].classes[c]
                &&& forall|k: int|
                    0 <= k < st.queues.len() && k != q ==> (#[trigger] after.queues[k])
                        == st.queues[k]
                &&& forall|o: int|
                    0 <= o < st.threads.len() && o != thread ==> (#[trigger] after.threads[o])
                        == st.threads[o]
                &&& !after.sched.queues[st.threads[thread as int].private.hartid][st.level(
                    thread,
                ) as int].contains(thread)
            }
        }),
{
    let call = st.threads[thread as int].trapframe.frame;
    let slots = st.slots(thread);
    lemma_slots(st, thread);
    if holds_notification(slots, call.a1) {
        assert(st.kind_wf(slots[call.a1 as int].cap));
        let n = slots[call.a1 as int].cap->Notification_0 as int;
        let q = st.notifications[n].wait_queue;
        assert(st.queues[q as int].wf());
        let hart = st.threads[thread as int].private.hartid;
        assert(st.thread_wf(thread as int));
        wait_queue::law_without(st.sched.at(hart, st.level(thread)), thread);
        assert(st.notifications.update(
            n,
            Notification { word: 0, ..st.notifications[n] },
        ) =~= st.notifications || st.notifications[n].word != 0);
    }
}

/// Whether there is a slot, and it holds a handler of an interrupt.
pub open spec fn holds_handler(slots: Seq<CapabilitySlotInner>, index: u64) -> bool {
    0 < index < slots.len() && slots[index as int].cap is InterruptHandler
}

/// The call that makes a handler of the interrupt `a2`, of which the low 16 bits count, in
/// the pool of the slot `a1`: the handler is of that interrupt and signals nothing yet, the
/// pool finds it by the interrupt, the interrupt is enabled, and the answer is the captr of
/// the slot that holds the handler. There are interrupts from 1 to 1023, and each has no more
/// than one handler in a pool.
#[verifier::spinoff_prover]
#[verifier::rlimit(40)]
pub proof fn law_intr_pool_get(st: State, thread: usize, after: State, h: Handled)
    requires
        dispatch::syscall_pre(st, thread),
        dispatch::syscall_post(st, thread, after, h),
        st.threads[thread as int].trapframe.frame.a0 == 19,
        captrs_suffice(st),
    ensures
        ({
            let call = st.threads[thread as int].trapframe.frame;
            let slots = st.slots(thread);
            let pool = slots[call.a1 as int].cap->InterruptPool_0 as int;
            let irq = (call.a2 % 65536) as u16;
            let new = st.handlers.len();
            let made = State {
                handlers: st.handlers.push(InterruptHandler { notification: None, irq }),
                pools: st.pools.update(pool, st.pools[pool].insert(irq, new as usize)),
                ..st
            };
            if irq == 0 || irq > 1023 {
                only_answers(st, thread, after, 5, 0) && h.also is Nothing
            } else if call.a1 == 0 || call.a1 >= slots.len()
                || !(slots[call.a1 as int].cap is InterruptPool) {
                only_answers(st, thread, after, slot_error(slots, call.a1), 0) && h.also is Nothing
            } else if st.pools[pool].dom().contains(irq) {
                only_answers(st, thread, after, 5, 0) && h.also is Nothing
            } else {
                &&& h.also == Also::Enable(irq)
                &&& if is_full(slots) {
                    only_answers(made, thread, after, 3, 0)
                } else {
                    enters(
                        st,
                        thread,
                        after,
                        made,
                        plain_slot(CapabilityKind::InterruptHandler(new as usize)),
                    )
                }
            }
        }),
{
    let call = st.threads[thread as int].trapframe.frame;
    let slots = st.slots(thread);
    lemma_slots(st, thread);
}

/// The call that says that the interrupt of the handler of the slot `a1` has been handled:
/// that interrupt is completed at the interrupt controller, and nothing else changes.
#[verifier::spinoff_prover]
#[verifier::rlimit(40)]
pub proof fn law_intr_handler_ack(st: State, thread: usize, after: State, h: Handled)
    requires
        dispatch::syscall_pre(st, thread),
        dispatch::syscall_post(st, thread, after, h),
        st.threads[thread as int].trapframe.frame.a0 == 16,
    ensures
        ({
            let call = st.threads[thread as int].trapframe.frame;
            let slots = st.slots(thread);
            let handler = slots[call.a1 as int].cap->InterruptHandler_0 as int;
            if !holds_handler(slots, call.a1) {
                only_answers(st, thread, after, slot_error(slots, call.a1), 0) && h.also is Nothing
            } else {
                only_answers(st, thread, after, 0, 0) && h.also == Also::Complete(
                    st.handlers[handler].irq as u32,
                )
            }
        }),
{
    let call = st.threads[thread as int].trapframe.frame;
    let slots = st.slots(thread);
    lemma_slots(st, thread);
}

/// The call that lets the handler of the slot `a1` signal the notification of the slot `a2`:
/// from now on it signals that one, with the bits of the badge of that slot.
#[verifier::spinoff_prover]
#[verifier::rlimit(40)]
pub proof fn law_intr_handler_bind(st: State, thread: usize, after: State, h: Handled)
    requires
        dispatch::syscall_pre(st, thread),
        dispatch::syscall_post(st, thread, after, h),
        st.threads[thread as int].trapframe.frame.a0 == 17,
    ensures
        ({
            let call = st.threads[thread as int].trapframe.frame;
            let slots = st.slots(thread);
            let handler = slots[call.a1 as int].cap->InterruptHandler_0 as int;
            let slot = slots[call.a2 as int];
            if call.a1 == call.a2 {
                only_answers(st, thread, after, 5, 0)
            } else if !holds_handler(slots, call.a1) {
                only_answers(st, thread, after, slot_error(slots, call.a1), 0)
            } else if !holds_notification(slots, call.a2) {
                only_answers(st, thread, after, slot_error(slots, call.a2), 0)
            } else {
                only_answers(
                    (State {
                        handlers: st.handlers.update(
                            handler,
                            InterruptHandler {
                                notification: Some(
                                    (slot.cap->Notification_0, signals_of(slot)),
                                ),
                                irq: st.handlers[handler].irq,
                            },
                        ),
                        ..st
                    }),
                    thread,
                    after,
                    0,
                    0,
                )
            }
        }),
{
    let call = st.threads[thread as int].trapframe.frame;
    let slots = st.slots(thread);
    lemma_slots(st, thread);
}

/// The call that lets the handler of the slot `a1` signal nothing.
#[verifier::spinoff_prover]
#[verifier::rlimit(40)]
pub proof fn law_intr_handler_unbind(st: State, thread: usize, after: State, h: Handled)
    requires
        dispatch::syscall_pre(st, thread),
        dispatch::syscall_post(st, thread, after, h),
        st.threads[thread as int].trapframe.frame.a0 == 18,
    ensures
        ({
            let call = st.threads[thread as int].trapframe.frame;
            let slots = st.slots(thread);
            let handler = slots[call.a1 as int].cap->InterruptHandler_0 as int;
            if !holds_handler(slots, call.a1) {
                only_answers(st, thread, after, slot_error(slots, call.a1), 0)
            } else {
                only_answers(
                    (State {
                        handlers: st.handlers.update(
                            handler,
                            InterruptHandler {
                                notification: None,
                                irq: st.handlers[handler].irq,
                            },
                        ),
                        ..st
                    }),
                    thread,
                    after,
                    0,
                    0,
                )
            }
        }),
{
    let call = st.threads[thread as int].trapframe.frame;
    let slots = st.slots(thread);
    lemma_slots(st, thread);
}

/// The call that gives the thread of the slot `a1` the base priority in the low byte of
/// `a2`, which must be from 0 to 31: that is its base priority, and if it does not wait it is
/// in the run queue of its priority on the current hart: in front if it has become more
/// important, else behind; nothing else changes.
#[verifier::spinoff_prover]
#[verifier::rlimit(40)]
pub proof fn law_thread_set_priority(st: State, thread: usize, after: State, h: Handled)
    requires
        dispatch::syscall_pre(st, thread),
        dispatch::syscall_post(st, thread, after, h),
        st.threads[thread as int].trapframe.frame.a0 == 22,
    ensures
        ({
            let call = st.threads[thread as int].trapframe.frame;
            let slots = st.slots(thread);
            let t = slots[call.a1 as int].cap->Thread_0;
            let was = st.prio(t);
            let is = after.prio(t);
            let prio = after.level(t) as int;
            if call.a2 % 256 >= 32 {
                only_answers(st, thread, after, 5, 0)
            } else if !holds_thread(slots, call.a1) {
                only_answers(st, thread, after, slot_error(slots, call.a1), 0)
            } else {
                st.blocked_on(t) is None ==> {
                    let queue = after.sched.queues[st.hart][prio];
                    &&& after.threads[thread as int].trapframe.frame.a0 == 0
                    &&& is.base_prio == call.a2 % 256
                    &&& is.prio_boost == was.prio_boost
                    &&& is.inherited_prio == was.inherited_prio
                    &&& 0 <= prio < 32
                    &&& queue.len() > 0
                    &&& if prio > st.level(t) {
                        queue[0] == t
                    } else {
                        queue.last() == t
                    }
                    &&& after.state(t) == st.state(t)
                    &&& forall|o: int|
                        0 <= o < st.threads.len() && o != t && o != thread ==> (
                        #[trigger] after.threads[o]) == st.threads[o]
                    &&& after.mem == st.mem && after.jobs == st.jobs && after.queues == st.queues
                }
            }
        }),
{
    let call = st.threads[thread as int].trapframe.frame;
    let slots = st.slots(thread);
    lemma_slots(st, thread);
    if holds_thread(slots, call.a1) {
        assert(st.kind_wf(slots[call.a1 as int].cap));
        assert(st.thread_wf(slots[call.a1 as int].cap->Thread_0 as int));
        let t = slots[call.a1 as int].cap->Thread_0;
        if call.a2 % 256 < 32 {
            let b = signals::base_given(st, t, signals::prio_of(call.a2) as i8);
            let hart = st.threads[t as int].private.hartid;
            assert(st.sched.has(st.hart));
            assert(b.sched.queues.dom() =~= st.sched.queues.dom());
        }
    }
}

/// The call that configures the thread of the slot `a1`, which must be suspended or new,
/// with the page table of the slot `a2`, or that of the caller if it is 0, and the page of
/// the slot `a3` as its buffer: the thread has them then and is suspended, its trapframe is
/// mapped for the kernel alone at an address that was free, and the trampoline on the last
/// page.
#[verifier::spinoff_prover]
#[verifier::rlimit(40)]
pub proof fn law_thread_configure(st: State, thread: usize, after: State, h: Handled)
    requires
        dispatch::syscall_pre(st, thread),
        dispatch::syscall_post(st, thread, after, h),
        st.threads[thread as int].trapframe.frame.a0 == 6,
    ensures
        ({
            let call = st.threads[thread as int].trapframe.frame;
            let slots = st.slots(thread);
            let t = slots[call.a1 as int].cap->Thread_0;
            let was = st.threads[t as int];
            let is = after.threads[t as int];
            let table = if call.a2 == 0 {
                st.threads[thread as int].private.root_pgtbl->0
            } else {
                slots[call.a2 as int].cap->PgTbl_0
            };
            let slot = slots[call.a3 as int];
            let root = table.root as int;
            if !holds_thread(slots, call.a1) {
                only_answers(st, thread, after, slot_error(slots, call.a1), 0)
            } else if call.a2 != 0 && !holds_table(slots, call.a2) {
                only_answers(st, thread, after, slot_error(slots, call.a2), 0)
            } else if holds_page(slots, call.a3) && (slot.rights.bits % 2 == 0 || (slot.rights.bits
                / 2) % 2 == 0 || slot.cap->Page_0.size_log2 != 12) {
                only_answers(st, thread, after, 5, 0)
            } else if was.private.state != ThreadState::Suspended && was.private.state
                != ThreadState::Uninit {
                only_answers(st, thread, after, 5, 0)
            } else {
                &&& after.threads[thread as int].trapframe.frame.a0 == 0
                &&& is.private.root_pgtbl == Some(table)
                &&& is.private.ipc_buffer == if holds_page(slots, call.a3) {
                    Some(slot.cap->Page_0)
                } else {
                    None
                }
                &&& is.private.state == ThreadState::Suspended
                &&& is.private.prio == was.private.prio
                &&& is.job == was.job && is.stack == was.stack && is.trapframe.inner
                    == was.trapframe.inner
                &&& t != thread ==> is.trapframe.frame == was.trapframe.frame
                &&& forall|o: int|
                    0 <= o < st.threads.len() && o != t && o != thread ==> (
                    #[trigger] after.threads[o]) == st.threads[o]
                &&& after.jobs == st.jobs && after.queues == st.queues && after.sched == st.sched
                &&& paging::unshared(st.mem, root) && st.code.trampoline < DIRECT_MAPPED_PAGES
                    * 4096 ==> {
                    let frame = is.private.trapframe_addr;
                    &&& paging::walk_spec(st.mem, root, frame) is None
                    &&& paging::walk_spec(after.mem, root, frame) == Some(
                        ((was.trapframe.inner * 4096) as u64, 0b1100_0111u8),
                    )
                    &&& paging::walk_spec(after.mem, root, 0xFFFF_FFFF_FFFF_F000) == Some(
                        (st.code.trampoline, 0b1100_1011u8),
                    )
                }
            }
        }),
{
    let call = st.threads[thread as int].trapframe.frame;
    let slots = st.slots(thread);
    lemma_slots(st, thread);
    if holds_thread(slots, call.a1) {
        assert(st.kind_wf(slots[call.a1 as int].cap));
    }
    lemma_read_write(slots[call.a3 as int].rights.bits);
    let (mid, r) = choose|mid: State, r: CapResult<()>|
        #![trigger thread_calls::sys_thread_configure_post(
            st,
            thread,
            call.a1,
            call.a2,
            call.a3,
            mid,
            r,
        )]
        thread_calls::sys_thread_configure_post(st, thread, call.a1, call.a2, call.a3, mid, r)
            && dispatch::plain(mid, thread, r.registers(), after, h);
    let t = slots[call.a1 as int].cap->Thread_0;
    let table = thread_calls::table_at(st, thread, call.a2)->Ok_0;
    let buffer = thread_calls::buffer_at(st, thread, call.a3)->Ok_0;
    if r is Ok && paging::unshared(st.mem, table.root as int) && st.code.trampoline
        < DIRECT_MAPPED_PAGES * 4096 {
        threads::law_configured_space(st, t, table, buffer, mid, 0);
    }
}

/// The call that lets others run: the thread is behind the others of its priority in the
/// run queue of the current hart, loses one step of its boost where it has one, and gives up
/// the hart.
#[verifier::spinoff_prover]
#[verifier::rlimit(40)]
pub proof fn law_yield(st: State, thread: usize, after: State, h: Handled)
    requires
        dispatch::syscall_pre(st, thread),
        dispatch::syscall_post(st, thread, after, h),
        st.threads[thread as int].trapframe.frame.a0 == 15,
        st.blocked_on(thread) is None,
    ensures
        ({
            let call = st.threads[thread as int].trapframe.frame;
            let slots = st.slots(thread);
            let was = st.prio(thread);
            let is = after.prio(thread);
            &&& h.pending == Some(endpoints::Pending::Yield)
            &&& is.base_prio == was.base_prio
            &&& is.inherited_prio == was.inherited_prio
            &&& is.prio_boost == if was.prio_boost > 0 && was.base_prio + was.prio_boost > 0 {
                was.prio_boost - 1
            } else {
                was.prio_boost as int
            }
            &&& after.sched.queues[st.hart][after.level(thread) as int].last() == thread
            &&& after.threads[thread as int].trapframe == st.threads[thread as int].trapframe
            &&& after.mem == st.mem && after.jobs == st.jobs
        }),
{
    let call = st.threads[thread as int].trapframe.frame;
    let slots = st.slots(thread);
    lemma_slots(st, thread);
    assert(st.thread_wf(thread as int));
}

/// The call that asks what the slot `a1` holds: the answer is the number of its type.
#[verifier::spinoff_prover]
#[verifier::rlimit(40)]
pub proof fn law_debug_cap_identify(st: State, thread: usize, after: State, h: Handled)
    requires
        dispatch::syscall_pre(st, thread),
        dispatch::syscall_post(st, thread, after, h),
        st.threads[thread as int].trapframe.frame.a0 == 0xFFFF_0003,
    ensures
        ({
            let call = st.threads[thread as int].trapframe.frame;
            let slots = st.slots(thread);
            if call.a1 == 0 || call.a1 >= slots.len() {
                only_answers(st, thread, after, 1, 0)
            } else {
                only_answers(
                    st,
                    thread,
                    after,
                    0,
                    match slots[call.a1 as int].cap {
                        CapabilityKind::Empty => CapabilityType::Empty,
                        CapabilityKind::PgTbl(_) => CapabilityType::PgTbl,
                        CapabilityKind::Page(_) => CapabilityType::Page,
                        CapabilityKind::Thread(_) => CapabilityType::Thread,
                        CapabilityKind::Notification(_) => CapabilityType::Notification,
                        CapabilityKind::InterruptPool(_) => CapabilityType::InterruptPool,
                        CapabilityKind::InterruptHandler(_) => CapabilityType::InterruptHandler,
                        CapabilityKind::Endpoint(_) => CapabilityType::Endpoint,
                        CapabilityKind::Job(_) => CapabilityType::Job,
                    }.number() as u64,
                )
            }
        }),
{
    let call = st.threads[thread as int].trapframe.frame;
    let slots = st.slots(thread);
    lemma_slots(st, thread);
}

/// The call that shows what the slot `a1` holds.
#[verifier::spinoff_prover]
#[verifier::rlimit(40)]
pub proof fn law_debug_cap_slot(st: State, thread: usize, after: State, h: Handled)
    requires
        dispatch::syscall_pre(st, thread),
        dispatch::syscall_post(st, thread, after, h),
        st.threads[thread as int].trapframe.frame.a0 == 0xFFFF_0000,
    ensures
        ({
            let call = st.threads[thread as int].trapframe.frame;
            let slots = st.slots(thread);
            if call.a1 == 0 || call.a1 >= slots.len() {
                only_answers(st, thread, after, 1, 0) && h.also is Nothing
            } else {
                only_answers(st, thread, after, 0, 0) && h.also == Also::Show(
                    slots[call.a1 as int],
                )
            }
        }),
{
    let call = st.threads[thread as int].trapframe.frame;
    let slots = st.slots(thread);
    lemma_slots(st, thread);
}

/// The call that prints how much memory is in use: what is in use and what is free is all
/// that there is.
#[verifier::spinoff_prover]
#[verifier::rlimit(40)]
pub proof fn law_debug_dump_root(st: State, thread: usize, after: State, h: Handled)
    requires
        dispatch::syscall_pre(st, thread),
        dispatch::syscall_post(st, thread, after, h),
        st.threads[thread as int].trapframe.frame.a0 == 0xFFFF_0001,
    ensures
        ({
            let call = st.threads[thread as int].trapframe.frame;
            let slots = st.slots(thread);
            &&& only_answers(st, thread, after, 0, 0)
            &&& h.also matches Also::Usage(usage) && {
                &&& usage.used + usage.free == usage.total
                &&& usage.used == (st.mem.next() - st.mem.first) * 4096
                &&& usage.total == st.mem.limit * 4096
            }
        }),
{
    let call = st.threads[thread as int].trapframe.frame;
    let slots = st.slots(thread);
    lemma_slots(st, thread);
    assert(st.mem.limit < DIRECT_MAPPED_PAGES);
}

/// The call that prints the `a2` bytes at the address `a1` of the caller: they are printed,
/// and nothing else changes.
#[verifier::spinoff_prover]
#[verifier::rlimit(40)]
pub proof fn law_debug_print(st: State, thread: usize, after: State, h: Handled)
    requires
        dispatch::syscall_pre(st, thread),
        dispatch::syscall_post(st, thread, after, h),
        st.threads[thread as int].trapframe.frame.a0 == 0xFFFF_0002,
    ensures
        ({
            let call = st.threads[thread as int].trapframe.frame;
            let slots = st.slots(thread);
            &&& only_answers(st, thread, after, 0, 0)
            &&& h.also matches Also::Print(text) && {
                let root = st.threads[thread as int].private.root_pgtbl->0.root as int;
                paging::walk_spec(st.mem, root, virt::canonical(call.a1)) matches Some((pa, _))
                    && text@ == vstd::utf8::decode_utf8(
                    Seq::new(call.a2 as nat, |i: int| st.mem.byte(pa + i)),
                )
            }
        }),
{
    let call = st.threads[thread as int].trapframe.frame;
    let slots = st.slots(thread);
    lemma_slots(st, thread);
    let root = st.threads[thread as int].private.root_pgtbl->0.root as int;
    let at = virt::canonical(call.a1);
    paging::law_walk_is_translation(st.mem, root, at);
    let pa = paging::walk_addr(st.mem, root, at);
    assert(syscalls::bytes_at(st.mem, pa, call.a2 as int) =~= Seq::new(
        call.a2 as nat,
        |i: int| st.mem.byte(pa + i),
    ));
}

/// A call of which there is none is refused: there are 30 and four more for debugging, of
/// which two do nothing.
#[verifier::spinoff_prover]
#[verifier::rlimit(40)]
pub proof fn law_unknown_call(st: State, thread: usize, after: State, h: Handled)
    requires
        dispatch::syscall_pre(st, thread),
        dispatch::syscall_post(st, thread, after, h),
        call_is_unknown(st.threads[thread as int].trapframe.frame.a0),
    ensures
        ({
            let call = st.threads[thread as int].trapframe.frame;
            let slots = st.slots(thread);
            &&& only_answers(st, thread, after, 5, call.a1)
            &&& h.pending is None && h.also is Nothing
        }),
{
    let call = st.threads[thread as int].trapframe.frame;
    let slots = st.slots(thread);
    lemma_slots(st, thread);
}

/// Whether there is no call of a number, or one that is not made yet: to unmap a page and
/// to link a job.
pub open spec fn call_is_unknown(number: u64) -> bool {
    number == 4 || number == 28 || (number >= 30 && !(0xFFFF_0000 <= number <= 0xFFFF_0003))
}

/// Whether there is a slot, and it holds an endpoint.
pub open spec fn holds_endpoint(slots: Seq<CapabilitySlotInner>, index: u64) -> bool {
    0 < index < slots.len() && slots[index as int].cap is Endpoint
}

/// Whether a thread waits in a queue, behind the others of its priority, and the other
/// queues and threads are as they were.
pub open spec fn waits_in(st: State, after: State, thread: usize, q: usize) -> bool {
    let prio = st.level(thread) + 128;
    &&& after.state(thread) == ThreadState::Blocking
    &&& after.blocked_on(thread) == Some(q)
    &&& after.queues[q as int].classes[prio] == Some(
        match st.queues[q as int].classes[prio] {
            Some(threads) => threads.push(thread),
            None => seq![thread],
        },
    )
    &&& forall|c: int|
        0 <= c < 256 && c != prio ==> (#[trigger] after.queues[q as int].classes[c])
            == st.queues[q as int].classes[c]
    &&& forall|k: int|
        0 <= k < st.queues.len() && k != q ==> (#[trigger] after.queues[k]) == st.queues[k]
    &&& forall|o: int|
        0 <= o < st.threads.len() && o != thread ==> (#[trigger] after.threads[o]) == st.threads[o]
    &&& !after.sched.queues[st.threads[thread as int].private.hartid][st.level(
        thread,
    ) as int].contains(thread)
    &&& after.mem == st.mem && after.jobs == st.jobs
}

proof fn lemma_waits(st: State, thread: usize, q: usize)
    requires
        st.wf(),
        thread < st.threads.len(),
        q < st.queues.len(),
    ensures
        st.sched.valid(st.threads[thread as int].private.hartid, st.level(thread)) ==> waits_in(
            st,
            ipc::blocked(st, thread, q),
            thread,
            q,
        ),
        ipc::blocked(st, thread, q).endpoints == st.endpoints,
{
    assert(st.queues[q as int].wf());
    assert(st.thread_wf(thread as int));
    let hart = st.threads[thread as int].private.hartid;
    wait_queue::law_without(st.sched.at(hart, st.level(thread)), thread);
}

/// Whether a message with a header and a badge has been handed to a receiver that waited:
/// it can run, finds both when it does, and has the words of a message of up to four in
/// its registers.
pub open spec fn handed_to(
    st: State,
    after: State,
    receiver: usize,
    thread: usize,
    hdr: u64,
    badge: u64,
) -> bool {
    let sent = st.threads[thread as int].trapframe.frame;
    let had = st.threads[receiver as int].trapframe.frame;
    let got = after.threads[receiver as int].trapframe.frame;
    let words = hdr as int % 512 + 1;
    &&& after.state(receiver) == ThreadState::Runnable
    &&& after.blocked_on(receiver) is None
    &&& after.threads[receiver as int].private.send_fastpath == Some((MessageHeader(hdr), badge))
    &&& words <= 4 ==> {
        &&& got.a4 == sent.a4
        &&& got.a5 == if words >= 2 {
            sent.a5
        } else {
            had.a5
        }
        &&& got.a6 == if words >= 3 {
            sent.a6
        } else {
            had.a6
        }
        &&& got.a7 == if words >= 4 {
            sent.a7
        } else {
            had.a7
        }
    }
}

/// A message that is sent where a receiver waits is handed to it.
#[verifier::spinoff_prover]
#[verifier::rlimit(40)]
proof fn lemma_sent(
    st: State,
    thread: usize,
    ep: usize,
    hdr: u64,
    badge: u64,
)
    requires
        st.wf(),
        thread < st.threads.len(),
        ep < st.endpoints.len(),
        endpoints::send_beginnable(st, thread, ep, MessageHeader(hdr), badge),
    ensures
        ({
            let (after, done) = endpoints::send_begun(st, thread, ep, MessageHeader(hdr), badge);
            match st.queues[st.endpoints[ep as int].recv_wait_queue as int].next() {
                Some(receiver) => {
                    &&& done
                    &&& receiver < st.threads.len()
                    &&& after.threads.len() == st.threads.len()
                    &&& handed_to(st, after, receiver, thread, hdr, badge)
                    &&& receiver != thread ==> after.threads[thread as int].trapframe
                        == st.threads[thread as int].trapframe
                },
                None => {
                    &&& !done
                    &&& waits_in(st, after, thread, st.endpoints[ep as int].send_wait_queue)
                    &&& after.threads[thread as int].trapframe
                        == st.threads[thread as int].trapframe
                    &&& after.endpoints == st.endpoints
                },
            }
        }),
{
    let q = st.endpoints[ep as int].recv_wait_queue;
    assert(st.queues[q as int].wf());
    ipc::lemma_popped(st.queues[q as int], st.threads.len() as int);
    wait_queue::lemma_waiting_class(st.queues[q as int].classes, 256);
    let popped = ipc::unqueued(st, q);
    match st.queues[q as int].next() {
        Some(receiver) => {
            let marked = endpoints::set_fastpath(
                popped,
                receiver,
                Some((MessageHeader(hdr), badge)),
                popped.threads[receiver as int].private.recv_fastpath,
            );
            ipc::lemma_moved_threads(marked, receiver, thread);
            let moved = ipc::transferred(marked, receiver, thread);
            assert(moved.threads[receiver as int].trapframe
                == st.threads[receiver as int].trapframe);
            assert(moved.threads[thread as int].trapframe == st.threads[thread as int].trapframe);
            assert(moved.threads[receiver as int].private
                == marked.threads[receiver as int].private);
        },
        None => {
            assert(popped =~= st);
            lemma_waits(st, thread, st.endpoints[ep as int].send_wait_queue);
        },
    }
}

/// The call that sends the message with the header `a2` to the endpoint of the slot `a1`: if
/// a receiver waits there, the message is handed to the one that waits longest at the highest
/// priority, with the badge of the slot; else the caller waits for a receiver.
#[verifier::spinoff_prover]
#[verifier::rlimit(40)]
pub proof fn law_endpoint_send(st: State, thread: usize, after: State, h: Handled)
    requires
        dispatch::syscall_pre(st, thread),
        dispatch::syscall_post(st, thread, after, h),
        st.threads[thread as int].trapframe.frame.a0 == 20,
    ensures
        ({
            let call = st.threads[thread as int].trapframe.frame;
            let slots = st.slots(thread);
            let slot = slots[call.a1 as int];
            let ep = slot.cap->Endpoint_0;
            if !holds_endpoint(slots, call.a1) {
                only_answers(st, thread, after, slot_error(slots, call.a1), 0)
            } else {
                match st.queues[st.endpoints[ep as int].recv_wait_queue as int].next() {
                    Some(receiver) => receiver != thread ==> {
                        &&& h.pending is None
                        &&& handed_to(st, after, receiver, thread, call.a2, signals_of(slot))
                        &&& after.threads[thread as int].trapframe.frame == Trapframe {
                            a0: 0,
                            a1: 0,
                            ..call
                        }
                    },
                    None => {
                        &&& h.pending == Some(endpoints::Pending::Send(ep))
                        &&& waits_in(st, after, thread, st.endpoints[ep as int].send_wait_queue)
                        &&& after.threads[thread as int].trapframe.frame == call
                    },
                }
            }
        }),
{
    let call = st.threads[thread as int].trapframe.frame;
    let slots = st.slots(thread);
    lemma_slots(st, thread);
    if holds_endpoint(slots, call.a1) {
        let slot = slots[call.a1 as int];
        assert(st.kind_wf(slot.cap));
        lemma_sent(st, thread, slot.cap->Endpoint_0, call.a2, signals_of(slot));
    }
}

/// The call that replies with the message with the header `a2` to the one who called at the
/// endpoint of the slot `a1`: it is sent, with the badge of the slot, to the endpoint where
/// the caller waits for it. Where nobody has called, it is refused.
#[verifier::spinoff_prover]
#[verifier::rlimit(40)]
pub proof fn law_endpoint_reply(st: State, thread: usize, after: State, h: Handled)
    requires
        dispatch::syscall_pre(st, thread),
        dispatch::syscall_post(st, thread, after, h),
        st.threads[thread as int].trapframe.frame.a0 == 25,
    ensures
        ({
            let call = st.threads[thread as int].trapframe.frame;
            let slots = st.slots(thread);
            let slot = slots[call.a1 as int];
            let base = slot.cap->Endpoint_0 as int;
            if !holds_endpoint(slots, call.a1) {
                only_answers(st, thread, after, slot_error(slots, call.a1), 0)
            } else {
                match st.endpoints[base].reply_cap {
                    None => only_answers(st, thread, after, 5, 0),
                    Some(ep) => match st.queues[st.endpoints[ep as int].recv_wait_queue as int].next() {
                        Some(receiver) => receiver != thread ==> {
                            &&& h.pending is None
                            &&& handed_to(st, after, receiver, thread, call.a2, signals_of(slot))
                            &&& after.threads[thread as int].trapframe.frame == Trapframe {
                                a0: 0,
                                a1: 0,
                                ..call
                            }
                        },
                        None => {
                            &&& h.pending == Some(endpoints::Pending::Send(ep))
                            &&& waits_in(
                                st,
                                after,
                                thread,
                                st.endpoints[ep as int].send_wait_queue,
                            )
                            &&& after.threads[thread as int].trapframe.frame == call
                        },
                    },
                }
            }
        }),
{
    let call = st.threads[thread as int].trapframe.frame;
    let slots = st.slots(thread);
    lemma_slots(st, thread);
    if holds_endpoint(slots, call.a1) {
        let slot = slots[call.a1 as int];
        assert(st.kind_wf(slot.cap));
        if let Some(ep) = st.endpoints[slot.cap->Endpoint_0 as int].reply_cap {
            lemma_sent(st, thread, ep, call.a2, signals_of(slot));
        }
    }
}

/// What a thread that receives has, where a sender waits.
#[verifier::spinoff_prover]
#[verifier::rlimit(40)]
proof fn lemma_received(st: State, thread: usize, ep: usize, sender: usize)
    requires
        st.wf(),
        thread < st.threads.len(),
        ep < st.endpoints.len(),
        endpoints::recv_beginnable(st, thread, ep),
        st.queues[st.endpoints[ep as int].send_wait_queue as int].next() == Some(sender),
        st.blocked_on(thread) is None,
        sender != thread,
    ensures
        ({
            let (after, message) = endpoints::recv_begun(st, thread, ep);
            let call = st.threads[thread as int].trapframe.frame;
            let got = after.threads[thread as int].trapframe.frame;
            let sent = st.threads[sender as int].trapframe.frame;
            let words = sent.a2 as int % 512 + 1;
            &&& after.threads.len() == st.threads.len()
            &&& message == Some((sent.a2, signals_of(st.slots(sender)[sent.a1 as int])))
            &&& words <= 4 ==> {
                &&& got.a4 == sent.a4
                &&& got.a5 == if words >= 2 {
                    sent.a5
                } else {
                    call.a5
                }
                &&& got.a6 == if words >= 3 {
                    sent.a6
                } else {
                    call.a6
                }
                &&& got.a7 == if words >= 4 {
                    sent.a7
                } else {
                    call.a7
                }
            }
            &&& after.state(sender) == ThreadState::Runnable
            &&& after.blocked_on(sender) is None
            &&& after.threads[sender as int].private.recv_fastpath
            &&& after.mem.same_extent(st.mem)
        }),
{
    endpoints::law_waiting_message_arrives(st, thread, ep, sender);
    endpoints::law_waiting_message_is_taken(st, thread, ep, sender);
    endpoints::lemma_sender_runs(st, thread, ep, sender);
    let begun = endpoints::recv_begun(st, thread, ep).0;
    assert(endpoints::has_taken(st, begun, thread, sender));
}

/// The call that receives a message from the endpoint of the slot `a1`: if a sender waits
/// there, its message is taken, its header is the answer, the words of a message of up to
/// four are in the registers of the caller, the badge of the sender is written to the address
/// `a2`, if that can be written to, and the sender is told that its message was taken and can
/// run; else the caller waits for a message.
#[verifier::spinoff_prover]
#[verifier::rlimit(40)]
pub proof fn law_endpoint_recv(st: State, thread: usize, after: State, h: Handled)
    requires
        dispatch::syscall_pre(st, thread),
        dispatch::syscall_post(st, thread, after, h),
        st.threads[thread as int].trapframe.frame.a0 == 21,
        st.blocked_on(thread) is None,
    ensures
        ({
            let call = st.threads[thread as int].trapframe.frame;
            let slots = st.slots(thread);
            let ep = slots[call.a1 as int].cap->Endpoint_0;
            let into = ipc::user_addr(st, thread, call.a2, 21);
            let got = after.threads[thread as int].trapframe.frame;
            if !holds_endpoint(slots, call.a1) {
                only_answers(st, thread, after, slot_error(slots, call.a1), 0)
            } else {
                match st.queues[st.endpoints[ep as int].send_wait_queue as int].next() {
                    Some(sender) => sender != thread ==> {
                        let sent = st.threads[sender as int].trapframe.frame;
                        let words = sent.a2 as int % 512 + 1;
                        &&& h.pending is None
                        &&& got.a0 == 0
                        &&& got.a1 == sent.a2
                        &&& words <= 4 ==> {
                            &&& got.a4 == sent.a4
                            &&& got.a5 == if words >= 2 {
                                sent.a5
                            } else {
                                call.a5
                            }
                            &&& got.a6 == if words >= 3 {
                                sent.a6
                            } else {
                                call.a6
                            }
                            &&& got.a7 == if words >= 4 {
                                sent.a7
                            } else {
                                call.a7
                            }
                        }
                        &&& after.state(sender) == ThreadState::Runnable
                        &&& after.blocked_on(sender) is None
                        &&& after.threads[sender as int].private.recv_fastpath
                        &&& into matches Some(pa) ==> pa % 8 == 0 ==> after.mem.word(pa as int)
                            == signals_of(st.slots(sender)[sent.a1 as int])
                    },
                    None => {
                        &&& h.pending == Some(endpoints::Pending::Recv(ep, into))
                        &&& waits_in(st, after, thread, st.endpoints[ep as int].recv_wait_queue)
                        &&& got == call
                    },
                }
            }
        }),
{
    let call = st.threads[thread as int].trapframe.frame;
    let slots = st.slots(thread);
    lemma_slots(st, thread);
    if holds_endpoint(slots, call.a1) {
        assert(st.kind_wf(slots[call.a1 as int].cap));
        let ep = slots[call.a1 as int].cap->Endpoint_0;
        let q = st.endpoints[ep as int].send_wait_queue;
        assert(st.queues[q as int].wf());
        wait_queue::lemma_waiting_class(st.queues[q as int].classes, 256);
        match st.queues[q as int].next() {
            Some(sender) => {
                ipc::lemma_popped(st.queues[q as int], st.threads.len() as int);
                if sender != thread {
                    lemma_received(st, thread, ep, sender);
                    let (begun, message) = endpoints::recv_begun(st, thread, ep);
                    let (hdr, badge) = message->0;
                    let into = ipc::user_addr(st, thread, call.a2, 21);
                    let noted = endpoints::noted(begun, into, badge);
                    assert(noted.threads == begun.threads);
                    assert(after == dispatch::replied(noted, thread, (0, hdr)));
                }
            },
            None => {
                assert(ipc::unqueued(st, q) =~= st);
                lemma_waits(st, thread, st.endpoints[ep as int].recv_wait_queue);
            },
        }
    }
}

/// To send keeps the endpoints, and the queues of others.
#[verifier::spinoff_prover]
#[verifier::rlimit(40)]
proof fn lemma_sending_keeps(st: State, thread: usize, ep: usize, hdr: u64, badge: u64)
    requires
        st.wf(),
        thread < st.threads.len(),
        ep < st.endpoints.len(),
        endpoints::send_beginnable(st, thread, ep, MessageHeader(hdr), badge),
    ensures
        ({
            let (after, done) = endpoints::send_begun(st, thread, ep, MessageHeader(hdr), badge);
            &&& after.endpoints == st.endpoints
            &&& after.queues.len() == st.queues.len()
            &&& done ==> forall|k: int|
                0 <= k < st.queues.len() && k != st.endpoints[ep as int].recv_wait_queue ==> (
                #[trigger] after.queues[k]) == st.queues[k]
        }),
{
    let q = st.endpoints[ep as int].recv_wait_queue;
    assert(st.queues[q as int].wf());
    ipc::lemma_popped(st.queues[q as int], st.threads.len() as int);
    let popped = ipc::unqueued(st, q);
    if let Some(receiver) = st.queues[q as int].next() {
        let marked = endpoints::set_fastpath(
            popped,
            receiver,
            Some((MessageHeader(hdr), badge)),
            popped.threads[receiver as int].private.recv_fastpath,
        );
        ipc::lemma_moved_threads(marked, receiver, thread);
        let handed = endpoints::handed_over(popped, receiver, thread, MessageHeader(hdr), badge);
        assert(handed.queues == popped.queues && handed.endpoints == st.endpoints);
    }
}

/// A thread that has made a call waits, and where a receiver waited, that has the message.
#[verifier::spinoff_prover]
#[verifier::rlimit(60)]
proof fn lemma_called(st: State, thread: usize, ep: usize, hdr: u64, badge: u64)
    requires
        st.wf(),
        thread < st.threads.len(),
        ep < st.endpoints.len(),
        st.endpoints.len() < usize::MAX,
        st.queues.len() + 1 < usize::MAX,
        ({
            let prepared = endpoints::call_prepared(st, ep);
            let (sent, done) = endpoints::send_begun(
                prepared,
                thread,
                ep,
                MessageHeader(hdr),
                badge,
            );
            &&& endpoints::send_beginnable(prepared, thread, ep, MessageHeader(hdr), badge)
            &&& done ==> endpoints::call_reply_beginnable(sent, thread, ep)
        }),
    ensures
        ({
            let reply = st.endpoints.len() as usize;
            let q = st.queues.len();
            let prepared = endpoints::call_prepared(st, ep);
            let (sent, done) = endpoints::send_begun(
                prepared,
                thread,
                ep,
                MessageHeader(hdr),
                badge,
            );
            let (begun, message) = endpoints::call_reply_begun(sent, thread, ep);
            let after = if done {
                begun
            } else {
                sent
            };
            &&& sent.endpoints[ep as int].reply_cap == Some(reply)
            &&& done ==> message is None
            &&& after.endpoints == st.endpoints.update(
                ep as int,
                Endpoint { reply_cap: Some(reply), ..st.endpoints[ep as int] },
            ).push(
                Endpoint {
                    recv_wait_queue: q as usize,
                    send_wait_queue: (q + 1) as usize,
                    reply_cap: None,
                },
            )
            &&& after.state(thread) == ThreadState::Blocking
            &&& match st.queues[st.endpoints[ep as int].recv_wait_queue as int].next() {
                Some(receiver) => {
                    &&& done
                    &&& receiver != thread ==> {
                        &&& handed_to(st, after, receiver, thread, hdr, badge)
                        &&& after.blocked_on(thread) == Some(q as usize)
                        &&& after.threads[thread as int].trapframe
                            == st.threads[thread as int].trapframe
                    }
                },
                None => {
                    &&& !done
                    &&& after.blocked_on(thread) == Some(st.endpoints[ep as int].send_wait_queue)
                    &&& after.threads[thread as int].trapframe
                        == st.threads[thread as int].trapframe
                },
            }
        }),
{
    let prepared = endpoints::call_prepared(st, ep);
    let reply = st.endpoints.len() as usize;
    endpoints::lemma_call_prepared(st, ep);
    lemma_sent(prepared, thread, ep, hdr, badge);
    lemma_sending_keeps(prepared, thread, ep, hdr, badge);
    let q = st.endpoints[ep as int].recv_wait_queue as int;
    assert(prepared.queues[q] == st.queues[q]);
    let (sent, done) = endpoints::send_begun(prepared, thread, ep, MessageHeader(hdr), badge);
    assert(prepared.endpoints =~= st.endpoints.update(
        ep as int,
        Endpoint { reply_cap: Some(reply), ..st.endpoints[ep as int] },
    ).push(
        Endpoint {
            recv_wait_queue: st.queues.len() as usize,
            send_wait_queue: (st.queues.len() + 1) as usize,
            reply_cap: None,
        },
    ));
    if done {
        lemma_reply_awaited(st, sent, thread, reply);
        let receiver = st.queues[q].next()->0;
        assert(handed_to(prepared, sent, receiver, thread, hdr, badge));
    }
}

/// Where the reply to a call is awaited nobody has sent yet, so the caller waits.
proof fn lemma_reply_awaited(st: State, sent: State, thread: usize, reply: usize)
    requires
        reply < sent.endpoints.len(),
        sent.endpoints[reply as int].send_wait_queue == st.queues.len() + 1,
        sent.queues.len() == st.queues.len() + 2,
        sent.queues[st.queues.len() as int + 1] == endpoints::empty_queue(),
    ensures
        endpoints::recv_begun(sent, thread, reply) == (
            ipc::blocked(sent, thread, sent.endpoints[reply as int].recv_wait_queue),
            None::<(u64, u64)>,
        ),
{
    endpoints::law_new_queue_is_empty(256);
    let q = sent.endpoints[reply as int].send_wait_queue;
    assert(ipc::unqueued(sent, q) =~= sent);
}

/// The call that sends the message with the header `a2` to the endpoint of the slot `a1` and
/// receives the reply: an endpoint for the reply is made and noted. If a receiver waits, the
/// message is handed to it, with the badge of the slot, and the caller waits for the reply;
/// else the caller waits for a receiver.
#[verifier::spinoff_prover]
#[verifier::rlimit(40)]
pub proof fn law_endpoint_call(st: State, thread: usize, after: State, h: Handled)
    requires
        dispatch::syscall_pre(st, thread),
        dispatch::syscall_post(st, thread, after, h),
        st.threads[thread as int].trapframe.frame.a0 == 26,
        st.endpoints.len() < usize::MAX,
        st.queues.len() + 1 < usize::MAX,
        st.blocked_on(thread) is None,
    ensures
        ({
            let call = st.threads[thread as int].trapframe.frame;
            let slots = st.slots(thread);
            let slot = slots[call.a1 as int];
            let ep = slot.cap->Endpoint_0;
            let reply = st.endpoints.len() as int;
            let q = st.queues.len();
            if !holds_endpoint(slots, call.a1) {
                only_answers(st, thread, after, slot_error(slots, call.a1), 0)
            } else {
                &&& after.endpoints == st.endpoints.update(
                    ep as int,
                    Endpoint { reply_cap: Some(reply as usize), ..st.endpoints[ep as int] },
                ).push(
                    Endpoint {
                        recv_wait_queue: q as usize,
                        send_wait_queue: (q + 1) as usize,
                        reply_cap: None,
                    },
                )
                &&& after.threads[thread as int].trapframe.frame == call || (st.queues[
                    st.endpoints[ep as int].recv_wait_queue as int
                ].next() == Some(thread))
                &&& match st.queues[st.endpoints[ep as int].recv_wait_queue as int].next() {
                    Some(receiver) => receiver != thread ==> {
                        &&& h.pending == Some(endpoints::Pending::CallRecv(ep, reply as usize))
                        &&& handed_to(st, after, receiver, thread, call.a2, signals_of(slot))
                        &&& after.state(thread) == ThreadState::Blocking
                        &&& after.blocked_on(thread) == Some(q as usize)
                    },
                    None => {
                        &&& h.pending == Some(endpoints::Pending::CallSend(ep))
                        &&& after.state(thread) == ThreadState::Blocking
                        &&& after.blocked_on(thread) == Some(
                            st.endpoints[ep as int].send_wait_queue,
                        )
                    },
                }
            }
        }),
{
    let call = st.threads[thread as int].trapframe.frame;
    let slots = st.slots(thread);
    lemma_slots(st, thread);
    if holds_endpoint(slots, call.a1) {
        let slot = slots[call.a1 as int];
        let ep = slot.cap->Endpoint_0;
        assert(st.kind_wf(slot.cap));
        lemma_called(st, thread, ep, call.a2, signals_of(slot));
    }
}

/// A thread that goes on after it has waited has its answer: of a notification, the
/// signals, of which none are left; of a message that was handed to it, the header, with
/// the badge of the sender where it wanted to have it; of one of its own that was taken,
/// that it was.
#[verifier::spinoff_prover]
#[verifier::rlimit(40)]
pub proof fn law_going_on(
    st: State,
    thread: usize,
    pending: endpoints::Pending,
    after: State,
    h: Handled,
)
    requires
        dispatch::resume_pre(st, thread, pending),
        dispatch::resume_post(st, thread, pending, after, h),
    ensures
        ({
            let was = st.threads[thread as int];
            let is = after.threads[thread as int];
            match pending {
                endpoints::Pending::Notification(n) => {
                    &&& h.pending is None
                    &&& only_answers(
                        (State {
                            notifications: st.notifications.update(
                                n as int,
                                Notification { word: 0, ..st.notifications[n as int] },
                            ),
                            ..st
                        }),
                        thread,
                        after,
                        0,
                        st.notifications[n as int].word,
                    )
                },
                endpoints::Pending::Yield => h.pending is None && only_answers(
                    st,
                    thread,
                    after,
                    0,
                    0,
                ),
                endpoints::Pending::Recv(ep, info) => {
                    was.private.send_fastpath matches Some((hdr, badge)) ==> {
                        &&& h.pending is None
                        &&& is.trapframe.frame == Trapframe {
                            a0: 0,
                            a1: hdr.0,
                            ..was.trapframe.frame
                        }
                        &&& is.private.send_fastpath is None
                        &&& info matches Some(pa) ==> pa % 8 == 0 ==> after.mem.word(pa as int)
                            == badge
                        &&& after.queues == st.queues && after.jobs == st.jobs
                    }
                },
                endpoints::Pending::Send(ep) => {
                    was.private.recv_fastpath ==> {
                        &&& h.pending is None
                        &&& is.trapframe.frame == Trapframe { a0: 0, a1: 0, ..was.trapframe.frame }
                        &&& is.private.recv_fastpath == false
                        &&& after.queues == st.queues && after.mem == st.mem
                    }
                },
                endpoints::Pending::CallRecv(ep, reply) => {
                    was.private.send_fastpath matches Some((hdr, badge)) ==> {
                        &&& h.pending is None
                        &&& is.trapframe.frame == Trapframe {
                            a0: 0,
                            a1: hdr.0,
                            ..was.trapframe.frame
                        }
                        &&& is.private.send_fastpath is None
                        &&& after.endpoints[ep as int].reply_cap is None
                        &&& after.mem == st.mem
                    }
                },
                endpoints::Pending::CallSend(ep) => true,
            }
        }),
{
}

/// A capability that is sent along with a message arrives: the sender has its captr at the
/// address in its `a3`, the receiver has room for one at the address in its own, and both
/// are addresses of words. Then the first slot of the receiver that was empty holds a
/// copy, with the same badge and rights, and the receiver finds the captr of it. Where one
/// of the addresses is 0 nothing is sent.
#[verifier::spinoff_prover]
#[verifier::rlimit(40)]
pub proof fn law_capability_is_sent(st: State, receiver: usize, sender: usize)
    requires
        st.wf(),
        receiver < st.threads.len(),
        sender < st.threads.len(),
        ipc::transferable(st, receiver, sender),
        captrs_suffice(st),
    ensures
        ({
            let after = ipc::transferred(st, receiver, sender);
            let from = ipc::user_addr(
                st,
                sender,
                st.threads[sender as int].trapframe.frame.a3,
                19,
            );
            let to = ipc::user_addr(
                st,
                receiver,
                st.threads[receiver as int].trapframe.frame.a3,
                21,
            );
            let slots = st.slots(sender);
            let index = st.mem.word(from->0 as int);
            let captr = after.mem.word(to->0 as int);
            &&& st.threads[sender as int].trapframe.frame.a3 == 0 || st.threads[
                receiver as int
            ].trapframe.frame.a3 == 0 || from is None || to is None ==> after == st
            &&& st.threads[sender as int].trapframe.frame.a3 != 0 && st.threads[
                receiver as int
            ].trapframe.frame.a3 != 0 && from is Some && to is Some && from->0 % 8 == 0 && to->0 % 8
                == 0 && 0 < index < slots.len() && !is_full(st.slots(receiver)) ==> {
                &&& is_next(st.slots(receiver), captr as int)
                &&& after.slots(receiver)[captr as int].cap == slots[index as int].cap
                &&& after.slots(receiver)[captr as int].badge == slots[index as int].badge
                &&& after.slots(receiver)[captr as int].rights.bits
                    == slots[index as int].rights.bits % 8
                &&& forall|i: int|
                    0 <= i < st.slots(receiver).len() && i != captr ==> (
                    #[trigger] after.slots(receiver)[i]) == st.slots(receiver)[i]
            }
        }),
{
    lemma_slots(st, sender);
    lemma_slots(st, receiver);
    ipc::lemma_moved_threads(st, receiver, sender);
    let from = ipc::user_addr(st, sender, st.threads[sender as int].trapframe.frame.a3, 19);
    let index = st.mem.word(from->0 as int);
    if 0 < index && index < st.slots(sender).len() {
        let bits = st.slots(sender)[index as int].rights.bits;
        assert(7 & bits == bits % 8) by (bit_vector);
        assert(st.kind_wf(st.slots(sender)[index as int].cap));
    }
    assert(ipc::transferred(st, receiver, sender).threads[receiver as int].job
        == st.threads[receiver as int].job);
}

} // verus!
