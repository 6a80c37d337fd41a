//! What the calls hand over to the kernel, register by register: their number in `a0`, and
//! their arguments from `a1` on. Registers that a call does not use are 0.

use vstd::prelude::*;

use super::{captr, debug, notification, paging, thread, Ecall, Reply};
use crate::addr::{Identity, VirtualConst, Vpn};
use crate::capability::paging::PageTableFlags;
use crate::capability::{
    CapResult, CapRights, Capability, Captr, CaptrOps, Endpoint, Job, MessageHeader, Notification,
    Thread,
};

verus! {

/// Whether a call hands over these numbers in `a0` to `a7`.
pub open spec fn hands_over(call: Ecall, registers: Seq<u64>) -> bool {
    &&& call.syscall.number() == registers[0]
    &&& call.a1 == registers[1]
    &&& call.a2 == registers[2]
    &&& call.a3 == registers[3]
    &&& call.a4 == registers[4]
    &&& call.a5 == registers[5]
    &&& call.a6 == registers[6]
    &&& call.a7 == registers[7]
}

/// The calls of a thread hand over the captr of the thread first: to suspend it, to let it
/// run, to configure it with a page table and a buffer, to give it the registers at an
/// address, and to start it at an entry, on a stack, with two arguments.
pub proof fn law_calls_of_threads(t: Thread, a: Captr, b: Captr, x: u64, y: u64, z: u64, r: Ecall)
    ensures
        call_ensures(Thread::suspend, (t,), r) ==> hands_over(r, seq![5, t.0@, 0, 0, 0, 0, 0, 0]),
        call_ensures(Thread::configure, (t, a, b), r) ==> hands_over(
            r,
            seq![6, t.0@, a@, b@, 0, 0, 0, 0],
        ),
        call_ensures(Thread::resume, (t,), r) ==> hands_over(r, seq![7, t.0@, 0, 0, 0, 0, 0, 0]),
        call_ensures(Thread::write_registers, (t, x), r) ==> hands_over(
            r,
            seq![8, t.0@, x, 0, 0, 0, 0, 0],
        ),
        call_ensures(Thread::start, (t, x, y, a, z), r) ==> hands_over(
            r,
            seq![9, t.0@, x, y, a@, z, 0, 0],
        ),
{
}

/// The plain calls about threads hand over the same as those of a thread.
pub proof fn law_plain_calls_about_threads(t: u64, x: u64, y: u64, r: Ecall)
    ensures
        call_ensures(thread::suspend, (t,), r) ==> hands_over(r, seq![5, t, 0, 0, 0, 0, 0, 0]),
        call_ensures(thread::configure, (t, x, y), r) ==> hands_over(
            r,
            seq![6, t, x, y, 0, 0, 0, 0],
        ),
        call_ensures(thread::resume, (t,), r) ==> hands_over(r, seq![7, t, 0, 0, 0, 0, 0, 0]),
        call_ensures(thread::write_registers, (t, x), r) ==> hands_over(
            r,
            seq![8, t, x, 0, 0, 0, 0, 0],
        ),
{
}

/// The calls about notifications: to create one, to wait for one, to signal it, and to poll
/// it.
pub proof fn law_calls_of_notifications(n: Notification, captr: u64, r: Ecall)
    ensures
        call_ensures(Notification::create, (), r) ==> hands_over(r, seq![11, 0, 0, 0, 0, 0, 0, 0]),
        call_ensures(Notification::wait, (&n,), r) ==> hands_over(
            r,
            seq![12, n.0@, 0, 0, 0, 0, 0, 0],
        ),
        call_ensures(Notification::signal, (&n,), r) ==> hands_over(
            r,
            seq![13, n.0@, 0, 0, 0, 0, 0, 0],
        ),
        call_ensures(Notification::poll, (&n,), r) ==> hands_over(
            r,
            seq![14, n.0@, 0, 0, 0, 0, 0, 0],
        ),
        call_ensures(notification::wait, (captr,), r) ==> hands_over(
            r,
            seq![12, captr, 0, 0, 0, 0, 0, 0],
        ),
        call_ensures(notification::signal, (captr,), r) ==> hands_over(
            r,
            seq![13, captr, 0, 0, 0, 0, 0, 0],
        ),
        call_ensures(notification::poll, (captr,), r) ==> hands_over(
            r,
            seq![14, captr, 0, 0, 0, 0, 0, 0],
        ),
{
}

/// The calls of an endpoint hand over its captr. One that sends has the header of the message
/// and the captr of the capability that is sent along behind it, and then the first four
/// words of the message; one that receives has where to write who sent it, and where to write
/// the capability.
pub proof fn law_calls_of_endpoints(
    e: Endpoint,
    hdr: MessageHeader,
    cap: u64,
    mrs: [u64; 4],
    sender: u64,
    r: Ecall,
)
    ensures
        call_ensures(Endpoint::create, (), r) ==> hands_over(r, seq![24, 0, 0, 0, 0, 0, 0, 0]),
        call_ensures(Endpoint::send_with_regs, (e, hdr, cap, mrs), r) ==> hands_over(
            r,
            seq![20, e.0@, hdr@, cap, mrs@[0], mrs@[1], mrs@[2], mrs@[3]],
        ),
        call_ensures(Endpoint::reply_with_regs, (e, hdr, cap, mrs), r) ==> hands_over(
            r,
            seq![25, e.0@, hdr@, cap, mrs@[0], mrs@[1], mrs@[2], mrs@[3]],
        ),
        call_ensures(Endpoint::call_with_regs, (e, hdr, cap, mrs), r) ==> hands_over(
            r,
            seq![26, e.0@, hdr@, cap, mrs@[0], mrs@[1], mrs@[2], mrs@[3]],
        ),
        call_ensures(Endpoint::recv_with_regs, (e, sender, cap), r) ==> hands_over(
            r,
            seq![21, e.0@, sender, cap, 0, 0, 0, 0],
        ),
{
}

/// The calls of a job: to create one below it, and to create a thread in it with a name of
/// `len` bytes.
pub proof fn law_calls_of_jobs(job: Job, name: u64, len: u64, r: Ecall)
    ensures
        call_ensures(Job::create, (job,), r) ==> hands_over(
            r,
            seq![27, job.0@, 0, 0, 0, 0, 0, 0],
        ),
        call_ensures(Job::create_thread, (job, name, len), r) ==> hands_over(
            r,
            seq![29, job.0@, name, len, 0, 0, 0, 0],
        ),
{
}

/// The calls about pages and slots, and those for debugging.
pub proof fn law_other_calls(
    index: u64,
    len: u64,
    from: u64,
    into: u64,
    va: VirtualConst<u8, Identity>,
    flags: PageTableFlags,
    vpn: Vpn,
    r: Ecall,
)
    ensures
        call_ensures(captr::delete, (index,), r) ==> hands_over(
            r,
            seq![0, index, 0, 0, 0, 0, 0, 0],
        ),
        call_ensures(paging::page_map, (from, into, va, flags), r) ==> hands_over(
            r,
            seq![2, from, into, va@, flags.bits as u64, 0, 0, 0],
        ),
        call_ensures(paging::pgtbl_unmap, (from, vpn), r) ==> hands_over(
            r,
            seq![4, from, vpn@ as u64, 0, 0, 0, 0, 0],
        ),
        call_ensures(debug::debug_cap_slot, (index,), r) ==> hands_over(
            r,
            seq![0xFFFF_0000, index, 0, 0, 0, 0, 0, 0],
        ),
        call_ensures(debug::debug_dump_root, (), r) ==> hands_over(
            r,
            seq![0xFFFF_0001, 0, 0, 0, 0, 0, 0, 0],
        ),
        call_ensures(debug::debug_print_string, (index, len), r) ==> hands_over(
            r,
            seq![0xFFFF_0002, index, len, 0, 0, 0, 0, 0],
        ),
        call_ensures(debug::debug_cap_identify, (index,), r) ==> hands_over(
            r,
            seq![0xFFFF_0003, index, 0, 0, 0, 0, 0, 0],
        ),
{
}

/// The calls of every capability: to delete it, and to copy it with at most the given rights
/// and a badge, of which 0 is none.
pub proof fn law_calls_of_capabilities<C: Capability>(
    c: C,
    rights: CapRights,
    badge: Option<u64>,
    r: Ecall,
)
    ensures
        call_ensures(C::delete, (c,), r) ==> hands_over(
            r,
            seq![0, c.captr(), 0, 0, 0, 0, 0, 0],
        ),
        call_ensures(C::grant, (c, rights, badge), r) ==> hands_over(
            r,
            seq![
                10,
                c.captr(),
                rights.bits,
                match badge {
                    Some(b) => b,
                    None => 0,
                },
                0,
                0,
                0,
                0,
            ],
        ),
{
}

/// A reply is an error where `a0` is not 0, and that error; else it is the value in `a1`.
pub proof fn law_replies(
    reply: Reply,
    raw: Result<u64, u64>,
    unit: CapResult<()>,
    captr: CapResult<Captr>,
    bits: CapResult<Option<u64>>,
)
    ensures
        call_ensures(Reply::result, (reply,), raw) ==> {
            &&& raw is Ok <==> reply.a0 == 0
            &&& raw matches Ok(value) ==> value == reply.a1
            &&& raw matches Err(e) ==> e == reply.a0
        },
        call_ensures(Reply::unit, (reply,), unit) ==> {
            &&& unit is Ok <==> reply.a0 == 0
            &&& unit matches Err(e) ==> 1 <= reply.a0 <= 6 ==> e.number() == reply.a0
            &&& unit matches Err(e) ==> reply.a0 > 6 ==> e is UnknownError
        },
        call_ensures(Reply::captr, (reply,), captr) ==> {
            &&& captr is Ok <==> reply.a0 == 0
            &&& captr matches Ok(c) ==> c@ == reply.a1
            &&& captr matches Err(e) ==> 1 <= reply.a0 <= 6 ==> e.number() == reply.a0
        },
        call_ensures(Reply::signals, (reply,), bits) ==> {
            &&& bits is Ok <==> reply.a0 == 0
            &&& bits matches Ok(Some(b)) ==> b == reply.a1 && b != 0
            &&& bits matches Ok(None) ==> reply.a1 == 0
            &&& bits matches Err(e) ==> 1 <= reply.a0 <= 6 ==> e.number() == reply.a0
        },
{
}

} // verus!
