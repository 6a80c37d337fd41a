use river::addr::mappings::{AddressLayout, ACTUAL_PHYSICAL_OFFSET};
use river::addr::VirtualConst;
use river::capability::paging::PageTableFlags as UserFlags;
use river::capability::{CapError, CapRights, CapabilityType, MessageHeader};
use river::kernel::boot::harts::{memory_usage, HartInfo};
use river::kernel::boot::idle::IDLE_FLAGS;
use river::kernel::boot::kmain::{bring_up, Booted, Machine};
use river::kernel::boot::process::{INIT_FLAGS, TRAMPOLINE_FLAGS, TRAPFRAME_FLAGS};
use river::kernel::capability::thread::{Thread, ThreadState};
use river::kernel::capability::CapabilityKind;
use river::kernel::dispatch::Decision;
use river::kernel::paging::{PageTable, RawSatp};
use river::kernel::physmem::PhysicalMemory;
use river::kernel::sched::Scheduler;
use river::kernel::state::{CodeAddresses, Job, Kernel};
use river::kernel::trap::dispatch::{resume, syscall, Also};
use river::kernel::trap::endpoints::{
    sys_endpoint_call, sys_endpoint_recv, sys_endpoint_recv_finish, sys_endpoint_reply,
    sys_endpoint_send, sys_endpoint_send_resume, Outcome, Pending,
};
use river::kernel::trap::interrupts::{
    describe_exception, device_interrupt, interrupt_kind, kernel_trap, next_deadline, user_trap,
    user_trap_ret, InterruptKind, Next,
};
use river::kernel::trap::signals::{
    sys_intr_handler_ack, sys_intr_handler_bind, sys_intr_handler_unbind, sys_intr_pool_get,
    sys_job_create_thread, sys_notification_poll, sys_notification_signal, sys_notification_wait,
    sys_notification_wait_finish, sys_thread_set_priority, sys_yield,
};
use river::kernel::trap::syscalls::{
    sys_debug_cap_identify, sys_debug_cap_slot, sys_debug_dump_root, sys_debug_print, sys_delete,
    sys_endpoint_create, sys_grant, sys_job_create, sys_notification_create, sys_page_create,
    sys_pgtbl_create,
};
use river::kernel::trap::thread_calls::{
    sys_page_map, sys_thread_configure, sys_thread_resume, sys_thread_set_ipc_buffer,
    sys_thread_start, sys_thread_suspend, sys_thread_write_registers,
};

const INIT: usize = 2;
const FDT: [u8; 3] = [7, 8, 9];

fn boot() -> Booted {
    boot_on(&[0, 1], 0, 0x8000)
}

/// Bring the kernel up on the given harts, with some frames of memory.
fn boot_on(ids: &[u64], boot: u64, frames: u64) -> Booted {
    let mut mem = PhysicalMemory::new(0x80600, frames);
    let pgtbl = PageTable::new(&mut mem);
    let harts: Vec<HartInfo> = ids
        .iter()
        .map(|id| HartInfo { id: *id, timebase_frequency: 10_000_000 })
        .collect();
    let machine = Machine {
        layout: AddressLayout {
            physical_offset: ACTUAL_PHYSICAL_OFFSET,
            kernel_start: 0x8020_0000,
            kernel_end: 0x8060_0000,
        },
        code: CodeAddresses { user_trap_ret: 0xFFFF_FFD0_0000_1000, trampoline: 0x8030_0000 },
        harts: &harts,
        boot,
        satp: RawSatp::new_unchecked(0x8000_0000_0008_0600),
        fdt_ptr: VirtualConst::from_usize_unchecked(0xFFFF_FFC0_8800_0000),
        fdt: &FDT,
        uart: 0x1000_0000,
    };
    bring_up(mem, pgtbl, &machine, &[1, 2, 3, 4])
}

fn kernel() -> Kernel {
    boot().kernel
}

#[test]
fn harts_are_known_by_their_numbers() {
    // A single hart that is not the first.
    let mut b = boot_on(&[1], 1, 0x8000);
    assert_eq!((b.init, b.starts.len(), b.kernel.hart), (1, 0, 1));
    assert_eq!(b.kernel.sched.per_hart[&1].idle_thread, 0);
    assert_eq!(b.kernel.threads[0].tid, 2);
    assert!(matches!(Scheduler::next_thread(&mut b.kernel), Decision::Run(1)));
    // Harts with a gap between their numbers: the boot hart comes first.
    let b = boot_on(&[0, 2], 2, 0x8000);
    assert_eq!((b.init, b.starts.len(), b.starts[0].id), (2, 1, 0));
    assert_eq!(b.kernel.sched.per_hart.len(), 2);
    assert_eq!(b.kernel.sched.per_hart[&2].idle_thread, 0);
    assert_eq!(b.kernel.sched.per_hart[&0].idle_thread, 1);
    assert_eq!((b.kernel.threads[0].tid, b.kernel.threads[1].tid), (2, 3));
    assert_eq!(b.kernel.sched.harts, 2);
    assert_eq!(b.kernel.next_tid, 4);
}

#[test]
fn the_memory_that_is_needed_suffices() {
    // One frame is the root of the page table of the kernel, and two are tables on
    // the way to the trampoline. A stack is 1024 frames, an idle thread 137. The
    // initial process has 1025 pages, for which 2048 frames are taken, one page for
    // the device tree and one for what it is told; 130 frames go to its thread, and
    // nine to tables.
    let b = boot_on(&[0, 1], 0, 1 + 2 + 1024 + 2 * 137 + 2048 + 1 + 1 + 130 + 9);
    assert_eq!(b.kernel.mem.num_free_pages(), 0);
}

fn at(va: u64) -> VirtualConst<u8, river::addr::mappings::Identity> {
    VirtualConst::from_usize_unchecked(va)
}

/// Where an address of a thread leads, and with which flags.
fn walk(k: &Kernel, t: usize, va: u64) -> Option<(u64, u8)> {
    let table = k.threads[t].private.root_pgtbl.unwrap();
    table.walk(&k.mem, at(va)).map(|(p, f)| (p.into_usize(), f.bits))
}

/// Write bytes to the memory of the initial process.
fn poke(k: &mut Kernel, va: u64, bytes: &[u8]) {
    let (pa, _) = walk(k, INIT, va).unwrap();
    k.mem.write_bytes(pa, bytes);
}

/// Make a thread in the job of the initial process that can run in its address
/// space: its captr and its number.
fn helper(k: &mut Kernel) -> (u64, usize) {
    poke(k, 0x1000_0000, b"helper");
    let captr = sys_job_create_thread(k, INIT, 1, at(0x1000_0000), 6).unwrap();
    let t = k.threads.len() - 1;
    assert_eq!(sys_thread_suspend(k, INIT, captr), Ok(()));
    assert_eq!(sys_thread_configure(k, INIT, captr, 2, 0), Ok(()));
    (captr, t)
}

/// Let the scheduler of this hart go on until it runs a thread.
fn run(k: &mut Kernel, t: usize) {
    for _ in 0..8 {
        if matches!(Scheduler::next_thread(k), Decision::Run(r) if r == t) {
            return;
        }
    }
    unreachable!();
}

/// A helper that runs.
fn running_helper(k: &mut Kernel) -> usize {
    run(k, INIT);
    let (captr, t) = helper(k);
    assert_eq!(sys_thread_resume(k, INIT, captr), Ok(()));
    run(k, t);
    t
}

#[test]
fn the_machine_comes_up() {
    let booted = boot();
    let k = &booted.kernel;
    assert_eq!(booted.init, INIT);
    assert_eq!(booted.timebase_frequency, 10_000_000);
    assert_eq!(booted.timer_interval, 1_000_000);
    assert_eq!(booted.starts.len(), 1);
    assert_eq!(booted.starts[0].id, 1);
    assert_eq!(booted.starts[0].data.sp_phys.into_usize() % 0x1000, 0);
    assert_eq!(k.threads.len(), 3);
    assert_eq!(k.names[0], "<kernel:idle>");
    assert_eq!(k.names[INIT], "user_mode_woo");
    assert_eq!((k.threads[0].tid, k.threads[1].tid, k.threads[INIT].tid), (2, 3, 1));
    assert_eq!(k.next_tid, 4);
    assert_eq!(k.threads[0].private.prio.base_prio, -1);
    assert_eq!(k.threads[0].trapframe.frame.user_epc, 0x1000_0000);
    assert_eq!(k.threads[INIT].trapframe.frame.user_epc, 0x1040_0000);
    assert_eq!(k.threads[INIT].trapframe.frame.sp, 0x1040_0000);
    assert_eq!(k.threads[INIT].trapframe.frame.a0, 0x2000_0000);
    assert!(k.threads[INIT].private.state == ThreadState::Runnable);
}

#[test]
fn idle_threads_wait_for_interrupts() {
    let k = kernel();
    for h in 0..2 {
        let (code, flags) = walk(&k, h, 0x1000_0000).unwrap();
        assert_eq!(flags, IDLE_FLAGS);
        assert_eq!(k.mem.read_word(code), 0xffdf_f06f_0100_000f);
        assert_eq!(walk(&k, h, 0xFFFF_FFFF_FFFF_F000), Some((0x8030_0000, TRAMPOLINE_FLAGS)));
        let frame = k.threads[h].trapframe.inner * 4096;
        assert_eq!(walk(&k, h, 0xFFFF_FFC0_0000_0000), Some((frame, TRAPFRAME_FLAGS)));
        assert_eq!(walk(&k, h, 0x1000_1000), None);
    }
}

#[test]
fn the_initial_process_is_told_the_truth() {
    let k = kernel();
    let (info, _) = walk(&k, INIT, 0x2000_0000).unwrap();
    let words: Vec<u64> = (0..10).map(|i| k.mem.read_word(info + 8 * i)).collect();
    assert_eq!(words, vec![16, 7, 1032, 1032, 1033, 1033, 1034, 1034, 65536, 0x2000_1000]);
    let (image, flags) = walk(&k, INIT, 0x1040_0000).unwrap();
    assert_eq!(flags, INIT_FLAGS);
    assert_eq!(k.mem.read_word(image), 0x0403_0201);
    let (fdt, _) = walk(&k, INIT, 0x2000_1000).unwrap();
    assert_eq!(k.mem.read_word(fdt), 0x09_0807);
    let types: Vec<CapabilityType> =
        (1..8).map(|i| sys_debug_cap_identify(&k, INIT, i).unwrap()).collect();
    assert_eq!(
        types,
        vec![
            CapabilityType::Job,
            CapabilityType::PgTbl,
            CapabilityType::Thread,
            CapabilityType::Empty,
            CapabilityType::Page,
            CapabilityType::InterruptPool,
            CapabilityType::Page,
        ]
    );
    let slot = sys_debug_cap_slot(&k, INIT, 1033).unwrap();
    assert!(slot.cap.page().unwrap().is_device);
    assert_eq!(slot.cap.page().unwrap().phys, 0x1000_0000);
    assert_eq!(sys_debug_cap_identify(&k, INIT, 1034), Ok(CapabilityType::Empty));
}

#[test]
fn the_scheduler_runs_the_initial_thread_first() {
    let mut k = kernel();
    let t = Scheduler::next_thread(&mut k);
    assert!(matches!(t, Decision::Run(INIT)));
    assert!(k.threads[INIT].private.state == ThreadState::Running);
    assert_eq!(k.threads[INIT].private.hartid, 0);
    assert!(!k.sched.is_idle(0));
}

#[test]
fn a_hart_without_work_idles() {
    let mut k = kernel();
    k.hart = 1;
    assert!(matches!(Scheduler::next_thread(&mut k), Decision::Run(1)));
    assert!(k.sched.is_idle(1));
}

#[test]
fn a_preempted_thread_runs_again() {
    let mut k = kernel();
    Scheduler::next_thread(&mut k);
    let r = user_trap(&mut k, INIT, 0, 0x8000_0000_0000_0005, 0x1040_0010, 0);
    assert!(matches!(r.next, Next::Yield));
    assert_eq!(k.threads[INIT].trapframe.frame.user_epc, 0x1040_0010);
    assert!(matches!(Scheduler::next_thread(&mut k), Decision::Run(INIT)));
}

#[test]
fn granted_capabilities_have_fewer_rights() {
    let mut k = kernel();
    let copy = sys_grant(&mut k, INIT, 7, CapRights { bits: CapRights::READ }, 5).unwrap();
    assert_eq!(copy, 4);
    let slot = sys_debug_cap_slot(&k, INIT, copy).unwrap();
    assert!(slot.cap == k.jobs[0].captbl.slots[7].cap);
    assert_eq!(slot.rights.bits, CapRights::READ);
    assert_eq!(slot.badge, Some(5));
    assert_eq!(sys_delete(&mut k, INIT, copy), Ok(()));
    assert_eq!(sys_debug_cap_identify(&k, INIT, copy), Ok(CapabilityType::Empty));
    assert_eq!(sys_grant(&mut k, INIT, 0, CapRights::all(), 0), Err(CapError::NotPresent));
    assert_eq!(sys_grant(&mut k, INIT, 0x1_0000, CapRights::all(), 0), Err(CapError::NotPresent));
    assert_eq!(sys_delete(&mut k, INIT, 0x1_0000), Err(CapError::NotPresent));
}

#[test]
fn references_to_threads_are_counted() {
    let mut k = kernel();
    let before = k.threads[INIT].slot_refcount;
    let copy = sys_grant(&mut k, INIT, 3, CapRights::all(), 0).unwrap();
    assert_eq!(k.threads[INIT].slot_refcount, before + 1);
    assert_eq!(sys_delete(&mut k, INIT, copy), Ok(()));
    assert_eq!(k.threads[INIT].slot_refcount, before);
}

#[test]
fn a_signal_is_polled_once() {
    let mut k = kernel();
    let n = sys_notification_create(&mut k, INIT).unwrap();
    let a = sys_grant(&mut k, INIT, n, CapRights::all(), 0b101).unwrap();
    let b = sys_grant(&mut k, INIT, n, CapRights::all(), 0b010).unwrap();
    assert_eq!(sys_notification_poll(&mut k, INIT, n), Ok(0));
    assert_eq!(sys_notification_signal(&mut k, INIT, a), Ok(None));
    assert_eq!(sys_notification_signal(&mut k, INIT, b), Ok(None));
    assert_eq!(sys_notification_poll(&mut k, INIT, n), Ok(0b111));
    assert_eq!(sys_notification_poll(&mut k, INIT, n), Ok(0));
    assert_eq!(sys_notification_poll(&mut k, INIT, 3), Err(CapError::InvalidType));
}

#[test]
fn a_waiting_thread_is_woken() {
    let mut k = kernel();
    let n = sys_notification_create(&mut k, INIT).unwrap();
    let badged = sys_grant(&mut k, INIT, n, CapRights::all(), 9).unwrap();
    let t = running_helper(&mut k);
    let r = sys_notification_wait(&mut k, t, n);
    let number = match r {
        Outcome::Blocked(Pending::Notification(number)) => number,
        _ => unreachable!(),
    };
    assert!(k.threads[t].private.state == ThreadState::Blocking);
    assert!(sys_notification_signal(&mut k, INIT, badged).is_ok());
    assert!(k.threads[t].private.state == ThreadState::Runnable);
    assert_eq!(sys_notification_wait_finish(&mut k, number), 9);
    assert!(matches!(sys_notification_wait(&mut k, t, 3), Outcome::Done(Err(CapError::InvalidType))));
}

#[test]
fn a_signal_wakes_one_waiting_thread() {
    let mut k = kernel();
    let n = sys_notification_create(&mut k, INIT).unwrap();
    let badged = sys_grant(&mut k, INIT, n, CapRights::all(), 9).unwrap();
    run(&mut k, INIT);
    let (a, first) = helper(&mut k);
    let (b, second) = helper(&mut k);
    assert_eq!(sys_thread_resume(&mut k, INIT, a), Ok(()));
    assert_eq!(sys_thread_resume(&mut k, INIT, b), Ok(()));
    run(&mut k, first);
    assert!(matches!(sys_notification_wait(&mut k, first, n), Outcome::Blocked(_)));
    run(&mut k, second);
    assert!(matches!(sys_notification_wait(&mut k, second, n), Outcome::Blocked(_)));
    assert!(sys_notification_signal(&mut k, INIT, badged).is_ok());
    assert!(k.threads[first].private.state == ThreadState::Runnable);
    assert!(k.threads[second].private.state == ThreadState::Blocking);
    // Without a badge, a signal only wakes.
    assert!(sys_notification_signal(&mut k, INIT, n).is_ok());
    assert!(k.threads[second].private.state == ThreadState::Runnable);
    assert_eq!(sys_notification_poll(&mut k, INIT, n), Ok(9));
}

#[test]
fn long_messages_go_through_buffers() {
    let mut k = kernel();
    let e = sys_endpoint_create(&mut k, INIT).unwrap();
    run(&mut k, INIT);
    let (captr, t) = helper(&mut k);
    for thread in [3, captr] {
        let page = sys_page_create(&mut k, INIT, 12).unwrap();
        assert_eq!(sys_thread_set_ipc_buffer(&mut k, INIT, thread, page), Ok(()));
    }
    assert_eq!(sys_thread_resume(&mut k, INIT, captr), Ok(()));
    run(&mut k, t);
    k.threads[t].trapframe.frame.a1 = e;
    assert!(matches!(sys_endpoint_recv(&mut k, t, e, 0, 0), Outcome::Blocked(_)));
    let from = k.threads[INIT].private.ipc_buffer.unwrap().phys / 4096;
    let to = k.threads[t].private.ipc_buffer.unwrap().phys / 4096;
    for i in 0..6 {
        k.mem.write(from, i, 100 + i);
    }
    let hdr = MessageHeader::new().with_length(5);
    assert!(matches!(sys_endpoint_send(&mut k, INIT, e, hdr, 0), Outcome::Done(Ok(()))));
    for i in 0..5 {
        assert_eq!(k.mem.read(to, i), 100 + i);
    }
    assert_eq!(k.mem.read(to, 5), 0);
}

#[test]
fn a_message_reaches_a_waiting_receiver() {
    let mut k = kernel();
    let e = sys_endpoint_create(&mut k, INIT).unwrap();
    let badged = sys_grant(&mut k, INIT, e, CapRights::all(), 77).unwrap();
    let t = running_helper(&mut k);
    k.threads[t].trapframe.frame.a1 = e;
    let (ep, info) = match sys_endpoint_recv(&mut k, t, e, 0, 0) {
        Outcome::Blocked(Pending::Recv(ep, info)) => (ep, info),
        _ => unreachable!(),
    };
    k.threads[INIT].trapframe.frame.a4 = 0xAAAA;
    k.threads[INIT].trapframe.frame.a5 = 0xBBBB;
    let hdr = MessageHeader::new().with_length(2).with_private(3);
    assert!(matches!(sys_endpoint_send(&mut k, INIT, badged, hdr, 0), Outcome::Done(Ok(()))));
    assert!(k.threads[t].private.state == ThreadState::Runnable);
    assert_eq!(sys_endpoint_recv_finish(&mut k, t, ep, info), hdr);
    assert_eq!(k.threads[t].trapframe.frame.a4, 0xAAAA);
    assert_eq!(k.threads[t].trapframe.frame.a5, 0xBBBB);
    assert_eq!(k.threads[t].trapframe.frame.a6, 0);
}

#[test]
fn a_receiver_takes_a_waiting_message() {
    let mut k = kernel();
    let e = sys_endpoint_create(&mut k, INIT).unwrap();
    let badged = sys_grant(&mut k, INIT, e, CapRights::all(), 77).unwrap();
    let t = running_helper(&mut k);
    let hdr = MessageHeader::new().with_length(1).with_private(6);
    k.threads[t].trapframe.frame.a1 = badged;
    k.threads[t].trapframe.frame.a2 = hdr.into_raw();
    k.threads[t].trapframe.frame.a4 = 0x1234;
    let ep = match sys_endpoint_send(&mut k, t, badged, hdr, 0) {
        Outcome::Blocked(Pending::Send(ep)) => ep,
        _ => unreachable!(),
    };
    let (page, _) = walk(&k, INIT, 0x1000_0100).unwrap();
    match sys_endpoint_recv(&mut k, INIT, e, 0x1000_0100, 0) {
        Outcome::Done(Ok(got)) => assert_eq!(got, hdr),
        _ => unreachable!(),
    }
    assert_eq!(k.mem.read_word(page), 77);
    assert_eq!(k.threads[INIT].trapframe.frame.a4, 0x1234);
    assert!(k.threads[t].private.state == ThreadState::Runnable);
    sys_endpoint_send_resume(&mut k, t, ep);
    assert!(!k.threads[t].private.recv_fastpath);
}

#[test]
fn a_capability_is_sent_along() {
    let mut k = kernel();
    let e = sys_endpoint_create(&mut k, INIT).unwrap();
    let t = running_helper(&mut k);
    let n = sys_notification_create(&mut k, INIT).unwrap();
    poke(&mut k, 0x1000_0200, &n.to_le_bytes());
    k.threads[INIT].trapframe.frame.a3 = 0x1000_0200;
    k.threads[t].trapframe.frame.a3 = 0x1000_0208;
    assert!(matches!(sys_endpoint_recv(&mut k, t, e, 0, 0x1000_0208), Outcome::Blocked(_)));
    let hdr = MessageHeader::new();
    assert!(matches!(
        sys_endpoint_send(&mut k, INIT, e, hdr, 0x1000_0200),
        Outcome::Done(Ok(()))
    ));
    let (pa, _) = walk(&k, INIT, 0x1000_0208).unwrap();
    let got = k.mem.read_word(pa);
    assert_ne!(got, n);
    assert_eq!(sys_debug_cap_identify(&k, t, got), Ok(CapabilityType::Notification));
}

#[test]
fn a_reply_needs_a_call() {
    let mut k = kernel();
    let e = sys_endpoint_create(&mut k, INIT).unwrap();
    let hdr = MessageHeader::new();
    assert!(matches!(
        sys_endpoint_reply(&mut k, INIT, e, hdr, 0),
        Outcome::Done(Err(CapError::InvalidOperation))
    ));
    assert!(matches!(
        sys_endpoint_reply(&mut k, INIT, 1, hdr, 0),
        Outcome::Done(Err(CapError::InvalidType))
    ));
}

#[test]
fn a_call_is_answered() {
    let mut k = kernel();
    let e = sys_endpoint_create(&mut k, INIT).unwrap();
    let t = running_helper(&mut k);
    assert!(matches!(sys_endpoint_recv(&mut k, t, e, 0, 0), Outcome::Blocked(_)));
    k.threads[INIT].trapframe.frame.a4 = 5;
    let asked = sys_endpoint_call(&mut k, INIT, e, MessageHeader::new(), 0);
    let (ep, reply) = match asked {
        Outcome::Blocked(Pending::CallRecv(ep, reply)) => (ep, reply),
        _ => unreachable!(),
    };
    assert_eq!(k.threads[t].trapframe.frame.a4, 5);
    k.threads[t].trapframe.frame.a4 = 6;
    let hdr = MessageHeader::new().with_private(2);
    assert!(matches!(sys_endpoint_reply(&mut k, t, e, hdr, 0), Outcome::Done(Ok(()))));
    let done = resume(&mut k, INIT, Pending::CallRecv(ep, reply));
    assert!(done.pending.is_none());
    assert_eq!(k.threads[INIT].trapframe.frame.a0, 0);
    assert_eq!(k.threads[INIT].trapframe.frame.a1, hdr.into_raw());
    assert_eq!(k.threads[INIT].trapframe.frame.a4, 6);
}

#[test]
fn interrupts_reach_their_notification() {
    let mut k = kernel();
    let n = sys_notification_create(&mut k, INIT).unwrap();
    let badged = sys_grant(&mut k, INIT, n, CapRights::all(), 0x10).unwrap();
    let (h, enable) = sys_intr_pool_get(&mut k, INIT, 6, 10);
    let h = h.unwrap();
    assert_eq!(enable, Some(10));
    assert_eq!(sys_intr_pool_get(&mut k, INIT, 6, 10).0, Err(CapError::InvalidOperation));
    assert_eq!(sys_intr_handler_ack(&k, INIT, h), Ok(10));
    assert_eq!(sys_intr_handler_bind(&mut k, INIT, h, badged), Ok(()));
    let r = device_interrupt(&mut k, 0, 0x8000_0000_0000_0009, 10);
    assert_eq!(r.kind, InterruptKind::External);
    assert!(r.complete);
    assert_eq!(sys_notification_poll(&mut k, INIT, n), Ok(0x10));
    assert_eq!(sys_intr_handler_unbind(&mut k, INIT, h), Ok(()));
    device_interrupt(&mut k, 0, 0x8000_0000_0000_0009, 10);
    assert_eq!(sys_notification_poll(&mut k, INIT, n), Ok(0));
    assert_eq!(sys_intr_handler_ack(&k, INIT, 1), Err(CapError::InvalidType));
    let r = device_interrupt(&mut k, 0, 0x8000_0000_0000_0009, 0);
    assert_eq!(r.kind, InterruptKind::Unknown);
}

#[test]
fn pages_are_mapped() {
    let mut k = kernel();
    let page = sys_page_create(&mut k, INIT, 12).unwrap();
    let phys = sys_debug_cap_slot(&k, INIT, page).unwrap().cap.page().unwrap().phys;
    let rw = UserFlags { bits: UserFlags::RW };
    assert_eq!(sys_page_map(&mut k, INIT, page, 2, at(0x3000_0000), rw), Ok(()));
    assert_eq!(walk(&k, INIT, 0x3000_0123), Some((phys + 0x123, 193 | 16 | 6)));
    assert_eq!(
        sys_page_map(&mut k, INIT, page, 2, at(0x3000_0800), rw),
        Err(CapError::InvalidSize)
    );
    assert_eq!(
        sys_page_map(&mut k, INIT, page, 2, at(0x40_0000_0000), rw),
        Err(CapError::InvalidOperation)
    );
    assert_eq!(
        sys_page_map(&mut k, INIT, page, page, at(0x3000_0000), rw),
        Err(CapError::InvalidOperation)
    );
    assert_eq!(
        sys_page_map(&mut k, INIT, 1, 2, at(0x3000_0000), rw),
        Err(CapError::InvalidType)
    );
    assert_eq!(sys_page_create(&mut k, INIT, 13), Err(CapError::InvalidSize));
    let table = sys_pgtbl_create(&mut k, INIT).unwrap();
    assert_eq!(sys_debug_cap_identify(&k, INIT, table), Ok(CapabilityType::PgTbl));
    let big = sys_page_create(&mut k, INIT, 21).unwrap();
    let big = sys_debug_cap_slot(&k, INIT, big).unwrap().cap.page().unwrap();
    assert_eq!(big.size_log2, 21);
    assert_eq!(big.phys % 0x20_0000, 0);
}

#[test]
fn mapping_respects_rights() {
    let mut k = kernel();
    let page = sys_page_create(&mut k, INIT, 12).unwrap();
    let read = sys_grant(&mut k, INIT, page, CapRights { bits: CapRights::READ }, 0).unwrap();
    let all = UserFlags { bits: UserFlags::RWX };
    assert_eq!(sys_page_map(&mut k, INIT, read, 2, at(0x3000_0000), all), Ok(()));
    let (_, flags) = walk(&k, INIT, 0x3000_0000).unwrap();
    assert_eq!(flags, 193 | 16 | 2);
}

#[test]
fn threads_are_started() {
    let mut k = kernel();
    poke(&mut k, 0x1000_0000, b"worker");
    let captr = sys_job_create_thread(&mut k, INIT, 1, at(0x1000_0000), 6).unwrap();
    let t = k.threads.len() - 1;
    assert_eq!(k.names[t], "worker");
    assert_eq!(k.threads[t].tid, 4);
    assert_eq!(
        sys_thread_start(&mut k, INIT, captr, 0x1000, 0x2000, 3, 9),
        Err(CapError::InvalidOperation)
    );
    assert_eq!(sys_thread_suspend(&mut k, INIT, captr), Ok(()));
    assert_eq!(sys_thread_resume(&mut k, INIT, captr), Err(CapError::InvalidOperation));
    assert_eq!(sys_thread_configure(&mut k, INIT, captr, 2, 0), Ok(()));
    assert_eq!(sys_thread_start(&mut k, INIT, captr, 0x1000, 0x2000, 3, 9), Ok(()));
    let frame = k.threads[t].trapframe.frame;
    assert_eq!((frame.user_epc, frame.sp, frame.a1), (0x1000, 0x2000, 9));
    assert_eq!(sys_debug_cap_identify(&k, t, frame.a0), Ok(CapabilityType::Thread));
    assert!(k.threads[t].private.state == ThreadState::Runnable);
    assert_eq!(sys_thread_configure(&mut k, INIT, captr, 2, 0), Err(CapError::InvalidOperation));
    assert_eq!(sys_thread_suspend(&mut k, INIT, 1), Err(CapError::InvalidType));
    assert_eq!(sys_thread_suspend(&mut k, INIT, 0), Err(CapError::NotPresent));
}

#[test]
fn names_are_text() {
    let mut k = kernel();
    poke(&mut k, 0x1000_0000, &[0xC3, 0xA4, 0x62, 0xFF]);
    assert!(sys_job_create_thread(&mut k, INIT, 1, at(0x1000_0000), 3).is_ok());
    assert_eq!(k.names[k.names.len() - 1], "\u{e4}b");
    let n = k.threads.len();
    assert!(sys_job_create_thread(&mut k, INIT, 1, at(0x1000_0000), 4).is_err());
    assert!(sys_job_create_thread(&mut k, INIT, 2, at(0x1000_0000), 3).is_err());
    assert_eq!(k.threads.len(), n);
}

#[test]
fn text_is_printed() {
    let mut k = kernel();
    poke(&mut k, 0x1000_0000, b"hello");
    assert_eq!(sys_debug_print(&k, INIT, at(0x1000_0000), 5), "hello");
}

#[test]
fn registers_are_written() {
    let mut k = kernel();
    let (captr, t) = helper(&mut k);
    let mut bytes: Vec<u8> = Vec::new();
    for i in 1..33u64 {
        bytes.extend_from_slice(&i.to_le_bytes());
    }
    poke(&mut k, 0x1000_0000, &bytes);
    assert_eq!(sys_thread_write_registers(&mut k, INIT, captr, 0x1000_0000), Ok(()));
    let frame = k.threads[t].trapframe.frame;
    assert_eq!((frame.ra, frame.sp, frame.a0, frame.t6, frame.user_epc), (1, 2, 10, 31, 32));
}

#[test]
fn ipc_buffers_are_set() {
    let mut k = kernel();
    let (captr, t) = helper(&mut k);
    let page = sys_page_create(&mut k, INIT, 12).unwrap();
    assert_eq!(sys_thread_set_ipc_buffer(&mut k, INIT, captr, page), Ok(()));
    assert!(k.threads[t].private.ipc_buffer.is_some());
    let big = sys_page_create(&mut k, INIT, 21).unwrap();
    assert!(sys_thread_set_ipc_buffer(&mut k, INIT, captr, big).is_err());
}

#[test]
fn priorities_are_set() {
    let mut k = kernel();
    run(&mut k, INIT);
    assert_eq!(sys_thread_set_priority(&mut k, INIT, 3, 12), Ok(()));
    assert_eq!(k.threads[INIT].private.prio.base_prio, 12);
    assert_eq!(
        sys_thread_set_priority(&mut k, INIT, 3, 32),
        Err(CapError::InvalidOperation)
    );
    assert_eq!(sys_thread_set_priority(&mut k, INIT, 1, 3), Err(CapError::InvalidType));
}

#[test]
fn jobs_nest_up_to_a_depth() {
    let mut k = kernel();
    let mut parent: Option<usize> = Some(0);
    for depth in 2..33 {
        let j = Job::new(&mut k, parent).unwrap();
        assert_eq!(k.jobs[j].depth, depth);
        parent = Some(j);
    }
    assert!(Job::new(&mut k, parent).is_none());
    let captr = sys_job_create(&mut k, INIT, 1).unwrap();
    assert_eq!(sys_debug_cap_identify(&k, INIT, captr), Ok(CapabilityType::Job));
    assert_eq!(sys_job_create(&mut k, INIT, 2), Err(CapError::InvalidType));
}

#[test]
fn system_calls_are_dispatched() {
    let mut k = kernel();
    k.threads[INIT].trapframe.frame.a0 = 11;
    let h = syscall(&mut k, INIT);
    assert!(h.pending.is_none());
    let frame = k.threads[INIT].trapframe.frame;
    assert_eq!((frame.a0, frame.a1), (0, 4));
    k.threads[INIT].trapframe.frame.a0 = 14;
    k.threads[INIT].trapframe.frame.a1 = 2;
    syscall(&mut k, INIT);
    assert_eq!(k.threads[INIT].trapframe.frame.a0, u64::from(CapError::InvalidType));
    k.threads[INIT].trapframe.frame.a0 = 0xFFFF_0001;
    assert!(matches!(syscall(&mut k, INIT).also, Also::Usage(_)));
    k.threads[INIT].trapframe.frame.a0 = 500;
    syscall(&mut k, INIT);
    assert_eq!(k.threads[INIT].trapframe.frame.a0, u64::from(CapError::InvalidOperation));
}

#[test]
fn yielding_goes_behind_the_others() {
    let mut k = kernel();
    let t = running_helper(&mut k);
    let level = k.threads[t].private.prio.effective() as usize;
    let r = sys_yield(&mut k, t);
    assert!(matches!(r, Outcome::Blocked(Pending::Yield)));
    assert_eq!(k.threads[t].private.prio.effective() as usize, level);
    assert_eq!(k.sched.per_hart[&0].queues[level], vec![INIT, t]);
}

#[test]
fn a_system_call_resumes_behind_it() {
    let mut k = kernel();
    Scheduler::next_thread(&mut k);
    k.threads[INIT].trapframe.frame.a0 = 11;
    let r = user_trap(&mut k, INIT, 0, 8, 0x1040_0020, 0);
    assert!(r.handled.is_some());
    assert_eq!(k.threads[INIT].trapframe.frame.user_epc, 0x1040_0024);
}

#[test]
fn traps_are_told_apart() {
    assert_eq!(interrupt_kind(0x8000_0000_0000_0001), InterruptKind::Software);
    assert_eq!(interrupt_kind(0x8000_0000_0000_0005), InterruptKind::Timer);
    assert_eq!(interrupt_kind(0x8000_0000_0000_0009), InterruptKind::External);
    assert_eq!(interrupt_kind(0x8000_0000_0000_0002), InterruptKind::Unknown);
    assert_eq!(describe_exception(8), "U-mode envcall");
    assert_eq!(next_deadline(100, 50), 150);
    let mut k = kernel();
    let (next, interrupted) = kernel_trap(&mut k, 0, 0x8000_0000_0000_0005, 0, None);
    assert!(matches!(next, Next::Return));
    assert_eq!(interrupted.kind, InterruptKind::Timer);
    assert!(!interrupted.complete);
}

#[test]
fn another_hart_takes_the_hart_from_a_running_thread() {
    let mut k = kernel();
    Scheduler::next_thread(&mut k);
    assert_eq!(k.threads[INIT].private.state, ThreadState::Running);
    let (next, interrupted) = kernel_trap(&mut k, 0, 0x8000_0000_0000_0001, 0, Some(INIT));
    assert!(matches!(next, Next::Yield));
    assert_eq!(interrupted.ipi, None);
    assert_eq!(k.threads[INIT].private.state, ThreadState::Runnable);
}

#[test]
fn the_way_back_to_userspace() {
    let mut k = kernel();
    let r = user_trap_ret(&mut k, INIT, 0x8000_0000_0008_0600, 0xFFFF_FFD0_0000_2000, 0x77);
    assert_eq!(k.current_asid.get(&0), Some(&k.threads[INIT].private.asid));
    assert_eq!(r.sepc, 0x1040_0000);
    let root = k.threads[INIT].private.root_pgtbl.unwrap().root;
    assert_eq!(r.satp & 0xFFF_FFFF_FFFF, root);
    assert_eq!(r.satp >> 60, 8);
    assert_eq!(r.sscratch, 0xFFFF_FFC0_0000_0000);
    let frame = k.threads[INIT].trapframe.frame;
    assert_eq!(frame.kernel_satp, 0x8000_0000_0008_0600);
}

#[test]
fn memory_is_accounted_for() {
    let mut mem = PhysicalMemory::new(0x80000, 1024);
    mem.allocate_run(512);
    let u = memory_usage(&mem);
    assert_eq!((u.used, u.total, u.free), (2, 4, 2));
    let d = sys_debug_dump_root(1, 3);
    assert_eq!((d.used, d.total, d.free), (8192, 12288, 4096));
    assert!(CapabilityKind::default() == CapabilityKind::Empty);
}

#[test]
fn a_thread_gives_up_its_context_at_the_end() {
    let mut k = kernel();
    let before = k.threads[INIT].context;
    let c = Thread::yield_to_scheduler_final(&mut k, INIT);
    assert_eq!((c.ra, c.sp), (before.ra, before.sp));
}
