use river::kernel::boot::harts::HartInfo;
use river::kernel::boot::kmain::ready_hart;
use river::kernel::hart_local::{enabled, local_size, HartCtx};
use river::kernel::plic::Plic;
use river::kernel::registers::{hartid, ControlRegisters, Hart, InterruptDisabler};
use river::kernel::sync::arc_like::ArcLike;
use river::kernel::capability::captbl::CaptblHeader;
use river::kernel::sync::spin::mutex::{attempt, Attempt, SpinMutex};
use river::kernel::sync::spin::rwlock::{attempt_read, attempt_write, SpinRwLock, WRITER};
use river::kernel::trampoline::{ret_user, trampoline};

fn hart(id: u64) -> Hart {
    let mut ctx = HartCtx::new();
    ctx.hartid = id;
    Hart {
        csr: ControlRegisters { sstatus: 2, sie: 0, sip: 0x22, satp: 0, tp: 0xFFFF_FFD0_0000_0000 },
        ctx,
    }
}

#[test]
fn register_bits() {
    let mut csr = hart(0).csr;
    assert!(csr.intr_enabled());
    assert!(csr.intr_off());
    assert!(!csr.intr_enabled());
    assert!(!csr.intr_off());
    assert!(!csr.intr_on());
    csr.set_spie();
    csr.set_spp();
    assert_eq!(csr.sstatus, 0x122);
    csr.clear_spp();
    csr.clear_spie();
    assert_eq!(csr.sstatus, 2);
    csr.software_intr_on();
    csr.timer_intr_on();
    csr.external_intr_on();
    assert_eq!(csr.sie, 0x222);
    csr.timer_intr_off();
    assert_eq!(csr.sie, 0x202);
    csr.timer_intr_clear();
    csr.software_intr_clear();
    assert_eq!(csr.sip, 0);
    assert_eq!(csr.set_tp(7), 0xFFFF_FFD0_0000_0000);
    assert_eq!(csr.tp, 7);
}

#[test]
fn disablers_nest_and_restore() {
    let mut h = hart(1);
    let a = InterruptDisabler::new(&mut h);
    let b = InterruptDisabler::new(&mut h);
    assert!(!h.csr.intr_enabled());
    b.release(&mut h);
    assert!(!h.csr.intr_enabled());
    a.release(&mut h);
    assert!(h.csr.intr_enabled());
    assert_eq!(h.ctx.holding_disabler, 0);
}

#[test]
fn the_number_of_a_hart() {
    let h = hart(3);
    assert_eq!(hartid(&h.csr, &h.ctx), 3);
    let mut early = hart(3);
    early.csr.tp = 5;
    assert_eq!(hartid(&early.csr, &early.ctx), 5);
    assert!(enabled(0xFFFF_FFD0_0000_0000));
    assert!(!enabled(5));
    assert_eq!(local_size(0x1000, 0x1010, 0x1010, 0x1030), 0x30);
}

#[test]
fn a_mutex_is_held_by_one_hart() {
    let mut word: u64 = 0;
    assert_eq!(attempt(&mut word, 1), Attempt::Taken);
    assert_eq!(word, 2);
    assert_eq!(attempt(&mut word, 0), Attempt::Held);
    assert_eq!(attempt(&mut word, 1), Attempt::Deadlock);
    let mut h = hart(0);
    let mut m = SpinMutex::new(5);
    let mut g = m.try_lock(&mut h).unwrap();
    assert_eq!(*g.get(), 5);
    assert_eq!(g.replace(6), 5);
    g.release(&mut h);
    assert_eq!((m.data, m.locked), (6, 0));
    assert!(h.csr.intr_enabled());
    m.locked = 9;
    assert!(m.try_lock(&mut h).is_none());
    m.force_unlock();
    assert_eq!(m.locked, 0);
}

#[test]
fn a_writer_is_alone() {
    let mut word: u64 = 0;
    assert_eq!(attempt_read(&mut word, 0), Attempt::Taken);
    assert_eq!(attempt_read(&mut word, 1), Attempt::Taken);
    assert_eq!(word, 2);
    assert_eq!(attempt_write(&mut word, 1, 1), Attempt::Held);
    word = 0;
    assert_eq!(attempt_write(&mut word, 3, 0), Attempt::Taken);
    assert_eq!(word, WRITER + 3);
    assert_eq!(attempt_read(&mut word, 1), Attempt::Held);
    assert_eq!(attempt_read(&mut word, 3), Attempt::Deadlock);
    assert_eq!(attempt_write(&mut word, 3, 0), Attempt::Deadlock);
    let mut h = hart(0);
    let mut l = SpinRwLock::new(1);
    {
        let mut w = l.try_write(&mut h).unwrap();
        assert_eq!(w.replace(2), 1);
        w.release(&mut h);
    }
    let r = l.try_read(&mut h).unwrap();
    assert_eq!(*r.get(), 2);
    let w = match r.upgrade(&h) {
        Ok(w) => w,
        Err(_) => unreachable!(),
    };
    assert_eq!(*w.get(), 2);
    w.release(&mut h);
    assert_eq!(l.state, 0);
}

#[test]
fn references_are_counted() {
    let mut header = CaptblHeader { n_slots_log2: 16, slot_rc: 1 };
    header.increase_refcount();
    assert_eq!(header.refcount(), 2);
    assert!(!header.drop_impl());
    assert!(header.drop_impl());
}

#[test]
fn interrupt_controller_registers() {
    let mut plic = Plic::new();
    assert!(!plic.init);
    plic.init(0xC00_0000);
    let w = plic.hart_senable(1, 33, 0b1);
    assert_eq!((w.addr, w.value), (0xC00_0000 + 0x2080 + 0x100 + 4, 0b11));
    let w = plic.hart_sdisable(1, 33, 0b11);
    assert_eq!((w.addr, w.value), (0xC00_0000 + 0x2080 + 0x100 + 4, 0b1));
    let w = plic.set_priority(10, 1);
    assert_eq!((w.addr, w.value), (0xC00_0028, 1));
    let w = plic.hart_set_spriority(2, 0);
    assert_eq!((w.addr, w.value), (0xC00_0000 + 0x20_1000 + 0x4000, 0));
    assert_eq!(plic.hart_sclaim(1), 0xC00_0000 + 0x20_3004);
    let w = plic.hart_sunclaim(1, 10);
    assert_eq!((w.addr, w.value), (0xC00_0000 + 0x20_3004, 10));
    assert_ne!(plic.enable_register(0, 31), plic.enable_register(0, 32));
}

#[test]
fn the_trampoline_page() {
    assert_eq!(ret_user(0x8030_0100, 0x8030_0000), 0xFFFF_FFFF_FFFF_F100);
    assert_eq!(trampoline(0x8030_0000, 0x8030_0000), 0xFFFF_FFFF_FFFF_F000);
}

#[test]
fn another_hart_becomes_ready() {
    let harts = vec![
        HartInfo { id: 0, timebase_frequency: 10 },
        HartInfo { id: 1, timebase_frequency: 10_000_000 },
    ];
    let mut h = hart(1);
    h.csr.sstatus = 0;
    assert_eq!(ready_hart(&mut h, &harts, 5), 1_000_005);
    assert!(h.csr.intr_enabled());
    assert_eq!(h.csr.sie, 0x222);
    assert_eq!(h.ctx.timebase_freq, 10_000_000);
    assert_eq!(h.ctx.timer_interval, 1_000_000);
    assert_eq!(h.ctx.holding_disabler, 0);
}
