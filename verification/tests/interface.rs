use river::capability::paging::{BasePage, DynLevel, GigaPage, MegaPage, Page, PagingLevel};
use river::capability::{
    AnnotatedCaptr, CapError, CapRights, Capability, CapabilityType, Captr, CaptrOps, CaptrRange,
    Empty, Endpoint, Job, MessageHeader, Notification, Thread,
};
use river::init::InitCapabilities;
use river::symbol::Symbol;
use river::syscalls::{captr, debug, notification, paging, thread, Ecall, Reply, SyscallNumber};
use river::addr::virt::Vpn;
use river::addr::VirtualConst;

#[test]
fn capability_types_are_read_back() {
    for (ty, n) in [
        (CapabilityType::Empty, 0u8),
        (CapabilityType::PgTbl, 3),
        (CapabilityType::Page, 4),
        (CapabilityType::Thread, 5),
        (CapabilityType::Notification, 6),
        (CapabilityType::InterruptPool, 7),
        (CapabilityType::InterruptHandler, 8),
        (CapabilityType::Endpoint, 9),
        (CapabilityType::Job, 10),
        (CapabilityType::Unknown, 32),
    ] {
        assert_eq!(u8::from(ty), n);
        assert_eq!(CapabilityType::from(n), ty);
        assert_eq!(u64::from(ty), n as u64);
    }
    assert_eq!(CapabilityType::from(11u8), CapabilityType::Unknown);
    assert_eq!(CapabilityType::from(0x105u64), CapabilityType::Thread);
}

#[test]
fn errors_are_read_back() {
    for (e, n) in [
        (CapError::NoError, 0u64),
        (CapError::NotPresent, 1),
        (CapError::InvalidType, 2),
        (CapError::NotEnoughResources, 3),
        (CapError::InvalidSize, 4),
        (CapError::InvalidOperation, 5),
        (CapError::RevokeFirst, 6),
        (CapError::UnknownError, u64::MAX),
    ] {
        assert_eq!(u64::from(e), n);
        assert_eq!(CapError::from(n), e);
    }
    assert_eq!(CapError::from(77), CapError::UnknownError);
}

#[test]
fn syscalls_are_read_back() {
    assert_eq!(u64::from(SyscallNumber::CaptrDelete), 0);
    assert_eq!(u64::from(SyscallNumber::JobCreateThread), 29);
    assert_eq!(u64::from(SyscallNumber::DebugCapIdentify), 0xFFFF_0003);
    assert_eq!(SyscallNumber::from(21), SyscallNumber::EndpointRecv);
    assert_eq!(SyscallNumber::from(30), SyscallNumber::Unknown);
}

#[test]
fn rights() {
    assert_eq!(CapRights::from_bits_truncate(0xFF).bits, 7);
    assert_eq!(CapRights::default().bits, 7);
    let rx = CapRights { bits: CapRights::READ | CapRights::EXECUTE };
    assert!(rx.contains(CapRights::READ));
    assert!(!rx.contains(CapRights::WRITE));
    assert_eq!(rx.into_pgtbl_mask().bits, 10);
    assert_eq!(CapRights::all().into_pgtbl_mask().bits, 14);
    assert_eq!(rx.intersection(CapRights { bits: 6 }).bits, 4);
}

#[test]
fn message_headers() {
    let hdr = MessageHeader::new().with_length(3).with_private(9);
    assert_eq!(hdr.length(), 3);
    assert_eq!(hdr.private(), 9);
    assert_eq!(hdr.into_raw(), 9 * 512 + 2);
    assert_eq!(MessageHeader::new().length(), 1);
    assert_eq!(MessageHeader::new().with_length(512).length(), 512);
    assert_eq!(hdr.with_length(512).private(), 9);
}

#[test]
fn captrs() {
    let c = Captr::from_raw(10);
    assert_eq!(c.add(5).into_raw(), 15);
    assert_eq!(c.offset(-3).into_raw(), 7);
    assert!(Captr::null().is_null());
    let range: CaptrRange<Empty> = CaptrRange::new(Captr::from_raw(7), Captr::from_raw(10));
    assert_eq!(range.count(), 3);
    let range: CaptrRange<Empty> = CaptrRange::new(Captr::from_raw(7), Captr::from_raw(9));
    assert_eq!(range.count(), 2);
    assert_eq!(range.hi().into_raw(), 9);
    let range: CaptrRange<Empty> = CaptrRange::new(Captr::from_raw(7), Captr::from_raw(9));
    assert_eq!(range.lo().into_captr().into_raw(), 7);
    let a = AnnotatedCaptr::default();
    assert_eq!(a.ty, CapabilityType::Unknown);
    assert_eq!(Page::<DynLevel>::capability_type(), CapabilityType::Page);
}

#[test]
fn page_levels() {
    assert_eq!(BasePage::page_size_log2(), 12);
    assert_eq!(MegaPage::page_size_log2(), 21);
    assert_eq!(GigaPage::page_size_log2(), 30);
}

#[test]
fn calls_are_encoded() {
    let t = Thread::from_captr(Captr::from_raw(4));
    assert_eq!(
        t.start(0x1000, 0x2000, Captr::from_raw(6), 7),
        Ecall {
            syscall: SyscallNumber::ThreadStart,
            a1: 4,
            a2: 0x1000,
            a3: 0x2000,
            a4: 6,
            a5: 7,
            a6: 0,
            a7: 0,
        }
    );
    assert_eq!(t.suspend(), thread::suspend(4));
    assert_eq!(t.resume(), thread::resume(4));
    assert_eq!(t.delete(), captr::delete(4));
    assert_eq!(
        t.grant(CapRights::all(), Some(9)),
        Ecall::new(SyscallNumber::CaptrGrant, 4, 7, 9)
    );
    assert_eq!(
        t.grant(CapRights::empty(), None),
        Ecall::new(SyscallNumber::CaptrGrant, 4, 0, 0)
    );
    let n = Notification(Captr::from_raw(3));
    assert_eq!(n.wait(), notification::wait(3));
    assert_eq!(n.signal(), notification::signal(3));
    assert_eq!(n.poll(), notification::poll(3));
    let e = Endpoint(Captr::from_raw(2));
    let sent = e.send_with_regs(MessageHeader::from_raw(1), 0x30, [4, 5, 6, 7]);
    assert_eq!(sent.syscall, SyscallNumber::EndpointSend);
    assert_eq!((sent.a1, sent.a2, sent.a3), (2, 1, 0x30));
    assert_eq!((sent.a4, sent.a5, sent.a6, sent.a7), (4, 5, 6, 7));
    assert_eq!(
        Job::create(Job(Captr::from_raw(1))),
        Ecall::new(SyscallNumber::JobCreate, 1, 0, 0)
    );
    assert_eq!(debug::debug_cap_identify(5).a1, 5);
    let m = paging::page_map(
        1,
        2,
        VirtualConst::from_usize_unchecked(0x5000),
        river::capability::paging::PageTableFlags { bits: 6 },
    );
    assert_eq!(m.syscall, SyscallNumber::PageMap);
    assert_eq!((m.a1, m.a2, m.a3, m.a4), (1, 2, 0x5000, 6));
    assert_eq!(paging::pgtbl_unmap(8, Vpn::from_usize_truncate(3)).a2, 3);
}

#[test]
fn replies_are_decoded() {
    assert_eq!(Reply { a0: 0, a1: 5 }.result(), Ok(5));
    assert_eq!(Reply { a0: 2, a1: 5 }.result(), Err(2));
    assert_eq!(Reply { a0: 2, a1: 5 }.unit(), Err(CapError::InvalidType));
    assert_eq!(Reply { a0: 0, a1: 0 }.signals(), Ok(None));
    assert_eq!(Reply { a0: 0, a1: 6 }.signals(), Ok(Some(6)));
    assert_eq!(Reply { a0: 0, a1: 9 }.capability_type(), Ok(CapabilityType::Endpoint));
    assert_eq!(Reply { a0: 0, a1: 9 }.captr().map(|c| c.into_raw()), Ok(9));
}

#[test]
fn the_initial_slots() {
    let caps = InitCapabilities::new();
    assert_eq!(caps.job.into_captr().into_raw(), 1);
    assert_eq!(caps.pgtbl.into_captr().into_raw(), 2);
    assert_eq!(caps.thread.into_captr().into_raw(), 3);
    assert_eq!(caps.bootinfo_page.into_captr().into_raw(), 5);
    assert_eq!(caps.intr_pool.into_captr().into_raw(), 6);
    assert_eq!(Symbol::at(0x8020_0000).into_usize(), 0x8020_0000);
}
