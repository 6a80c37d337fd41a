use river::addr::mappings::{AddressLayout, ACTUAL_PHYSICAL_OFFSET};
use river::addr::{Physical, VirtualConst};
use river::kernel::capability::untyped::{Untyped, UntypedSlot};
use river::kernel::paging::PageTableFlags;
use river::kernel::physmem::PhysicalMemory;
use river::kernel::proc::mman::{
    AllocError, MemRegion, PmemRegion, RegionPurpose, RegionRequest, UserMemoryManager, VmemRegion,
};
use river::kernel::proc::{Proc, ProcState, ProcToken};
use river::kernel::hart_local::HartCtx;
use river::kernel::state::CodeAddresses;

const RW: PageTableFlags = PageTableFlags { bits: 193 | 6 };

#[test]
fn memory_is_allocated_and_mapped() {
    let mut mem = PhysicalMemory::new(0x80000, 16);
    let mut mman = UserMemoryManager::new(&mut mem);
    let req = RegionRequest {
        n_pages: 2,
        contiguous: true,
        flags: RW,
        purpose: RegionPurpose::UserMapped,
    };
    let span = mman
        .allocate(&mut mem, &req, VirtualConst::from_usize_unchecked(0x4000))
        .unwrap();
    assert_eq!((span.start, span.end), (0x4000, 0x6000));
    let va: VirtualConst<u8, river::addr::mappings::Identity> =
        VirtualConst::from_usize_unchecked(0x5008);
    let (p, _) = mman.get_table().walk(&mem, va).unwrap();
    assert_eq!(p.into_usize(), 0x8000_2008);
    match mman.map.get(&0x6000) {
        Some(VmemRegion::Mapped {
            region: MemRegion::Backed(PmemRegion::Contiguous(base)),
            start,
            end,
            ..
        }) => assert_eq!((*base, *start, *end), (0x8000_1000, 0x4000, 0x6000)),
        _ => unreachable!(),
    }
    // Three pages are taken from an allocation of four; the tables are there.
    let free = mem.num_free_pages();
    let odd = RegionRequest { n_pages: 3, ..req };
    let span = mman
        .allocate(&mut mem, &odd, VirtualConst::from_usize_unchecked(0x8000))
        .unwrap();
    assert_eq!((span.start, span.end), (0x8000, 0xB000));
    assert_eq!(mem.num_free_pages(), free - 4);
    // Any flags will do: what is not valid leads nowhere.
    let guard = RegionRequest { n_pages: 1, flags: PageTableFlags { bits: 0 }, ..req };
    let at = VirtualConst::from_usize_unchecked(0xC000);
    assert_eq!(mman.allocate(&mut mem, &guard, at).unwrap().end, 0xD000);
    assert!(mman.get_table().walk(&mem, at).is_none());
    let large = RegionRequest { n_pages: 100, ..req };
    let r = mman.allocate(&mut mem, &large, VirtualConst::from_usize_unchecked(0x10_0000));
    assert!(matches!(r, Err(AllocError)));
    mman.map_direct(
        &mut mem,
        Physical::from_usize_unchecked(0x9000_0000),
        VirtualConst::from_usize_unchecked(0x7000),
        RW,
    );
    let va: VirtualConst<u8, river::addr::mappings::Identity> =
        VirtualConst::from_usize_unchecked(0x7000);
    assert_eq!(mman.get_table().walk(&mem, va).unwrap().0.into_usize(), 0x9000_0000);
}

#[test]
fn a_process_begins_in_the_kernel() {
    let mut mem = PhysicalMemory::new(0x80000, 2000);
    let layout = AddressLayout {
        physical_offset: ACTUAL_PHYSICAL_OFFSET,
        kernel_start: 0x8020_0000,
        kernel_end: 0x8024_0000,
    };
    let code = CodeAddresses { user_trap_ret: 0x1234, trampoline: 0x8023_0000 };
    let mut next: u64 = 1;
    let mut p = Proc::new(&mut mem, &layout, &code, "init".to_string(), &mut next);
    assert_eq!((p.pid, next), (1, 2));
    assert_eq!(p.context.ra, 0x1234);
    assert_eq!(p.context.sp, ACTUAL_PHYSICAL_OFFSET + 0x8000_0000 + 0x40_0000);
    assert!(p.state() == ProcState::Uninit);
    assert!(p.set_state(ProcState::Runnable) == ProcState::Uninit);
    assert!(p.state() == ProcState::Runnable);
    assert_eq!(p.private_mut().name, "init");
    let hart = HartCtx::new();
    let token = ProcToken { proc: &p, hart: &hart };
    assert_eq!(token.proc().pid, 1);
    assert_eq!(p.private(&token).mem_size, 0);
    let va: VirtualConst<u8, river::addr::mappings::Identity> =
        VirtualConst::from_usize_unchecked(0xFFFF_FFFF_FFFF_F000);
    let (at, flags) = p.private.mman.get_table().walk(&mem, va).unwrap();
    assert_eq!((at.into_usize(), flags.bits), (0x8023_0000, 203));
}

#[test]
fn unused_memory_is_read_back() {
    let mut meta = Untyped::new(0x8000_0000, 20);
    assert_eq!(meta.free_addr(), 0x8000_0000);
    meta.set_free_addr(0x8000_4000);
    let slot = UntypedSlot::metadata_to_slot(&meta, 2);
    assert_eq!(slot.cap_type(), 2);
    let back = slot.metadata_from_slot();
    assert_eq!(back.base_addr(), 0x8000_0000);
    assert_eq!(back.free_addr(), 0x8000_4000);
    assert_eq!(back.size_log2(), 20);
}
