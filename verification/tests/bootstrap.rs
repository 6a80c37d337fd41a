use river::addr::mappings::{AddressLayout, ACTUAL_PHYSICAL_OFFSET, KERNEL_OFFSET};
use river::addr::{Physical, VirtualConst};
use river::kernel::boot::devicetree::{load_tree, FdtError};
use river::kernel::boot::early::{
    early_boot_hart, find_region, floor_pow2, hand_over, kernel_table, make_paging, pma_start, round_up_page,
    HartBootData, Image, MemoryRegion,
};
use river::kernel::boot::harts::{
    find_hart, hart_boot_data, harts_in_order, is_maskable, is_supported_uart, other_harts,
    timer_interval, HartInfo,
};
use river::kernel::boot::heap::{reserve_heap, KHEAP_VMEM_OFFSET};
use river::kernel::boot::process::boot_info;
use river::kernel::boot::table::count_tables;
use river::kernel::paging::{PageTable, RawSatp};
use river::kernel::physmem::PhysicalMemory;

fn image() -> Image {
    Image {
        kernel_start: 0x8020_0000,
        kernel_end: 0x8024_0000,
        bss_start: 0x8020_0000,
        bss_end: 0x8021_0000,
        data_start: 0x8021_0000,
        data_end: 0x8022_0000,
        tmp_stack_bottom: 0x8022_0000,
        tmp_stack_top: 0x8023_0000,
        text_start: 0x8023_0000,
        text_end: 0x8024_0000,
    }
}

fn walk(table: &PageTable, mem: &PhysicalMemory, va: u64) -> Option<(u64, u8)> {
    let va: VirtualConst<u8, river::addr::mappings::Identity> =
        VirtualConst::from_usize_unchecked(va);
    table.walk(mem, va).map(|(p, f)| (p.into_usize(), f.bits))
}

#[test]
fn the_region_of_the_kernel() {
    let regions = vec![
        MemoryRegion { start: 0x1000, size: 0x1000 },
        MemoryRegion { start: 0x8000_0000, size: 0x1000_0000 },
    ];
    assert_eq!(find_region(&regions, 0x8020_0000, 0x8024_0000), Some(regions[1]));
    assert_eq!(find_region(&regions, 0x9020_0000, 0x9024_0000), None);
    assert_eq!(round_up_page(0x1001), 0x2000);
    assert_eq!(round_up_page(0x1000), 0x1000);
    assert_eq!(floor_pow2(0x1800), 0x1000);
    assert_eq!(floor_pow2(1), 1);
    assert_eq!(pma_start(0x9000_0001, 0x10, 0x8024_0000), 0x9000_1000);
    assert_eq!(pma_start(0x8000_0000, 0x10, 0x8024_0001), 0x8024_1000);
}

#[test]
fn paging_is_turned_on() {
    let regions = vec![MemoryRegion { start: 0x8000_0000, size: 0x1000_0000 }];
    let p = make_paging(&regions, &image(), 0x8000_0000, 0x1000);
    assert_eq!(p.table.root, 0x80240);
    assert_eq!(p.satp.as_usize(), 0x8000_0000_0008_0240);
    assert_eq!(walk(&p.table, &p.mem, KERNEL_OFFSET), Some((0x8020_0000, 199)));
    assert_eq!(walk(&p.table, &p.mem, KERNEL_OFFSET + 0x3_0010), Some((0x8023_0010, 203)));
    let (at, flags) = walk(&p.table, &p.mem, ACTUAL_PHYSICAL_OFFSET + 0x8765_4321).unwrap();
    assert_eq!((at, flags), (0x8765_4321, 199));
    assert_eq!(walk(&p.table, &p.mem, 0x8020_0000), None);
    let l = AddressLayout {
        physical_offset: 0,
        kernel_start: 0x8020_0000,
        kernel_end: 0x8024_0000,
    };
    let h = hand_over(&l, 0x8023_0100, 0x8023_0000, 0x8021_0800, 0x8000_0000, p.satp);
    assert_eq!(h.stvec, KERNEL_OFFSET + 0x3_0100);
    assert_eq!(h.sp, KERNEL_OFFSET + 0x3_0000);
    assert_eq!(h.gp, KERNEL_OFFSET + 0x1_0800);
    assert_eq!(h.a0, ACTUAL_PHYSICAL_OFFSET + 0x8000_0000);
    assert_eq!(h.satp, p.satp.as_usize());
}

#[test]
fn the_tables_of_the_kernel_are_counted() {
    let l = AddressLayout {
        physical_offset: 0,
        kernel_start: 0x8020_0000,
        kernel_end: 0x8024_0000,
    };
    // All parts lie in one region of two mebibytes.
    assert_eq!(count_tables(&image().parts(), &l), 2);
    let large = Image { kernel_end: 0x8074_0000, text_end: 0x8074_0000, ..image() };
    let l = AddressLayout { kernel_end: 0x8074_0000, ..l };
    assert_eq!(count_tables(&large.parts(), &l), 4);
    // The root and these tables are all that is taken.
    let mut mem = PhysicalMemory::new(0x90000, 5);
    kernel_table(&mut mem, &large);
    assert_eq!(mem.num_free_pages(), 0);
}

#[test]
fn other_harts_start() {
    let l = AddressLayout {
        physical_offset: ACTUAL_PHYSICAL_OFFSET,
        kernel_start: 0x8020_0000,
        kernel_end: 0x8024_0000,
    };
    let data = HartBootData {
        raw_satp: RawSatp::new_unchecked(0x8000_0000_0008_0240),
        sp_phys: Physical::from_usize_unchecked(0x8100_0000),
        fdt_ptr_virt: VirtualConst::from_usize_unchecked(ACTUAL_PHYSICAL_OFFSET + 0x8000_0000),
    };
    let h = early_boot_hart(&l, &data, 0x8023_0200, 0x8021_0800);
    assert_eq!(h.stvec, KERNEL_OFFSET + 0x3_0200);
    assert_eq!(h.sp, ACTUAL_PHYSICAL_OFFSET + 0x8100_0000);
    assert_eq!(h.satp, 0x8000_0000_0008_0240);
    assert_eq!(h.a0, ACTUAL_PHYSICAL_OFFSET + 0x8000_0000);
}

#[test]
fn harts_are_found() {
    let harts = vec![
        HartInfo { id: 1, timebase_frequency: 5 },
        HartInfo { id: 0, timebase_frequency: 10 },
        HartInfo { id: 2, timebase_frequency: 15 },
    ];
    assert_eq!(find_hart(&harts, 0), Some(harts[1]));
    assert_eq!(find_hart(&harts, 7), None);
    assert_eq!(other_harts(&harts, 0), vec![1, 2]);
    assert_eq!(harts_in_order(&harts, 0), vec![0, 1, 2]);
    assert!(is_maskable(&harts));
    assert!(!is_maskable(&vec![HartInfo { id: 64, timebase_frequency: 5 }]));
    assert_eq!(timer_interval(10_000_005), 1_000_000);
    let mut mem = PhysicalMemory::new(0x80000, 2048);
    let data = hart_boot_data(
        &mut mem,
        RawSatp::new_unchecked(1),
        VirtualConst::from_usize_unchecked(ACTUAL_PHYSICAL_OFFSET),
    );
    assert_eq!(data.sp_phys.into_usize(), 0x8000_0000 + 0x40_0000);
    assert_eq!(mem.num_free_pages(), 1024);
}

#[test]
fn serial_ports() {
    assert!(is_supported_uart(&vec![b"x".to_vec(), b"ns16550a".to_vec()]));
    assert!(!is_supported_uart(&vec![b"ns16550".to_vec()]));
    assert!(!is_supported_uart(&vec![]));
}

#[test]
fn the_heap_is_set_aside() {
    let mut mem = PhysicalMemory::new(0x80000, 64);
    let table = PageTable::new(&mut mem);
    let other: VirtualConst<u8, river::addr::mappings::Identity> =
        VirtualConst::from_usize_unchecked(0x5000);
    table.map(
        &mut mem,
        Physical::from_usize_unchecked(0x9000_0000),
        other,
        river::kernel::paging::PageTableFlags { bits: 199 },
    );
    reserve_heap(&mut mem, PageTable { root: table.root });
    assert_eq!(walk(&table, &mem, KHEAP_VMEM_OFFSET), None);
    assert_eq!(walk(&table, &mem, 0x5000), Some((0x9000_0000, 199)));
}

fn tree(size: u32, len: usize) -> Vec<u8> {
    let mut b = vec![0u8; len];
    b[0..4].copy_from_slice(&0xd00d_feedu32.to_be_bytes());
    b[4..8].copy_from_slice(&size.to_be_bytes());
    b
}

#[test]
fn device_trees_are_cut_to_their_size() {
    let b = tree(48, 64);
    assert_eq!(load_tree(&b).unwrap().len(), 48);
    assert_eq!(load_tree(&tree(64, 64)).unwrap().len(), 64);
    assert_eq!(load_tree(&tree(65, 64)), Err(FdtError::BufferTooSmall));
    assert_eq!(load_tree(&b[..39]), Err(FdtError::BufferTooSmall));
    let mut bad = b.clone();
    bad[3] = 0;
    assert_eq!(load_tree(&bad), Err(FdtError::BadMagic));
}

#[test]
fn the_words_of_the_boot_information() {
    let words = boot_info(1025, 2).to_words();
    assert_eq!(words, vec![16, 7, 1032, 1032, 1034, 1034, 1035, 1035, 65536, 0x2000_1000]);
}
