use river::addr::mappings::{AddressLayout, Identity, ACTUAL_PHYSICAL_OFFSET};
use river::addr::phys::Ppn;
use river::addr::{Physical, PhysicalConst, VirtualConst};
use river::kernel::kalloc::linked_list::{Layout, LinkedListAlloc};
use river::kernel::kalloc::phys::{allocation_pages, order_size, what_order};
use river::kernel::paging::{
    enabled, root_page_table, PTEKind, PageSize, PageTable, PageTableEntry, PageTableFlags,
    PagingAllocator, RawPageTableEntry, RawSatp, Satp, SharedPageTable,
};
use river::kernel::physmem::PhysicalMemory;

fn phys(p: u64) -> PhysicalConst<u8, Identity> {
    Physical::from_usize_unchecked(p)
}

fn virt(v: u64) -> VirtualConst<u8, Identity> {
    VirtualConst::from_usize_unchecked(v)
}

const RW: PageTableFlags = PageTableFlags { bits: 193 | 6 };

fn lookup(table: &PageTable, mem: &PhysicalMemory, va: u64) -> Option<(u64, u8)> {
    table.walk(mem, virt(va)).map(|(p, f)| (p.into_usize(), f.bits))
}

#[test]
fn frames_are_handed_out_once() {
    let mut mem = PhysicalMemory::new(0x100, 8);
    assert_eq!(mem.allocate(), 0x100);
    assert_eq!(mem.allocate_run(3), 0x101);
    assert_eq!(mem.num_free_pages(), 4);
    assert_eq!(mem.num_pages(), 8);
    assert!(mem.can_allocate());
    assert!(mem.contains(0x10_0000, 0x4000));
    assert!(!mem.contains(0x10_0000, 0x4001));
}

#[test]
fn memory_is_little_endian() {
    let mut mem = PhysicalMemory::new(0x100, 2);
    mem.allocate();
    mem.write_word(0x10_0008, 0x0807_0605_0403_0201);
    assert_eq!(mem.read_byte(0x10_0008), 1);
    assert_eq!(mem.read_byte(0x10_000F), 8);
    mem.write_byte(0x10_0009, 0xFF);
    assert_eq!(mem.read_word(0x10_0008), 0x0807_0605_0403_FF01);
    mem.write_bytes(0x10_0011, &[1, 2]);
    assert_eq!(mem.read_word(0x10_0010), 0x02_0100);
    mem.write_words(0x10_0020, &vec![5, 6]);
    assert_eq!(mem.read(0x100, 5), 6);
}

#[test]
fn entries_are_read_back() {
    let entry = PageTableEntry {
        ppn: Ppn::from_usize_truncate(0x80200),
        flags: PageTableFlags { bits: 0xC7 },
    };
    let raw = entry.encode();
    assert_eq!(raw.0, 0x80200 * 1024 + 0xC7);
    assert_eq!(raw.decode().ppn.into_usize(), 0x80200);
    assert_eq!(raw.decode().flags.bits, 0xC7);
    assert!(matches!(entry.kind(), PTEKind::Leaf));
    assert!(matches!(RawPageTableEntry(0).decode().kind(), PTEKind::Invalid));
    let branch =
        PageTableEntry { ppn: Ppn::from_usize_truncate(3), flags: PageTableFlags { bits: 1 } };
    match branch.kind() {
        PTEKind::Branch(p) => assert_eq!(p.into_usize(), 0x3000),
        _ => unreachable!(),
    }
}

#[test]
fn a_mapped_page_is_found_and_no_other() {
    let mut mem = PhysicalMemory::new(0x80000, 64);
    let table = PageTable::new(&mut mem);
    assert_eq!(lookup(&table, &mem, 0x1000_0000), None);
    table.map(&mut mem, phys(0x9000_0000), virt(0x1000_0000), RW);
    assert_eq!(lookup(&table, &mem, 0x1000_0ABC), Some((0x9000_0ABC, 199)));
    assert_eq!(lookup(&table, &mem, 0x1000_1000), None);
    table.map(&mut mem, phys(0x9100_0000), virt(0x1000_1000), RW);
    assert_eq!(lookup(&table, &mem, 0x1000_0000), Some((0x9000_0000, 199)));
    assert_eq!(lookup(&table, &mem, 0x1000_1004), Some((0x9100_0004, 199)));
    // Three tables: the root, and one on each of the levels below it.
    assert_eq!(mem.num_free_pages(), 61);
}

#[test]
fn larger_pages_are_mapped() {
    let mut mem = PhysicalMemory::new(0x80000, 64);
    let table = SharedPageTable::from_inner(PageTable::new(&mut mem));
    table.map(&mut mem, phys(0x8020_0000), virt(0x2000_0000), RW, PageSize::Mega);
    let plain = PageTable { root: table.root };
    assert_eq!(lookup(&plain, &mem, 0x201F_F123), Some((0x803F_F123, 199)));
    assert_eq!(lookup(&plain, &mem, 0x2020_0000), None);
    plain.map_gib(&mut mem, phys(0x4000_0000), virt(0x1_0000_0000), RW);
    assert_eq!(lookup(&plain, &mem, 0x1_3456_789A), Some((0x7456_789A, 199)));
    assert_eq!(lookup(&plain, &mem, 0x1_4000_0000), None);
}

#[test]
fn the_first_free_trapframe_address() {
    let mut mem = PhysicalMemory::new(0x80000, 64);
    let table = SharedPageTable::from_inner(PageTable::new(&mut mem));
    let first = table.find_free_trapframe_addr(&mem).unwrap();
    assert_eq!(first.into_usize(), ACTUAL_PHYSICAL_OFFSET);
    table.map(&mut mem, phys(0x9000_0000), first, RW, PageSize::Base);
    let second = table.find_free_trapframe_addr(&mem).unwrap();
    assert_eq!(second.into_usize(), ACTUAL_PHYSICAL_OFFSET + 4096);
}

#[test]
fn userspace_is_copied_from() {
    let mut mem = PhysicalMemory::new(0x80000, 64);
    let table = PageTable::new(&mut mem);
    let a = mem.allocate();
    mem.allocate();
    let b = mem.allocate();
    mem.write_bytes(a * 4096 + 4094, &[1, 2]);
    mem.write_bytes(b * 4096, &[3]);
    let user = PageTableFlags { bits: 193 | 16 | 6 };
    table.map(&mut mem, phys(a * 4096), virt(0x5000), user);
    table.map(&mut mem, phys(b * 4096), virt(0x6000), user);
    assert_eq!(table.copy_from_user(&mem, 3, virt(0x5FFE)).unwrap(), vec![1, 2, 3]);
    assert!(table.copy_from_user(&mem, 3, virt(0x6FFE)).is_err());
    table.map(&mut mem, phys(a * 4096), virt(0x7000), RW);
    assert!(table.copy_from_user(&mem, 1, virt(0x7000)).is_err());
}

#[test]
fn the_register_that_turns_paging_on() {
    let satp = Satp { asid: 5, ppn: Ppn::from_usize_truncate(0x80600) };
    let raw = satp.encode();
    assert_eq!(raw.as_usize(), 0x8000_5000_0008_0600);
    assert_eq!(raw.mode(), 8);
    assert_eq!(raw.decode().asid, 5);
    assert_eq!(raw.decode().ppn.into_usize(), 0x80600);
    assert!(enabled(raw));
    assert!(!enabled(RawSatp::new_unchecked(0)));
    assert_eq!(root_page_table(raw).root, 0x80600);
}

#[test]
fn raw_tables_are_found_again() {
    let l = AddressLayout {
        physical_offset: ACTUAL_PHYSICAL_OFFSET,
        kernel_start: 0x8020_0000,
        kernel_end: 0x8030_0000,
    };
    let mut mem = PhysicalMemory::new(0x80000, 64);
    let table = PageTable::new(&mut mem);
    let root = table.root;
    assert_eq!(table.as_physical().into_usize(), root * 4096);
    assert_eq!(PageTable::from_raw(&l, table.into_raw(&l)).root, root);
    assert_eq!(PagingAllocator.allocate(&mut mem).unwrap().into_usize(), (root + 1) * 4096);
}

#[test]
fn orders() {
    assert_eq!(what_order(1), 0);
    assert_eq!(what_order(4096), 0);
    assert_eq!(what_order(4097), 1);
    assert_eq!(what_order(0x40_0000), 10);
    assert_eq!(order_size(10), 0x40_0000);
    assert_eq!(what_order(0), 0);
    assert_eq!(allocation_pages(0), 1);
    assert_eq!(allocation_pages(3), 4);
    assert_eq!(allocation_pages(4), 4);
    assert_eq!(allocation_pages(1025), 2048);
}

#[test]
fn missing_tables_are_counted() {
    let mut mem = PhysicalMemory::new(0x80000, 64);
    let table = PageTable::new(&mut mem);
    assert_eq!(table.missing_tables(&mem, virt(0x1000_0000)), 2);
    table.map(&mut mem, phys(0x9000_0000), virt(0x1000_0000), RW);
    assert_eq!(table.missing_tables(&mem, virt(0x1000_1000)), 0);
    assert_eq!(table.missing_tables(&mem, virt(0x1020_0000)), 1);
    assert_eq!(table.missing_tables(&mem, virt(0x4000_0000)), 2);
}

/// A heap, with the memory and the page table that it grows in.
struct Grown {
    heap: LinkedListAlloc,
    mem: PhysicalMemory,
    table: PageTable,
}

impl Grown {
    fn allocate(&mut self, layout: Layout) -> u64 {
        self.heap.allocate(&mut self.mem, self.table, layout)
    }

    fn deallocate(&mut self, ptr: u64, layout: Layout) {
        self.heap.deallocate(ptr, layout);
    }
}

fn heap() -> Grown {
    let mut heap = LinkedListAlloc::new();
    heap.init(0xFFFF_FFE0_0000_0000);
    let mut mem = PhysicalMemory::new(0x80000, 64);
    let table = PageTable::new(&mut mem);
    Grown { heap, mem, table }
}

#[test]
fn the_heap_grows_into_mapped_memory() {
    let mut heap = heap();
    let free = heap.mem.num_free_pages();
    // The tag does not fit into the page of which the rest is all of the node.
    let a = heap.allocate(Layout { size: 4088, align: 8 });
    assert_eq!(a, 0xFFFF_FFE0_0000_0010);
    // Two frames, and two tables.
    assert_eq!(heap.mem.num_free_pages(), free - 4);
    let first = heap.table.walk(&heap.mem, virt(0xFFFF_FFE0_0000_0000)).unwrap();
    let last = heap.table.walk(&heap.mem, virt(a + 4087)).unwrap();
    assert_eq!(first.0.into_usize(), 0x8000_1000);
    assert_eq!(last.0.into_usize(), 0x8000_2000 + (a + 4087) % 4096);
    assert_eq!(last.1.bits, 199);
    assert!(heap.table.walk(&heap.mem, virt(0xFFFF_FFE0_0000_2000)).is_none());
    // What is mapped suffices.
    heap.allocate(Layout { size: 64, align: 8 });
    assert_eq!(heap.mem.num_free_pages(), free - 4);
}

#[test]
fn allocations_are_apart_and_aligned() {
    let mut heap = heap();
    let a = heap.allocate(Layout { size: 24, align: 8 });
    let b = heap.allocate(Layout { size: 100, align: 64 });
    let c = heap.allocate(Layout { size: 1, align: 1 });
    // A tag and a word of padding come first.
    assert_eq!(a, 0xFFFF_FFE0_0000_0010);
    assert_eq!(b % 64, 0);
    assert!(b >= a + 24);
    assert!(c >= b + 100);
}

#[test]
fn freed_memory_is_used_again() {
    let mut heap = heap();
    let a = heap.allocate(Layout { size: 256, align: 8 });
    let b = heap.allocate(Layout { size: 256, align: 8 });
    heap.deallocate(a, Layout { size: 256, align: 8 });
    let c = heap.allocate(Layout { size: 256, align: 8 });
    assert_eq!(c, a);
    heap.deallocate(c, Layout { size: 256, align: 8 });
    // What is too large for the free node goes behind all others.
    let d = heap.allocate(Layout { size: 512, align: 8 });
    assert!(d > b);
    // A smaller one takes the front part of the free node.
    let e = heap.allocate(Layout { size: 32, align: 8 });
    assert_eq!(e, a);
    let f = heap.allocate(Layout { size: 32, align: 8 });
    assert!(f > e && f < b);
}

#[test]
fn freed_neighbours_become_one() {
    let mut heap = heap();
    let a = heap.allocate(Layout { size: 128, align: 8 });
    let b = heap.allocate(Layout { size: 128, align: 8 });
    let _guard = heap.allocate(Layout { size: 128, align: 8 });
    heap.deallocate(b, Layout { size: 128, align: 8 });
    heap.deallocate(a, Layout { size: 128, align: 8 });
    let c = heap.allocate(Layout { size: 256, align: 8 });
    assert_eq!(c, a);
}
