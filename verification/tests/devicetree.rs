use river::addr::mappings::{AddressLayout, Identity, ACTUAL_PHYSICAL_OFFSET};
use river::addr::VirtualConst;
use river::kernel::boot::devicetree::{
    load_tree, read_harts, read_regions, to_harts, to_regions, FdtError,
};
use river::kernel::boot::early::{try_early_boot, EarlyBoot, Image, MemoryRegion};
use river::kernel::boot::harts::HartInfo;
use river::kernel::boot::kmain::{try_kmain, try_kmain_hart, Platform, Started};
use river::kernel::boot::tree::check_tree;
use river::kernel::capability::CapabilityKind;
use river::kernel::hart_local::HartCtx;
use river::kernel::kalloc::linked_list::Layout;
use river::kernel::paging::PageTable;
use river::kernel::registers::{ControlRegisters, Hart};
use river::kernel::state::CodeAddresses;

/// The blocks of a device tree.
struct Tree {
    structure: Vec<u8>,
    names: Vec<u8>,
}

impl Tree {
    fn new() -> Tree {
        Tree { structure: Vec::new(), names: Vec::new() }
    }

    fn word(&mut self, w: u32) -> &mut Tree {
        self.structure.extend_from_slice(&w.to_be_bytes());
        self
    }

    fn padded(&mut self, bytes: &[u8]) -> &mut Tree {
        self.structure.extend_from_slice(bytes);
        while self.structure.len() % 4 != 0 {
            self.structure.push(0);
        }
        self
    }

    fn begin(&mut self, name: &str) -> &mut Tree {
        let mut bytes = name.as_bytes().to_vec();
        bytes.push(0);
        self.word(1).padded(&bytes)
    }

    fn end(&mut self) -> &mut Tree {
        self.word(2)
    }

    fn property(&mut self, name: &str, value: &[u8]) -> &mut Tree {
        let at = self.names.len() as u32;
        self.names.extend_from_slice(name.as_bytes());
        self.names.push(0);
        self.word(3).word(value.len() as u32).word(at).padded(value)
    }

    fn number(&mut self, name: &str, value: u32) -> &mut Tree {
        self.property(name, &value.to_be_bytes())
    }

    /// The bytes of the tree: the header, the structure and the names.
    fn bytes(&self) -> Vec<u8> {
        let structure = self.structure.len() as u32;
        let names = self.names.len() as u32;
        let header: [u32; 10] = [
            0xd00d_feed,
            40 + structure + names,
            40,
            40 + structure,
            0,
            17,
            16,
            0,
            names,
            structure,
        ];
        let mut b: Vec<u8> = Vec::new();
        for w in header {
            b.extend_from_slice(&w.to_be_bytes());
        }
        b.extend_from_slice(&self.structure);
        b.extend_from_slice(&self.names);
        b
    }
}

fn cells(words: &[u32]) -> Vec<u8> {
    words.iter().flat_map(|w| w.to_be_bytes()).collect()
}

/// A machine with two harts, and memory from 2 GiB on.
fn machine(stdout: &str) -> Tree {
    machine_of(stdout, &[0, 1])
}

/// A machine with the given harts.
fn machine_of(stdout: &str, harts: &[u32]) -> Tree {
    let mut t = Tree::new();
    t.begin("").number("#address-cells", 2).number("#size-cells", 2);
    t.begin("chosen").property("stdout-path", format!("{stdout}\0").as_bytes()).end();
    t.begin("aliases").property("serial0", b"/soc/serial@10000000\0").end();
    t.begin("memory@80000000").property("reg", &cells(&[0, 0x8000_0000, 0, 0x1000_0000])).end();
    t.begin("cpus").number("#address-cells", 1).number("#size-cells", 0);
    t.number("timebase-frequency", 10_000_000);
    for (i, id) in harts.iter().enumerate() {
        t.begin(&format!("cpu@{id}")).number("reg", *id);
        if i > 0 {
            t.number("timebase-frequency", 20_000_000);
        }
        t.end();
    }
    t.begin("cpu-map").end();
    t.end();
    t.begin("soc").number("#address-cells", 2).number("#size-cells", 2);
    t.begin("plic@c000000").property("compatible", b"sifive,plic-1.0.0\0riscv,plic0\0");
    t.number("phandle", 3).number("#interrupt-cells", 1);
    t.property("reg", &cells(&[0, 0xC00_0000, 0, 0x60_0000])).end();
    t.begin("serial@10000000").property("compatible", b"ns16550a\0");
    t.number("interrupt-parent", 3).number("interrupts", 10);
    t.property("reg", &cells(&[0, 0x1000_0000, 0, 0x100])).end();
    t.end();
    t.end().word(5);
    t
}

fn image() -> Image {
    Image {
        kernel_start: 0x8020_0000,
        kernel_end: 0x8024_0000,
        bss_start: 0x8020_0000,
        bss_end: 0x8021_0000,
        data_start: 0x8021_0000,
        data_end: 0x8022_0000,
        tmp_stack_bottom: 0x8022_0000,
        tmp_stack_top: 0x8023_0000,
        text_start: 0x8023_0000,
        text_end: 0x8024_0000,
    }
}

fn platform(boot: u64, early: &EarlyBoot) -> Platform {
    Platform {
        layout: AddressLayout {
            physical_offset: ACTUAL_PHYSICAL_OFFSET,
            kernel_start: 0x8020_0000,
            kernel_end: 0x8024_0000,
        },
        code: CodeAddresses { user_trap_ret: 0xFFFF_FFD0_0000_1000, trampoline: 0x8023_0000 },
        boot,
        satp: early.paging.satp,
        fdt_ptr: VirtualConst::from_usize_unchecked(ACTUAL_PHYSICAL_OFFSET + 0x8700_0000),
    }
}

fn start(data: &[u8], boot: u64) -> Option<Started> {
    let early = try_early_boot(data, &image(), 0x8700_0000)?;
    let platform = platform(boot, &early);
    try_kmain(early.paging.mem, early.paging.table, &platform, data, &[1, 2, 3, 4])
}

/// The page table with which the kernel comes up.
fn early_table(data: &[u8]) -> PageTable {
    try_early_boot(data, &image(), 0x8700_0000).unwrap().paging.table
}

#[test]
fn trees_are_read() {
    let data = machine("/soc/serial@10000000").bytes();
    assert!(check_tree(&data));
    assert_eq!(
        read_regions(&data),
        Some(vec![MemoryRegion { start: 0x8000_0000, size: 0x1000_0000 }])
    );
    assert_eq!(
        read_harts(&data),
        vec![
            HartInfo { id: 0, timebase_frequency: 10_000_000 },
            HartInfo { id: 1, timebase_frequency: 20_000_000 },
        ]
    );
}

#[test]
fn the_machine_of_a_tree_boots() {
    let data = machine("/soc/serial@10000000").bytes();
    let early = try_early_boot(&data, &image(), 0x8700_0000).unwrap();
    assert_eq!(early.uart, 0x1000_0000);
    assert_eq!(early.paging.mem.next_frame() > 0x87000, true);
    let s = start(&data, 0).unwrap();
    assert_eq!(s.irqs.uart, 10);
    assert_eq!(s.plic.plic_base, ACTUAL_PHYSICAL_OFFSET + 0xC00_0000);
    assert!(s.plic.init);
    // The heap can be used at once.
    let mut s = s;
    let table = early_table(&data);
    let at = s.heap.allocate(&mut s.booted.kernel.mem, table, Layout { size: 64, align: 8 });
    assert_eq!(at, 0xFFFF_FFE0_0000_0010);
    let va: VirtualConst<u8, Identity> = VirtualConst::from_usize_unchecked(at);
    assert_eq!(table.walk(&s.booted.kernel.mem, va).unwrap().1.bits, 199);
    assert_eq!(s.booted.timebase_frequency, 10_000_000);
    assert_eq!(s.booted.timer_interval, 1_000_000);
    assert_eq!(s.booted.starts.len(), 1);
    assert_eq!(s.booted.starts[0].id, 1);
    let serial = s.booted.kernel.jobs[0].captbl.slots.iter().any(|slot| {
        matches!(slot.cap, CapabilityKind::Page(p) if p.is_device && p.phys == 0x1000_0000)
    });
    assert!(serial);
    // The boot hart can be any of them.
    let s = start(&data, 1).unwrap();
    assert_eq!(s.booted.timebase_frequency, 20_000_000);
    assert_eq!(s.booted.starts[0].id, 0);
    assert!(start(&data, 2).is_none());
}

#[test]
fn output_can_go_to_an_alias() {
    let data = machine("serial0").bytes();
    assert_eq!(try_early_boot(&data, &image(), 0x8700_0000).unwrap().uart, 0x1000_0000);
    // Options behind the name are no part of any alias.
    let data = machine("serial0:115200n8").bytes();
    assert!(check_tree(&data));
    assert!(try_early_boot(&data, &image(), 0x8700_0000).is_none());
}

#[test]
fn machines_without_what_is_needed_do_not_boot() {
    let data = machine("/soc/plic@c000000").bytes();
    // Not a serial port.
    assert!(check_tree(&data));
    assert!(try_early_boot(&data, &image(), 0x8700_0000).is_none());
    // No memory around the kernel.
    let mut t = machine("serial0");
    let at = t.structure.windows(4).position(|w| w == 0x8000_0000u32.to_be_bytes()).unwrap();
    t.structure[at..at + 4].copy_from_slice(&0x9000_0000u32.to_be_bytes());
    assert!(check_tree(&t.bytes()));
    assert!(try_early_boot(&t.bytes(), &image(), 0x8700_0000).is_none());
}

#[test]
fn harts_can_have_any_numbers() {
    // The only hart is not the first.
    let data = machine_of("serial0", &[1]).bytes();
    let s = start(&data, 1).unwrap();
    assert_eq!((s.booted.init, s.booted.starts.len()), (1, 0));
    assert!(start(&data, 0).is_none());
    // There is a gap.
    let data = machine_of("serial0", &[0, 2]).bytes();
    let s = start(&data, 0).unwrap();
    assert_eq!(s.booted.starts[0].id, 2);
    assert_eq!(s.booted.kernel.sched.per_hart[&2].idle_thread, 1);
    assert_eq!(s.booted.kernel.threads[1].tid, 3);
    let mut hart = Hart {
        csr: ControlRegisters { sstatus: 0, sie: 0, sip: 0, satp: 0, tp: 0xFFFF_FFC0_9000_0000 },
        ctx: HartCtx { hartid: 2, ..HartCtx::new() },
    };
    assert_eq!(try_kmain_hart(&mut hart, &data, 500), Some(2_000_500));
    // A mask has 64 bits.
    let data = machine_of("serial0", &[0, 64]).bytes();
    assert!(start(&data, 0).is_none());
}

#[test]
fn another_hart_reads_the_tree() {
    let data = machine("serial0").bytes();
    let mut hart = Hart {
        csr: ControlRegisters { sstatus: 0, sie: 0, sip: 0, satp: 0, tp: 0xFFFF_FFC0_9000_0000 },
        ctx: HartCtx { hartid: 1, ..HartCtx::new() },
    };
    assert_eq!(try_kmain_hart(&mut hart, &data, 500), Some(2_000_500));
    assert_eq!(hart.ctx.timebase_freq, 20_000_000);
    hart.ctx.hartid = 7;
    let before = hart;
    assert_eq!(try_kmain_hart(&mut hart, &data, 500), None);
    assert_eq!(hart, before);
}

#[test]
fn trees_that_cannot_be_read_are_refused() {
    let good = machine("serial0").bytes();
    assert!(check_tree(&good));
    let mut b = good.clone();
    b.push(0);
    assert!(!check_tree(&b));
    let mut b = good.clone();
    b[0] = 0;
    assert!(!check_tree(&b));
    assert_eq!(load_tree(&b), Err(FdtError::BadMagic));
    assert!(!check_tree(&good[..good.len() - 1]));
    // The structure does not lie in the tree.
    let mut b = good.clone();
    b[36..40].copy_from_slice(&0x1000_0000u32.to_be_bytes());
    assert!(!check_tree(&b));
    // It does not end.
    let mut t = machine("serial0");
    let n = t.structure.len();
    t.structure.truncate(n - 4);
    assert!(!check_tree(&t.bytes()));
    // Nodes end that have not begun.
    let mut t = machine("serial0");
    let n = t.structure.len();
    t.structure.truncate(n - 4);
    t.end().word(5);
    assert!(!check_tree(&t.bytes()));
    // A name is not text.
    let mut t = machine("serial0");
    let at = t.structure.windows(6).position(|w| w == b"chosen").unwrap();
    t.structure[at + 1] = 0xFF;
    assert!(!check_tree(&t.bytes()));
    // There are no harts.
    let mut t = machine("serial0");
    let at = t.structure.windows(5).position(|w| w == b"cpus\0").unwrap();
    t.structure[at] = b'x';
    assert!(!check_tree(&t.bytes()));
    // An alias stands for another one.
    let mut t = machine("serial0");
    let at = t.structure.windows(7).position(|w| w == b"/soc/se").unwrap();
    t.structure[at] = b's';
    assert!(!check_tree(&t.bytes()));
}

#[test]
fn harts_need_a_number_and_a_frequency() {
    let tree = |reg: bool, frequency: bool| {
        let mut t = Tree::new();
        t.begin("").begin("chosen").end();
        t.begin("memory").property("reg", &[]).end();
        t.begin("cpus").number("#address-cells", 1);
        if frequency {
            t.number("timebase-frequency", 5);
        }
        t.begin("cpu@0");
        if reg {
            t.number("reg", 4);
        }
        t.end().end().end().word(5);
        t.bytes()
    };
    assert!(!check_tree(&tree(false, true)));
    assert!(!check_tree(&tree(true, false)));
    let data = tree(true, true);
    assert!(check_tree(&data));
    assert_eq!(read_harts(&data), vec![HartInfo { id: 4, timebase_frequency: 5 }]);
    assert_eq!(read_regions(&data), Some(vec![]));
    // Output goes nowhere.
    assert!(try_early_boot(&data, &image(), 0x8700_0000).is_none());
}

#[test]
fn deep_trees_are_refused() {
    let tree = |depth: usize| {
        let mut t = machine("serial0");
        let n = t.structure.len();
        t.structure.truncate(n - 8);
        for _ in 0..depth {
            t.begin("x");
        }
        for _ in 0..depth {
            t.end();
        }
        // Tokens that stand for nothing can come before the end of a node.
        t.word(4).word(4).end().word(5);
        t.bytes()
    };
    assert!(check_tree(&tree(62)));
    assert!(!check_tree(&tree(63)));
    assert!(start(&tree(62), 0).is_some());
}

#[test]
fn what_trees_say_becomes_regions_and_harts() {
    assert_eq!(
        to_regions(&vec![(1, Some(2)), (3, Some(4))]),
        Some(vec![MemoryRegion { start: 1, size: 2 }, MemoryRegion { start: 3, size: 4 }])
    );
    assert_eq!(to_regions(&vec![(1, None)]), None);
    assert_eq!(to_regions(&vec![(2, Some(u64::MAX))]), None);
    assert_eq!(to_harts(&vec![(3, 9)]), vec![HartInfo { id: 3, timebase_frequency: 9 }]);
}
