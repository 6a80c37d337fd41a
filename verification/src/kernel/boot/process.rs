//! The initial process: what it finds in its memory, in its address space and
//! in its capability table.

use vstd::prelude::*;

use super::runs;
use super::window;
use crate::capability::paging::{BasePage, Page as PageCap};
use crate::capability::{AnyCap, Captr, CaptrRange, Empty as EmptyCap};
use crate::init;
use crate::init::BootInfo;
use crate::kernel::capability;
use crate::kernel::capability::thread::{OwnedTrapframe, Thread, ThreadProtected};
use crate::kernel::capability::{
    CapabilityKind, CapabilitySlotInner, CapabilityValue, InterruptPoolRef, JobRef, Page, ThreadRef,
};
use crate::kernel::ipc;
use crate::kernel::kalloc::phys;
use crate::kernel::paging;
use crate::kernel::paging::{PageTable, PageTableFlags, SharedPageTable};
use crate::kernel::physmem;
use crate::kernel::physmem::{Mem, PhysicalMemory, DIRECT_MAPPED_PAGES};
use crate::kernel::slots;
use crate::kernel::state::{Kernel, State};
use crate::kernel::threads;
use crate::kernel::trampoline::{Trapframe, TRAMPOLINE_PAGE};

verus! {

/// How much memory lies below the image of the initial process, as its stack:
/// 4 MiB.
pub const STACK_SIZE: u64 = 0x40_0000;

/// Where the memory of the initial process is mapped.
pub const INIT_ADDR: u64 = 0x1000_0000;

/// Where the initial process starts, which is also where its stack begins.
pub const INIT_ENTRY: u64 = 0x1040_0000;

/// Where the initial process finds its [`BootInfo`].
pub const BOOT_INFO_ADDR: u64 = 0x2000_0000;

/// Where the initial process finds the device tree.
pub const FDT_ADDR: u64 = 0x2000_1000;

/// The first slot that is not given to a fixed capability.
pub const FIRST_SLOT: u64 = 7;

/// The number of slots of the initial process, as a power of two.
pub const CAPTBL_SIZE_LOG2: u8 = 16;

/// The number of slots of the initial process.
pub const CAPTBL_SLOTS: u64 = 0x1_0000;

/// The number of pages that hold `len` bytes.
pub open spec fn pages_of(len: int) -> int {
    (len + 4095) / 4096
}

/// The number of pages of the initial process: its stack and its image.
pub open spec fn init_pages(len: int) -> int {
    1024 + pages_of(len)
}

/// What is said to the initial process, which has `n` pages of memory and `f`
/// pages of the device tree: the slots of each kind of page, one behind the
/// other, and behind them those that are free.
pub open spec fn info_words(n: int, f: int) -> Seq<u64> {
    seq![
        16u64,
        FIRST_SLOT,
        (FIRST_SLOT + n) as u64,
        (FIRST_SLOT + n) as u64,
        (FIRST_SLOT + n + f) as u64,
        (FIRST_SLOT + n + f) as u64,
        (FIRST_SLOT + n + f + 1) as u64,
        (FIRST_SLOT + n + f + 1) as u64,
        CAPTBL_SLOTS,
        FDT_ADDR,
    ]
}

/// What is said to the initial process.
pub fn boot_info(n: u64, f: u64) -> (r: BootInfo)
    requires
        n + f + 8 <= CAPTBL_SLOTS,
    ensures
        r.words() == info_words(n as int, f as int),
{
    let fdt_lo: u64 = FIRST_SLOT + n;
    let dev_lo: u64 = fdt_lo + f;
    let free_lo: u64 = dev_lo + 1;
    let init_pages: CaptrRange<PageCap<BasePage>> = CaptrRange::new(
        Captr::from_raw(FIRST_SLOT),
        Captr::from_raw(fdt_lo),
    );
    let fdt_pages: CaptrRange<PageCap<BasePage>> = CaptrRange::new(
        Captr::from_raw(fdt_lo),
        Captr::from_raw(dev_lo),
    );
    let dev_pages: CaptrRange<PageCap<BasePage>> = CaptrRange::new(
        Captr::from_raw(dev_lo),
        Captr::from_raw(free_lo),
    );
    let free_slots: CaptrRange<EmptyCap> = CaptrRange::new(
        Captr::from_raw(free_lo),
        Captr::from_raw(CAPTBL_SLOTS),
    );
    let info = BootInfo {
        captbl_size_log2: CAPTBL_SIZE_LOG2,
        init_pages,
        fdt_pages,
        dev_pages,
        free_slots,
        fdt_ptr: FDT_ADDR,
    };
    assert(info.words() =~= info_words(n as int, f as int));
    info
}

/// Where things were loaded, as page numbers.
#[derive(Copy, Clone, Debug, PartialEq, Eq, Structural)]
pub struct Loaded {
    /// The memory of the initial process.
    pub init: u64,
    pub init_pages: u64,
    /// The device tree.
    pub fdt: u64,
    pub fdt_pages: u64,
    /// The page that holds the [`BootInfo`].
    pub info: u64,
}

impl Loaded {
    /// Where things are loaded that have the given sizes, each in an allocation of
    /// its own.
    pub open spec fn of(mem: Mem, init: Seq<u8>, fdt: Seq<u8>) -> Loaded {
        let n = init_pages(init.len() as int);
        let f = pages_of(fdt.len() as int);
        Loaded {
            init: mem.next() as u64,
            init_pages: n as u64,
            fdt: (mem.next() + phys::frames_for(n)) as u64,
            fdt_pages: f as u64,
            info: (mem.next() + phys::frames_for(n) + phys::frames_for(f)) as u64,
        }
    }

    /// How many frames are taken for what is loaded.
    pub open spec fn frames(self) -> int {
        loaded_frames(self.init_pages as int, self.fdt_pages as int)
    }
}

/// How many frames are taken for `n` pages of memory of the initial process, `f`
/// pages of the device tree, and the page that holds what is said to it.
pub open spec fn loaded_frames(n: int, f: int) -> int {
    phys::frames_for(n) + phys::frames_for(f) + 1
}

/// How many tables the address space of the initial process needs, besides the root
/// and those on the way to its trapframe: two on the way to the trampoline, one that
/// covers everything else, and those of the last level for its memory, and for what
/// is said to it together with the device tree.
pub open spec fn space_tables(n: int, f: int) -> int {
    2 + 1 + (n + 511) / 512 + (f + 512) / 512
}

/// Whether the pages from `page` on hold `data`, `offset` bytes behind their
/// beginning, and zeroes elsewhere.
pub open spec fn holds(mem: Mem, page: int, pages: int, offset: int, data: Seq<u8>) -> bool {
    forall|p: int|
        page * 4096 <= p < (page + pages) * 4096 ==> #[trigger] mem.byte(p) == if page * 4096
            + offset <= p < page * 4096 + offset + data.len() {
            data[p - page * 4096 - offset]
        } else {
            0
        }
}

/// Whether `after` is `before` with everything loaded that the initial process
/// is given: its image behind its stack, the device tree, and the words that
/// are said to it.
pub open spec fn loaded(before: Mem, after: Mem, init: Seq<u8>, fdt: Seq<u8>) -> bool {
    let at = Loaded::of(before, init, fdt);
    &&& after.first == before.first
    &&& after.limit == before.limit
    &&& after.words.len() == before.words.len() + 512 * at.frames()
    &&& forall|p: int| before.has_bytes(p, 1) ==> #[trigger] after.byte(p) == before.byte(p)
    &&& holds(after, at.init as int, at.init_pages as int, STACK_SIZE as int, init)
    &&& holds(after, at.fdt as int, at.fdt_pages as int, 0, fdt)
    &&& forall|i: int|
        0 <= i < 10 ==> #[trigger] after.word(at.info * 4096 + 8 * i) == info_words(
            at.init_pages as int,
            at.fdt_pages as int,
        )[i]
}

/// A zero word consists of zero bytes.
proof fn lemma_zero_bytes(s: u64)
    by (bit_vector)
    ensures
        (0u64 >> s) & 0xFF == 0,
{
}

/// Pages that have just been handed out hold zeroes.
pub proof fn lemma_fresh_pages(m: Mem, n: int)
    requires
        m.wf(),
        0 <= n <= m.available(),
    ensures
        m.grow_by(n).wf(),
        m.grow_by(n).next() == m.next() + n,
        forall|p: int| m.has_bytes(p, 1) ==> #[trigger] m.grow_by(n).byte(p) == m.byte(p),
        forall|p: int|
            m.next() * 4096 <= p < (m.next() + n) * 4096 ==> #[trigger] m.grow_by(n).byte(p) == 0,
{
    let g = m.grow_by(n);
    assert(g.words.len() == m.words.len() + 512 * n);
    assert(g.frames() == m.frames() + n);
    assert forall|p: int|
        m.next() * 4096 <= p < (m.next() + n) * 4096 implies #[trigger] g.byte(p) == 0 by {
        lemma_zero_bytes((8 * (p % 8)) as u64);
        let j = p / 8 - m.first * 512;
        assert(m.words.len() <= j < g.words.len());
        assert(g.words[j] == 0);
    }
}

/// Load everything that the initial process is given.
pub fn load(mem: &mut PhysicalMemory, init: &[u8], fdt: &[u8]) -> (r: Loaded)
    requires
        old(mem)@.wf(),
        init_pages(init@.len() as int) + pages_of(fdt@.len() as int) + 8 <= CAPTBL_SLOTS,
        old(mem)@.available() >= loaded_frames(
            init_pages(init@.len() as int),
            pages_of(fdt@.len() as int),
        ),
    ensures
        final(mem)@.wf(),
        loaded(old(mem)@, final(mem)@, init@, fdt@),
        r == Loaded::of(old(mem)@, init@, fdt@),
{
    let ghost m0 = mem@;
    let n: u64 = 1024 + (init.len() as u64 + 4095) / 4096;
    let f: u64 = (fdt.len() as u64 + 4095) / 4096;
    let n_frames: u64 = phys::allocation_pages(n);
    let f_frames: u64 = phys::allocation_pages(f);
    proof {
        phys::law_frames_for(n as int);
        phys::law_frames_for(f as int);
        lemma_fresh_pages(m0, n_frames + f_frames + 1);
    }
    let at: u64 = mem.allocate_run(n_frames + f_frames + 1);
    let ghost m1 = mem@;
    let fdt_at: u64 = at + n_frames;
    let info_at: u64 = fdt_at + f_frames;
    mem.write_bytes(at * 4096 + STACK_SIZE, init);
    let ghost m2 = mem@;
    mem.write_bytes(fdt_at * 4096, fdt);
    let ghost m3 = mem@;
    let info = boot_info(n, f);
    let words = info.to_words();
    mem.write_words(info_at * 4096, &words);
    let ghost m4 = mem@;
    let r = Loaded { init: at, init_pages: n, fdt: fdt_at, fdt_pages: f, info: info_at };
    proof {
        assert(m2.next() == m1.next() && m3.next() == m1.next() && m4.next() == m1.next());
        assert forall|p: int| m0.has_bytes(p, 1) implies #[trigger] m4.byte(p) == m0.byte(p) by {
            assert(m1.byte(p) == m0.byte(p));
            assert(m2.byte(p) == m1.byte(p));
            assert(m3.byte(p) == m2.byte(p));
        }
        assert(holds(m4, at as int, n as int, STACK_SIZE as int, init@)) by {
            assert forall|p: int| at * 4096 <= p < (at + n) * 4096 implies #[trigger] m4.byte(p)
                == if at * 4096 + STACK_SIZE <= p < at * 4096 + STACK_SIZE + init@.len() {
                init@[p - at * 4096 - STACK_SIZE]
            } else {
                0
            } by {
                assert(m1.byte(p) == 0);
                assert(m3.byte(p) == m2.byte(p));
            }
        }
        assert(holds(m4, fdt_at as int, f as int, 0, fdt@)) by {
            assert forall|p: int|
                fdt_at * 4096 <= p < (fdt_at + f) * 4096 implies #[trigger] m4.byte(p)
                == if fdt_at * 4096 <= p < fdt_at * 4096 + fdt@.len() {
                fdt@[p - fdt_at * 4096]
            } else {
                0
            } by {
                assert(m1.byte(p) == 0);
                assert(m2.byte(p) == m1.byte(p));
            }
        }
    }
    r
}

/// Where the trapframe of the initial process is mapped: the first page of the
/// upper half of the address space.
pub const TRAPFRAME_PAGE: u64 = 0xFFFF_FFC0_0000_0000;

/// The memory of the initial process can be read, written and executed by it.
pub const INIT_FLAGS: u8 = 223;

/// What the initial process is told can be read by it.
pub const INFO_FLAGS: u8 = 211;

/// The trampoline can be read and executed, but not by userspace.
pub const TRAMPOLINE_FLAGS: u8 = 203;

/// The trapframe can be read and written, but not by userspace.
pub const TRAPFRAME_FLAGS: u8 = 199;

/// The flags allow access.
pub proof fn lemma_flags()
    ensures
        paging::flags_valid(INIT_FLAGS),
        paging::flags_access(INIT_FLAGS),
        paging::flags_valid(INFO_FLAGS),
        paging::flags_access(INFO_FLAGS),
        paging::flags_valid(TRAMPOLINE_FLAGS),
        paging::flags_access(TRAMPOLINE_FLAGS),
        paging::flags_valid(TRAPFRAME_FLAGS),
        paging::flags_access(TRAPFRAME_FLAGS),
{
    reveal(paging::flags_valid);
    reveal(paging::flags_access);
}

/// What the slots of the initial process hold: its fixed capabilities, and
/// behind them its memory, the device tree and the serial port, page by page.
pub open spec fn init_cap(
    at: Loaded,
    root: u64,
    t: usize,
    job: usize,
    pool: usize,
    uart: u64,
    i: int,
) -> CapabilityKind {
    let fdt_lo = FIRST_SLOT + at.init_pages;
    let dev_lo = fdt_lo + at.fdt_pages;
    if i == init::JOB_SLOT {
        CapabilityKind::Job(job)
    } else if i == init::PGTBL_SLOT {
        CapabilityKind::PgTbl(SharedPageTable { root })
    } else if i == init::THREAD_SLOT {
        CapabilityKind::Thread(t)
    } else if i == init::BOOTINFO_SLOT {
        page_cap(at.info as int)
    } else if i == init::INTR_POOL_SLOT {
        CapabilityKind::InterruptPool(pool)
    } else if FIRST_SLOT <= i < fdt_lo {
        page_cap(at.init + i - FIRST_SLOT)
    } else if fdt_lo <= i < dev_lo {
        page_cap(at.fdt + i - fdt_lo)
    } else if i == dev_lo {
        CapabilityKind::Page(Page { phys: uart, size_log2: 12, is_device: true })
    } else {
        CapabilityKind::Empty
    }
}

/// A page of memory.
pub open spec fn page_cap(ppn: int) -> CapabilityKind {
    CapabilityKind::Page(Page { phys: (ppn * 4096) as u64, size_log2: 12, is_device: false })
}

/// Where the pages of the initial process are mapped, and the pages that lie
/// there.
pub open spec fn address_space(mem: Mem, root: int, at: Loaded, trampoline: u64, frame: int) -> bool {
    &&& paging::tree_wf(mem, root)
    &&& paging::unshared(mem, root)
    &&& forall|i: int|
        0 <= i < at.init_pages ==> paging::walk_spec(
            mem,
            root,
            #[trigger] runs::nth(INIT_ADDR, i),
        ) == Some((((at.init + i) * 4096) as u64, INIT_FLAGS))
    &&& forall|i: int|
        0 <= i < at.fdt_pages ==> paging::walk_spec(
            mem,
            root,
            #[trigger] runs::nth(FDT_ADDR, i),
        ) == Some((((at.fdt + i) * 4096) as u64, INFO_FLAGS))
    &&& paging::walk_spec(mem, root, BOOT_INFO_ADDR) == Some(
        ((at.info * 4096) as u64, INFO_FLAGS),
    )
    &&& paging::walk_spec(mem, root, TRAMPOLINE_PAGE) == Some((trampoline, TRAMPOLINE_FLAGS))
    &&& paging::walk_spec(mem, root, TRAPFRAME_PAGE) == Some(
        ((frame * 4096) as u64, TRAPFRAME_FLAGS),
    )
}

/// The page numbers of the addresses of the initial process.
pub proof fn lemma_page_numbers(i: int)
    requires
        0 <= i < CAPTBL_SLOTS,
    ensures
        runs::page(runs::nth(INIT_ADDR, i)) == 0x1_0000 + i,
        runs::page(runs::nth(FDT_ADDR, i)) == 0x2_0001 + i,
        runs::page(BOOT_INFO_ADDR) == 0x2_0000,
        runs::page(TRAMPOLINE_PAGE) == 0x7FF_FFFF,
        runs::page(TRAPFRAME_PAGE) == 0x400_0000,
{
    reveal(runs::page);
}

/// Memory once the address space of the initial process is complete, after
/// each step: the trampoline, its memory, the device tree, and what it is told.
pub open spec fn step(m: Mem, root: int, at: Loaded, trampoline: u64, k: int) -> Mem {
    let m1 = runs::run_mapped(m, root, trampoline, TRAMPOLINE_PAGE, TRAMPOLINE_FLAGS, 1);
    let m2 = runs::run_mapped(
        m1,
        root,
        (at.init * 4096) as u64,
        INIT_ADDR,
        INIT_FLAGS,
        at.init_pages as int,
    );
    let m3 = runs::run_mapped(
        m2,
        root,
        (at.fdt * 4096) as u64,
        FDT_ADDR,
        INFO_FLAGS,
        at.fdt_pages as int,
    );
    let m4 = runs::run_mapped(m3, root, (at.info * 4096) as u64, BOOT_INFO_ADDR, INFO_FLAGS, 1);
    if k == 0 {
        m
    } else if k == 1 {
        m1
    } else if k == 2 {
        m2
    } else if k == 3 {
        m3
    } else {
        m4
    }
}

/// Whether what was loaded can be mapped into a table that maps nothing but a
/// trapframe.
pub open spec fn ready(m: Mem, root: int, at: Loaded, trampoline: u64, frame: int) -> bool {
    &&& m.wf()
    &&& paging::tree_wf(m, root)
    &&& paging::unshared(m, root)
    &&& at.init_pages + at.fdt_pages + 8 <= CAPTBL_SLOTS
    &&& at.init + at.init_pages <= DIRECT_MAPPED_PAGES
    &&& at.fdt + at.fdt_pages <= DIRECT_MAPPED_PAGES
    &&& at.info < DIRECT_MAPPED_PAGES
    &&& trampoline % 4096 == 0
    &&& trampoline < DIRECT_MAPPED_PAGES * 4096
    &&& paging::walk_spec(m, root, TRAPFRAME_PAGE) == Some(
        ((frame * 4096) as u64, TRAPFRAME_FLAGS),
    )
    &&& forall|va: u64|
        runs::page(va) != runs::page(TRAPFRAME_PAGE) ==> #[trigger] paging::walk_spec(
            m,
            root,
            va,
        ) is None
}

/// Whether a table maps nothing but some trapframe, and everything else can be
/// mapped into it.
pub open spec fn readied(m: Mem, root: int, at: Loaded, trampoline: u64) -> bool {
    exists|frame: int| #[trigger] ready(m, root, at, trampoline, frame)
}

/// The trampoline can be mapped, and is found then.
pub proof fn lemma_step1(m: Mem, root: int, at: Loaded, trampoline: u64, frame: int)
    requires
        ready(m, root, at, trampoline, frame),
        m.available() >= 2,
    ensures
        runs::run_mappable(m, root, trampoline, TRAMPOLINE_PAGE, TRAMPOLINE_FLAGS, 1),
        ({
            let n = step(m, root, at, trampoline, 1);
            &&& n.wf()
            &&& paging::tree_wf(n, root)
            &&& paging::unshared(n, root)
            &&& n.available() >= m.available() - 2
            &&& paging::walk_spec(n, root, TRAMPOLINE_PAGE) == Some((trampoline, TRAMPOLINE_FLAGS))
            &&& paging::walk_spec(n, root, TRAPFRAME_PAGE) == Some(
                ((frame * 4096) as u64, TRAPFRAME_FLAGS),
            )
            &&& forall|va: u64|
                runs::page(va) < 0x400_0000 ==> #[trigger] paging::walk_spec(n, root, va) is None
        }),
{
    lemma_flags();
    lemma_page_numbers(0);
    assert(runs::nth(TRAMPOLINE_PAGE, 0) == TRAMPOLINE_PAGE);
    assert(paging::walk_spec(m, root, TRAMPOLINE_PAGE) is None);
    assert forall|i: int| 0 <= i < 1 implies paging::translate(
        m,
        root,
        #[trigger] runs::nth(TRAMPOLINE_PAGE, i),
    ) is None by {}
    runs::lemma_missing(m, root, TRAMPOLINE_PAGE, 1, 1);
    runs::law_run_tables(m, root, trampoline, TRAMPOLINE_PAGE, TRAMPOLINE_FLAGS, 1);
    let n = step(m, root, at, trampoline, 1);
    runs::law_run_walk(
        m,
        root,
        trampoline,
        TRAMPOLINE_PAGE,
        TRAMPOLINE_FLAGS,
        1,
        TRAMPOLINE_PAGE,
    );
    runs::law_run_walk(m, root, trampoline, TRAMPOLINE_PAGE, TRAMPOLINE_FLAGS, 1, TRAPFRAME_PAGE);
    assert forall|va: u64| runs::page(va) < 0x400_0000 implies #[trigger] paging::walk_spec(
        n,
        root,
        va,
    ) is None by {
        runs::law_run_walk(m, root, trampoline, TRAMPOLINE_PAGE, TRAMPOLINE_FLAGS, 1, va);
    }
}

/// The page numbers of addresses of the lower half.
proof fn lemma_low_page(to: u64, i: int)
    requires
        to % 4096 == 0,
        to < 0x3000_0000,
        0 <= i < CAPTBL_SLOTS,
    ensures
        runs::page(runs::nth(to, i)) == to / 4096 + i,
        runs::nth(to, i) % 4096 == 0,
{
    reveal(runs::page);
}

/// A run of pages of the lower half, which nothing is mapped to yet, can be
/// mapped, and is found then; what is mapped elsewhere stays.
#[verifier::rlimit(40)]
#[verifier::spinoff_prover]
pub proof fn lemma_low_run(m: Mem, root: int, from: u64, to: u64, flags: u8, n: int)
    requires
        m.wf(),
        paging::tree_wf(m, root),
        paging::unshared(m, root),
        from % 4096 == 0,
        to % 4096 == 0,
        0 <= n < CAPTBL_SLOTS,
        INIT_ADDR <= to < 0x3000_0000,
        from + 4096 * n <= DIRECT_MAPPED_PAGES * 4096,
        m.available() >= runs::tables_missing(m, root, to, n),
        paging::flags_valid(flags),
        paging::flags_access(flags),
        forall|va: u64|
            to / 4096 <= runs::page(va) < to / 4096 + n ==> #[trigger] paging::walk_spec(
                m,
                root,
                va,
            ) is None,
    ensures
        runs::run_mappable(m, root, from, to, flags, n),
        ({
            let after = runs::run_mapped(m, root, from, to, flags, n);
            &&& after.wf()
            &&& paging::tree_wf(after, root)
            &&& paging::unshared(after, root)
            &&& after.available() >= m.available() - runs::tables_missing(m, root, to, n)
            &&& runs::tables_kept(m, after, root)
            &&& forall|i: int| 0 <= i < n ==> runs::reached(after, root, #[trigger] runs::nth(to, i))
            &&& forall|i: int|
                0 <= i < n ==> paging::walk_spec(after, root, #[trigger] runs::nth(to, i)) == Some(
                    ((from + 4096 * i) as u64, flags),
                )
            &&& forall|va: u64|
                !(to / 4096 <= runs::page(va) < to / 4096 + n) ==> #[trigger] paging::walk_spec(
                    after,
                    root,
                    va,
                ) == paging::walk_spec(m, root, va)
        }),
{
    let after = runs::run_mapped(m, root, from, to, flags, n);
    assert forall|i: int| 0 <= i < n implies runs::page(#[trigger] runs::nth(to, i)) == to / 4096
        + i && runs::nth(to, i) % 4096 == 0 by {
        lemma_low_page(to, i);
    }
    assert forall|i: int| 0 <= i < n implies paging::translate(
        m,
        root,
        #[trigger] runs::nth(to, i),
    ) is None by {
        assert(paging::walk_spec(m, root, runs::nth(to, i)) is None);
    }
    runs::law_run_walk(m, root, from, to, flags, n, 0);
    runs::law_run_tables(m, root, from, to, flags, n);
    assert forall|i: int| 0 <= i < n implies paging::walk_spec(
        after,
        root,
        #[trigger] runs::nth(to, i),
    ) == Some(((from + 4096 * i) as u64, flags)) by {
        let va = runs::nth(to, i);
        runs::law_run_walk(m, root, from, to, flags, n, va);
        assert(va % 4096 == 0);
        assert(runs::nth(from, i) == from + 4096 * i);
    }
    assert forall|va: u64|
        !(to / 4096 <= runs::page(va) < to / 4096 + n) implies #[trigger] paging::walk_spec(
        after,
        root,
        va,
    ) == paging::walk_spec(m, root, va) by {
        runs::law_run_walk(m, root, from, to, flags, n, va);
    }
}

/// A run in the first gibibyte lacks only tables of the last level, where the one of
/// the middle level is there.
proof fn lemma_last_missing(m: Mem, root: int, to: u64, n: int)
    requires
        to % 4096 == 0,
        0 <= n,
        to + 4096 * n <= 0x4000_0000,
        paging::b2(m, root, 0),
    ensures
        n > 0 ==> runs::tables_missing(m, root, to, n) <= (to + 4096 * (n - 1)) / 0x20_0000 - to
            / 0x20_0000 + 1,
        n == 0 ==> runs::tables_missing(m, root, to, n) == 0,
    decreases n,
{
    if n > 0 {
        lemma_last_missing(m, root, to, n - 1);
        let x = to + 4096 * (n - 1);
        assert(runs::nth(to, n - 1) == x);
        assert(crate::addr::virt::vpn(x as u64, 2) == 0);
        if n > 1 {
            assert(x % 0x20_0000 != 0 ==> x / 0x20_0000 == (x - 4096) / 0x20_0000);
            assert(x % 0x20_0000 == 0 ==> x / 0x20_0000 == (x - 4096) / 0x20_0000 + 1);
        }
    }
}

/// What the initial process is given can be mapped step by step, and is all
/// found then.
#[verifier::rlimit(60)]
#[verifier::spinoff_prover]
proof fn lemma_steps(m: Mem, root: int, at: Loaded, trampoline: u64, frame: int)
    requires
        ready(m, root, at, trampoline, frame),
        at.init_pages > 0,
        m.available() >= space_tables(at.init_pages as int, at.fdt_pages as int),
    ensures
        runs::run_mappable(m, root, trampoline, TRAMPOLINE_PAGE, TRAMPOLINE_FLAGS, 1),
        paging::tree_wf(step(m, root, at, trampoline, 1), root),
        paging::tree_wf(step(m, root, at, trampoline, 2), root),
        paging::tree_wf(step(m, root, at, trampoline, 3), root),
        !paging::flags_point(TRAMPOLINE_FLAGS),
        !paging::flags_point(INIT_FLAGS),
        !paging::flags_point(INFO_FLAGS),
        runs::run_mappable(
            step(m, root, at, trampoline, 1),
            root,
            (at.init * 4096) as u64,
            INIT_ADDR,
            INIT_FLAGS,
            at.init_pages as int,
        ),
        runs::run_mappable(
            step(m, root, at, trampoline, 2),
            root,
            (at.fdt * 4096) as u64,
            FDT_ADDR,
            INFO_FLAGS,
            at.fdt_pages as int,
        ),
        runs::run_mappable(
            step(m, root, at, trampoline, 3),
            root,
            (at.info * 4096) as u64,
            BOOT_INFO_ADDR,
            INFO_FLAGS,
            1,
        ),
        step(m, root, at, trampoline, 4).wf(),
        paging::tree_wf(step(m, root, at, trampoline, 4), root),
        paging::unshared(step(m, root, at, trampoline, 4), root),
        address_space(step(m, root, at, trampoline, 4), root, at, trampoline, frame),
{
    lemma_flags();
    lemma_page_numbers(0);
    lemma_step1(m, root, at, trampoline, frame);
    let m1 = step(m, root, at, trampoline, 1);
    let n = at.init_pages as int;
    let f = at.fdt_pages as int;
    runs::lemma_missing(m1, root, INIT_ADDR, n, n);
    assert(runs::tables_spanned(INIT_ADDR, n) == 1 + (n + 511) / 512);
    lemma_low_run(m1, root, (at.init * 4096) as u64, INIT_ADDR, INIT_FLAGS, n);
    let m2 = step(m, root, at, trampoline, 2);
    assert(paging::b2(m2, root, 0)) by {
        assert(runs::nth(INIT_ADDR, 0) == INIT_ADDR);
        assert(runs::reached(m2, root, runs::nth(INIT_ADDR, 0)));
    }
    lemma_last_missing(m2, root, FDT_ADDR, f);
    lemma_low_run(m2, root, (at.fdt * 4096) as u64, FDT_ADDR, INFO_FLAGS, f);
    let m3 = step(m, root, at, trampoline, 3);
    lemma_last_missing(m3, root, BOOT_INFO_ADDR, 1);
    assert(f > 0 ==> runs::tables_missing(m3, root, BOOT_INFO_ADDR, 1) == 0) by {
        if f > 0 {
            assert(runs::nth(FDT_ADDR, 0) == FDT_ADDR);
            assert(runs::reached(m3, root, runs::nth(FDT_ADDR, 0)));
            assert(runs::nth(BOOT_INFO_ADDR, 0) == BOOT_INFO_ADDR);
            reveal_with_fuel(runs::tables_missing, 2);
        }
    }
    lemma_low_run(m3, root, (at.info * 4096) as u64, BOOT_INFO_ADDR, INFO_FLAGS, 1);
    let m4 = step(m, root, at, trampoline, 4);
    assert forall|i: int| 0 <= i < n implies paging::walk_spec(
        m4,
        root,
        #[trigger] runs::nth(INIT_ADDR, i),
    ) == Some((((at.init + i) * 4096) as u64, INIT_FLAGS)) by {
        lemma_page_numbers(i);
        assert(paging::walk_spec(m3, root, runs::nth(INIT_ADDR, i)) == paging::walk_spec(
            m2,
            root,
            runs::nth(INIT_ADDR, i),
        ));
    }
    assert forall|i: int| 0 <= i < f implies paging::walk_spec(
        m4,
        root,
        #[trigger] runs::nth(FDT_ADDR, i),
    ) == Some((((at.fdt + i) * 4096) as u64, INFO_FLAGS)) by {
        lemma_page_numbers(i);
    }
    assert(runs::nth(BOOT_INFO_ADDR, 0) == BOOT_INFO_ADDR);
    assert(paging::walk_spec(m4, root, TRAMPOLINE_PAGE) == paging::walk_spec(
        m1,
        root,
        TRAMPOLINE_PAGE,
    )) by {
        assert(paging::walk_spec(m3, root, TRAMPOLINE_PAGE) == paging::walk_spec(
            m2,
            root,
            TRAMPOLINE_PAGE,
        ));
    }
    assert(paging::walk_spec(m4, root, TRAPFRAME_PAGE) == paging::walk_spec(
        m1,
        root,
        TRAPFRAME_PAGE,
    )) by {
        assert(paging::walk_spec(m3, root, TRAPFRAME_PAGE) == paging::walk_spec(
            m2,
            root,
            TRAPFRAME_PAGE,
        ));
    }
}

/// Map what was loaded into a table, behind it in memory, that maps nothing but
/// a trapframe.
#[verifier::spinoff_prover]
#[verifier::rlimit(60)]
fn map_loaded(mem: &mut PhysicalMemory, table: PageTable, at: Loaded, trampoline: u64)
    requires
        window::splits(old(mem)@, table.root as int),
        readied(window::from(old(mem)@, table.root as int), table.root as int, at, trampoline),
        at.init_pages > 0,
        old(mem)@.available() >= space_tables(at.init_pages as int, at.fdt_pages as int),
    ensures
        final(mem)@ == step(old(mem)@, table.root as int, at, trampoline, 4),
        final(mem)@.wf(),
        window::same_below(final(mem)@, old(mem)@, table.root as int),
        window::from(final(mem)@, table.root as int) == step(
            window::from(old(mem)@, table.root as int),
            table.root as int,
            at,
            trampoline,
            4,
        ),
{
    let ghost m = mem@;
    let ghost root = table.root as int;
    let ghost w = window::from(m, root);
    proof {
        window::lemma_from(m, root);
        let frame = choose|frame: int| #[trigger] ready(w, root, at, trampoline, frame);
        lemma_steps(w, root, at, trampoline, frame);
        window::lemma_from_run(m, root, root, trampoline, TRAMPOLINE_PAGE, TRAMPOLINE_FLAGS, 1);
    }
    runs::map_run(
        mem,
        table,
        trampoline,
        TRAMPOLINE_PAGE,
        PageTableFlags { bits: TRAMPOLINE_FLAGS },
        1,
    );
    let ghost m1 = mem@;
    proof {
        window::lemma_from_run(
            m1,
            root,
            root,
            (at.init * 4096) as u64,
            INIT_ADDR,
            INIT_FLAGS,
            at.init_pages as int,
        );
    }
    runs::map_run(
        mem,
        table,
        at.init * 4096,
        INIT_ADDR,
        PageTableFlags { bits: INIT_FLAGS },
        at.init_pages,
    );
    let ghost m2 = mem@;
    proof {
        window::lemma_from_run(
            m2,
            root,
            root,
            (at.fdt * 4096) as u64,
            FDT_ADDR,
            INFO_FLAGS,
            at.fdt_pages as int,
        );
    }
    runs::map_run(
        mem,
        table,
        at.fdt * 4096,
        FDT_ADDR,
        PageTableFlags { bits: INFO_FLAGS },
        at.fdt_pages,
    );
    let ghost m3 = mem@;
    proof {
        window::lemma_from_run(
            m3,
            root,
            root,
            (at.info * 4096) as u64,
            BOOT_INFO_ADDR,
            INFO_FLAGS,
            1,
        );
    }
    runs::map_run(
        mem,
        table,
        at.info * 4096,
        BOOT_INFO_ADDR,
        PageTableFlags { bits: INFO_FLAGS },
        1,
    );
}

/// The slots once those from `slot` on hold the `n` pages from `ppn` on.
pub open spec fn with_pages(
    slots: Seq<CapabilitySlotInner>,
    slot: int,
    ppn: int,
    n: int,
) -> Seq<CapabilitySlotInner> {
    Seq::new(
        slots.len(),
        |i: int|
            if slot <= i < slot + n {
                CapabilitySlotInner::holding(page_cap(ppn + i - slot))
            } else {
                slots[i]
            },
    )
}

/// What all the slots of the initial process hold.
pub open spec fn init_slots(
    at: Loaded,
    root: u64,
    t: usize,
    job: usize,
    pool: usize,
    uart: u64,
) -> Seq<CapabilitySlotInner> {
    Seq::new(
        CAPTBL_SLOTS as nat,
        |i: int| CapabilitySlotInner::holding(init_cap(at, root, t, job, pool, uart, i)),
    )
}

/// Put a value into an empty slot of a job.
fn place<T: CapabilityValue>(k: &mut Kernel, job: usize, index: u64, val: T)
    requires
        old(k)@.wf(),
        job < old(k)@.jobs.len(),
        0 < index < old(k)@.jobs[job as int].slots.len(),
        old(k)@.jobs[job as int].slots[index as int].cap is Empty,
        old(k)@.kind_wf(val.kind()),
        capability::countable(old(k)@.threads, val.kind()),
    ensures
        final(k)@ == slots::filled(
            old(k)@,
            job,
            index as int,
            CapabilitySlotInner::holding(val.kind()),
        ),
        final(k)@.wf(),
{
    proof {
        slots::lemma_filled(
            k@,
            job,
            index as int,
            CapabilitySlotInner::holding(val.kind()),
        );
    }
    assert(k@.jobs[job as int] == k.jobs@[job as int]@);
    if let Ok(slot) = k.jobs[job].captbl.get_mut::<EmptyCap>(index) {
        let _ = slot.replace::<T, AnyCap>(val, &mut k.threads);
    }
    assert(k@ =~= slots::filled(
        old(k)@,
        job,
        index as int,
        CapabilitySlotInner::holding(val.kind()),
    ));
}

/// Put pages into empty slots of a job, one behind the other.
fn place_pages(k: &mut Kernel, job: usize, slot: u64, ppn: u64, n: u64)
    requires
        old(k)@.wf(),
        job < old(k)@.jobs.len(),
        0 < slot,
        slot + n <= old(k)@.jobs[job as int].slots.len() <= CAPTBL_SLOTS,
        ppn + n <= DIRECT_MAPPED_PAGES,
        forall|i: int|
            slot <= i < slot + n ==> (#[trigger] old(k)@.jobs[job as int].slots[i]).cap is Empty,
    ensures
        final(k)@ == old(k)@.set_slots(
            job,
            with_pages(old(k)@.jobs[job as int].slots, slot as int, ppn as int, n as int),
        ),
        final(k)@.wf(),
{
    let ghost st = k@;
    let ghost before = st.jobs[job as int].slots;
    let mut i: u64 = 0;
    assert(with_pages(before, slot as int, ppn as int, 0) =~= before);
    assert(st =~= st.set_slots(job, before));
    while i < n
        invariant
            i <= n,
            job < st.jobs.len(),
            before == st.jobs[job as int].slots,
            0 < slot,
            slot + n <= before.len() <= CAPTBL_SLOTS,
            ppn + n <= DIRECT_MAPPED_PAGES,
            forall|i: int| slot <= i < slot + n ==> (#[trigger] before[i]).cap is Empty,
            k@.wf(),
            k@ == st.set_slots(job, with_pages(before, slot as int, ppn as int, i as int)),
        decreases n - i,
    {
        let page = Page::new((ppn + i) * 4096, 12);
        assert(k@.jobs[job as int].slots[slot + i] == before[slot + i]);
        place(k, job, slot + i, page);
        proof {
            let after = with_pages(before, slot as int, ppn as int, i + 1);
            assert(with_pages(before, slot as int, ppn as int, i as int).update(
                slot + i,
                CapabilitySlotInner::holding(page_cap(ppn + i)),
            ) =~= after);
            assert(k@ =~= st.set_slots(job, after));
        }
        i += 1;
    }
}

/// Give the initial process its capabilities.
fn place_all(
    k: &mut Kernel,
    at: Loaded,
    table: SharedPageTable,
    t: usize,
    job: usize,
    pool: usize,
    uart: u64,
)
    requires
        old(k)@.wf(),
        t < old(k)@.threads.len(),
        job < old(k)@.jobs.len(),
        pool < old(k)@.pools.len(),
        old(k)@.jobs[job as int].slots.len() == CAPTBL_SLOTS,
        forall|i: int|
            0 <= i < CAPTBL_SLOTS ==> #[trigger] old(k)@.jobs[job as int].slots[i]
                == CapabilitySlotInner::holding(CapabilityKind::Empty),
        at.init_pages + at.fdt_pages + 8 <= CAPTBL_SLOTS,
        at.init + at.init_pages <= DIRECT_MAPPED_PAGES,
        at.fdt + at.fdt_pages <= DIRECT_MAPPED_PAGES,
        at.info < DIRECT_MAPPED_PAGES,
        capability::countable(old(k)@.threads, CapabilityKind::Thread(t)),
    ensures
        final(k)@ == (State {
            threads: capability::counted(old(k)@.threads, CapabilityKind::Thread(t)),
            ..old(k)@.set_slots(job, init_slots(at, table.root, t, job, pool, uart))
        }),
        final(k)@.wf(),
{
    let ghost st = k@;
    let ghost s0 = st.jobs[job as int].slots;
    place_pages(k, job, FIRST_SLOT, at.init, at.init_pages);
    let fdt_lo: u64 = FIRST_SLOT + at.init_pages;
    place_pages(k, job, fdt_lo, at.fdt, at.fdt_pages);
    let dev_lo: u64 = fdt_lo + at.fdt_pages;
    place(k, job, dev_lo, Page::new_device(uart, 12));
    place(k, job, init::BOOTINFO_SLOT, Page::new(at.info * 4096, 12));
    place(k, job, init::INTR_POOL_SLOT, InterruptPoolRef(pool));
    place(k, job, init::PGTBL_SLOT, table);
    place(k, job, init::JOB_SLOT, JobRef(job));
    place(k, job, init::THREAD_SLOT, ThreadRef(t));
    proof {
        let after = init_slots(at, table.root, t, job, pool, uart);
        assert(k@.jobs[job as int].slots =~= after);
        assert(k@ =~= (State {
            threads: capability::counted(st.threads, CapabilityKind::Thread(t)),
            ..st.set_slots(job, after)
        }));
    }
}

/// The thread of the initial process before it is let run.
pub open spec fn init_thread(st: State, at: Loaded, job: usize) -> Thread {
    let root = (st.mem.next() + at.frames()) as u64;
    let made = State { mem: st.mem.grow_by(at.frames() + 1), ..st };
    let fresh = threads::fresh_thread(made, Some(SharedPageTable { root }), job);
    Thread {
        trapframe: OwnedTrapframe {
            frame: Trapframe {
                user_epc: INIT_ENTRY,
                sp: INIT_ENTRY,
                a0: BOOT_INFO_ADDR,
                ..Trapframe::zeroed()
            },
            ..fresh.trapframe
        },
        private: ThreadProtected { trapframe_addr: TRAPFRAME_PAGE, ..fresh.private },
        slot_refcount: 1,
        ..fresh
    }
}

/// The kernel once the initial process is there, before it is let run, given
/// what memory holds then.
pub open spec fn init_made(
    st: State,
    name: Seq<char>,
    at: Loaded,
    job: usize,
    pool: usize,
    uart: u64,
    mem: Mem,
) -> State {
    let t = st.threads.len() as usize;
    let root = (st.mem.next() + at.frames()) as u64;
    State {
        threads: st.threads.push(init_thread(st, at, job)),
        names: st.names.push(name),
        blocking: st.blocking.push(Seq::empty()),
        mem,
        next_tid: (st.next_tid + 1) as u16,
        ..st.set_slots(job, init_slots(at, root, t, job, pool, uart))
    }
}

/// Whether memory holds what the initial process is given, and otherwise what
/// it held before.
pub open spec fn given(before: Mem, after: Mem, at: Loaded, init: Seq<u8>, fdt: Seq<u8>) -> bool {
    &&& window::same_below(after, before, before.next())
    &&& forall|p: int| before.has_bytes(p, 1) ==> #[trigger] after.byte(p) == before.byte(p)
    &&& holds(after, at.init as int, at.init_pages as int, STACK_SIZE as int, init)
    &&& holds(after, at.fdt as int, at.fdt_pages as int, 0, fdt)
    &&& forall|i: int|
        0 <= i < 10 ==> #[trigger] after.word(at.info * 4096 + 8 * i) == info_words(
            at.init_pages as int,
            at.fdt_pages as int,
        )[i]
}

/// Bytes and words below a frame are the same in memories that are the same
/// there.
pub proof fn lemma_same_bytes(a: Mem, b: Mem, lo: int, p: int)
    requires
        window::same_below(a, b, lo),
        a.first * 4096 <= p < lo * 4096,
    ensures
        a.byte(p) == b.byte(p),
        a.word(p) == b.word(p),
{
    let k = window::words_below(a, lo);
    let j = p / 8 - a.first * 512;
    assert(0 <= j < k);
    assert(a.words.take(k)[j] == a.words[j]);
    assert(b.words.take(k)[j] == b.words[j]);
}

/// Words are the same if all of their bytes are.
proof fn lemma_bytes_make_word(a: u64, b: u64)
    requires
        forall|i: int|
            0 <= i < 8 ==> #[trigger] physmem::byte_of(a, i)
                == physmem::byte_of(b, i),
    ensures
        a == b,
{
    assert(physmem::byte_of(a, 0) == physmem::byte_of(b, 0));
    assert(physmem::byte_of(a, 1) == physmem::byte_of(b, 1));
    assert(physmem::byte_of(a, 2) == physmem::byte_of(b, 2));
    assert(physmem::byte_of(a, 3) == physmem::byte_of(b, 3));
    assert(physmem::byte_of(a, 4) == physmem::byte_of(b, 4));
    assert(physmem::byte_of(a, 5) == physmem::byte_of(b, 5));
    assert(physmem::byte_of(a, 6) == physmem::byte_of(b, 6));
    assert(physmem::byte_of(a, 7) == physmem::byte_of(b, 7));
    assert(a == b) by (bit_vector)
        requires
            ((a >> 0u64) & 0xFF) as u8 == ((b >> 0u64) & 0xFF) as u8,
            ((a >> 8u64) & 0xFF) as u8 == ((b >> 8u64) & 0xFF) as u8,
            ((a >> 16u64) & 0xFF) as u8 == ((b >> 16u64) & 0xFF) as u8,
            ((a >> 24u64) & 0xFF) as u8 == ((b >> 24u64) & 0xFF) as u8,
            ((a >> 32u64) & 0xFF) as u8 == ((b >> 32u64) & 0xFF) as u8,
            ((a >> 40u64) & 0xFF) as u8 == ((b >> 40u64) & 0xFF) as u8,
            ((a >> 48u64) & 0xFF) as u8 == ((b >> 48u64) & 0xFF) as u8,
            ((a >> 56u64) & 0xFF) as u8 == ((b >> 56u64) & 0xFF) as u8,
    ;
}

/// Memory that kept all of its bytes kept all of its words.
proof fn lemma_same_words(after: Mem, before: Mem)
    requires
        before.wf(),
        after.wf(),
        after.first == before.first,
        after.limit == before.limit,
        after.words.len() >= before.words.len(),
        forall|p: int| before.has_bytes(p, 1) ==> #[trigger] after.byte(p) == before.byte(p),
    ensures
        window::same_below(after, before, before.next()),
{
    let k = window::words_below(before, before.next());
    assert(k == before.words.len());
    assert forall|j: int| 0 <= j < k implies after.words[j] == before.words[j] by {
        let base = before.first * 4096 + 8 * j;
        assert forall|i: int| 0 <= i < 8 implies #[trigger] physmem::byte_of(
            after.words[j],
            i,
        ) == physmem::byte_of(before.words[j], i) by {
            let p = base + i;
            assert(p / 8 == before.first * 512 + j);
            assert(p % 8 == i);
            assert(before.has_bytes(p, 1));
            assert(after.byte(p) == before.byte(p));
        }
        lemma_bytes_make_word(after.words[j], before.words[j]);
    }
    assert(after.words.take(k) =~= before.words.take(k));
}

/// What was loaded is still there once the memory behind it has changed.
proof fn lemma_given(before: Mem, mid: Mem, after: Mem, init: Seq<u8>, fdt: Seq<u8>)
    requires
        before.wf(),
        mid.wf(),
        init_pages(init.len() as int) + pages_of(fdt.len() as int) + 8 <= CAPTBL_SLOTS,
        loaded(before, mid, init, fdt),
        window::same_below(after, mid, mid.next()),
    ensures
        given(before, after, Loaded::of(before, init, fdt), init, fdt),
{
    let at = Loaded::of(before, init, fdt);
    let lo = mid.next();
    phys::law_frames_for(at.init_pages as int);
    phys::law_frames_for(at.fdt_pages as int);
    assert(mid.frames() == before.frames() + at.frames());
    lemma_same_words(mid, before);
    window::lemma_same_below_less(after, mid, before.next(), lo);
    assert forall|p: int| before.first * 4096 <= p < lo * 4096 implies #[trigger] after.byte(p)
        == mid.byte(p) by {
        lemma_same_bytes(after, mid, lo, p);
    }
    assert forall|i: int| 0 <= i < 10 implies #[trigger] after.word(at.info * 4096 + 8 * i)
        == info_words(at.init_pages as int, at.fdt_pages as int)[i] by {
        lemma_same_bytes(after, mid, lo, at.info * 4096 + 8 * i);
    }
}

/// A table of zeroes maps nothing, and its first free page of the upper half is
/// the first.
pub proof fn lemma_empty_table(m: Mem, root: int)
    requires
        m.wf(),
        m.has(root),
        forall|i: int| 0 <= i < 512 ==> #[trigger] m.at(root, i) == 0,
    ensures
        paging::tree_wf(m, root),
        paging::unshared(m, root),
        forall|va: u64| #[trigger] paging::walk_spec(m, root, va) is None,
        forall|va: u64| #[trigger]
            threads::is_free_addr(m, root, va) <==> va == TRAPFRAME_PAGE,
{
    reveal(paging::entry_flags);
    reveal(paging::flags_valid);
    assert forall|i: int| 0 <= i < 512 implies #[trigger] paging::e2(m, root, i) == 0 by {}
    assert(!paging::is_branch(0));
    assert(paging::first_free(m, root, 256, 0, 0)) by {
        assert(m.at(root, 256) == 0);
    }
    assert(crate::addr::virt::canonical(0x40_0000_0000) == TRAPFRAME_PAGE);
    assert forall|va: u64| #[trigger] threads::is_free_addr(m, root, va) implies va
        == TRAPFRAME_PAGE by {
        let (i2, i1, i0) = choose|i2: int, i1: int, i0: int| #[trigger]
            paging::first_free(m, root, i2, i1, i0) && va == crate::addr::virt::canonical(
                (i2 * 0x4000_0000 + i1 * 0x20_0000 + i0 * 0x1000) as u64,
            );
        assert(m.at(root, 256) == 0);
        assert(i2 == 256);
    }
}

/// Once the trapframe has been mapped into a table of zeroes, the rest can be.
pub proof fn lemma_ready(m: Mem, lo: int, at: Loaded, trampoline: u64, frame: u64)
    requires
        window::splits(m, lo),
        m.has(lo),
        forall|i: int| 0 <= i < 512 ==> #[trigger] m.at(lo, i) == 0,
        frame < DIRECT_MAPPED_PAGES,
        m.available() >= 2,
        at.init_pages + at.fdt_pages + 8 <= CAPTBL_SLOTS,
        at.init + at.init_pages <= DIRECT_MAPPED_PAGES,
        at.fdt + at.fdt_pages <= DIRECT_MAPPED_PAGES,
        at.info < DIRECT_MAPPED_PAGES,
        trampoline % 4096 == 0,
        trampoline < DIRECT_MAPPED_PAGES * 4096,
    ensures
        ({
            let n = paging::mapped(
                m,
                lo,
                TRAPFRAME_PAGE,
                paging::map_entry((frame * 4096) as u64, TRAPFRAME_FLAGS),
                paging::PageSize::Base,
            );
            &&& window::same_below(n, m, lo)
            &&& n.available() >= m.available() - 2
            &&& ready(window::from(n, lo), lo, at, trampoline, frame as int)
        }),
{
    let w = window::from(m, lo);
    let phys = (frame * 4096) as u64;
    window::lemma_from(m, lo);
    assert forall|i: int| 0 <= i < 512 implies #[trigger] w.at(lo, i) == 0 by {
        assert(m.at(lo, i) == 0);
    }
    lemma_empty_table(w, lo);
    lemma_flags();
    assert(runs::nth(TRAPFRAME_PAGE, 0) == TRAPFRAME_PAGE);
    assert forall|i: int| 0 <= i < 1 implies paging::translate(
        w,
        lo,
        #[trigger] runs::nth(TRAPFRAME_PAGE, i),
    ) is None by {
        assert(paging::walk_spec(w, lo, TRAPFRAME_PAGE) is None);
    }
    runs::lemma_missing(w, lo, TRAPFRAME_PAGE, 1, 1);
    window::lemma_from_run(m, lo, lo, phys, TRAPFRAME_PAGE, TRAPFRAME_FLAGS, 1);
    runs::law_run_tables(w, lo, phys, TRAPFRAME_PAGE, TRAPFRAME_FLAGS, 1);
    reveal_with_fuel(runs::run_mapped, 2);
    assert(runs::nth(phys, 0) == phys);
    let n = runs::run_mapped(m, lo, phys, TRAPFRAME_PAGE, TRAPFRAME_FLAGS, 1);
    let wn = runs::run_mapped(w, lo, phys, TRAPFRAME_PAGE, TRAPFRAME_FLAGS, 1);
    assert(window::from(n, lo) == wn);
    window::lemma_from(n, lo);
    runs::law_run_walk(w, lo, phys, TRAPFRAME_PAGE, TRAPFRAME_FLAGS, 1, TRAPFRAME_PAGE);
    assert forall|va: u64|
        runs::page(va) != runs::page(TRAPFRAME_PAGE) implies #[trigger] paging::walk_spec(
        wn,
        lo,
        va,
    ) is None by {
        runs::law_run_walk(w, lo, phys, TRAPFRAME_PAGE, TRAPFRAME_FLAGS, 1, va);
        assert(paging::walk_spec(w, lo, va) is None);
    }
}

/// Whether the initial process can be started: its slots are all empty and
/// enough for its pages, and there is enough memory for it.
pub open spec fn startable(
    st: State,
    job: usize,
    pool: usize,
    init: Seq<u8>,
    fdt: Seq<u8>,
) -> bool {
    let n = init_pages(init.len() as int);
    let f = pages_of(fdt.len() as int);
    &&& st.wf()
    &&& job < st.jobs.len()
    &&& pool < st.pools.len()
    &&& st.jobs[job as int].slots.len() == CAPTBL_SLOTS
    &&& forall|i: int|
        0 <= i < CAPTBL_SLOTS ==> #[trigger] st.jobs[job as int].slots[i]
            == CapabilitySlotInner::holding(CapabilityKind::Empty)
    &&& n + f + 8 <= CAPTBL_SLOTS
    &&& st.next_tid != u16::MAX
    &&& st.mem.available() >= init_frames(n, f)
    &&& st.code.trampoline % 4096 == 0
    &&& st.code.trampoline < DIRECT_MAPPED_PAGES * 4096
}

/// How many frames are taken to start an initial process with `n` pages of memory and
/// `f` pages of the device tree: those for what is loaded, those of its thread with
/// the root of its page table, and the tables of its address space, of which two are
/// on the way to its trapframe.
pub open spec fn init_frames(n: int, f: int) -> int {
    loaded_frames(n, f) + (1 + 1 + threads::STACK_FRAMES) + 2 + space_tables(n, f)
}

/// The thread of the initial process with its address space.
pub open spec fn mapped_thread(st: State, job: usize) -> Thread {
    let root = st.mem.next() as u64;
    let made = State { mem: st.mem.grow(), ..st };
    let fresh = threads::fresh_thread(made, Some(SharedPageTable { root }), job);
    Thread {
        private: ThreadProtected { trapframe_addr: TRAPFRAME_PAGE, ..fresh.private },
        ..fresh
    }
}

/// The kernel once the thread of the initial process is there, with its address
/// space, given what memory holds then.
pub open spec fn space_made(st: State, name: Seq<char>, job: usize, mem: Mem) -> State {
    State {
        threads: st.threads.push(mapped_thread(st, job)),
        names: st.names.push(name),
        blocking: st.blocking.push(Seq::empty()),
        mem,
        next_tid: (st.next_tid + 1) as u16,
        ..st
    }
}

/// The trapframe of a thread can be mapped into its table of zeroes.
proof fn lemma_mappable(st: State, t: usize, root: u64)
    requires
        st.wf(),
        t < st.threads.len(),
        st.threads[t as int].private.root_pgtbl == Some(SharedPageTable { root }),
        st.threads[t as int].trapframe.inner < DIRECT_MAPPED_PAGES,
        st.mem.has(root as int),
        forall|i: int| 0 <= i < 512 ==> #[trigger] st.mem.at(root as int, i) == 0,
        st.mem.available() >= 2,
    ensures
        threads::trapframe_mappable(st, t),
        forall|va: u64| #[trigger]
            threads::is_free_addr(st.mem, root as int, va) <==> va == TRAPFRAME_PAGE,
{
    let m = st.mem;
    lemma_empty_table(m, root as int);
    assert(threads::is_free_addr(m, root as int, TRAPFRAME_PAGE));
    assert forall|va: u64| #[trigger]
        threads::is_free_addr(m, root as int, va) implies paging::has_room(
        m,
        root as int,
        va,
        paging::PageSize::Base,
    ) by {
        assert(paging::walk_spec(m, root as int, va) is None);
        runs::lemma_unmapped_has_room(m, root as int, va);
    }
}

/// Make the thread of the initial process, with nothing but its trapframe in
/// its address space.
fn make_thread(k: &mut Kernel, name: String, job: usize) -> (r: (usize, SharedPageTable))
    requires
        old(k)@.wf(),
        job < old(k)@.jobs.len(),
        old(k)@.next_tid != u16::MAX,
        old(k)@.mem.available() >= 132,
    ensures
        r.0 == old(k)@.threads.len(),
        r.1.root == old(k)@.mem.next(),
        final(k)@ == space_made(
            old(k)@,
            name@,
            job,
            paging::mapped(
                old(k)@.mem.grow_by(130),
                old(k)@.mem.next(),
                TRAPFRAME_PAGE,
                paging::map_entry(((old(k)@.mem.next() + 1) * 4096) as u64, TRAPFRAME_FLAGS),
                paging::PageSize::Base,
            ),
        ),
        final(k)@.wf(),
{
    let ghost st = k@;
    let ghost mid = st.mem;
    let ghost lo = mid.next();
    let table = PageTable::new(&mut k.mem);
    let ghost m1 = k@.mem;
    assert(m1.frames() == mid.frames() + 1);
    proof {
        ipc::lemma_set_mem(st, m1);
    }
    let shared = SharedPageTable::from_inner(table);
    let ghost st1 = k@;
    assert(st1 =~= State { mem: m1, ..st });
    let t: usize = Thread::new(k, name, Some(shared), job);
    let ghost st2 = k@;
    let ghost m2 = st2.mem;
    proof {
        assert(m2 =~= mid.grow_by(130));
        assert(m2.frames() == mid.frames() + 130);
        assert forall|i: int| 0 <= i < 512 implies #[trigger] m2.at(lo, i) == 0 by {}
        assert(st2.threads[t as int] == threads::fresh_thread(st1, Some(shared), job));
        lemma_mappable(st2, t, shared.root);
    }
    Thread::setup_page_table(k, t);
    proof {
        let va = choose|va: u64|
            threads::is_free_addr(m2, lo, va) && #[trigger] threads::trapframe_mapped(st2, t, va)
                == k@;
        assert(va == TRAPFRAME_PAGE);
        assert(k@.threads =~= space_made(st, name@, job, k@.mem).threads);
        assert(k@ =~= space_made(st, name@, job, k@.mem));
    }
    (t, shared)
}

/// Make the thread of the initial process, and map what was loaded for it.
fn make_space(k: &mut Kernel, name: String, job: usize, at: Loaded) -> (r: (usize, SharedPageTable))
    requires
        old(k)@.wf(),
        job < old(k)@.jobs.len(),
        old(k)@.next_tid != u16::MAX,
        at.init_pages > 0,
        old(k)@.mem.available() >= 132 + space_tables(at.init_pages as int, at.fdt_pages as int),
        at.init_pages + at.fdt_pages + 8 <= CAPTBL_SLOTS,
        at.init + at.init_pages <= DIRECT_MAPPED_PAGES,
        at.fdt + at.fdt_pages <= DIRECT_MAPPED_PAGES,
        at.info < DIRECT_MAPPED_PAGES,
        old(k)@.code.trampoline % 4096 == 0,
        old(k)@.code.trampoline < DIRECT_MAPPED_PAGES * 4096,
    ensures
        r.0 == old(k)@.threads.len(),
        r.1.root == old(k)@.mem.next(),
        final(k)@ == space_made(old(k)@, name@, job, final(k)@.mem),
        window::same_below(final(k)@.mem, old(k)@.mem, old(k)@.mem.next()),
        address_space(
            final(k)@.mem,
            old(k)@.mem.next(),
            at,
            old(k)@.code.trampoline,
            old(k)@.mem.next() + 1,
        ),
        final(k)@.wf(),
{
    let ghost st = k@;
    let ghost mid = st.mem;
    let ghost lo = mid.next();
    let (t, shared) = make_thread(k, name, job);
    let ghost st3 = k@;
    let ghost m3 = st3.mem;
    proof {
        let m2 = mid.grow_by(130);
        window::lemma_from_grow(mid, lo, 130);
        assert(m2.frames() == mid.frames() + 130);
        assert forall|i: int| 0 <= i < 512 implies #[trigger] m2.at(lo, i) == 0 by {}
        lemma_ready(m2, lo, at, st.code.trampoline, (lo + 1) as u64);
        assert(ready(window::from(m3, lo), lo, at, st.code.trampoline, lo + 1));
        assert(readied(window::from(m3, lo), lo, at, st.code.trampoline));
    }
    let trampoline: u64 = k.code.trampoline;
    map_loaded(&mut k.mem, PageTable { root: shared.root }, at, trampoline);
    let ghost m4 = k@.mem;
    proof {
        ipc::lemma_set_mem(st3, m4);
        lemma_steps(window::from(m3, lo), lo, at, st.code.trampoline, lo + 1);
        lemma_space_behind(m4, lo, at, st.code.trampoline, lo + 1);
        assert(k@ =~= space_made(st, name@, job, m4));
    }
    (t, shared)
}

/// Start the initial process: load it, make its thread and its address space,
/// give it its capabilities, and let it run. Its number is returned.
pub fn start_init(
    k: &mut Kernel,
    name: String,
    job: usize,
    pool: usize,
    init: &[u8],
    fdt: &[u8],
    uart: u64,
) -> (r: usize)
    requires
        startable(old(k)@, job, pool, init@, fdt@),
    ensures
        r == old(k)@.threads.len(),
        final(k)@ == threads::resumed(
            init_made(
                old(k)@,
                name@,
                Loaded::of(old(k)@.mem, init@, fdt@),
                job,
                pool,
                uart,
                final(k)@.mem,
            ),
            r,
        ),
        given(
            old(k)@.mem,
            final(k)@.mem,
            Loaded::of(old(k)@.mem, init@, fdt@),
            init@,
            fdt@,
        ),
        address_space(
            final(k)@.mem,
            old(k)@.mem.next() + Loaded::of(old(k)@.mem, init@, fdt@).frames(),
            Loaded::of(old(k)@.mem, init@, fdt@),
            old(k)@.code.trampoline,
            old(k)@.mem.next() + Loaded::of(old(k)@.mem, init@, fdt@).frames() + 1,
        ),
        final(k)@.wf(),
{
    let ghost st = k@;
    let at = load(&mut k.mem, init, fdt);
    let ghost mid = k@.mem;
    assert(mid.frames() == st.mem.frames() + at.frames());
    proof {
        phys::law_frames_for(at.init_pages as int);
        phys::law_frames_for(at.fdt_pages as int);
        ipc::lemma_set_mem(st, mid);
    }
    let ghost st1 = k@;
    assert(st1 =~= State { mem: mid, ..st });
    let (t, shared) = make_space(k, name, job, at);
    let ghost m4 = k@.mem;
    proof {
        lemma_given(st.mem, mid, m4, init@, fdt@);
    }
    place_all(k, at, shared, t, job, pool, uart);
    let frame = Trapframe {
        user_epc: INIT_ENTRY,
        sp: INIT_ENTRY,
        a0: BOOT_INFO_ADDR,
        ..k.threads[t].trapframe.frame
    };
    k.set_frame(t, frame);
    proof {
        let made = init_made(st, name@, at, job, pool, uart, m4);
        assert(st.mem.grow_by(at.frames() + 1).frames() == st.mem.frames() + at.frames() + 1);
        assert(mid.grow().frames() == mid.frames() + 1);
        assert(k@.threads[t as int] == init_thread(st, at, job));
        assert(k@.threads =~= made.threads);
        assert(k@ =~= made);
    }
    k.make_runnable(t);
    t
}

/// The address space of a tree behind a frame is that of all of memory.
proof fn lemma_space_behind(m: Mem, lo: int, at: Loaded, trampoline: u64, frame: int)
    requires
        window::splits(m, lo),
        paging::tree_wf(window::from(m, lo), lo),
        paging::unshared(window::from(m, lo), lo),
        address_space(window::from(m, lo), lo, at, trampoline, frame),
    ensures
        address_space(m, lo, at, trampoline, frame),
{
    window::lemma_tree_behind(m, lo, lo);
    let w = window::from(m, lo);
    assert forall|va: u64| #[trigger] paging::walk_spec(m, lo, va) == paging::walk_spec(
        w,
        lo,
        va,
    ) by {
        assert(paging::translate(m, lo, va) == paging::translate(w, lo, va));
    }
}

/// What the initial process is told is true: the slots that it is told to hold
/// its pages hold the pages that are mapped for it, in the order of their
/// addresses; those that it is told to be free are empty; and the fixed slots
/// hold what they are for.
pub proof fn law_boot_info_is_true(
    mem: Mem,
    root: u64,
    at: Loaded,
    trampoline: u64,
    frame: int,
    t: usize,
    job: usize,
    pool: usize,
    uart: u64,
    i: int,
)
    requires
        address_space(mem, root as int, at, trampoline, frame),
        at.init_pages + at.fdt_pages + 8 <= CAPTBL_SLOTS,
    ensures
        ({
            let words = info_words(at.init_pages as int, at.fdt_pages as int);
            let cap = |i: int| init_cap(at, root, t, job, pool, uart, i);
            &&& words[1] <= i < words[2] ==> (cap(i) matches CapabilityKind::Page(page)
                && paging::walk_spec(mem, root as int, runs::nth(INIT_ADDR, i - words[1])) == Some(
                (page.phys, INIT_FLAGS),
            ))
            &&& words[3] <= i < words[4] ==> (cap(i) matches CapabilityKind::Page(page)
                && paging::walk_spec(mem, root as int, runs::nth(FDT_ADDR, i - words[3])) == Some(
                (page.phys, INFO_FLAGS),
            ))
            &&& words[5] <= i < words[6] ==> (cap(i) matches CapabilityKind::Page(page)
                && page.is_device && page.phys == uart)
            &&& words[7] <= i < words[8] ==> cap(i) is Empty
            &&& cap(init::JOB_SLOT as int) == CapabilityKind::Job(job)
            &&& cap(init::PGTBL_SLOT as int) == CapabilityKind::PgTbl(SharedPageTable { root })
            &&& cap(init::THREAD_SLOT as int) == CapabilityKind::Thread(t)
            &&& cap(init::BOOTINFO_SLOT as int) matches CapabilityKind::Page(page)
                && paging::walk_spec(mem, root as int, BOOT_INFO_ADDR) == Some(
                (page.phys, INFO_FLAGS),
            )
            &&& cap(init::INTR_POOL_SLOT as int) == CapabilityKind::InterruptPool(pool)
        }),
{
    let n = at.init_pages as int;
    let f = at.fdt_pages as int;
    assert(info_words(n, f)[1] == FIRST_SLOT);
    if FIRST_SLOT <= i < FIRST_SLOT + n {
        assert(paging::walk_spec(mem, root as int, runs::nth(INIT_ADDR, i - FIRST_SLOT)) == Some(
            (((at.init + i - FIRST_SLOT) * 4096) as u64, INIT_FLAGS),
        ));
    }
    if FIRST_SLOT + n <= i < FIRST_SLOT + n + f {
        assert(paging::walk_spec(mem, root as int, runs::nth(FDT_ADDR, i - FIRST_SLOT - n))
            == Some((((at.fdt + i - FIRST_SLOT - n) * 4096) as u64, INFO_FLAGS)));
    }
}

/// The initial process finds itself in memory: the byte `i` of its image is at the address
/// 0x10400000 + `i`, and below it are four MiB of zeroes as its stack; the bytes of the
/// device tree are from 0x20001000 on, and the words that it is told from 0x20000000 on. It
/// may read, write and execute its image and its stack, and read the rest.
#[verifier::spinoff_prover]
#[verifier::rlimit(40)]
pub proof fn law_initial_process_is_there(
    before: Mem,
    after: Mem,
    trampoline: u64,
    frame: int,
    init: Seq<u8>,
    fdt: Seq<u8>,
    i: int,
)
    requires
        before.wf(),
        after.wf(),
        given(before, after, Loaded::of(before, init, fdt), init, fdt),
        address_space(
            after,
            before.next() + Loaded::of(before, init, fdt).frames(),
            Loaded::of(before, init, fdt),
            trampoline,
            frame,
        ),
        init_pages(init.len() as int) + pages_of(fdt.len() as int) + 8 <= CAPTBL_SLOTS,
    ensures
        ({
            let at = Loaded::of(before, init, fdt);
            let root = before.next() + at.frames();
            &&& 0 <= i < init.len() ==> found(after, root, 0x1040_0000 + i, init[i], 14)
            &&& 0 <= i < 0x40_0000 ==> found(after, root, 0x1000_0000 + i, 0, 14)
            &&& 0 <= i < fdt.len() ==> found(after, root, 0x2000_1000 + i, fdt[i], 2)
            &&& 0 <= i < 10 ==> told(
                after,
                root,
                0x2000_0000 + 8 * i,
                told_words(
                    1024 + (init.len() as int + 4095) / 4096,
                    (fdt.len() as int + 4095) / 4096,
                )[i],
            )
        }),
{
    let at = Loaded::of(before, init, fdt);
    let root = before.next() + at.frames();
    let n = init_pages(init.len() as int);
    let f = pages_of(fdt.len() as int);
    phys::law_frames_for(n);
    phys::law_frames_for(f);
    assert(after.has(root));
    assert(root < DIRECT_MAPPED_PAGES);
    assert(at.init_pages == n && at.fdt_pages == f);
    lemma_init_flags();
    if 0 <= i < init.len() {
        lemma_found(after, root, INIT_ADDR, at.init as int, n, 0x40_0000 + i, INIT_FLAGS);
    }
    if 0 <= i < 0x40_0000 {
        lemma_found(after, root, INIT_ADDR, at.init as int, n, i, INIT_FLAGS);
    }
    if 0 <= i < fdt.len() {
        lemma_found(after, root, FDT_ADDR, at.fdt as int, f, i, INFO_FLAGS);
    }
    if 0 <= i < 10 {
        assert forall|k: int| 0 <= k < 1 implies paging::walk_spec(
            after,
            root,
            #[trigger] runs::nth(BOOT_INFO_ADDR, k),
        ) == Some((((at.info + k) * 4096) as u64, INFO_FLAGS)) by {
            assert(runs::nth(BOOT_INFO_ADDR, k) == BOOT_INFO_ADDR);
        }
        lemma_found(after, root, BOOT_INFO_ADDR, at.info as int, 1, 8 * i, INFO_FLAGS);
        lemma_told_words(n, f, i);
    }
}

proof fn lemma_told_words(n: int, f: int, i: int)
    requires
        0 <= n,
        0 <= f,
        n + f + 8 <= CAPTBL_SLOTS,
        0 <= i < 10,
    ensures
        info_words(n, f)[i] == told_words(n, f)[i],
{
}

/// What the initial process is told, of an image of `n` pages and a device tree of `f`: the
/// logarithm of the number of its slots, the slots of the pages of its image, of the device
/// tree and of the one device, the slots that are free, each as the first one and the one
/// behind the last, and where the device tree is.
pub open spec fn told_words(n: int, f: int) -> Seq<int> {
    seq![
        16,
        7,
        7 + n,
        7 + n,
        7 + n + f,
        7 + n + f,
        8 + n + f,
        8 + n + f,
        0x1_0000,
        0x2000_1000,
    ]
}

/// Whether there is a byte at an address of an address space, and userspace may use it as the
/// bits of `access` say: 2 to read, 4 to write, 8 to execute.
pub open spec fn found(mem: Mem, root: int, va: int, byte: u8, access: u8) -> bool {
    paging::walk_spec(mem, root, va as u64) matches Some((pa, flags)) && {
        &&& mem.byte(pa as int) == byte
        &&& flags & 14 == access
        &&& flags & 17 == 17
    }
}

/// Whether there is a word at an address of an address space that userspace may read.
pub open spec fn told(mem: Mem, root: int, va: int, word: int) -> bool {
    paging::walk_spec(mem, root, va as u64) matches Some((pa, flags)) && {
        &&& mem.word(pa as int) == word
        &&& flags & 14 == 2
        &&& flags & 17 == 17
    }
}

proof fn lemma_init_flags()
    ensures
        INIT_FLAGS & 14 == 14,
        INFO_FLAGS & 14 == 2,
        INIT_FLAGS & 17 == 17,
        INFO_FLAGS & 17 == 17,
{
    assert(INIT_FLAGS & 14 == 14 && INFO_FLAGS & 14 == 2 && INIT_FLAGS & 17 == 17 && INFO_FLAGS
        & 17 == 17) by (bit_vector);
}

/// A byte of pages that are mapped one behind the other is found as far behind the
/// beginning of their addresses as it is behind the beginning of their memory.
pub proof fn lemma_found(
    mem: Mem,
    root: int,
    to: u64,
    page: int,
    pages: int,
    i: int,
    flags: u8,
)
    requires
        to % 4096 == 0,
        to <= 0x2000_1000,
        0 <= page,
        page + pages <= DIRECT_MAPPED_PAGES,
        0 <= i < pages * 4096,
        pages <= CAPTBL_SLOTS,
        paging::tree_wf(mem, root),
        forall|k: int|
            0 <= k < pages ==> paging::walk_spec(mem, root, #[trigger] runs::nth(to, k)) == Some(
                (((page + k) * 4096) as u64, flags),
            ),
    ensures
        paging::walk_spec(mem, root, (to + i) as u64) == Some(((page * 4096 + i) as u64, flags)),
{
    let k = i / 4096;
    let base = runs::nth(to, k);
    assert(0 <= k < pages);
    assert(base == to + 4096 * k);
    paging::law_page_in_one_piece(mem, root, base, i % 4096);
    assert(base + i % 4096 == to + i);
    assert((page + k) * 4096 + i % 4096 == page * 4096 + i);
}

/// The slots of the initial process: 1 is its job, 2 its page table, 3 its thread, 5 the page
/// with what it is told, 6 the interrupts; from 7 on are the pages of its image, then those of
/// the device tree, then the one of the device. The others are empty.
#[verifier::spinoff_prover]
#[verifier::rlimit(50)]
pub proof fn law_slots_of_the_initial_process(
    at: Loaded,
    root: u64,
    t: usize,
    job: usize,
    pool: usize,
    uart: u64,
    i: int,
)
    requires
        at.init + at.init_pages <= DIRECT_MAPPED_PAGES,
        at.fdt + at.fdt_pages <= DIRECT_MAPPED_PAGES,
        at.info < DIRECT_MAPPED_PAGES,
        at.init_pages + at.fdt_pages + 8 <= CAPTBL_SLOTS,
        0 <= i < 0x1_0000,
    ensures
        ({
            let slots = init_slots(at, root, t, job, pool, uart);
            let n = at.init_pages;
            let f = at.fdt_pages;
            &&& slots.len() == 0x1_0000
            &&& slots[1].cap == CapabilityKind::Job(job)
            &&& slots[2].cap == CapabilityKind::PgTbl(SharedPageTable { root })
            &&& slots[3].cap == CapabilityKind::Thread(t)
            &&& is_page(slots[5].cap, at.info as int)
            &&& slots[6].cap == CapabilityKind::InterruptPool(pool)
            &&& 7 <= i < 7 + n ==> is_page(slots[i].cap, at.init + (i - 7))
            &&& 7 + n <= i < 7 + n + f ==> is_page(slots[i].cap, at.fdt + (i - 7 - n))
            &&& slots[7 + n + f].cap == CapabilityKind::Page(
                Page { phys: uart, size_log2: 12, is_device: true },
            )
            &&& i == 0 || i == 4 || i > 7 + n + f ==> slots[i].cap is Empty
        }),
{
}

/// Whether a capability is that of a page of 4 KiB of memory.
pub open spec fn is_page(cap: CapabilityKind, number: int) -> bool {
    cap matches CapabilityKind::Page(page) && page.phys == number * 4096 && page.size_log2 == 12
        && !page.is_device
}

} // verus!
