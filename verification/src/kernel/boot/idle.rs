//! The threads that harts run while there is nothing else to run.

use vstd::prelude::*;

use super::process;
use super::process::{Loaded, INIT_ADDR, TRAMPOLINE_FLAGS, TRAPFRAME_FLAGS, TRAPFRAME_PAGE};
use super::runs;
use super::window;
use crate::addr::mappings;
use crate::addr::mappings::AddressLayout;
use crate::addr::{Identity, Physical, PhysicalConst};
use crate::kernel::capability::thread::{
    OwnedTrapframe, Thread, ThreadPriorities, ThreadProtected, ThreadState,
};
use crate::kernel::paging;
use crate::kernel::paging::{PageSize, PageTable, PageTableFlags, SharedPageTable};
use crate::kernel::physmem;
use crate::kernel::physmem::{Mem, PhysicalMemory, DIRECT_MAPPED_PAGES};
use crate::kernel::state::CodeAddresses;
use crate::kernel::threads;
use crate::kernel::trampoline::{Trapframe, TRAMPOLINE_PAGE};

verus! {

/// The code of an idle thread can be read and executed by it.
pub const IDLE_FLAGS: u8 = 219;

/// The code of an idle thread: wait for an interrupt, again and again.
pub open spec fn idle_code() -> Seq<u8> {
    seq![0x0f, 0x00, 0x00, 0x01, 0x6f, 0xf0, 0xdf, 0xff]
}

/// How many frames an idle thread takes: the page of its code, the root of its page
/// table, its trapframe, its stack, and the tables on the way to what it maps.
pub const IDLE_FRAMES: u64 = 137;

/// An idle thread whose code has the page number `page`: its page table comes
/// next, then its trapframe.
pub open spec fn idle_thread(
    page: int,
    layout: AddressLayout,
    code: CodeAddresses,
    tid: u16,
    job: usize,
) -> Thread {
    let root = (page + 1) as u64;
    let fresh = threads::new_thread(
        page + 2,
        layout,
        code,
        tid,
        Some(SharedPageTable { root }),
        job,
    );
    Thread {
        trapframe: OwnedTrapframe {
            frame: Trapframe { user_epc: INIT_ADDR, ..Trapframe::zeroed() },
            ..fresh.trapframe
        },
        private: ThreadProtected {
            trapframe_addr: TRAPFRAME_PAGE,
            prio: ThreadPriorities { base_prio: (-1) as i8, inherited_prio: (-1) as i8, prio_boost: 0 },
            state: ThreadState::Runnable,
            ..fresh.private
        },
        ..fresh
    }
}

/// The address space of an idle thread whose code has the page number `page`.
pub open spec fn idle_space(mem: Mem, page: int, trampoline: u64) -> bool {
    let root = page + 1;
    &&& mem.wf()
    &&& mem.has(page)
    &&& idle_mapped(mem, root, page, page + 2, trampoline)
    &&& process::holds(mem, page, 1, 0, idle_code())
}

/// Whether the page table `root` maps what an idle thread needs: its code, the
/// trampoline and its trapframe.
pub open spec fn idle_mapped(mem: Mem, root: int, page: int, frame: int, trampoline: u64) -> bool {
    &&& paging::tree_wf(mem, root)
    &&& paging::unshared(mem, root)
    &&& paging::walk_spec(mem, root, INIT_ADDR) == Some(((page * 4096) as u64, IDLE_FLAGS))
    &&& paging::walk_spec(mem, root, TRAMPOLINE_PAGE) == Some((trampoline, TRAMPOLINE_FLAGS))
    &&& paging::walk_spec(mem, root, TRAPFRAME_PAGE) == Some(
        ((frame * 4096) as u64, TRAPFRAME_FLAGS),
    )
}

/// Whether `after` has all that `before` has, and more behind it.
pub open spec fn extends(before: Mem, after: Mem) -> bool {
    &&& after.wf()
    &&& window::same_below(after, before, before.next())
}

/// The only things to be mapped for an idle thread besides its trapframe: its
/// code, and the trampoline.
pub open spec fn idle_loaded(page: int) -> Loaded {
    Loaded { init: page as u64, init_pages: 1, fdt: 0, fdt_pages: 0, info: 0 }
}

/// Load the code of an idle thread into a new page.
fn load_idle(mem: &mut PhysicalMemory) -> (r: u64)
    requires
        old(mem)@.wf(),
        old(mem)@.available() > 0,
    ensures
        extends(old(mem)@, final(mem)@),
        final(mem)@.next() == old(mem)@.next() + 1,
        final(mem)@.available() == old(mem)@.available() - 1,
        r == old(mem)@.next(),
        process::holds(final(mem)@, r as int, 1, 0, idle_code()),
{
    let ghost m0 = mem@;
    let page: u64 = mem.allocate();
    let ghost m1 = mem@;
    assert(m1.frames() == m0.frames() + 1);
    proof {
        assert(m1 =~= m0.grow_by(1));
        process::lemma_fresh_pages(m0, 1);
        window::lemma_from_grow(m0, m0.next(), 1);
    }
    mem.write_word(page * 4096, 0xffdf_f06f_0100_000f);
    proof {
        let m2 = mem@;
        let k = window::words_below(m0, m0.next());
        assert(m2.words.take(k) =~= m1.words.take(k));
        assert forall|p: int| page * 4096 <= p < (page + 1) * 4096 implies #[trigger] m2.byte(p)
            == if page * 4096 <= p < page * 4096 + 8 {
            idle_code()[p - page * 4096]
        } else {
            0
        } by {
            assert(m1.byte(p) == 0);
            if p < page * 4096 + 8 {
                lemma_idle_word(p - page * 4096);
                assert(p / 8 == page * 512);
            } else {
                assert(p / 8 != page * 512);
            }
        }
        assert(idle_code().len() == 8);
    }
    page
}

/// The bytes of the word that holds the code of an idle thread.
proof fn lemma_idle_word(i: int)
    requires
        0 <= i < 8,
    ensures
        physmem::byte_of(0xffdf_f06f_0100_000f, i) == idle_code()[i],
{
    lemma_idle_bytes();
}

proof fn lemma_idle_bytes()
    by (bit_vector)
    ensures
        (0xffdf_f06f_0100_000fu64 >> 0u64) & 0xFF == 0x0f,
        (0xffdf_f06f_0100_000fu64 >> 8u64) & 0xFF == 0x00,
        (0xffdf_f06f_0100_000fu64 >> 16u64) & 0xFF == 0x00,
        (0xffdf_f06f_0100_000fu64 >> 24u64) & 0xFF == 0x01,
        (0xffdf_f06f_0100_000fu64 >> 32u64) & 0xFF == 0x6f,
        (0xffdf_f06f_0100_000fu64 >> 40u64) & 0xFF == 0xf0,
        (0xffdf_f06f_0100_000fu64 >> 48u64) & 0xFF == 0xdf,
        (0xffdf_f06f_0100_000fu64 >> 56u64) & 0xFF == 0xff,
{
}

/// Once its trapframe is mapped, the trampoline and the code of an idle thread
/// can be, and its address space is complete then.
proof fn lemma_idle_maps(w: Mem, root: int, page: int, trampoline: u64, frame: int)
    requires
        process::ready(w, root, idle_loaded(page), trampoline, frame),
        w.available() >= 4,
        0 <= page < DIRECT_MAPPED_PAGES,
    ensures
        runs::run_mappable(w, root, trampoline, TRAMPOLINE_PAGE, TRAMPOLINE_FLAGS, 1),
        ({
            let w1 = runs::run_mapped(w, root, trampoline, TRAMPOLINE_PAGE, TRAMPOLINE_FLAGS, 1);
            let w2 = runs::run_mapped(
                w1,
                root,
                (page * 4096) as u64,
                INIT_ADDR,
                IDLE_FLAGS,
                1,
            );
            &&& paging::tree_wf(w1, root)
            &&& !paging::flags_point(TRAMPOLINE_FLAGS)
            &&& !paging::flags_point(IDLE_FLAGS)
            &&& runs::run_mappable(w1, root, (page * 4096) as u64, INIT_ADDR, IDLE_FLAGS, 1)
            &&& w2.wf()
            &&& paging::tree_wf(w2, root)
            &&& paging::unshared(w2, root)
            &&& w2.available() >= w.available() - 4
            &&& paging::walk_spec(w2, root, INIT_ADDR) == Some(((page * 4096) as u64, IDLE_FLAGS))
            &&& paging::walk_spec(w2, root, TRAMPOLINE_PAGE) == Some(
                (trampoline, TRAMPOLINE_FLAGS),
            )
            &&& paging::walk_spec(w2, root, TRAPFRAME_PAGE) == Some(
                ((frame * 4096) as u64, TRAPFRAME_FLAGS),
            )
        }),
{
    let at = idle_loaded(page);
    process::lemma_step1(w, root, at, trampoline, frame);
    let w1 = runs::run_mapped(w, root, trampoline, TRAMPOLINE_PAGE, TRAMPOLINE_FLAGS, 1);
    assert(w1 == process::step(w, root, at, trampoline, 1));
    process::lemma_page_numbers(0);
    process::lemma_flags();
    assert(runs::nth(INIT_ADDR, 0) == INIT_ADDR);
    assert(paging::flags_valid(IDLE_FLAGS) && paging::flags_access(IDLE_FLAGS)) by {
        reveal(paging::flags_valid);
        reveal(paging::flags_access);
    }
    runs::lemma_missing(w1, root, INIT_ADDR, 1, 1);
    process::lemma_low_run(w1, root, (page * 4096) as u64, INIT_ADDR, IDLE_FLAGS, 1);
    let w2 = runs::run_mapped(w1, root, (page * 4096) as u64, INIT_ADDR, IDLE_FLAGS, 1);
    assert(paging::walk_spec(w2, root, runs::nth(INIT_ADDR, 0)) == Some(
        ((page * 4096) as u64, IDLE_FLAGS),
    ));
    assert(paging::walk_spec(w2, root, TRAMPOLINE_PAGE) == paging::walk_spec(
        w1,
        root,
        TRAMPOLINE_PAGE,
    ));
    assert(paging::walk_spec(w2, root, TRAPFRAME_PAGE) == paging::walk_spec(
        w1,
        root,
        TRAPFRAME_PAGE,
    ));
}

/// Map the trapframe of an idle thread into its page table, which maps nothing
/// yet.
fn map_trapframe(mem: &mut PhysicalMemory, table: SharedPageTable, frame: u64) -> (r: u64)
    requires
        old(mem)@.wf(),
        old(mem)@.has(table.root as int),
        forall|i: int| 0 <= i < 512 ==> #[trigger] old(mem)@.at(table.root as int, i) == 0,
        old(mem)@.available() >= 2,
        frame < DIRECT_MAPPED_PAGES,
    ensures
        r == TRAPFRAME_PAGE,
        final(mem)@ == paging::mapped(
            old(mem)@,
            table.root as int,
            TRAPFRAME_PAGE,
            paging::map_entry((frame * 4096) as u64, TRAPFRAME_FLAGS),
            PageSize::Base,
        ),
        final(mem)@.wf(),
{
    let ghost root = table.root as int;
    proof {
        process::lemma_empty_table(mem@, root);
        assert(mem@.at(root, 256) == 0);
        assert(!paging::is_branch(0)) by {
            reveal(paging::entry_flags);
            reveal(paging::flags_valid);
        }
    }
    match table.find_free_trapframe_addr(mem) {
        Some(addr) => {
            proof {
                assert(threads::is_free_addr(mem@, root, addr@));
                assert(paging::walk_spec(mem@, root, TRAPFRAME_PAGE) is None);
                runs::lemma_unmapped_has_room(mem@, root, TRAPFRAME_PAGE);
            }
            let phys: PhysicalConst<u8, Identity> = Physical::from_usize_unchecked(frame * 4096);
            table.map(
                mem,
                phys,
                addr,
                PageTableFlags { bits: TRAPFRAME_FLAGS },
                PageSize::Base,
            );
            addr.into_usize()
        },
        None => TRAPFRAME_PAGE,
    }
}

/// Map everything that an idle thread needs into its page table, which maps
/// nothing yet and lies behind everything else.
fn map_idle(
    mem: &mut PhysicalMemory,
    table: PageTable,
    page: u64,
    frame: u64,
    trampoline: u64,
) -> (r: u64)
    requires
        window::splits(old(mem)@, table.root as int),
        old(mem)@.has(table.root as int),
        forall|i: int| 0 <= i < 512 ==> #[trigger] old(mem)@.at(table.root as int, i) == 0,
        old(mem)@.available() >= 6,
        frame < DIRECT_MAPPED_PAGES,
        page < DIRECT_MAPPED_PAGES,
        trampoline % 4096 == 0,
        trampoline < DIRECT_MAPPED_PAGES * 4096,
    ensures
        r == TRAPFRAME_PAGE,
        window::same_below(final(mem)@, old(mem)@, table.root as int),
        final(mem)@.available() >= old(mem)@.available() - 6,
        idle_mapped(final(mem)@, table.root as int, page as int, frame as int, trampoline),
{
    let ghost m2 = mem@;
    let ghost lo = table.root as int;
    proof {
        process::lemma_ready(m2, lo, idle_loaded(page as int), trampoline, frame);
    }
    let addr: u64 = map_trapframe(mem, SharedPageTable::from_inner(table), frame);
    let ghost m3 = mem@;
    let ghost w3 = window::from(m3, lo);
    proof {
        window::lemma_from(m3, lo);
        lemma_idle_maps(w3, lo, page as int, trampoline, frame as int);
        window::lemma_from_run(m3, lo, lo, trampoline, TRAMPOLINE_PAGE, TRAMPOLINE_FLAGS, 1);
    }
    runs::map_run(
        mem,
        table,
        trampoline,
        TRAMPOLINE_PAGE,
        PageTableFlags { bits: TRAMPOLINE_FLAGS },
        1,
    );
    let ghost m4 = mem@;
    proof {
        window::lemma_from_run(m4, lo, lo, (page * 4096) as u64, INIT_ADDR, IDLE_FLAGS, 1);
    }
    runs::map_run(mem, table, page * 4096, INIT_ADDR, PageTableFlags { bits: IDLE_FLAGS }, 1);
    proof {
        window::lemma_from(mem@, lo);
        lemma_walks_behind(mem@, lo);
        window::lemma_same_below_trans(mem@, m4, m3, lo);
        window::lemma_same_below_trans(mem@, m3, m2, lo);
    }
    addr
}

/// Make an idle thread: a thread of the lowest priority, which waits for
/// interrupts again and again.
pub(crate) fn make_idle(
    mem: &mut PhysicalMemory,
    layout: &AddressLayout,
    code: &CodeAddresses,
    tid: u16,
    job: usize,
) -> (r: Thread)
    requires
        old(mem)@.wf(),
        old(mem)@.available() >= IDLE_FRAMES,
        mappings::standard_layout(*layout),
        code.trampoline % 4096 == 0,
        code.trampoline < DIRECT_MAPPED_PAGES * 4096,
    ensures
        extends(old(mem)@, final(mem)@),
        final(mem)@.available() >= old(mem)@.available() - IDLE_FRAMES,
        r == idle_thread(old(mem)@.next(), *layout, *code, tid, job),
        idle_space(final(mem)@, old(mem)@.next(), code.trampoline),
{
    let ghost m0 = mem@;
    let page: u64 = load_idle(mem);
    let ghost m1 = mem@;
    let ghost lo = m1.next();
    let table = PageTable::new(mem);
    assert(m1.grow().frames() == m1.frames() + 1);
    let shared = SharedPageTable::from_inner(table);
    let mut thread = Thread::build(mem, layout, code, tid, Some(shared), job);
    let ghost m2 = mem@;
    proof {
        assert(m2 =~= m1.grow_by(130));
        assert(m2.frames() == m1.frames() + 130);
        window::lemma_from_grow(m1, lo, 130);
        assert forall|i: int| 0 <= i < 512 implies #[trigger] m2.at(lo, i) == 0 by {}
    }
    let addr: u64 = map_idle(mem, table, page, thread.trapframe.inner, code.trampoline);
    proof {
        window::lemma_same_below_trans(mem@, m2, m1, lo);
        lemma_still_extends(m0, m1, mem@, page as int);
    }
    thread.private.trapframe_addr = addr;
    thread.private.prio = ThreadPriorities { base_prio: -1, inherited_prio: -1, prio_boost: 0 };
    thread.trapframe.frame.user_epc = INIT_ADDR;
    thread.private.state = ThreadState::Runnable;
    thread
}

/// The code that was loaded stays while the memory behind it changes.
proof fn lemma_still_extends(before: Mem, mid: Mem, after: Mem, page: int)
    requires
        before.wf(),
        extends(before, mid),
        page == before.next(),
        mid.next() == page + 1,
        process::holds(mid, page, 1, 0, idle_code()),
        window::same_below(after, mid, mid.next()),
    ensures
        extends(before, after),
        process::holds(after, page, 1, 0, idle_code()),
        after.has(page),
{
    window::lemma_same_below_less(after, mid, before.next(), mid.next());
    window::lemma_same_below_trans(after, mid, before, before.next());
    assert forall|p: int| page * 4096 <= p < (page + 1) * 4096 implies #[trigger] after.byte(p)
        == mid.byte(p) by {
        process::lemma_same_bytes(after, mid, mid.next(), p);
    }
}

/// The walks of a tree behind a frame are those of all of memory.
proof fn lemma_walks_behind(m: Mem, lo: int)
    requires
        window::splits(m, lo),
        paging::tree_wf(window::from(m, lo), lo),
        paging::unshared(window::from(m, lo), lo),
    ensures
        forall|va: u64| #[trigger]
            paging::walk_spec(m, lo, va) == paging::walk_spec(window::from(m, lo), lo, va),
        paging::tree_wf(m, lo),
        paging::unshared(m, lo),
{
    window::lemma_tree_behind(m, lo, lo);
    assert forall|va: u64| #[trigger]
        paging::walk_spec(m, lo, va) == paging::walk_spec(window::from(m, lo), lo, va) by {
        assert(paging::translate(m, lo, va) == paging::translate(window::from(m, lo), lo, va));
    }
}

/// To have more and then more still is to have more.
pub proof fn lemma_extends(a: Mem, b: Mem, c: Mem)
    requires
        a.wf(),
        extends(a, b),
        extends(b, c),
    ensures
        extends(a, c),
{
    window::lemma_same_below_less(c, b, a.next(), b.next());
    window::lemma_same_below_trans(c, b, a, a.next());
}

/// The address space of an idle thread stays what it is while memory is handed
/// out and written behind it.
pub proof fn law_idle_space_stays(before: Mem, after: Mem, page: int, trampoline: u64)
    requires
        idle_space(before, page, trampoline),
        extends(before, after),
    ensures
        idle_space(after, page, trampoline),
{
    window::lemma_tree_before(after, before, page + 1);
    assert forall|p: int| page * 4096 <= p < (page + 1) * 4096 implies #[trigger] after.byte(p)
        == before.byte(p) by {
        process::lemma_same_bytes(after, before, before.next(), p);
    }
}

/// The idle thread of a hart runs at the lowest priority, from the address 0x10000000 on. What
/// it finds there, and may execute but not write, is to pause, and to do that again.
pub proof fn law_idle_threads_wait(
    mem: Mem,
    page: int,
    layout: AddressLayout,
    code: CodeAddresses,
    tid: u16,
    job: usize,
    i: int,
)
    requires
        idle_space(mem, page, code.trampoline),
        0 <= page,
        page + 1 <= u64::MAX,
        page < crate::kernel::physmem::DIRECT_MAPPED_PAGES,
        0 <= i < 8,
    ensures
        ({
            let thread = idle_thread(page, layout, code, tid, job);
            let root = thread.private.root_pgtbl->0.root as int;
            &&& thread.trapframe.frame.user_epc == 0x1000_0000
            &&& thread.private.prio.level() == -1
            &&& thread.private.state is Runnable
            &&& process::found(
                mem,
                root,
                0x1000_0000 + i,
                seq![0x0fu8, 0x00, 0x00, 0x01, 0x6f, 0xf0, 0xdf, 0xff][i],
                10,
            )
        }),
{
    let root = page + 1;
    assert forall|k: int| 0 <= k < 1 implies paging::walk_spec(
        mem,
        root,
        #[trigger] crate::kernel::boot::runs::nth(INIT_ADDR, k),
    ) == Some((((page + k) * 4096) as u64, IDLE_FLAGS)) by {
        assert(crate::kernel::boot::runs::nth(INIT_ADDR, k) == INIT_ADDR);
    }
    process::lemma_found(mem, root, INIT_ADDR, page, 1, i, IDLE_FLAGS);
    assert(IDLE_FLAGS & 14 == 10 && IDLE_FLAGS & 17 == 17) by (bit_vector);
}

} // verus!
