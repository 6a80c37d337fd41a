//! Runs of pages, mapped one after the other.

use vstd::prelude::*;

use crate::addr::virt;
use crate::addr::{Identity, Physical, PhysicalConst, VirtualConst};
use crate::kernel::paging;
use crate::kernel::paging::{PageSize, PageTable, PageTableFlags};
use crate::kernel::physmem::{Mem, PhysicalMemory, DIRECT_MAPPED_PAGES};

verus! {

/// The number of pages of the address space.
pub const PAGES: u64 = 0x800_0000;

/// The page number of an address, within the address space.
#[verifier::opaque]
pub open spec fn page(va: u64) -> int {
    (va as int / 4096) % (PAGES as int)
}

/// The page `i` of a run that begins at `to`.
pub open spec fn nth(to: u64, i: int) -> u64 {
    (to + 4096 * i) as u64
}

/// Memory once the `n` pages from `from` on have been mapped at those from `to`
/// on.
pub open spec fn run_mapped(m: Mem, root: int, from: u64, to: u64, flags: u8, n: int) -> Mem
    decreases n,
{
    if n <= 0 {
        m
    } else {
        paging::mapped(
            run_mapped(m, root, from, to, flags, n - 1),
            root,
            nth(to, n - 1),
            paging::map_entry(nth(from, n - 1), flags),
            PageSize::Base,
        )
    }
}

/// The size of the part of the address space that a table of the last level covers.
pub const LAST_SPAN: u64 = 0x20_0000;

/// The size of the part of the address space that a table of the middle level
/// covers.
pub const MIDDLE_SPAN: u64 = 0x4000_0000;

/// Whether the page `i` of a run that begins at `to` is the first one of the run in
/// its part of the address space, where the parts have the given size.
pub open spec fn first_in(to: u64, i: int, span: u64) -> bool {
    i == 0 || nth(to, i) % span == 0
}

/// How many tables the page `i` of a run is the first one to lack.
pub open spec fn lacked(m: Mem, root: int, to: u64, i: int) -> int {
    let i2 = virt::vpn(nth(to, i), 2);
    let i1 = virt::vpn(nth(to, i), 1);
    (if first_in(to, i, MIDDLE_SPAN) && !paging::b2(m, root, i2) {
        1int
    } else {
        0
    }) + (if first_in(to, i, LAST_SPAN) && !paging::b1(m, root, i2, i1) {
        1int
    } else {
        0
    })
}

/// How many tables a run of `n` pages still lacks.
pub open spec fn tables_missing(m: Mem, root: int, to: u64, n: int) -> int
    decreases n,
{
    if n <= 0 {
        0
    } else {
        tables_missing(m, root, to, n - 1) + lacked(m, root, to, n - 1)
    }
}

/// How many tables there are on the way to a run of `n` pages.
pub open spec fn tables_spanned(to: u64, n: int) -> int {
    if n <= 0 {
        0
    } else {
        let last = to + 4096 * (n - 1);
        (last / (LAST_SPAN as int) - to as int / (LAST_SPAN as int) + 1) + (last / (
        MIDDLE_SPAN as int) - to as int / (MIDDLE_SPAN as int) + 1)
    }
}

/// Whether all tables of one tree are there in another.
pub open spec fn tables_kept(m: Mem, after: Mem, root: int) -> bool {
    &&& forall|i2: int| #[trigger] paging::b2(m, root, i2) ==> paging::b2(after, root, i2)
    &&& forall|i2: int, i1: int| #[trigger]
        paging::b1(m, root, i2, i1) ==> paging::b1(after, root, i2, i1)
}

/// Whether the tables are there that are on the way to an address.
pub open spec fn reached(m: Mem, root: int, va: u64) -> bool {
    paging::b1(m, root, virt::vpn(va, 2), virt::vpn(va, 1))
}

/// A longer run lacks no fewer tables, and no run lacks more than there are on the
/// way to it.
pub proof fn lemma_missing(m: Mem, root: int, to: u64, k: int, n: int)
    requires
        to % 4096 == 0,
        0 <= k <= n,
        to + 4096 * n <= u64::MAX + 1,
    ensures
        0 <= tables_missing(m, root, to, k) <= tables_missing(m, root, to, n),
        tables_missing(m, root, to, n) <= tables_spanned(to, n),
    decreases n,
{
    if n > 0 {
        if k < n {
            lemma_missing(m, root, to, k, n - 1);
        } else {
            lemma_missing(m, root, to, n - 1, n - 1);
        }
        let x = to + 4096 * (n - 1);
        assert(nth(to, n - 1) == x);
        if n > 1 {
            assert(x % (LAST_SPAN as int) != 0 ==> x / (LAST_SPAN as int) == (x - 4096) / (
            LAST_SPAN as int));
            assert(x % (LAST_SPAN as int) == 0 ==> x / (LAST_SPAN as int) == (x - 4096) / (
            LAST_SPAN as int) + 1);
            assert(x % (MIDDLE_SPAN as int) != 0 ==> x / (MIDDLE_SPAN as int) == (x - 4096) / (
            MIDDLE_SPAN as int));
            assert(x % (MIDDLE_SPAN as int) == 0 ==> x / (MIDDLE_SPAN as int) == (x - 4096) / (
            MIDDLE_SPAN as int) + 1);
        }
    }
}

/// A run of one page lacks the tables that are missing on the way to it.
pub proof fn lemma_one_missing(m: Mem, root: int, to: u64)
    ensures
        tables_missing(m, root, to, 1) == paging::missing(m, root, to),
{
    reveal_with_fuel(tables_missing, 2);
    assert(nth(to, 0) == to);
}

/// A run lacks no more tables where there are more.
pub proof fn lemma_fewer_missing(m: Mem, after: Mem, root: int, to: u64, n: int)
    requires
        tables_kept(m, after, root),
    ensures
        tables_missing(after, root, to, n) <= tables_missing(m, root, to, n),
    decreases n,
{
    if n > 0 {
        lemma_fewer_missing(m, after, root, to, n - 1);
        let i2 = virt::vpn(nth(to, n - 1), 2);
        let i1 = virt::vpn(nth(to, n - 1), 1);
        assert(paging::b2(m, root, i2) ==> paging::b2(after, root, i2));
        assert(paging::b1(m, root, i2, i1) ==> paging::b1(after, root, i2, i1));
    }
}

/// Whether the pages from `from` on can be mapped at those from `to` on:
/// nothing is mapped there, and there is memory for the tables that are missing.
pub open spec fn run_mappable(m: Mem, root: int, from: u64, to: u64, flags: u8, n: int) -> bool {
    &&& m.wf()
    &&& paging::tables_wf(m, root)
    &&& paging::unshared(m, root)
    &&& from % 4096 == 0
    &&& to % 4096 == 0
    &&& 0 <= n <= PAGES
    &&& from + 4096 * n <= DIRECT_MAPPED_PAGES * 4096
    &&& to + 4096 * n <= u64::MAX + 1
    &&& m.available() >= tables_missing(m, root, to, n)
    &&& forall|i: int| 0 <= i < n ==> paging::translate(m, root, #[trigger] nth(to, i)) is None
}

/// Whether the `n` pages from `to` on lie in one half of the address space.
pub open spec fn in_one_half(to: u64, n: int) -> bool {
    to + 4096 * n <= 0x40_0000_0000 || to >= 0xFFFF_FFC0_0000_0000
}

/// The page numbers of an address are its page number, in three parts.
#[verifier::spinoff_prover]
#[verifier::rlimit(40)]
proof fn lemma_page(va: u64)
    ensures
        page(va) == virt::vpn(va, 2) * 0x4_0000 + virt::vpn(va, 1) * 0x200 + virt::vpn(va, 0),
{
    reveal(page);
    let p = va as int / 4096;
    let q1 = p / 512;
    let q2 = q1 / 512;
    let q3 = q2 / 512;
    assert(va as int / 0x20_0000 == q1);
    assert(va as int / 0x4000_0000 == q2);
    assert(p == 0x800_0000 * q3 + (q2 % 512) * 0x4_0000 + (q1 % 512) * 0x200 + p % 512);
}

/// Numbers of three digits are the same if their digits are.
proof fn lemma_digits(a2: int, a1: int, a0: int, b2: int, b1: int, b0: int)
    requires
        0 <= a1 < 512,
        0 <= a0 < 512,
        0 <= b1 < 512,
        0 <= b0 < 512,
        a2 * 0x4_0000 + a1 * 0x200 + a0 == b2 * 0x4_0000 + b1 * 0x200 + b0,
    ensures
        a2 == b2,
        a1 == b1,
        a0 == b0,
{
}

/// Addresses of either half of the address space are canonical.
pub proof fn lemma_canonical_half(va: u64)
    requires
        va < 0x40_0000_0000 || va >= 0xFFFF_FFC0_0000_0000,
    ensures
        virt::canonical(va) == va,
{
}

/// Two addresses are on the same page if their page numbers are the same.
proof fn lemma_same_page(a: u64, b: u64)
    ensures
        page(a) == page(b) <==> paging::same_page(
            virt::vpn(a, 2),
            virt::vpn(a, 1),
            virt::vpn(a, 0),
            virt::vpn(b, 2),
            virt::vpn(b, 1),
            virt::vpn(b, 0),
            PageSize::Base,
        ),
{
    lemma_page(a);
    lemma_page(b);
    if page(a) == page(b) {
        lemma_digits(
            virt::vpn(a, 2),
            virt::vpn(a, 1),
            virt::vpn(a, 0),
            virt::vpn(b, 2),
            virt::vpn(b, 1),
            virt::vpn(b, 0),
        );
    }
}

/// The pages of a run have different page numbers.
pub proof fn lemma_run_pages(to: u64, i: int, j: int)
    requires
        to % 4096 == 0,
        0 <= i < PAGES,
        0 <= j < PAGES,
        to + 4096 * i <= u64::MAX,
        to + 4096 * j <= u64::MAX,
        i != j,
    ensures
        page(nth(to, i)) != page(nth(to, j)),
{
    reveal(page);
    let p = to as int / 4096;
    assert(nth(to, i) as int / 4096 == p + i);
    assert(nth(to, j) as int / 4096 == p + j);
}

/// An address is on the page of a run that it is as many pages behind the
/// beginning as.
pub proof fn lemma_page_of(to: u64, va: u64, i: int)
    requires
        to % 4096 == 0,
        to <= va,
        i == (va - to) / 4096,
    ensures
        page(va) == page(nth(to, i)),
{
    reveal(page);
    assert(nth(to, i) as int / 4096 == va as int / 4096);
}

/// Where nothing is mapped, no larger page is in the way.
pub proof fn lemma_unmapped_has_room(m: Mem, root: int, va: u64)
    requires
        paging::translate(m, root, va) is None,
        m.available() >= paging::missing(m, root, va),
    ensures
        paging::has_room(m, root, va, PageSize::Base),
{
}

/// Where an address of a page leads that has been mapped with the given flags: to the
/// same place of the page, if the flags say so.
pub open spec fn leads(from: u64, flags: u8, va: u64) -> Option<(u64, u8)> {
    if paging::flags_lead(flags) {
        Some(((from + va % 4096) as u64, flags))
    } else {
        None
    }
}

/// To map one more page changes where its addresses lead, and no others.
pub proof fn lemma_one_more(m: Mem, root: int, from: u64, to: u64, flags: u8, va: u64)
    requires
        m.wf(),
        paging::tables_wf(m, root),
        paging::unshared(m, root),
        m.available() >= paging::missing(m, root, to),
        paging::walk_spec(m, root, to) is None,
        from % 4096 == 0,
        from < DIRECT_MAPPED_PAGES * 4096,
    ensures
        ({
            let after = paging::mapped(
                m,
                root,
                to,
                paging::map_entry(from, flags),
                PageSize::Base,
            );
            &&& after.wf()
            &&& paging::tables_wf(after, root)
            &&& paging::tree_wf(m, root) && !paging::flags_point(flags) ==> paging::tree_wf(
                after,
                root,
            )
            &&& paging::unshared(after, root)
            &&& after.available() == m.available() - paging::missing(m, root, to)
            &&& tables_kept(m, after, root)
            &&& reached(after, root, to)
            &&& paging::walk_spec(after, root, va) == if page(va) == page(to) {
                leads(from, flags, va)
            } else {
                paging::walk_spec(m, root, va)
            }
        }),
{
    lemma_unmapped_has_room(m, root, to);
    let e = paging::map_entry(from, flags);
    let after = paging::mapped(m, root, to, e, PageSize::Base);
    paging::law_entry_round_trip((from as int / 4096) % 0x1000_0000_0000, flags);
    paging::law_mapped_at(
        m,
        root,
        virt::vpn(to, 2),
        virt::vpn(to, 1),
        virt::vpn(to, 0),
        e,
        PageSize::Base,
    );
    paging::law_tables_made(m, root, virt::vpn(to, 2), virt::vpn(to, 1), virt::vpn(to, 0), e);
    lemma_same_page(to, va);
    assert(paging::translate(after, root, va) == paging::lookup(
        after,
        root,
        virt::vpn(va, 2),
        virt::vpn(va, 1),
        virt::vpn(va, 0),
    ));
}

/// A part of a run can be mapped where the whole run can be.
pub proof fn lemma_shorter(m: Mem, root: int, from: u64, to: u64, flags: u8, k: int, n: int)
    requires
        run_mappable(m, root, from, to, flags, n),
        0 <= k <= n,
    ensures
        run_mappable(m, root, from, to, flags, k),
{
    lemma_missing(m, root, to, k, n);
}

/// Pages that follow each other in a run have the same tables, except where another
/// part of the address space begins.
proof fn lemma_same_tables(to: u64, i: int)
    requires
        to % 4096 == 0,
        0 < i,
        to + 4096 * i <= u64::MAX,
    ensures
        !first_in(to, i, MIDDLE_SPAN) ==> virt::vpn(nth(to, i), 2) == virt::vpn(nth(to, i - 1), 2),
        !first_in(to, i, LAST_SPAN) ==> virt::vpn(nth(to, i), 2) == virt::vpn(nth(to, i - 1), 2)
            && virt::vpn(nth(to, i), 1) == virt::vpn(nth(to, i - 1), 1),
{
    let x = nth(to, i) as int;
    assert(x == to + 4096 * i);
    assert(nth(to, i - 1) == x - 4096);
    if x % (LAST_SPAN as int) != 0 {
        assert(x / (LAST_SPAN as int) == (x - 4096) / (LAST_SPAN as int));
        assert(x % (MIDDLE_SPAN as int) != 0);
    }
    if x % (MIDDLE_SPAN as int) != 0 {
        assert(x / (MIDDLE_SPAN as int) == (x - 4096) / (MIDDLE_SPAN as int));
    }
}

/// A run that is mapped has taken the tables that it lacked, and no more, and all of
/// its tables are there.
pub proof fn law_run_tables(m: Mem, root: int, from: u64, to: u64, flags: u8, n: int)
    requires
        run_mappable(m, root, from, to, flags, n),
    ensures
        ({
            let after = run_mapped(m, root, from, to, flags, n);
            &&& after.available() >= m.available() - tables_missing(m, root, to, n)
            &&& tables_kept(m, after, root)
            &&& forall|i: int| 0 <= i < n ==> reached(after, root, #[trigger] nth(to, i))
        }),
    decreases n, 0nat,
{
    if n > 0 {
        let before = run_mapped(m, root, from, to, flags, n - 1);
        let after = run_mapped(m, root, from, to, flags, n);
        let last = nth(to, n - 1);
        lemma_shorter(m, root, from, to, flags, n - 1, n);
        law_run_tables(m, root, from, to, flags, n - 1);
        lemma_next_page(m, root, from, to, flags, n - 1, n);
        lemma_one_more(before, root, nth(from, n - 1), last, flags, 0);
        lemma_lacked(m, before, root, to, n - 1);
        assert forall|i: int| 0 <= i < n implies reached(after, root, #[trigger] nth(to, i)) by {
            if i < n - 1 {
                assert(reached(before, root, nth(to, i)));
            }
        }
    }
}

/// The next page of a run lacks no more tables, once those before it have been
/// mapped, than it is the first one to lack.
proof fn lemma_lacked(m: Mem, before: Mem, root: int, to: u64, i: int)
    requires
        to % 4096 == 0,
        0 <= i,
        to + 4096 * i <= u64::MAX,
        tables_kept(m, before, root),
        forall|j: int| 0 <= j < i ==> reached(before, root, #[trigger] nth(to, j)),
    ensures
        paging::missing(before, root, nth(to, i)) <= lacked(m, root, to, i),
{
    let i2 = virt::vpn(nth(to, i), 2);
    let i1 = virt::vpn(nth(to, i), 1);
    if i > 0 {
        lemma_same_tables(to, i);
        assert(reached(before, root, nth(to, i - 1)));
    }
    assert(paging::b2(m, root, i2) ==> paging::b2(before, root, i2));
    assert(paging::b1(m, root, i2, i1) ==> paging::b1(before, root, i2, i1));
}

/// A run of pages is found where it was mapped: every address of its pages
/// leads to the same place of the page that was mapped there, with the flags, if
/// these let it lead anywhere; every address of another page leads where it did
/// before. The tree stays one, unless the flags make the pages be taken for tables.
#[verifier::rlimit(80)]
#[verifier::spinoff_prover]
pub proof fn law_run_walk(m: Mem, root: int, from: u64, to: u64, flags: u8, n: int, va: u64)
    requires
        run_mappable(m, root, from, to, flags, n),
    ensures
        ({
            let after = run_mapped(m, root, from, to, flags, n);
            &&& after.wf()
            &&& paging::tables_wf(after, root)
            &&& paging::tree_wf(m, root) && !paging::flags_point(flags) ==> paging::tree_wf(
                after,
                root,
            )
            &&& paging::unshared(after, root)
            &&& forall|i: int|
                0 <= i < n && page(va) == page(#[trigger] nth(to, i)) ==> paging::walk_spec(
                    after,
                    root,
                    va,
                ) == leads(nth(from, i), flags, va)
            &&& (forall|i: int| 0 <= i < n ==> page(va) != page(#[trigger] nth(to, i)))
                ==> paging::walk_spec(after, root, va) == paging::walk_spec(m, root, va)
        }),
    decreases n, 0nat,
{
    if n > 0 {
        let before = run_mapped(m, root, from, to, flags, n - 1);
        let last = nth(to, n - 1);
        lemma_shorter(m, root, from, to, flags, n - 1, n);
        law_run_walk(m, root, from, to, flags, n - 1, va);
        lemma_next_page(m, root, from, to, flags, n - 1, n);
        lemma_one_more(before, root, nth(from, n - 1), last, flags, va);
        let after = run_mapped(m, root, from, to, flags, n);
        assert(after == paging::mapped(
            before,
            root,
            last,
            paging::map_entry(nth(from, n - 1), flags),
            PageSize::Base,
        ));
        assert forall|i: int| 0 <= i < n && page(va) == page(
            #[trigger] nth(to, i),
        ) implies paging::walk_spec(after, root, va) == leads(nth(from, i), flags, va) by {
            if i < n - 1 {
                lemma_run_pages(to, n - 1, i);
            }
        }
    }
}

/// The next page of a run can be mapped once those before it have been.
pub proof fn lemma_next_page(m: Mem, root: int, from: u64, to: u64, flags: u8, i: int, n: int)
    requires
        run_mappable(m, root, from, to, flags, n),
        0 <= i < n,
    ensures
        ({
            let before = run_mapped(m, root, from, to, flags, i);
            &&& before.wf()
            &&& paging::tables_wf(before, root)
            &&& paging::tree_wf(m, root) && !paging::flags_point(flags) ==> paging::tree_wf(
                before,
                root,
            )
            &&& paging::unshared(before, root)
            &&& paging::translate(before, root, nth(to, i)) is None
            &&& before.available() >= paging::missing(before, root, nth(to, i))
            &&& paging::has_room(before, root, nth(to, i), PageSize::Base)
        }),
    decreases i, 1nat,
{
    let va = nth(to, i);
    let before = run_mapped(m, root, from, to, flags, i);
    lemma_shorter(m, root, from, to, flags, i, n);
    law_run_tables(m, root, from, to, flags, i);
    lemma_lacked(m, before, root, to, i);
    lemma_missing(m, root, to, i + 1, n);
    law_run_walk(m, root, from, to, flags, i, va);
    assert forall|j: int| 0 <= j < i implies page(va) != page(#[trigger] nth(to, j)) by {
        lemma_run_pages(to, i, j);
    }
    assert(paging::walk_spec(m, root, va) is None);
    lemma_unmapped_has_room(before, root, va);
}

/// Map the `n` pages from `from` on at those from `to` on.
#[verifier::rlimit(80)]
#[verifier::spinoff_prover]
pub fn map_run(
    mem: &mut PhysicalMemory,
    table: PageTable,
    from: u64,
    to: u64,
    flags: PageTableFlags,
    n: u64,
)
    requires
        run_mappable(old(mem)@, table.root as int, from, to, flags.bits, n as int),
        in_one_half(to, n as int),
    ensures
        final(mem)@ == run_mapped(
            old(mem)@,
            table.root as int,
            from,
            to,
            flags.bits,
            n as int,
        ),
        final(mem)@.wf(),
        paging::tree_wf(old(mem)@, table.root as int) && !paging::flags_point(flags.bits)
            ==> paging::tree_wf(final(mem)@, table.root as int),
        paging::unshared(final(mem)@, table.root as int),
        final(mem)@.available() >= old(mem)@.available() - tables_missing(
            old(mem)@,
            table.root as int,
            to,
            n as int,
        ),
{
    let ghost m = mem@;
    let ghost root = table.root as int;
    let mut i: u64 = 0;
    while i < n
        invariant
            i <= n,
            root == table.root,
            run_mappable(m, root, from, to, flags.bits, n as int),
            in_one_half(to, n as int),
            mem@ == run_mapped(m, root, from, to, flags.bits, i as int),
        decreases n - i,
    {
        proof {
            lemma_next_page(m, root, from, to, flags.bits, i as int, n as int);
            lemma_canonical_half(nth(to, i as int));
        }
        let phys: PhysicalConst<u8, Identity> = Physical::from_usize_unchecked(from + 4096 * i);
        let virt: VirtualConst<u8, Identity> = VirtualConst::from_usize_unchecked(to + 4096 * i);
        table.map(mem, phys, virt, flags);
        i += 1;
    }
    proof {
        law_run_walk(m, root, from, to, flags.bits, n as int, 0);
        law_run_tables(m, root, from, to, flags.bits, n as int);
    }
}

} // verus!
