//! The page table of the kernel: the parts of its image, where the linker put
//! them, and all of physical memory.

use vstd::prelude::*;

use super::runs;
use crate::addr::mappings;
use crate::addr::mappings::{AddressLayout, KERNEL_OFFSET, KERNEL_PHYS_OFFSET};
use crate::addr::virt;
use crate::addr::{Identity, Physical, PhysicalConst, VirtualConst};
use crate::kernel::paging;
use crate::kernel::paging::{PageSize, PageTable, PageTableFlags};
use crate::kernel::physmem::{Mem, PhysicalMemory};

verus! {

/// The bytes of a gibibyte.
pub const GIB: u64 = 0x4000_0000;

/// Readable and writable, and valid, accessed and dirty.
pub const DATA_FLAGS: u8 = 199;

/// Readable and executable, and valid, accessed and dirty.
pub const CODE_FLAGS: u8 = 203;

/// Memory once the `n` gibibytes from `from` on have been mapped at those from
/// `to` on.
pub open spec fn gibs_mapped(m: Mem, root: int, from: u64, to: u64, flags: u8, n: int) -> Mem
    decreases n,
{
    if n <= 0 {
        m
    } else {
        paging::mapped(
            gibs_mapped(m, root, from, to, flags, n - 1),
            root,
            (to + GIB * (n - 1)) as u64,
            paging::map_entry((from + GIB * (n - 1)) as u64, flags),
            PageSize::Giga,
        )
    }
}

/// Whether the gibibytes from `from` on can be mapped at those from `to` on.
pub open spec fn gibs_mappable(m: Mem, root: int, from: u64, to: u64, flags: u8, n: int) -> bool {
    &&& m.wf()
    &&& paging::tree_wf(m, root)
    &&& paging::unshared(m, root)
    &&& from % GIB == 0
    &&& to % GIB == 0
    &&& 0 <= n <= 256
    &&& from + GIB * n <= 64 * GIB
    &&& to + GIB * n <= 0x40_0000_0000 || 0xFFFF_FFC0_0000_0000 <= to <= u64::MAX + 1 - GIB * n
    &&& flags == 0 || (paging::flags_valid(flags) && paging::flags_access(flags))
}

/// The gibibytes from an address on have consecutive numbers.
pub proof fn lemma_gib_numbers(to: u64, k: int)
    requires
        to % GIB == 0,
        0 <= k < 256,
        to + GIB * k < 0x40_0000_0000 || (0xFFFF_FFC0_0000_0000 <= to && to + GIB * k
            <= u64::MAX),
    ensures
        virt::vpn((to + GIB * k) as u64, 2) == virt::vpn(to, 2) + k,
{
    let q = to as int / 0x4000_0000;
    assert((to + GIB * k) / 0x4000_0000 == q + k);
    if to >= 0xFFFF_FFC0_0000_0000 {
        assert(0x3_FFFF_FF00 <= q && q + k <= 0x3_FFFF_FFFF);
    } else {
        assert(0 <= q && q + k < 256);
    }
}

/// To map one gibibyte changes where its addresses lead, and no others.
pub proof fn lemma_one_gib(m: Mem, root: int, from: u64, to: u64, flags: u8, va: u64)
    requires
        m.wf(),
        paging::tree_wf(m, root),
        paging::unshared(m, root),
        from < 64 * GIB,
        flags == 0 || (paging::flags_valid(flags) && paging::flags_access(flags)),
    ensures
        ({
            let e = paging::map_entry(from, flags);
            let after = paging::mapped(m, root, to, e, PageSize::Giga);
            &&& after.wf()
            &&& paging::tree_wf(after, root)
            &&& paging::unshared(after, root)
            &&& after.same_extent(m)
            &&& paging::translate(after, root, va) == if virt::vpn(va, 2) == virt::vpn(to, 2) {
                paging::leaf_only(e, PageSize::Giga)
            } else {
                paging::translate(m, root, va)
            }
        }),
{
    let ppn = (from as int / 4096) % 0x1000_0000_0000;
    let e = paging::map_entry(from, flags);
    paging::law_entry_round_trip(ppn, flags);
    assert(flags == 0 ==> !paging::flags_valid(flags)) by {
        reveal(paging::flags_valid);
    }
    paging::law_mapped_at(
        m,
        root,
        virt::vpn(to, 2),
        virt::vpn(to, 1),
        virt::vpn(to, 0),
        e,
        PageSize::Giga,
    );
    let after = paging::mapped(m, root, to, e, PageSize::Giga);
    assert(paging::translate(after, root, va) == paging::lookup(
        after,
        root,
        virt::vpn(va, 2),
        virt::vpn(va, 1),
        virt::vpn(va, 0),
    ));
}

/// What gibibytes were mapped is found there: each of their addresses leads to
/// the entry of its gibibyte (to none, if the entry is not valid), and each
/// other address where it led before.
pub proof fn law_gibs_translate(
    m: Mem,
    root: int,
    from: u64,
    to: u64,
    flags: u8,
    n: int,
    va: u64,
)
    requires
        gibs_mappable(m, root, from, to, flags, n),
    ensures
        ({
            let after = gibs_mapped(m, root, from, to, flags, n);
            let i = virt::vpn(va, 2) - virt::vpn(to, 2);
            &&& after.wf()
            &&& paging::tree_wf(after, root)
            &&& paging::unshared(after, root)
            &&& after.same_extent(m)
            &&& paging::translate(after, root, va) == if 0 <= i < n {
                paging::leaf_only(
                    paging::map_entry((from + GIB * i) as u64, flags),
                    PageSize::Giga,
                )
            } else {
                paging::translate(m, root, va)
            }
        }),
    decreases n,
{
    if n > 0 {
        let before = gibs_mapped(m, root, from, to, flags, n - 1);
        let last = (to + GIB * (n - 1)) as u64;
        let place = (from + GIB * (n - 1)) as u64;
        law_gibs_translate(m, root, from, to, flags, n - 1, va);
        lemma_gib_numbers(to, n - 1);
        lemma_one_gib(before, root, place, last, flags, va);
    }
}

/// Map the `n` gibibytes from `from` on at those from `to` on.
pub fn map_gibs(
    mem: &mut PhysicalMemory,
    table: PageTable,
    from: u64,
    to: u64,
    flags: PageTableFlags,
    n: u64,
)
    requires
        gibs_mappable(old(mem)@, table.root as int, from, to, flags.bits, n as int),
    ensures
        final(mem)@ == gibs_mapped(
            old(mem)@,
            table.root as int,
            from,
            to,
            flags.bits,
            n as int,
        ),
        final(mem)@.wf(),
        paging::tree_wf(final(mem)@, table.root as int),
        paging::unshared(final(mem)@, table.root as int),
{
    let ghost m = mem@;
    let ghost root = table.root as int;
    let mut i: u64 = 0;
    while i < n
        invariant
            i <= n,
            root == table.root,
            gibs_mappable(m, root, from, to, flags.bits, n as int),
            mem@ == gibs_mapped(m, root, from, to, flags.bits, i as int),
        decreases n - i,
    {
        proof {
            law_gibs_translate(m, root, from, to, flags.bits, i as int, 0);
            runs::lemma_canonical_half((to + GIB * i) as u64);
        }
        let phys: PhysicalConst<u8, Identity> = Physical::from_usize_unchecked(from + GIB * i);
        let virt: VirtualConst<u8, Identity> = VirtualConst::from_usize_unchecked(to + GIB * i);
        table.map_gib(mem, phys, virt, flags);
        i += 1;
    }
    proof {
        law_gibs_translate(m, root, from, to, flags.bits, n as int, 0);
    }
}

/// A part of the kernel's image: the physical addresses from `start` up to
/// `end`.
#[derive(Copy, Clone, Debug, PartialEq, Eq, Structural)]
pub struct Part {
    pub start: u64,
    pub end: u64,
    pub flags: PageTableFlags,
}

impl Part {
    /// The number of pages of the part.
    pub open spec fn pages(self) -> int {
        (self.end - self.start + 4095) / 4096
    }

    /// The address behind the last page of the part.
    pub open spec fn top(self) -> int {
        self.start + 4096 * self.pages()
    }

    /// Where the part is mapped.
    pub open spec fn virt(self) -> u64 {
        (self.start - KERNEL_PHYS_OFFSET + KERNEL_OFFSET) as u64
    }

    /// The part consists of pages of the kernel, which may be accessed in some
    /// way.
    pub open spec fn wf(self, l: AddressLayout) -> bool {
        &&& self.start % 4096 == 0
        &&& KERNEL_PHYS_OFFSET <= self.start <= self.end
        &&& self.top() <= KERNEL_PHYS_OFFSET + l.kernel_size()
        &&& self.top() <= mappings::DIRECT_MAP_SIZE
        &&& paging::flags_valid(self.flags.bits)
        &&& paging::flags_access(self.flags.bits)
    }

    /// Whether the two parts have no page in common.
    pub open spec fn apart(self, other: Part) -> bool {
        self.top() <= other.start || other.top() <= self.start
    }
}

/// Whether one of the first `k` parts has a page in the same part of the address
/// space as an address, where the parts of the address space have the given size.
pub open spec fn touched(parts: Seq<Part>, k: int, va: u64, span: u64) -> bool {
    exists|i: int| 0 <= i < k && touches(#[trigger] parts[i], va, span)
}

/// Whether a part has a page in the same part of the address space as an address.
pub open spec fn touches(part: Part, va: u64, span: u64) -> bool {
    exists|j: int|
        0 <= j < part.pages() && (#[trigger] runs::nth(part.virt(), j)) / span == va / span
}

/// How many tables the page `j` of the part `k` is the first one to need.
pub open spec fn needed(parts: Seq<Part>, k: int, j: int) -> int {
    let to = parts[k].virt();
    let va = runs::nth(to, j);
    (if runs::first_in(to, j, runs::MIDDLE_SPAN) && !touched(parts, k, va, runs::MIDDLE_SPAN) {
        1int
    } else {
        0
    }) + (if runs::first_in(to, j, runs::LAST_SPAN) && !touched(parts, k, va, runs::LAST_SPAN) {
        1int
    } else {
        0
    })
}

/// How many tables the first `n` pages of the part `k` are the first ones to need.
pub open spec fn part_tables(parts: Seq<Part>, k: int, n: int) -> int
    decreases n,
{
    if n <= 0 {
        0
    } else {
        part_tables(parts, k, n - 1) + needed(parts, k, n - 1)
    }
}

/// How many tables the first `n` parts need together, besides the root.
pub open spec fn tables_needed(parts: Seq<Part>, n: int) -> int
    decreases n,
{
    if n <= 0 {
        0
    } else {
        tables_needed(parts, n - 1) + part_tables(parts, n - 1, parts[n - 1].pages())
    }
}

/// Memory once the first `n` parts of the kernel have been mapped.
pub open spec fn parts_mapped(m: Mem, root: int, parts: Seq<Part>, n: int) -> Mem
    decreases n,
{
    if n <= 0 {
        m
    } else {
        let part = parts[n - 1];
        runs::run_mapped(
            parts_mapped(m, root, parts, n - 1),
            root,
            part.start,
            part.virt(),
            part.flags.bits,
            part.pages(),
        )
    }
}

/// Whether the parts can be mapped into a table that maps nothing yet.
pub open spec fn parts_mappable(m: Mem, root: int, l: AddressLayout, parts: Seq<Part>) -> bool {
    &&& mappings::standard_layout(l)
    &&& m.wf()
    &&& paging::tree_wf(m, root)
    &&& paging::unshared(m, root)
    &&& m.available() >= tables_needed(parts, parts.len() as int)
    &&& forall|va: u64| #[trigger] paging::translate(m, root, va) is None
    &&& forall|i: int| 0 <= i < parts.len() ==> (#[trigger] parts[i]).wf(l)
    &&& forall|i: int, j: int|
        0 <= i < j < parts.len() ==> (#[trigger] parts[i]).apart(#[trigger] parts[j])
}

/// A virtual address of the kernel as a page number.
proof fn lemma_kernel_page(pa: int)
    requires
        KERNEL_PHYS_OFFSET <= pa < KERNEL_PHYS_OFFSET + mappings::DIRECT_MAP_SIZE,
        pa % 4096 == 0,
    ensures
        runs::page((pa - KERNEL_PHYS_OFFSET + KERNEL_OFFSET) as u64) == 0x500_0000 + (pa
            - KERNEL_PHYS_OFFSET) / 4096,
{
    reveal(runs::page);
    let va = (pa - KERNEL_PHYS_OFFSET + KERNEL_OFFSET) as u64;
    assert(va as int / 4096 == 0xF_FFFF_FD00_0000 + (pa - KERNEL_PHYS_OFFSET) / 4096);
}

/// Where pages of the kernel are mapped, they lie as they do in memory.
pub proof fn lemma_part_pages(l: AddressLayout, part: Part, i: int)
    requires
        mappings::standard_layout(l),
        part.wf(l),
        0 <= i < part.pages(),
    ensures
        runs::nth(part.virt(), i) == part.start + 4096 * i - KERNEL_PHYS_OFFSET + KERNEL_OFFSET,
        runs::page(runs::nth(part.virt(), i)) == 0x500_0000 + (part.start + 4096 * i
            - KERNEL_PHYS_OFFSET) / 4096,
        runs::nth(part.start, i) == part.start + 4096 * i,
{
    lemma_kernel_page(part.start + 4096 * i);
}

/// Parts that have no page in common have none in common where they are mapped.
proof fn lemma_parts_apart(l: AddressLayout, a: Part, b: Part, i: int, j: int)
    requires
        mappings::standard_layout(l),
        a.wf(l),
        b.wf(l),
        a.apart(b),
        0 <= i < a.pages(),
        0 <= j < b.pages(),
    ensures
        runs::page(runs::nth(a.virt(), i)) != runs::page(runs::nth(b.virt(), j)),
{
    lemma_part_pages(l, a, i);
    lemma_part_pages(l, b, j);
}

/// The next part can be mapped once those before it have been.
proof fn lemma_next_part(m: Mem, root: int, l: AddressLayout, parts: Seq<Part>, n: int)
    requires
        parts_mappable(m, root, l, parts),
        0 <= n < parts.len(),
    ensures
        runs::run_mappable(
            parts_mapped(m, root, parts, n),
            root,
            parts[n].start,
            parts[n].virt(),
            parts[n].flags.bits,
            parts[n].pages(),
        ),
        runs::in_one_half(parts[n].virt(), parts[n].pages()),
    decreases n, 2nat,
{
    let before = parts_mapped(m, root, parts, n);
    let part = parts[n];
    assert(part.wf(l));
    law_parts_walk(m, root, l, parts, n, 0);
    law_parts_tables(m, root, l, parts, n);
    lemma_tables_needed(parts, n + 1, parts.len() as int);
    lemma_part_missing(before, root, l, parts, n, part.pages());
    assert forall|i: int| 0 <= i < part.pages() implies paging::translate(
        before,
        root,
        #[trigger] runs::nth(part.virt(), i),
    ) is None by {
        lemma_still_unmapped(m, root, l, parts, n, i);
    }
}

/// What is yet to be mapped is not, once those before it have been.
proof fn lemma_still_unmapped(
    m: Mem,
    root: int,
    l: AddressLayout,
    parts: Seq<Part>,
    n: int,
    i: int,
)
    requires
        parts_mappable(m, root, l, parts),
        0 <= n < parts.len(),
        0 <= i < parts[n].pages(),
    ensures
        paging::translate(
            parts_mapped(m, root, parts, n),
            root,
            runs::nth(parts[n].virt(), i),
        ) is None,
    decreases n, 1nat,
{
    let part = parts[n];
    let va = runs::nth(part.virt(), i);
    law_parts_walk(m, root, l, parts, n, va);
    assert forall|k: int, j: int|
        0 <= k < n && 0 <= j < parts[k].pages() implies runs::page(va) != runs::page(
        #[trigger] runs::nth((#[trigger] parts[k]).virt(), j),
    ) by {
        lemma_parts_apart(l, parts[k], part, j, i);
    }
    assert(paging::walk_spec(parts_mapped(m, root, parts, n), root, va) is None);
}

/// A part needs no fewer tables than none, and more pages need no fewer.
pub proof fn lemma_part_tables(parts: Seq<Part>, k: int, n: int)
    requires
        0 <= n,
    ensures
        0 <= part_tables(parts, k, n) <= 2 * n,
    decreases n,
{
    if n > 0 {
        lemma_part_tables(parts, k, n - 1);
    }
}

/// More parts need no fewer tables.
pub proof fn lemma_tables_needed(parts: Seq<Part>, n: int, k: int)
    requires
        0 <= n <= k <= parts.len(),
        forall|i: int| 0 <= i < parts.len() ==> (#[trigger] parts[i]).pages() >= 0,
    ensures
        0 <= tables_needed(parts, n) <= tables_needed(parts, k),
    decreases k,
{
    if k > 0 {
        lemma_part_tables(parts, k - 1, parts[k - 1].pages());
        if n < k {
            lemma_tables_needed(parts, n, k - 1);
        } else {
            lemma_tables_needed(parts, k - 1, k - 1);
        }
    }
}

/// Once the parts before it have been mapped, a part lacks no more tables than it is
/// the first one to need.
proof fn lemma_part_missing(
    before: Mem,
    root: int,
    l: AddressLayout,
    parts: Seq<Part>,
    k: int,
    n: int,
)
    requires
        mappings::standard_layout(l),
        0 <= k < parts.len(),
        parts[k].wf(l),
        0 <= n <= parts[k].pages(),
        forall|i: int, j: int|
            0 <= i < k && 0 <= j < parts[i].pages() ==> runs::reached(
                before,
                root,
                #[trigger] runs::nth((#[trigger] parts[i]).virt(), j),
            ),
    ensures
        runs::tables_missing(before, root, parts[k].virt(), n) <= part_tables(parts, k, n),
    decreases n,
{
    if n > 0 {
        lemma_part_missing(before, root, l, parts, k, n - 1);
        let va = runs::nth(parts[k].virt(), n - 1);
        if touched(parts, k, va, runs::MIDDLE_SPAN) {
            let i = choose|i: int|
                0 <= i < k && touches(#[trigger] parts[i], va, runs::MIDDLE_SPAN);
            let j = choose|j: int|
                0 <= j < parts[i].pages() && (#[trigger] runs::nth(parts[i].virt(), j))
                    / runs::MIDDLE_SPAN == va / runs::MIDDLE_SPAN;
            assert(runs::reached(before, root, runs::nth(parts[i].virt(), j)));
        }
        if touched(parts, k, va, runs::LAST_SPAN) {
            let i = choose|i: int| 0 <= i < k && touches(#[trigger] parts[i], va, runs::LAST_SPAN);
            let j = choose|j: int|
                0 <= j < parts[i].pages() && (#[trigger] runs::nth(parts[i].virt(), j))
                    / runs::LAST_SPAN == va / runs::LAST_SPAN;
            let other = runs::nth(parts[i].virt(), j);
            assert(runs::reached(before, root, other));
            assert(other as int / 0x4000_0000 == (other as int / 0x20_0000) / 512);
            assert(va as int / 0x4000_0000 == (va as int / 0x20_0000) / 512);
        }
    }
}

/// Parts that are mapped have taken the tables that they need, and no more, and all
/// of these are there.
pub proof fn law_parts_tables(m: Mem, root: int, l: AddressLayout, parts: Seq<Part>, n: int)
    requires
        parts_mappable(m, root, l, parts),
        0 <= n <= parts.len(),
    ensures
        ({
            let after = parts_mapped(m, root, parts, n);
            &&& after.available() >= m.available() - tables_needed(parts, n)
            &&& forall|i: int, j: int|
                0 <= i < n && 0 <= j < parts[i].pages() ==> runs::reached(
                    after,
                    root,
                    #[trigger] runs::nth((#[trigger] parts[i]).virt(), j),
                )
        }),
    decreases n, 0nat,
{
    if n > 0 {
        let part = parts[n - 1];
        let before = parts_mapped(m, root, parts, n - 1);
        let after = parts_mapped(m, root, parts, n);
        law_parts_tables(m, root, l, parts, n - 1);
        lemma_next_part(m, root, l, parts, n - 1);
        runs::law_run_tables(
            before,
            root,
            part.start,
            part.virt(),
            part.flags.bits,
            part.pages(),
        );
        assert(part.wf(l));
        lemma_part_missing(before, root, l, parts, n - 1, part.pages());
        assert forall|i: int, j: int| 0 <= i < n && 0 <= j < parts[i].pages() implies runs::reached(
            after,
            root,
            #[trigger] runs::nth((#[trigger] parts[i]).virt(), j),
        ) by {
            if i < n - 1 {
                assert(runs::reached(before, root, runs::nth(parts[i].virt(), j)));
            }
        }
    }
}

/// The parts of the kernel are found where they were mapped: every address of
/// their pages leads to its place in memory, with the flags of the part; no
/// other address leads anywhere.
pub proof fn law_parts_walk(
    m: Mem,
    root: int,
    l: AddressLayout,
    parts: Seq<Part>,
    n: int,
    va: u64,
)
    requires
        parts_mappable(m, root, l, parts),
        0 <= n <= parts.len(),
    ensures
        ({
            let after = parts_mapped(m, root, parts, n);
            &&& after.wf()
            &&& paging::tree_wf(after, root)
            &&& paging::unshared(after, root)
            &&& forall|k: int, i: int|
                0 <= k < n && 0 <= i < parts[k].pages() && runs::page(va) == runs::page(
                    #[trigger] runs::nth((#[trigger] parts[k]).virt(), i),
                ) ==> paging::walk_spec(after, root, va) == Some(
                    ((parts[k].start + 4096 * i + va % 4096) as u64, parts[k].flags.bits),
                )
            &&& (forall|k: int, i: int|
                0 <= k < n && 0 <= i < parts[k].pages() ==> runs::page(va) != runs::page(
                    #[trigger] runs::nth((#[trigger] parts[k]).virt(), i),
                )) ==> paging::walk_spec(after, root, va) is None
        }),
    decreases n, 0nat,
{
    if n <= 0 {
        assert(paging::translate(m, root, va) is None);
    } else {
        let part = parts[n - 1];
        let before = parts_mapped(m, root, parts, n - 1);
        let after = parts_mapped(m, root, parts, n);
        law_parts_walk(m, root, l, parts, n - 1, va);
        lemma_next_part(m, root, l, parts, n - 1);
        runs::law_run_walk(
            before,
            root,
            part.start,
            part.virt(),
            part.flags.bits,
            part.pages(),
            va,
        );
        assert forall|k: int, i: int|
            0 <= k < n && 0 <= i < parts[k].pages() && runs::page(va) == runs::page(
                #[trigger] runs::nth((#[trigger] parts[k]).virt(), i),
            ) implies paging::walk_spec(after, root, va) == Some(
            ((parts[k].start + 4096 * i + va % 4096) as u64, parts[k].flags.bits),
        ) by {
            if k == n - 1 {
                lemma_part_pages(l, part, i);
            } else {
                assert forall|j: int| 0 <= j < part.pages() implies runs::page(va) != runs::page(
                    #[trigger] runs::nth(part.virt(), j),
                ) by {
                    lemma_parts_apart(l, parts[k], part, i, j);
                }
            }
        }
    }
}

/// Map the parts of the kernel into a table that maps nothing yet.
pub fn map_parts(mem: &mut PhysicalMemory, table: PageTable, l: &AddressLayout, parts: &Vec<Part>)
    requires
        parts_mappable(old(mem)@, table.root as int, *l, parts@),
    ensures
        final(mem)@ == parts_mapped(
            old(mem)@,
            table.root as int,
            parts@,
            parts@.len() as int,
        ),
        final(mem)@.wf(),
{
    let ghost m = mem@;
    let ghost root = table.root as int;
    let mut i: usize = 0;
    while i < parts.len()
        invariant
            i <= parts@.len(),
            root == table.root,
            parts_mappable(m, root, *l, parts@),
            mem@ == parts_mapped(m, root, parts@, i as int),
            mem@.wf(),
        decreases parts@.len() - i,
    {
        let part = parts[i];
        proof {
            lemma_next_part(m, root, *l, parts@, i as int);
            assert(parts@[i as int].wf(*l));
        }
        let pages: u64 = (part.end - part.start + 4095) / 4096;
        let to: u64 = part.start - KERNEL_PHYS_OFFSET + KERNEL_OFFSET;
        runs::map_run(mem, table, part.start, to, part.flags, pages);
        i += 1;
    }
}

/// A part has pages in the parts of the address space between those of its first and
/// of its last page.
proof fn lemma_touches(part: Part, n: int, to: u64, va: u64, span: u64)
    requires
        part.pages() == n,
        part.virt() == to,
        to % 4096 == 0,
        0 < n,
        to + 4096 * n <= u64::MAX,
        span == runs::LAST_SPAN || span == runs::MIDDLE_SPAN,
    ensures
        touches(part, va, span) <==> to / span <= va / span <= ((to + 4096 * (n - 1)) as u64)
            / span,
{
    let last = (to + 4096 * (n - 1)) as u64;
    let region = va as int / span as int;
    let at = region * span;
    assert(runs::nth(to, 0) == to);
    if to / span == va / span {
        assert(touches(part, va, span));
    }
    if to / span < va / span <= last / span {
        vstd::arithmetic::div_mod::lemma_div_multiples_vanish(region, span as int);
        vstd::arithmetic::mul::lemma_mul_is_commutative(region, span as int);
        assert(at / span as int == region);
        assert(to < at <= last && at % 4096 == 0) by {
            if span == runs::LAST_SPAN {
                assert(at == region * 0x20_0000);
            } else {
                assert(at == region * 0x4000_0000);
            }
        }
        let j = (at - to) / 4096;
        assert(runs::nth(to, j) == at);
        assert(touches(part, va, span));
    }
    if touches(part, va, span) {
        let j = choose|j: int|
            0 <= j < part.pages() && (#[trigger] runs::nth(part.virt(), j)) / span == va / span;
        assert(runs::nth(to, j) == to + 4096 * j);
        vstd::arithmetic::div_mod::lemma_div_is_ordered(
            to as int,
            runs::nth(to, j) as int,
            span as int,
        );
        vstd::arithmetic::div_mod::lemma_div_is_ordered(
            runs::nth(to, j) as int,
            last as int,
            span as int,
        );
    }
}

/// Whether a part has a page in the same part of the address space as an address.
fn is_touched(part: &Part, l: &AddressLayout, va: u64, span: u64) -> (r: bool)
    requires
        mappings::standard_layout(*l),
        part.wf(*l),
        span == runs::LAST_SPAN || span == runs::MIDDLE_SPAN,
    ensures
        r == touches(*part, va, span),
{
    let pages: u64 = (part.end - part.start + 4095) / 4096;
    if pages == 0 {
        return false;
    }
    let to: u64 = part.start - KERNEL_PHYS_OFFSET + KERNEL_OFFSET;
    let last: u64 = to + 4096 * (pages - 1);
    let region: u64 = va / span;
    proof {
        lemma_touches(*part, pages as int, to, va, span);
    }
    to / span <= region && region <= last / span
}

/// Whether one of the first `k` parts has a page in the same part of the address
/// space as an address.
fn is_any_touched(parts: &Vec<Part>, l: &AddressLayout, k: usize, va: u64, span: u64) -> (r: bool)
    requires
        mappings::standard_layout(*l),
        forall|i: int| 0 <= i < parts@.len() ==> (#[trigger] parts@[i]).wf(*l),
        k <= parts@.len(),
        span == runs::LAST_SPAN || span == runs::MIDDLE_SPAN,
    ensures
        r == touched(parts@, k as int, va, span),
{
    let mut i: usize = 0;
    while i < k
        invariant
            i <= k <= parts@.len(),
            mappings::standard_layout(*l),
            forall|i: int| 0 <= i < parts@.len() ==> (#[trigger] parts@[i]).wf(*l),
            span == runs::LAST_SPAN || span == runs::MIDDLE_SPAN,
            forall|j: int| 0 <= j < i ==> !touches(#[trigger] parts@[j], va, span),
        decreases k - i,
    {
        assert(parts@[i as int].wf(*l));
        if is_touched(&parts[i], l, va, span) {
            assert(touches(parts@[i as int], va, span));
            return true;
        }
        i += 1;
    }
    false
}

/// How many tables a part is the first one to need.
fn count_part(parts: &Vec<Part>, l: &AddressLayout, k: usize) -> (r: u64)
    requires
        mappings::standard_layout(*l),
        forall|i: int| 0 <= i < parts@.len() ==> (#[trigger] parts@[i]).wf(*l),
        k < parts@.len(),
    ensures
        r == part_tables(parts@, k as int, parts@[k as int].pages()),
        r <= 0x200_0000,
{
    let part = parts[k];
    assert(part.wf(*l));
    let pages: u64 = (part.end - part.start + 4095) / 4096;
    let to: u64 = part.start - KERNEL_PHYS_OFFSET + KERNEL_OFFSET;
    let mut count: u64 = 0;
    let mut j: u64 = 0;
    while j < pages
        invariant
            j <= pages == part.pages(),
            pages <= 0x100_0000,
            part == parts@[k as int],
            part.wf(*l),
            to == part.virt(),
            to + 4096 * pages <= u64::MAX,
            mappings::standard_layout(*l),
            forall|i: int| 0 <= i < parts@.len() ==> (#[trigger] parts@[i]).wf(*l),
            k < parts@.len(),
            count == part_tables(parts@, k as int, j as int),
            count <= 2 * j,
        decreases pages - j,
    {
        let va: u64 = to + 4096 * j;
        assert(va == runs::nth(to, j as int));
        if (j == 0 || va % runs::MIDDLE_SPAN == 0) && !is_any_touched(
            parts,
            l,
            k,
            va,
            runs::MIDDLE_SPAN,
        ) {
            count += 1;
        }
        if (j == 0 || va % runs::LAST_SPAN == 0) && !is_any_touched(
            parts,
            l,
            k,
            va,
            runs::LAST_SPAN,
        ) {
            count += 1;
        }
        j += 1;
    }
    count
}

/// How many tables the parts need together, besides the root.
pub fn count_tables(parts: &Vec<Part>, l: &AddressLayout) -> (r: u64)
    requires
        mappings::standard_layout(*l),
        forall|i: int| 0 <= i < parts@.len() ==> (#[trigger] parts@[i]).wf(*l),
        parts@.len() <= 4,
    ensures
        r == tables_needed(parts@, parts@.len() as int),
        r <= 0x800_0000,
{
    let mut count: u64 = 0;
    let mut k: usize = 0;
    while k < parts.len()
        invariant
            k <= parts@.len() <= 4,
            mappings::standard_layout(*l),
            forall|i: int| 0 <= i < parts@.len() ==> (#[trigger] parts@[i]).wf(*l),
            count == tables_needed(parts@, k as int),
            count <= 0x200_0000 * k,
        decreases parts@.len() - k,
    {
        count += count_part(parts, l, k);
        k += 1;
    }
    count
}

} // verus!
