//! Sv39 page tables.

use vstd::prelude::*;

use super::physmem::{Mem, PhysicalMemory, DIRECT_MAPPED_PAGES};
use crate::addr::virt;
use crate::addr::{
    AddressLayout, DirectMapped, Identity, Mapping, Physical, PhysicalConst, PhysicalMut, Ppn,
    VirtualConst, VirtualMut, Vpn,
};

verus! {

/// The last page of the lower half of the address space.
pub const LOWER_HALF_TOP: u64 = 0x003F_FFFF_F000;

/// Bits of a page table entry.
#[derive(Copy, Clone, Debug, PartialEq, Eq, PartialOrd, Ord, Hash, Structural)]
pub struct PageTableFlags {
    pub bits: u8,
}

impl PageTableFlags {
    /// The entry is in use.
    pub const VALID: u8 = 1;

    /// Loads are allowed.
    pub const READ: u8 = 2;

    /// Stores are allowed.
    pub const WRITE: u8 = 4;

    /// Instruction fetches are allowed.
    pub const EXECUTE: u8 = 8;

    /// U-mode may access the page.
    pub const USER: u8 = 16;

    /// The mapping is in every address space.
    pub const GLOBAL: u8 = 32;

    /// The page has been accessed.
    pub const ACCESSED: u8 = 64;

    /// The page has been written.
    pub const DIRTY: u8 = 128;

    /// Readable and writable.
    pub const RW: u8 = 6;

    /// Readable and executable.
    pub const RX: u8 = 10;

    /// Readable, writable and executable.
    pub const RWX: u8 = 14;

    /// Valid, and readable by U-mode.
    pub const USER_READ: u8 = 19;

    /// Valid, and writable by U-mode.
    pub const USER_WRITE: u8 = 21;

    /// Valid, accessed and dirty.
    pub const VAD: u8 = 193;

    /// The flags with the given bits; every bit is a flag.
    pub fn from_bits_truncate(bits: u8) -> (r: Self)
        ensures
            r.bits == bits,
    {
        PageTableFlags { bits }
    }

    /// Whether all of the given bits are set.
    pub fn contains(self, bits: u8) -> (r: bool)
        ensures
            r == (self.bits & bits == bits),
    {
        self.bits & bits == bits
    }
}

// ---- entries ----

/// Whether flags say that an entry is in use.
#[verifier::opaque]
pub open spec fn flags_valid(flags: u8) -> bool {
    flags % 2 == 1
}

/// Whether flags allow some access: reading, writing or executing.
#[verifier::opaque]
pub open spec fn flags_access(flags: u8) -> bool {
    (flags / 2) % 8 != 0
}

/// Whether an entry with the given flags maps a page.
pub open spec fn flags_lead(flags: u8) -> bool {
    flags_valid(flags) && flags_access(flags)
}

/// Whether an entry with the given flags would be taken for one that points to a
/// table.
pub open spec fn flags_point(flags: u8) -> bool {
    flags_valid(flags) && !flags_access(flags)
}

/// Whether an entry points to a table of the next level.
pub open spec fn is_branch(e: u64) -> bool {
    flags_valid(entry_flags(e)) && !flags_access(entry_flags(e))
}

/// Whether an entry maps a page.
pub open spec fn is_leaf(e: u64) -> bool {
    flags_valid(entry_flags(e)) && flags_access(entry_flags(e))
}

/// The page number of an entry.
#[verifier::opaque]
pub open spec fn entry_ppn(e: u64) -> int {
    (e as int / 1024) % 0x1000_0000_0000
}

/// The flags of an entry.
#[verifier::opaque]
pub open spec fn entry_flags(e: u64) -> u8 {
    (e % 256) as u8
}

/// The entry of a page number and flags.
#[verifier::opaque]
pub open spec fn make_entry(ppn: int, flags: u8) -> u64 {
    (ppn * 1024 + flags) as u64
}

/// Shifts and masks of an entry, as arithmetic.
proof fn lemma_entry_bits(e: u64, ppn: u64, flags: u64)
    by (bit_vector)
    ensures
        e >> 10 == e / 1024,
        e as u8 == e % 256,
        ppn < 0x1000_0000_0000 && flags < 256 ==> (ppn << 10) | flags == ppn * 1024 + flags,
        ppn < 0x1000_0000_0000 ==> (ppn << 12) == ppn * 4096,
{
}

proof fn lemma_flag_bits(flags: u8)
    by (bit_vector)
    ensures
        flags & 1 == 0 <==> flags % 2 == 0,
        flags & 14 == 0 <==> (flags / 2) % 8 == 0,
{
}

/// An entry gives back the page number and the flags that it was made of.
pub proof fn law_entry_round_trip(ppn: int, flags: u8)
    requires
        0 <= ppn < 0x1000_0000_0000,
    ensures
        entry_ppn(make_entry(ppn, flags)) == ppn,
        entry_flags(make_entry(ppn, flags)) == flags,
{
    reveal(entry_ppn);
    reveal(entry_flags);
    reveal(make_entry);
}

/// An entry of zeroes is not in use; one with the valid bit alone points to a
/// table.
proof fn lemma_special_entries(ppn: int)
    requires
        0 <= ppn < 0x1000_0000_0000,
    ensures
        !flags_valid(entry_flags(0)),
        is_branch(make_entry(ppn, PageTableFlags::VALID)),
        entry_ppn(make_entry(ppn, PageTableFlags::VALID)) == ppn,
{
    law_entry_round_trip(ppn, PageTableFlags::VALID);
    reveal(entry_flags);
    reveal(flags_valid);
    reveal(flags_access);
}

/// A page table entry, as it is in memory.
#[derive(Copy, Clone, Debug, PartialEq, Eq, Structural)]
pub struct RawPageTableEntry(pub u64);

impl RawPageTableEntry {
    /// Take the entry apart.
    pub fn decode(self) -> (r: PageTableEntry)
        ensures
            r.ppn@ == entry_ppn(self.0),
            r.flags.bits == entry_flags(self.0),
    {
        proof {
            lemma_entry_bits(self.0, 0, 0);
            reveal(entry_ppn);
            reveal(entry_flags);
        }
        PageTableEntry {
            ppn: Ppn::from_usize_truncate(self.0 >> 10),
            flags: PageTableFlags::from_bits_truncate(self.0 as u8),
        }
    }

    /// The entry that `f` makes of this one.
    pub fn update<F: FnOnce(PageTableEntry) -> PageTableEntry>(self, f: F) -> (r: RawPageTableEntry)
        requires
            forall|pte: PageTableEntry| #[trigger] call_requires(f, (pte,)),
        ensures
            exists|pte: PageTableEntry, new: PageTableEntry|
                pte.ppn@ == entry_ppn(self.0) && pte.flags.bits == entry_flags(self.0)
                    && #[trigger] call_ensures(f, (pte,), new) && r.0 == make_entry(
                    new.ppn@,
                    new.flags.bits,
                ),
    {
        let pte = self.decode();
        let new = f(pte);
        new.encode()
    }

    /// Replace the entry by what `f` makes of it.
    pub fn update_in_place<F: FnOnce(PageTableEntry) -> PageTableEntry>(&mut self, f: F)
        requires
            forall|pte: PageTableEntry| #[trigger] call_requires(f, (pte,)),
        ensures
            exists|pte: PageTableEntry, new: PageTableEntry|
                pte.ppn@ == entry_ppn(old(self).0) && pte.flags.bits == entry_flags(old(self).0)
                    && #[trigger] call_ensures(f, (pte,), new) && final(self).0 == make_entry(
                    new.ppn@,
                    new.flags.bits,
                ),
    {
        let pte = self.decode();
        let new = f(pte);
        new.encode_to(self);
    }
}

/// A page table entry, taken apart.
#[derive(Copy, Clone, Debug, PartialEq, Eq, Structural)]
pub struct PageTableEntry {
    pub ppn: Ppn,
    pub flags: PageTableFlags,
}

/// A table of 512 entries, one frame of memory.
pub struct RawPageTable {
    pub ptes: [RawPageTableEntry; 512],
}

/// What an entry is for.
pub enum PTEKind {
    /// It maps a page.
    Leaf,
    /// It points to a table of the next level.
    Branch(PhysicalMut<RawPageTable, DirectMapped>),
    /// It is not in use.
    Invalid,
}

impl PageTableEntry {
    /// The entry as it is in memory.
    pub fn encode(self) -> (r: RawPageTableEntry)
        ensures
            r.0 == make_entry(self.ppn@, self.flags.bits),
    {
        let ppn: u64 = self.ppn.into_usize();
        proof {
            lemma_entry_bits(0, ppn, self.flags.bits as u64);
            lemma_flag_bits(self.flags.bits);
            reveal(flags_valid);
            reveal(flags_access);
            reveal(make_entry);
        }
        RawPageTableEntry((ppn << 10) | (self.flags.bits as u64))
    }

    /// What this entry is for. Tables lie in direct-mapped memory.
    pub fn kind(self) -> (r: PTEKind)
        requires
            flags_valid(self.flags.bits) && !flags_access(self.flags.bits) ==> self.ppn@
                < DIRECT_MAPPED_PAGES,
        ensures
            r is Invalid <==> !flags_valid(self.flags.bits),
            r is Branch <==> flags_valid(self.flags.bits) && !flags_access(self.flags.bits),
            r is Leaf <==> flags_valid(self.flags.bits) && flags_access(self.flags.bits),
            r matches PTEKind::Branch(addr) ==> addr@ == self.ppn@ * 4096,
    {
        let ppn: u64 = self.ppn.into_usize();
        proof {
            lemma_entry_bits(0, ppn, self.flags.bits as u64);
            lemma_flag_bits(self.flags.bits);
            reveal(flags_valid);
            reveal(flags_access);
            reveal(make_entry);
        }
        if self.flags.bits & PageTableFlags::VALID == 0 {
            PTEKind::Invalid
        } else if self.flags.bits & PageTableFlags::RWX == 0 {
            PTEKind::Branch(Physical::from_usize_unchecked(ppn << 12))
        } else {
            PTEKind::Leaf
        }
    }

    /// Write the entry.
    #[inline]
    pub fn encode_to(self, rpte: &mut RawPageTableEntry)
        ensures
            final(rpte).0 == make_entry(self.ppn@, self.flags.bits),
    {
        *rpte = self.encode();
    }
}

// ---- trees of tables ----

/// The entry `i2` of the root table.
pub open spec fn e2(m: Mem, root: int, i2: int) -> u64 {
    m.at(root, i2)
}

/// The entry `i1` of the table that the entry `i2` of the root points to.
pub open spec fn e1(m: Mem, root: int, i2: int, i1: int) -> u64 {
    m.at(entry_ppn(e2(m, root, i2)), i1)
}

/// The entry `i0` of the table of the last level that the entries `i2` and
/// `i1` lead to.
pub open spec fn e0(m: Mem, root: int, i2: int, i1: int, i0: int) -> u64 {
    m.at(entry_ppn(e1(m, root, i2, i1)), i0)
}

/// Whether the root's entry `i2` points to a table.
pub open spec fn b2(m: Mem, root: int, i2: int) -> bool {
    0 <= i2 < 512 && is_branch(e2(m, root, i2))
}

/// Whether the entries `i2` and `i1` lead to a table of the last level.
pub open spec fn b1(m: Mem, root: int, i2: int, i1: int) -> bool {
    b2(m, root, i2) && 0 <= i1 < 512 && is_branch(e1(m, root, i2, i1))
}

/// Pages that entries map are direct-mapped.
pub open spec fn leaf_ok(e: u64) -> bool {
    is_leaf(e) ==> entry_ppn(e) < DIRECT_MAPPED_PAGES
}

/// A tree of tables: every table is in memory, there are no more than three
/// levels, and the pages that the entries map are direct-mapped.
pub open spec fn tree_wf(m: Mem, root: int) -> bool {
    &&& tables_wf(m, root)
    &&& forall|i2: int, i1: int, i0: int|
        b1(m, root, i2, i1) && 0 <= i0 < 512 ==> leaf_ok(#[trigger] e0(m, root, i2, i1, i0))
            && !is_branch(e0(m, root, i2, i1, i0))
}

/// The tables of a tree, whatever the entries of the last level are: every table is
/// in memory, and the larger pages are direct-mapped.
pub open spec fn tables_wf(m: Mem, root: int) -> bool {
    &&& m.has(root)
    &&& forall|i2: int|
        0 <= i2 < 512 ==> leaf_ok(#[trigger] e2(m, root, i2)) && (b2(m, root, i2) ==> m.has(
            entry_ppn(e2(m, root, i2)),
        ))
    &&& forall|i2: int, i1: int|
        b2(m, root, i2) && 0 <= i1 < 512 ==> leaf_ok(#[trigger] e1(m, root, i2, i1)) && (b1(
            m,
            root,
            i2,
            i1,
        ) ==> m.has(entry_ppn(e1(m, root, i2, i1))))
}

/// No table of the tree is pointed to by two entries of it.
pub open spec fn unshared(m: Mem, root: int) -> bool {
    &&& forall|i2: int| #[trigger] b2(m, root, i2) ==> entry_ppn(e2(m, root, i2)) != root
    &&& forall|i2: int, j2: int| #[trigger]
        b2(m, root, i2) && #[trigger] b2(m, root, j2) && entry_ppn(e2(m, root, i2)) == entry_ppn(
            e2(m, root, j2),
        ) ==> i2 == j2
    &&& forall|i2: int, i1: int| #[trigger]
        b1(m, root, i2, i1) ==> entry_ppn(e1(m, root, i2, i1)) != root
    &&& forall|i2: int, i1: int, j2: int| #[trigger]
        b1(m, root, i2, i1) && #[trigger] b2(m, root, j2) ==> entry_ppn(e1(m, root, i2, i1))
            != entry_ppn(e2(m, root, j2))
    &&& forall|i2: int, i1: int, j2: int, j1: int| #[trigger]
        b1(m, root, i2, i1) && #[trigger] b1(m, root, j2, j1) && entry_ppn(e1(m, root, i2, i1))
            == entry_ppn(e1(m, root, j2, j1)) ==> i2 == j2 && i1 == j1
}

/// The entry that the three indices lead to, if it maps a page.
pub open spec fn lookup(m: Mem, root: int, i2: int, i1: int, i0: int) -> Option<Leaf> {
    if b1(m, root, i2, i1) {
        leaf_only(e0(m, root, i2, i1, i0), PageSize::Base)
    } else if b2(m, root, i2) {
        leaf_only(e1(m, root, i2, i1), PageSize::Mega)
    } else {
        leaf_only(e2(m, root, i2), PageSize::Giga)
    }
}

/// An entry that maps a page, and the size of the page.
#[derive(Copy, Clone, Debug, PartialEq, Eq, Structural)]
pub struct Leaf {
    pub entry: u64,
    pub size: PageSize,
}

/// The entry of a level on which pages have the given size, if it maps a page.
pub open spec fn leaf_only(entry: u64, size: PageSize) -> Option<Leaf> {
    if is_leaf(entry) {
        Some(Leaf { entry, size })
    } else {
        None
    }
}

/// The entry that maps the address `va`, if one does.
pub open spec fn translate(m: Mem, root: int, va: u64) -> Option<Leaf> {
    lookup(m, root, virt::vpn(va, 2), virt::vpn(va, 1), virt::vpn(va, 0))
}

/// Where a walk for the address `va` ends: the physical address, which is as
/// far behind the beginning of its page as `va` is, and the flags of the entry
/// that maps it.
pub open spec fn walk_spec(m: Mem, root: int, va: u64) -> Option<(u64, u8)> {
    match translate(m, root, va) {
        Some(leaf) => Some((walked(leaf, va) as u64, entry_flags(leaf.entry))),
        None => None,
    }
}

/// The physical address to which a page maps the address `va`.
pub open spec fn walked(leaf: Leaf, va: u64) -> int {
    entry_ppn(leaf.entry) * 4096 + leaf.size.offset(va)
}

/// The sizes of pages.
#[derive(Copy, Clone, Debug, PartialEq, Eq, Structural)]
pub enum PageSize {
    /// 4KiB.
    Base,
    /// 2MiB.
    Mega,
    /// 1GiB.
    Giga,
}

impl PageSize {
    /// How far the address `va` is behind the beginning of its page.
    pub open spec fn offset(self, va: u64) -> int {
        match self {
            PageSize::Base => va as int % 0x1000,
            PageSize::Mega => va as int % 0x20_0000,
            PageSize::Giga => va as int % 0x4000_0000,
        }
    }
}

/// The table that the entry `i` of the table `t` points to; where it points to
/// none, it is made to point to a new one.
pub open spec fn enter(m: Mem, t: int, i: int) -> (Mem, int) {
    if is_branch(m.at(t, i)) {
        (m, entry_ppn(m.at(t, i)))
    } else {
        (m.grow().set(t, i, make_entry(m.next(), PageTableFlags::VALID)), m.next())
    }
}

/// Memory once the page that three indices stand for is mapped in the tree of
/// `root` by the entry `e`, as a page of the given size.
pub open spec fn mapped_at(
    m: Mem,
    root: int,
    i2: int,
    i1: int,
    i0: int,
    e: u64,
    size: PageSize,
) -> Mem {
    match size {
        PageSize::Giga => m.set(root, i2, e),
        PageSize::Mega => {
            let (m1, t1) = enter(m, root, i2);
            m1.set(t1, i1, e)
        },
        PageSize::Base => {
            let (m1, t1) = enter(m, root, i2);
            let (m2, t0) = enter(m1, t1, i1);
            m2.set(t0, i0, e)
        },
    }
}

/// Memory once the address `va` is mapped in the tree of `root` by the entry
/// `e`, as a page of the given size.
pub open spec fn mapped(m: Mem, root: int, va: u64, e: u64, size: PageSize) -> Mem {
    mapped_at(m, root, virt::vpn(va, 2), virt::vpn(va, 1), virt::vpn(va, 0), e, size)
}

/// How many tables are missing on the way to a page of 4 KiB.
pub open spec fn missing_at(m: Mem, root: int, i2: int, i1: int) -> int {
    if b1(m, root, i2, i1) {
        0
    } else if b2(m, root, i2) {
        1
    } else {
        2
    }
}

/// How many tables are missing on the way to the page of 4 KiB at `va`.
pub open spec fn missing(m: Mem, root: int, va: u64) -> int {
    missing_at(m, root, virt::vpn(va, 2), virt::vpn(va, 1))
}

/// Whether no larger page is in the way of a page of the given size, and there
/// is memory for the tables that it still needs.
pub open spec fn room_at(m: Mem, root: int, i2: int, i1: int, size: PageSize) -> bool {
    match size {
        PageSize::Giga => true,
        PageSize::Mega => {
            &&& !is_leaf(e2(m, root, i2))
            &&& b2(m, root, i2) || m.available() >= 1
        },
        PageSize::Base => {
            &&& !is_leaf(e2(m, root, i2))
            &&& b2(m, root, i2) ==> !is_leaf(e1(m, root, i2, i1))
            &&& m.available() >= missing_at(m, root, i2, i1)
        },
    }
}

/// Whether no larger page is in the way of a page of the given size at `va`,
/// and there is memory for the tables that it still needs.
pub open spec fn has_room(m: Mem, root: int, va: u64, size: PageSize) -> bool {
    room_at(m, root, virt::vpn(va, 2), virt::vpn(va, 1), size)
}

/// Follow three indices through the tree of `root`.
fn find_leaf(mem: &PhysicalMemory, root: u64, i2: u64, i1: u64, i0: u64) -> (r: Option<
    (PageTableEntry, PageSize),
>)
    requires
        mem@.wf(),
        tree_wf(mem@, root as int),
        i2 < 512,
        i1 < 512,
        i0 < 512,
    ensures
        r is Some <==> lookup(mem@, root as int, i2 as int, i1 as int, i0 as int) is Some,
        r matches Some((entry, size)) ==> {
            let leaf = lookup(mem@, root as int, i2 as int, i1 as int, i0 as int)->0;
            &&& entry.ppn@ == entry_ppn(leaf.entry)
            &&& entry.flags.bits == entry_flags(leaf.entry)
            &&& entry.ppn@ < DIRECT_MAPPED_PAGES
            &&& size == leaf.size
        },
{
    let ghost m = mem@;
    let ghost rt = root as int;
    let raw2: u64 = mem.read(root, i2);
    assert(raw2 == e2(m, rt, i2 as int));
    let entry = RawPageTableEntry(raw2).decode();
    match entry.kind() {
        PTEKind::Invalid => {
            return None;
        },
        PTEKind::Leaf => {
            return Some((entry, PageSize::Giga));
        },
        PTEKind::Branch(_) => {},
    }
    assert(b2(m, rt, i2 as int));
    let raw1: u64 = mem.read(entry.ppn.into_usize(), i1);
    assert(raw1 == e1(m, rt, i2 as int, i1 as int));
    let entry = RawPageTableEntry(raw1).decode();
    match entry.kind() {
        PTEKind::Invalid => {
            return None;
        },
        PTEKind::Leaf => {
            return Some((entry, PageSize::Mega));
        },
        PTEKind::Branch(_) => {},
    }
    assert(b1(m, rt, i2 as int, i1 as int));
    let raw0: u64 = mem.read(entry.ppn.into_usize(), i0);
    assert(raw0 == e0(m, rt, i2 as int, i1 as int, i0 as int));
    let entry = RawPageTableEntry(raw0).decode();
    match entry.kind() {
        PTEKind::Leaf => Some((entry, PageSize::Base)),
        _ => None,
    }
}

/// Go from the table `t` to the one that its entry `i` points to, making one
/// where it points to none.
fn enter_table(mem: &mut PhysicalMemory, t: u64, i: u64) -> (r: u64)
    requires
        old(mem)@.wf(),
        old(mem)@.has(t as int),
        i < 512,
        !is_leaf(old(mem)@.at(t as int, i as int)),
        is_branch(old(mem)@.at(t as int, i as int)) ==> old(mem)@.has(
            entry_ppn(old(mem)@.at(t as int, i as int)),
        ),
        is_branch(old(mem)@.at(t as int, i as int)) || old(mem)@.available() > 0,
    ensures
        (final(mem)@, r as int) == enter(old(mem)@, t as int, i as int),
        final(mem)@.wf(),
        final(mem)@.has(r as int),
{
    let entry = RawPageTableEntry(mem.read(t, i)).decode();
    match entry.kind() {
        PTEKind::Branch(_) => entry.ppn.into_usize(),
        _ => {
            let next: u64 = mem.allocate();
            proof {
                lemma_special_entries(next as int);
            }
            let entry = PageTableEntry {
                ppn: Ppn::from_usize_truncate(next),
                flags: PageTableFlags::from_bits_truncate(PageTableFlags::VALID),
            };
            mem.write(t, i, entry.encode().0);
            next
        },
    }
}

/// Map a page in the tree of `root`.
fn map_tree(
    mem: &mut PhysicalMemory,
    root: u64,
    vpns: [Vpn; 3],
    entry: PageTableEntry,
    size: PageSize,
)
    requires
        old(mem)@.wf(),
        tables_wf(old(mem)@, root as int),
        room_at(old(mem)@, root as int, vpns@[0]@, vpns@[1]@, size),
    ensures
        final(mem)@ == mapped_at(
            old(mem)@,
            root as int,
            vpns@[0]@,
            vpns@[1]@,
            vpns@[2]@,
            make_entry(entry.ppn@, entry.flags.bits),
            size,
        ),
        final(mem)@.wf(),
{
    let i2: u64 = vpns[0].into_usize();
    let i1: u64 = vpns[1].into_usize();
    let i0: u64 = vpns[2].into_usize();
    let raw: u64 = entry.encode().0;
    let ghost m = mem@;
    let ghost rt = root as int;
    assert(m.at(rt, i2 as int) == e2(m, rt, i2 as int));
    match size {
        PageSize::Giga => mem.write(root, i2, raw),
        PageSize::Mega => {
            let t1: u64 = enter_table(mem, root, i2);
            mem.write(t1, i1, raw);
        },
        PageSize::Base => {
            let t1: u64 = enter_table(mem, root, i2);
            assert(b2(m, rt, i2 as int) ==> mem@.at(t1 as int, i1 as int) == e1(
                m,
                rt,
                i2 as int,
                i1 as int,
            ));
            proof {
                lemma_special_entries(0);
            }
            let t0: u64 = enter_table(mem, t1, i1);
            mem.write(t0, i0, raw);
        },
    }
}

/// A page table: a tree of tables in memory.
#[derive(Copy, Clone, Debug, PartialEq, Eq, Structural)]
pub struct PageTable {
    /// The page number of the root table.
    pub root: u64,
}

impl PageTable {
    /// A new table that maps nothing.
    pub fn new(mem: &mut PhysicalMemory) -> (r: Self)
        requires
            old(mem)@.wf(),
            old(mem)@.available() > 0,
        ensures
            final(mem)@ == old(mem)@.grow(),
            final(mem)@.wf(),
            r.root == old(mem)@.next(),
            tree_wf(final(mem)@, r.root as int),
            unshared(final(mem)@, r.root as int),
            forall|va: u64| #[trigger] translate(final(mem)@, r.root as int, va) is None,
    {
        let root: u64 = mem.allocate();
        proof {
            lemma_special_entries(0);
        }
        assert forall|i: int| 0 <= i < 512 implies #[trigger] e2(mem@, root as int, i) == 0 by {}
        PageTable { root }
    }

    /// The virtual address of the root table, to be given to
    /// [`Self::from_raw`] later.
    pub fn into_raw(self, l: &AddressLayout) -> (r: VirtualMut<RawPageTable, DirectMapped>)
        requires
            l.wf(),
            self.root < DIRECT_MAPPED_PAGES,
            DirectMapped::virt_of(*l, (self.root * 4096) as u64) is Some,
        ensures
            r@ == DirectMapped::virt_of(*l, (self.root * 4096) as u64)->0,
    {
        self.as_physical().into_virt(l)
    }

    /// Recover a [`PageTable`] from [`Self::into_raw`].
    pub fn from_raw(l: &AddressLayout, root: VirtualMut<RawPageTable, DirectMapped>) -> (r: Self)
        requires
            l.wf(),
            DirectMapped::phys_of(*l, root@) is Some,
        ensures
            r.root == DirectMapped::phys_of(*l, root@)->0 / 4096,
    {
        PageTable { root: root.into_phys(l).into_usize() / 4096 }
    }

    /// The page number of the root table.
    pub fn as_raw(&self) -> (r: u64)
        ensures
            r == self.root,
    {
        self.root
    }

    /// The physical address of the root table.
    pub fn as_physical(&self) -> (r: PhysicalMut<RawPageTable, DirectMapped>)
        requires
            self.root < DIRECT_MAPPED_PAGES,
        ensures
            r@ == self.root * 4096,
    {
        Physical::from_usize_unchecked(self.root * 4096)
    }

    /// The physical address of the root table.
    pub fn as_physical_const(&self) -> (r: PhysicalConst<RawPageTable, DirectMapped>)
        requires
            self.root < DIRECT_MAPPED_PAGES,
        ensures
            r@ == self.root * 4096,
    {
        Physical::from_usize_unchecked(self.root * 4096)
    }

    /// Walk a virtual address (which does not have to be page-aligned) and find
    /// the physical address it maps to (which is offset from the page by the
    /// same amount as the virtual address); `None` if it is not mapped.
    pub fn walk<T>(&self, mem: &PhysicalMemory, virt_addr: VirtualConst<T, Identity>) -> (r: Option<
        (PhysicalConst<T, DirectMapped>, PageTableFlags),
    >)
        requires
            mem@.wf(),
            tree_wf(mem@, self.root as int),
        ensures
            r is Some <==> walk_spec(mem@, self.root as int, virt_addr@) is Some,
            r matches Some((paddr, flags)) ==> walk_spec(mem@, self.root as int, virt_addr@)
                == Some((paddr@, flags.bits)),
    {
        let vpns = virt_addr.vpns();
        let addr: u64 = virt_addr.into_usize();
        match find_leaf(
            mem,
            self.root,
            vpns[0].into_usize(),
            vpns[1].into_usize(),
            vpns[2].into_usize(),
        ) {
            Some((entry, size)) => {
                let offset: u64 = match size {
                    PageSize::Base => addr % 0x1000,
                    PageSize::Mega => addr % 0x20_0000,
                    PageSize::Giga => addr % 0x4000_0000,
                };
                let paddr: u64 = entry.ppn.into_usize() * 4096 + offset;
                Some((Physical::from_usize_unchecked(paddr), entry.flags))
            },
            None => None,
        }
    }

    /// Map a gibibyte (GiB)-sized page in this page table.
    pub fn map_gib(
        &self,
        mem: &mut PhysicalMemory,
        from: PhysicalConst<u8, Identity>,
        to: VirtualConst<u8, Identity>,
        flags: PageTableFlags,
    )
        requires
            old(mem)@.wf(),
            tree_wf(old(mem)@, self.root as int),
            from@ % 0x4000_0000 == 0,
            to@ % 0x4000_0000 == 0,
        ensures
            final(mem)@ == mapped(
                old(mem)@,
                self.root as int,
                to@,
                map_entry(from@, flags.bits),
                PageSize::Giga,
            ),
            final(mem)@.wf(),
    {
        let entry = PageTableEntry { ppn: from.ppn(), flags };
        map_tree(mem, self.root, to.vpns(), entry, PageSize::Giga);
    }

    /// Map a page that is not mapped yet in this page table.
    pub fn map(
        &self,
        mem: &mut PhysicalMemory,
        from: PhysicalConst<u8, Identity>,
        to: VirtualConst<u8, Identity>,
        flags: PageTableFlags,
    )
        requires
            old(mem)@.wf(),
            tables_wf(old(mem)@, self.root as int),
            from@ % 4096 == 0,
            to@ % 4096 == 0,
            has_room(old(mem)@, self.root as int, to@, PageSize::Base),
            translate(old(mem)@, self.root as int, to@) is None,
        ensures
            final(mem)@ == mapped(
                old(mem)@,
                self.root as int,
                to@,
                map_entry(from@, flags.bits),
                PageSize::Base,
            ),
            final(mem)@.wf(),
    {
        let entry = PageTableEntry { ppn: from.ppn(), flags };
        map_tree(mem, self.root, to.vpns(), entry, PageSize::Base);
    }

    /// How many tables are missing on the way to the page of 4 KiB at an address.
    pub fn missing_tables(&self, mem: &PhysicalMemory, va: VirtualConst<u8, Identity>) -> (r: u64)
        requires
            mem@.wf(),
            tree_wf(mem@, self.root as int),
        ensures
            r == missing(mem@, self.root as int, va@),
    {
        let ghost m = mem@;
        let ghost rt = self.root as int;
        let vpns = va.vpns();
        let i2: u64 = vpns[0].into_usize();
        let i1: u64 = vpns[1].into_usize();
        let raw2: u64 = mem.read(self.root, i2);
        assert(raw2 == e2(m, rt, i2 as int));
        let entry = RawPageTableEntry(raw2).decode();
        match entry.kind() {
            PTEKind::Branch(_) => {},
            _ => {
                return 2;
            },
        }
        assert(b2(m, rt, i2 as int));
        let raw1: u64 = mem.read(entry.ppn.into_usize(), i1);
        assert(raw1 == e1(m, rt, i2 as int, i1 as int));
        let entry = RawPageTableEntry(raw1).decode();
        match entry.kind() {
            PTEKind::Branch(_) => 0,
            _ => 1,
        }
    }

    /// Try to copy `len` bytes from the address in this userspace page table. It
    /// fails if one of them is not mapped, or not readable by userspace.
    pub fn copy_from_user(
        &self,
        mem: &PhysicalMemory,
        len: u64,
        src: VirtualConst<u8, Identity>,
    ) -> (r: Result<Vec<u8>, UserspaceCopyError>)
        requires
            mem@.wf(),
            tree_wf(mem@, self.root as int),
            src@ + len <= u64::MAX,
            forall|i: int|
                0 <= i < len && readable(
                    mem@,
                    self.root as int,
                    #[trigger] copy_source(src@, i),
                ) ==> mem@.has_bytes(walk_addr(mem@, self.root as int, copy_source(src@, i)), 1),
        ensures
            r is Ok <==> forall|i: int|
                0 <= i < len ==> readable(mem@, self.root as int, #[trigger] copy_source(src@, i)),
            r matches Ok(bytes) ==> {
                &&& bytes@.len() == len
                &&& forall|i: int|
                    0 <= i < len ==> #[trigger] bytes@[i] == mem@.byte(
                        walk_addr(mem@, self.root as int, copy_source(src@, i)),
                    )
            },
    {
        let mut bytes: Vec<u8> = Vec::new();
        let mut i: u64 = 0;
        while i < len
            invariant
                i <= len,
                mem@.wf(),
                tree_wf(mem@, self.root as int),
                src@ + len <= u64::MAX,
                forall|k: int|
                    0 <= k < len && readable(
                        mem@,
                        self.root as int,
                        #[trigger] copy_source(src@, k),
                    ) ==> mem@.has_bytes(
                        walk_addr(mem@, self.root as int, copy_source(src@, k)),
                        1,
                    ),
                forall|k: int|
                    0 <= k < i ==> readable(
                        mem@,
                        self.root as int,
                        #[trigger] copy_source(src@, k),
                    ),
                bytes@.len() == i,
                forall|k: int|
                    0 <= k < i ==> #[trigger] bytes@[k] == mem@.byte(
                        walk_addr(mem@, self.root as int, copy_source(src@, k)),
                    ),
            decreases len - i,
        {
            let from: u64 = src.into_usize() + i;
            let vaddr: VirtualConst<u8, Identity> = VirtualConst::from_usize_unchecked(from);
            assert(copy_source(src@, i as int) == vaddr@);
            match self.walk(mem, vaddr) {
                None => {
                    assert(!readable(mem@, self.root as int, copy_source(src@, i as int)));
                    return Err(UserspaceCopyError);
                },
                Some((paddr, flags)) => {
                    if !flags.contains(PageTableFlags::USER_READ) {
                        assert(!readable(mem@, self.root as int, copy_source(src@, i as int)));
                        return Err(UserspaceCopyError);
                    }
                    assert(readable(mem@, self.root as int, copy_source(src@, i as int)));
                    bytes.push(mem.read_byte(paddr.into_usize()));
                },
            }
            i += 1;
        }
        Ok(bytes)
    }
}

/// Handles of page tables, as capabilities and threads hold them. Two handles
/// are equal if and only if they are handles of the same table.
#[derive(Copy, Clone, Debug, PartialEq, Eq, Structural)]
pub struct SharedPageTable {
    /// The page number of the root table.
    pub root: u64,
}

/// Whether every entry of a table of the last level is in use.
pub open spec fn full_last(m: Mem, t: int) -> bool {
    forall|i: int| 0 <= i < 512 ==> flags_valid(entry_flags(#[trigger] m.at(t, i)))
}

/// Whether every entry of a table of the middle level leads to a table of the
/// last level that is full.
pub open spec fn full_middle(m: Mem, t: int) -> bool {
    forall|i: int|
        0 <= i < 512 ==> is_branch(#[trigger] m.at(t, i)) && full_last(m, entry_ppn(m.at(t, i)))
}

/// Whether `(i1, i0)` is the first free page below a table of the middle level:
/// the entry `i1` is the first that does not lead to a full table, and `i0` is
/// the first entry there that is not in use (0 where there is no table).
pub open spec fn first_free_below(m: Mem, t: int, i1: int, i0: int) -> bool {
    &&& 0 <= i1 < 512
    &&& forall|k: int|
        0 <= k < i1 ==> is_branch(#[trigger] m.at(t, k)) && full_last(m, entry_ppn(m.at(t, k)))
    &&& if is_branch(m.at(t, i1)) {
        &&& 0 <= i0 < 512
        &&& !flags_valid(entry_flags(m.at(entry_ppn(m.at(t, i1)), i0)))
        &&& forall|k: int|
            0 <= k < i0 ==> flags_valid(
                entry_flags(#[trigger] m.at(entry_ppn(m.at(t, i1)), k)),
            )
    } else {
        i0 == 0
    }
}

/// Whether the indices stand for the first free page of the upper half of the
/// address space.
pub open spec fn first_free(m: Mem, root: int, i2: int, i1: int, i0: int) -> bool {
    &&& 256 <= i2 < 512
    &&& forall|k: int|
        256 <= k < i2 ==> is_branch(#[trigger] m.at(root, k)) && full_middle(
            m,
            entry_ppn(m.at(root, k)),
        )
    &&& if is_branch(m.at(root, i2)) {
        first_free_below(m, entry_ppn(m.at(root, i2)), i1, i0)
    } else {
        i1 == 0 && i0 == 0
    }
}

/// The first entry of a table of the last level that is not in use.
fn find_unused(mem: &PhysicalMemory, t: u64) -> (r: Option<u64>)
    requires
        mem@.wf(),
        mem@.has(t as int),
    ensures
        r is None <==> full_last(mem@, t as int),
        r matches Some(i0) ==> {
            &&& i0 < 512
            &&& !flags_valid(entry_flags(mem@.at(t as int, i0 as int)))
            &&& forall|k: int|
                0 <= k < i0 ==> flags_valid(entry_flags(#[trigger] mem@.at(t as int, k)))
        },
{
    let mut i: u64 = 0;
    while i < 512
        invariant
            i <= 512,
            mem@.wf(),
            mem@.has(t as int),
            forall|k: int|
                0 <= k < i ==> flags_valid(entry_flags(#[trigger] mem@.at(t as int, k))),
        decreases 512 - i,
    {
        let flags: u8 = RawPageTableEntry(mem.read(t, i)).decode().flags.bits;
        proof {
            lemma_flag_bits(flags);
            reveal(flags_valid);
        }
        if flags & PageTableFlags::VALID == 0 {
            return Some(i);
        }
        i += 1;
    }
    None
}

/// The first free page below a table of the middle level.
fn find_below(mem: &PhysicalMemory, t: u64) -> (r: Option<(u64, u64)>)
    requires
        mem@.wf(),
        mem@.has(t as int),
        forall|k: int|
            0 <= k < 512 && is_branch(#[trigger] mem@.at(t as int, k)) ==> mem@.has(
                entry_ppn(mem@.at(t as int, k)),
            ),
    ensures
        r is None <==> full_middle(mem@, t as int),
        r matches Some((i1, i0)) ==> first_free_below(mem@, t as int, i1 as int, i0 as int) && i0
            < 512,
{
    let mut i: u64 = 0;
    while i < 512
        invariant
            i <= 512,
            mem@.wf(),
            mem@.has(t as int),
            forall|k: int|
                0 <= k < 512 && is_branch(#[trigger] mem@.at(t as int, k)) ==> mem@.has(
                    entry_ppn(mem@.at(t as int, k)),
                ),
            forall|k: int|
                0 <= k < i ==> is_branch(#[trigger] mem@.at(t as int, k)) && full_last(
                    mem@,
                    entry_ppn(mem@.at(t as int, k)),
                ),
        decreases 512 - i,
    {
        let entry = RawPageTableEntry(mem.read(t, i)).decode();
        assert(entry.ppn@ == entry_ppn(mem@.at(t as int, i as int)));
        match entry.kind() {
            PTEKind::Branch(_) => {
                match find_unused(mem, entry.ppn.into_usize()) {
                    Some(i0) => {
                        return Some((i, i0));
                    },
                    None => {},
                }
            },
            _ => {
                return Some((i, 0));
            },
        }
        i += 1;
    }
    None
}

impl SharedPageTable {
    /// The handle of a page table.
    pub fn from_inner(x: PageTable) -> (r: Self)
        ensures
            r.root == x.root,
    {
        SharedPageTable { root: x.root }
    }

    /// Find a page of the upper half of the address space to which nothing is
    /// mapped; `None` if there is none.
    pub fn find_free_trapframe_addr(&self, mem: &PhysicalMemory) -> (r: Option<
        VirtualConst<u8, Identity>,
    >)
        requires
            mem@.wf(),
            tree_wf(mem@, self.root as int),
        ensures
            r is None <==> forall|k: int|
                256 <= k < 512 ==> is_branch(#[trigger] mem@.at(self.root as int, k))
                    && full_middle(mem@, entry_ppn(mem@.at(self.root as int, k))),
            r matches Some(va) ==> exists|i2: int, i1: int, i0: int| #[trigger]
                first_free(mem@, self.root as int, i2, i1, i0) && va@ == virt::canonical(
                    (i2 * 0x4000_0000 + i1 * 0x20_0000 + i0 * 0x1000) as u64,
                ),
    {
        let ghost m = mem@;
        let ghost rt = self.root as int;
        let mut i: u64 = 256;
        while i < 512
            invariant
                256 <= i <= 512,
                m == mem@,
                rt == self.root,
                mem@.wf(),
                tree_wf(mem@, self.root as int),
                forall|k: int|
                    256 <= k < i ==> is_branch(#[trigger] m.at(rt, k)) && full_middle(
                        m,
                        entry_ppn(m.at(rt, k)),
                    ),
            decreases 512 - i,
        {
            let entry = RawPageTableEntry(mem.read(self.root, i)).decode();
            assert(m.at(rt, i as int) == e2(m, rt, i as int));
            match entry.kind() {
                PTEKind::Branch(_) => {
                    let t: u64 = entry.ppn.into_usize();
                    assert(b2(m, rt, i as int));
                    assert forall|k: int|
                        0 <= k < 512 && is_branch(#[trigger] m.at(t as int, k)) implies m.has(
                        entry_ppn(m.at(t as int, k)),
                    ) by {
                        assert(m.at(t as int, k) == e1(m, rt, i as int, k));
                    }
                    match find_below(mem, t) {
                        Some((i1, i0)) => {
                            assert(first_free(m, rt, i as int, i1 as int, i0 as int));
                            let va: u64 = i * 0x4000_0000 + i1 * 0x20_0000 + i0 * 0x1000;
                            return Some(VirtualConst::from_usize_unchecked(va));
                        },
                        None => {},
                    }
                },
                _ => {
                    assert(first_free(m, rt, i as int, 0, 0));
                    let va: u64 = i * 0x4000_0000;
                    return Some(VirtualConst::from_usize_unchecked(va));
                },
            }
            i += 1;
        }
        None
    }

    /// Walk a virtual address (which does not have to be page-aligned) and find
    /// the physical address it maps to (which is offset from the page by the
    /// same amount as the virtual address); `None` if it is not mapped.
    pub fn walk<T>(&self, mem: &PhysicalMemory, virt_addr: VirtualConst<T, Identity>) -> (r: Option<
        (PhysicalConst<T, DirectMapped>, PageTableFlags),
    >)
        requires
            mem@.wf(),
            tree_wf(mem@, self.root as int),
        ensures
            r is Some <==> walk_spec(mem@, self.root as int, virt_addr@) is Some,
            r matches Some((paddr, flags)) ==> walk_spec(mem@, self.root as int, virt_addr@)
                == Some((paddr@, flags.bits)),
    {
        PageTable { root: self.root }.walk(mem, virt_addr)
    }

    /// Map a page of the given size in this page table, in place of what is
    /// mapped there.
    pub fn map(
        &self,
        mem: &mut PhysicalMemory,
        from: PhysicalConst<u8, Identity>,
        to: VirtualConst<u8, Identity>,
        flags: PageTableFlags,
        size: PageSize,
    )
        requires
            old(mem)@.wf(),
            tree_wf(old(mem)@, self.root as int),
            from@ % 4096 == 0,
            to@ % 4096 == 0,
            has_room(old(mem)@, self.root as int, to@, size),
        ensures
            final(mem)@ == mapped(
                old(mem)@,
                self.root as int,
                to@,
                map_entry(from@, flags.bits),
                size,
            ),
            final(mem)@.wf(),
    {
        let entry = PageTableEntry { ppn: from.ppn(), flags };
        map_tree(mem, self.root, to.vpns(), entry, size);
    }

    /// The physical address of the root table.
    pub fn as_physical_const(&self) -> (r: PhysicalConst<RawPageTable, DirectMapped>)
        requires
            self.root < DIRECT_MAPPED_PAGES,
        ensures
            r@ == self.root * 4096,
    {
        Physical::from_usize_unchecked(self.root * 4096)
    }
}

/// Hands out frames for tables.
pub struct PagingAllocator;

impl PagingAllocator {
    /// Allocate a frame filled with zeroes; `None` if there is none left.
    pub fn allocate(&self, mem: &mut PhysicalMemory) -> (r: Option<PhysicalMut<u8, DirectMapped>>)
        requires
            old(mem)@.wf(),
        ensures
            final(mem)@.wf(),
            r is Some <==> old(mem)@.available() > 0,
            r is Some ==> final(mem)@ == old(mem)@.grow() && r->0@ == old(mem)@.next() * 4096,
            r is None ==> final(mem)@ == old(mem)@,
    {
        if mem.can_allocate() {
            let ppn: u64 = mem.allocate();
            Some(Physical::from_usize_unchecked(ppn * 4096))
        } else {
            None
        }
    }
}

/// The contents of the `satp` register: the address space and the root table
/// that are in use.
#[derive(Copy, Clone, Debug, PartialEq, Eq, Structural)]
pub struct Satp {
    pub asid: u16,
    pub ppn: Ppn,
}

/// The `satp` register, as the processor has it.
#[derive(Copy, Clone, Debug, PartialEq, Eq, Structural)]
pub struct RawSatp(u64);

/// Shifts and masks of `satp`, as arithmetic.
proof fn lemma_satp_bits(raw: u64, asid: u64, ppn: u64)
    by (bit_vector)
    ensures
        raw >> 60 == raw / 0x1000_0000_0000_0000,
        raw >> 60 < 16,
        (raw >> 44) & 0xFFFF == (raw / 0x1000_0000_0000) % 0x1_0000,
        asid < 0x1_0000 && ppn < 0x1000_0000_0000 ==> 0x8000_0000_0000_0000u64 | (asid << 44) | ppn
            == 0x8000_0000_0000_0000u64 + asid * 0x1000_0000_0000 + ppn,
{
}

impl Satp {
    /// The number that the register holds.
    pub open spec fn value(self) -> int {
        0x8000_0000_0000_0000 + self.asid * 0x1000_0000_0000 + self.ppn@
    }

    /// The register, with the mode that means Sv39.
    pub fn encode(self) -> (r: RawSatp)
        ensures
            r@ == self.value(),
    {
        let ppn: u64 = self.ppn.into_usize();
        proof {
            lemma_satp_bits(0, self.asid as u64, ppn);
        }
        RawSatp(0x8000_0000_0000_0000u64 | ((self.asid as u64) << 44) | ppn)
    }
}

impl RawSatp {
    /// The number that the register holds.
    pub closed spec fn view(&self) -> u64 {
        self.0
    }

    /// The register that holds a number.
    pub fn new_unchecked(x: u64) -> (r: RawSatp)
        ensures
            r@ == x,
    {
        RawSatp(x)
    }

    /// Take the register apart. Its mode has to be Sv39.
    pub fn decode(self) -> (r: Satp)
        requires
            self@ / 0x1000_0000_0000_0000 == 8,
        ensures
            r.asid == (self@ / 0x1000_0000_0000) % 0x1_0000,
            r.ppn@ == self@ % 0x1000_0000_0000,
    {
        proof {
            lemma_satp_bits(self.0, 0, 0);
        }
        let asid: u64 = (self.0 >> 44) & 0xFFFF;
        Satp { asid: asid as u16, ppn: Ppn::from_usize_truncate(self.0) }
    }

    /// The mode.
    pub fn mode(self) -> (r: u8)
        ensures
            r == self@ / 0x1000_0000_0000_0000,
    {
        proof {
            lemma_satp_bits(self.0, 0, 0);
        }
        (self.0 >> 60) as u8
    }

    /// The number that the register holds.
    pub fn as_usize(self) -> (r: u64)
        ensures
            r == self@,
    {
        self.0
    }
}

/// Whether the given contents of `satp` mean that paging is enabled.
#[inline(always)]
pub fn enabled(satp: RawSatp) -> (r: bool)
    ensures
        r == (satp@ / 0x1000_0000_0000_0000 == 8),
{
    satp.mode() == 8
}

/// The root page table that is in use, given the contents of `satp`. Paging
/// has to be enabled.
pub fn root_page_table(satp: RawSatp) -> (r: PageTable)
    requires
        satp@ / 0x1000_0000_0000_0000 == 8,
    ensures
        r.root == satp@ % 0x1000_0000_0000,
{
    PageTable { root: satp.decode().ppn.into_usize() }
}

/// Decoding an encoded `satp` gives back the address space and the root table,
/// and its mode is Sv39.
pub proof fn law_satp_round_trip(satp: Satp)
    requires
        0 <= satp.ppn@ < 0x1000_0000_0000,
    ensures
        satp.value() / 0x1000_0000_0000_0000 == 8,
        (satp.value() / 0x1000_0000_0000) % 0x1_0000 == satp.asid,
        satp.value() % 0x1000_0000_0000 == satp.ppn@,
        0 <= satp.value() <= u64::MAX,
{
}

/// The physical address at which a walk for the mapped address `va` ends.
pub open spec fn walk_addr(m: Mem, root: int, va: u64) -> int {
    walked(translate(m, root, va)->0, va)
}

/// The entry that maps the page of the physical address `from`.
pub open spec fn map_entry(from: u64, flags: u8) -> u64 {
    make_entry((from as int / 4096) % 0x1000_0000_0000, flags)
}

/// An address could not be read on behalf of userspace.
#[derive(Copy, Clone, Debug, Default, PartialEq, Eq, Structural)]
pub struct UserspaceCopyError;

/// The address of the byte `i` of those from `src` on.
pub open spec fn copy_source(src: u64, i: int) -> u64 {
    virt::canonical((src + i) as u64)
}

/// Whether userspace may read at `va`.
pub open spec fn readable(m: Mem, root: int, va: u64) -> bool {
    walk_spec(m, root, va) matches Some((_, flags)) && flags & PageTableFlags::USER_READ == PageTableFlags::USER_READ
}

// ---- laws of trees ----

/// Whether `t` is one of the tables of the tree.
pub open spec fn is_table(m: Mem, root: int, t: int) -> bool {
    ||| t == root
    ||| exists|i2: int| #[trigger] b2(m, root, i2) && t == entry_ppn(e2(m, root, i2))
    ||| exists|i2: int, i1: int| #[trigger]
        b1(m, root, i2, i1) && t == entry_ppn(e1(m, root, i2, i1))
}

/// Whether `v` can stand in a table of level `level` of the tree: it maps a
/// direct-mapped page, or points to a table of zeroes that is not in the tree,
/// or is not in use.
spec fn admissible(m: Mem, root: int, v: u64, level: int) -> bool {
    &&& leaf_ok(v)
    &&& is_branch(v) ==> {
        &&& level > 0
        &&& m.has(entry_ppn(v))
        &&& !is_table(m, root, entry_ppn(v))
        &&& forall|i: int| 0 <= i < 512 ==> #[trigger] m.at(entry_ppn(v), i) == 0
    }
}

/// Handing out a frame changes no tree, and the new frame is in none.
proof fn lemma_grow(m: Mem, root: int)
    requires
        m.wf(),
        m.available() > 0,
        tables_wf(m, root),
        unshared(m, root),
    ensures
        m.grow().wf(),
        tables_wf(m.grow(), root),
        tree_wf(m, root) ==> tree_wf(m.grow(), root),
        unshared(m.grow(), root),
        m.grow().has(m.next()),
        !is_table(m.grow(), root, m.next()),
        forall|i: int| 0 <= i < 512 ==> #[trigger] m.grow().at(m.next(), i) == 0,
        forall|i2: int| 0 <= i2 < 512 ==> #[trigger] e2(m.grow(), root, i2) == e2(m, root, i2),
        forall|i2: int, i1: int|
            b2(m, root, i2) && 0 <= i1 < 512 ==> #[trigger] e1(m.grow(), root, i2, i1) == e1(
                m,
                root,
                i2,
                i1,
            ),
        forall|i2: int| #[trigger] b2(m.grow(), root, i2) == b2(m, root, i2),
        forall|i2: int, i1: int| #[trigger] b1(m.grow(), root, i2, i1) == b1(m, root, i2, i1),
        forall|i2: int, i1: int, i0: int|
            0 <= i2 < 512 && 0 <= i1 < 512 && 0 <= i0 < 512 ==> #[trigger] lookup(
                m.grow(),
                root,
                i2,
                i1,
                i0,
            ) == lookup(m, root, i2, i1, i0),
{
    let g = m.grow();
    assert forall|t: int, i: int| m.has(t) && 0 <= i < 512 implies #[trigger] g.at(t, i) == m.at(
        t,
        i,
    ) by {}
    assert forall|i2: int| 0 <= i2 < 512 implies #[trigger] e2(g, root, i2) == e2(m, root, i2) by {}
    assert forall|i2: int| #[trigger] b2(g, root, i2) == b2(m, root, i2) by {}
    assert forall|i2: int, i1: int| b2(m, root, i2) && 0 <= i1 < 512 implies #[trigger] e1(
        g,
        root,
        i2,
        i1,
    ) == e1(m, root, i2, i1) by {
        assert(e2(g, root, i2) == e2(m, root, i2));
        assert(leaf_ok(e2(m, root, i2)));
    }
    assert forall|i2: int, i1: int| #[trigger] b1(g, root, i2, i1) == b1(m, root, i2, i1) by {
        assert(b2(g, root, i2) == b2(m, root, i2));
        if b2(m, root, i2) && 0 <= i1 < 512 {
            assert(e1(g, root, i2, i1) == e1(m, root, i2, i1));
        }
    }
    assert forall|i2: int, i1: int, i0: int|
        b1(m, root, i2, i1) && 0 <= i0 < 512 implies #[trigger] e0(g, root, i2, i1, i0) == e0(
        m,
        root,
        i2,
        i1,
        i0,
    ) by {
        assert(e1(g, root, i2, i1) == e1(m, root, i2, i1));
        assert(leaf_ok(e1(m, root, i2, i1)));
    }
}

/// Replacing an entry of the root table by an admissible one.
proof fn lemma_set2(m: Mem, root: int, i2: int, v: u64)
    requires
        m.wf(),
        tables_wf(m, root),
        unshared(m, root),
        0 <= i2 < 512,
        admissible(m, root, v, 2),
    ensures
        m.set(root, i2, v).wf(),
        tables_wf(m.set(root, i2, v), root),
        tree_wf(m, root) ==> tree_wf(m.set(root, i2, v), root),
        unshared(m.set(root, i2, v), root),
        e2(m.set(root, i2, v), root, i2) == v,
        is_branch(v) ==> forall|i1: int|
            0 <= i1 < 512 ==> #[trigger] e1(m.set(root, i2, v), root, i2, i1) == 0,
        forall|j2: int|
            j2 != i2 ==> #[trigger] b2(m.set(root, i2, v), root, j2) == b2(m, root, j2),
        forall|j2: int, j1: int| #[trigger]
            b1(m.set(root, i2, v), root, j2, j1) == (j2 != i2 && b1(m, root, j2, j1)),
        forall|j2: int, j1: int, j0: int|
            0 <= j2 < 512 && 0 <= j1 < 512 && 0 <= j0 < 512 ==> #[trigger] lookup(
                m.set(root, i2, v),
                root,
                j2,
                j1,
                j0,
            ) == if j2 == i2 {
                leaf_only(v, PageSize::Giga)
            } else {
                lookup(m, root, j2, j1, j0)
            },
{
    let s = m.set(root, i2, v);
    lemma_special_entries(0);
    assert forall|t: int, i: int|
        m.has(t) && 0 <= i < 512 && !(t == root && i == i2) implies #[trigger] s.at(t, i) == m.at(
        t,
        i,
    ) by {}
    assert(e2(s, root, i2) == v);
    assert forall|j2: int| 0 <= j2 < 512 && j2 != i2 implies #[trigger] e2(s, root, j2) == e2(
        m,
        root,
        j2,
    ) by {}
    assert forall|j2: int| j2 != i2 implies #[trigger] b2(s, root, j2) == b2(m, root, j2) by {}
    assert forall|j2: int, j1: int|
        j2 != i2 && b2(m, root, j2) && 0 <= j1 < 512 implies #[trigger] e1(s, root, j2, j1) == e1(
        m,
        root,
        j2,
        j1,
    ) by {
        assert(e2(s, root, j2) == e2(m, root, j2));
        assert(leaf_ok(e2(m, root, j2)));
    }
    if is_branch(v) {
        assert forall|i1: int| 0 <= i1 < 512 implies #[trigger] e1(s, root, i2, i1) == 0 by {
            assert(m.at(entry_ppn(v), i1) == 0);
        }
    }
    assert forall|j2: int, j1: int| j2 != i2 implies #[trigger] b1(s, root, j2, j1) == b1(
        m,
        root,
        j2,
        j1,
    ) by {
        assert(b2(s, root, j2) == b2(m, root, j2));
        if b2(m, root, j2) && 0 <= j1 < 512 {
            assert(e1(s, root, j2, j1) == e1(m, root, j2, j1));
        }
    }
    assert forall|j1: int| !(#[trigger] b1(s, root, i2, j1)) by {
        if is_branch(v) && 0 <= j1 < 512 {
            assert(e1(s, root, i2, j1) == 0);
        }
    }
    assert forall|j2: int, j1: int, j0: int|
        j2 != i2 && b1(m, root, j2, j1) && 0 <= j0 < 512 implies #[trigger] e0(
        s,
        root,
        j2,
        j1,
        j0,
    ) == e0(m, root, j2, j1, j0) by {
        assert(e1(s, root, j2, j1) == e1(m, root, j2, j1));
        assert(leaf_ok(e1(m, root, j2, j1)));
    }
}

/// Replacing an entry of a table of the middle level by an admissible one.
proof fn lemma_set1(m: Mem, root: int, i2: int, i1: int, v: u64)
    requires
        m.wf(),
        tables_wf(m, root),
        unshared(m, root),
        b2(m, root, i2),
        0 <= i1 < 512,
        admissible(m, root, v, 1),
    ensures
        ({
            let s = m.set(entry_ppn(e2(m, root, i2)), i1, v);
            &&& s.wf()
            &&& tables_wf(s, root)
            &&& tree_wf(m, root) ==> tree_wf(s, root)
            &&& unshared(s, root)
            &&& e2(s, root, i2) == e2(m, root, i2)
            &&& e1(s, root, i2, i1) == v
            &&& forall|j2: int| #[trigger] b2(s, root, j2) == b2(m, root, j2)
            &&& forall|j2: int, j1: int|
                !(j2 == i2 && j1 == i1) ==> #[trigger] b1(s, root, j2, j1) == b1(m, root, j2, j1)
            &&& forall|j2: int, j1: int, j0: int|
                0 <= j2 < 512 && 0 <= j1 < 512 && 0 <= j0 < 512 ==> #[trigger] lookup(
                    s,
                    root,
                    j2,
                    j1,
                    j0,
                ) == if j2 == i2 && j1 == i1 {
                    leaf_only(v, PageSize::Mega)
                } else {
                    lookup(m, root, j2, j1, j0)
                }
        }),
{
    let t1 = entry_ppn(e2(m, root, i2));
    let s = m.set(t1, i1, v);
    lemma_special_entries(0);
    assert(leaf_ok(e2(m, root, i2)));
    assert forall|t: int, i: int|
        m.has(t) && 0 <= i < 512 && !(t == t1 && i == i1) implies #[trigger] s.at(t, i) == m.at(
        t,
        i,
    ) by {}
    assert forall|j2: int| 0 <= j2 < 512 implies #[trigger] e2(s, root, j2) == e2(
        m,
        root,
        j2,
    ) by {}
    assert forall|j2: int| #[trigger] b2(s, root, j2) == b2(m, root, j2) by {}
    assert(e1(s, root, i2, i1) == v);
    assert forall|j2: int, j1: int|
        b2(m, root, j2) && 0 <= j1 < 512 && !(j2 == i2 && j1 == i1) implies #[trigger] e1(
        s,
        root,
        j2,
        j1,
    ) == e1(m, root, j2, j1) by {
        assert(e2(s, root, j2) == e2(m, root, j2));
        assert(leaf_ok(e2(m, root, j2)));
    }
    assert forall|j2: int, j1: int| !(j2 == i2 && j1 == i1) implies #[trigger] b1(s, root, j2, j1)
        == b1(m, root, j2, j1) by {
        assert(b2(s, root, j2) == b2(m, root, j2));
        if b2(m, root, j2) && 0 <= j1 < 512 {
            assert(e1(s, root, j2, j1) == e1(m, root, j2, j1));
        }
    }
    if is_branch(v) {
        assert forall|i0: int| 0 <= i0 < 512 implies #[trigger] e0(s, root, i2, i1, i0) == 0 by {
            assert(m.at(entry_ppn(v), i0) == 0);
            assert(b2(m, root, i2));
        }
    }
    assert forall|j2: int, j1: int, j0: int|
        b1(m, root, j2, j1) && 0 <= j0 < 512 && !(j2 == i2 && j1 == i1) implies #[trigger] e0(
        s,
        root,
        j2,
        j1,
        j0,
    ) == e0(m, root, j2, j1, j0) by {
        assert(e1(s, root, j2, j1) == e1(m, root, j2, j1));
        assert(leaf_ok(e1(m, root, j2, j1)));
    }
}

/// Replacing an entry of a table of the last level by any other.
proof fn lemma_set0(m: Mem, root: int, i2: int, i1: int, i0: int, v: u64)
    requires
        m.wf(),
        tables_wf(m, root),
        unshared(m, root),
        b1(m, root, i2, i1),
        0 <= i0 < 512,
    ensures
        ({
            let s = m.set(entry_ppn(e1(m, root, i2, i1)), i0, v);
            &&& s.wf()
            &&& tables_wf(s, root)
            &&& tree_wf(m, root) && leaf_ok(v) && !is_branch(v) ==> tree_wf(s, root)
            &&& unshared(s, root)
            &&& forall|j2: int| #[trigger] b2(s, root, j2) == b2(m, root, j2)
            &&& forall|j2: int, j1: int| #[trigger] b1(s, root, j2, j1) == b1(m, root, j2, j1)
            &&& forall|j2: int, j1: int, j0: int|
                0 <= j2 < 512 && 0 <= j1 < 512 && 0 <= j0 < 512 ==> #[trigger] lookup(
                    s,
                    root,
                    j2,
                    j1,
                    j0,
                ) == if j2 == i2 && j1 == i1 && j0 == i0 {
                    leaf_only(v, PageSize::Base)
                } else {
                    lookup(m, root, j2, j1, j0)
                }
        }),
{
    let t0 = entry_ppn(e1(m, root, i2, i1));
    let s = m.set(t0, i0, v);
    assert(leaf_ok(e1(m, root, i2, i1)));
    assert forall|t: int, i: int|
        m.has(t) && 0 <= i < 512 && !(t == t0 && i == i0) implies #[trigger] s.at(t, i) == m.at(
        t,
        i,
    ) by {}
    assert forall|j2: int| 0 <= j2 < 512 implies #[trigger] e2(s, root, j2) == e2(
        m,
        root,
        j2,
    ) by {}
    assert forall|j2: int| #[trigger] b2(s, root, j2) == b2(m, root, j2) by {}
    assert forall|j2: int, j1: int| b2(m, root, j2) && 0 <= j1 < 512 implies #[trigger] e1(
        s,
        root,
        j2,
        j1,
    ) == e1(m, root, j2, j1) by {
        assert(e2(s, root, j2) == e2(m, root, j2));
        assert(leaf_ok(e2(m, root, j2)));
        assert(b2(m, root, j2));
    }
    assert forall|j2: int, j1: int| #[trigger] b1(s, root, j2, j1) == b1(m, root, j2, j1) by {
        assert(b2(s, root, j2) == b2(m, root, j2));
        if b2(m, root, j2) && 0 <= j1 < 512 {
            assert(e1(s, root, j2, j1) == e1(m, root, j2, j1));
        }
    }
    assert(e0(s, root, i2, i1, i0) == v);
    assert forall|j2: int, j1: int, j0: int|
        b1(m, root, j2, j1) && 0 <= j0 < 512 && !(j2 == i2 && j1 == i1 && j0
            == i0) implies #[trigger] e0(s, root, j2, j1, j0) == e0(m, root, j2, j1, j0) by {
        assert(e1(s, root, j2, j1) == e1(m, root, j2, j1));
        assert(leaf_ok(e1(m, root, j2, j1)));
    }
}

/// Going from the root to a table of the middle level changes no mapping.
proof fn lemma_enter2(m: Mem, root: int, i2: int)
    requires
        m.wf(),
        tables_wf(m, root),
        unshared(m, root),
        0 <= i2 < 512,
        !is_leaf(e2(m, root, i2)),
        b2(m, root, i2) || m.available() >= 1,
    ensures
        ({
            let (n, t) = enter(m, root, i2);
            &&& n.wf()
            &&& tables_wf(n, root)
            &&& tree_wf(m, root) ==> tree_wf(n, root)
            &&& unshared(n, root)
            &&& b2(n, root, i2)
            &&& entry_ppn(e2(n, root, i2)) == t
            &&& n.available() == m.available() - if b2(m, root, i2) {
                0int
            } else {
                1
            }
            &&& b2(m, root, i2) ==> n == m
            &&& forall|j2: int| #[trigger] b2(n, root, j2) == (j2 == i2 || b2(m, root, j2))
            &&& forall|j2: int, j1: int| #[trigger] b1(n, root, j2, j1) == b1(m, root, j2, j1)
            &&& !b2(m, root, i2) ==> forall|i1: int|
                0 <= i1 < 512 ==> #[trigger] e1(n, root, i2, i1) == 0
            &&& forall|j2: int, j1: int, j0: int|
                0 <= j2 < 512 && 0 <= j1 < 512 && 0 <= j0 < 512 ==> #[trigger] lookup(
                    n,
                    root,
                    j2,
                    j1,
                    j0,
                ) == lookup(m, root, j2, j1, j0)
        }),
{
    if !b2(m, root, i2) {
        lemma_grow(m, root);
        lemma_special_entries(m.next());
        let v = make_entry(m.next(), PageTableFlags::VALID);
        lemma_set2(m.grow(), root, i2, v);
        assert forall|j1: int, j0: int| 0 <= j1 < 512 && 0 <= j0 < 512 implies #[trigger] lookup(
            m,
            root,
            i2,
            j1,
            j0,
        ) is None by {
            assert(!b1(m, root, i2, j1));
        }
    }
}

/// Going from a table of the middle level to one of the last level changes no
/// mapping.
proof fn lemma_enter1(m: Mem, root: int, i2: int, i1: int)
    requires
        m.wf(),
        tables_wf(m, root),
        unshared(m, root),
        b2(m, root, i2),
        0 <= i1 < 512,
        !is_leaf(e1(m, root, i2, i1)),
        b1(m, root, i2, i1) || m.available() >= 1,
    ensures
        ({
            let (n, t) = enter(m, entry_ppn(e2(m, root, i2)), i1);
            &&& n.wf()
            &&& tables_wf(n, root)
            &&& tree_wf(m, root) ==> tree_wf(n, root)
            &&& unshared(n, root)
            &&& b1(n, root, i2, i1)
            &&& entry_ppn(e1(n, root, i2, i1)) == t
            &&& n.available() == m.available() - if b1(m, root, i2, i1) {
                0int
            } else {
                1
            }
            &&& forall|j2: int| #[trigger] b2(n, root, j2) == b2(m, root, j2)
            &&& forall|j2: int, j1: int| #[trigger]
                b1(n, root, j2, j1) == ((j2 == i2 && j1 == i1) || b1(m, root, j2, j1))
            &&& forall|j2: int, j1: int, j0: int|
                0 <= j2 < 512 && 0 <= j1 < 512 && 0 <= j0 < 512 ==> #[trigger] lookup(
                    n,
                    root,
                    j2,
                    j1,
                    j0,
                ) == lookup(m, root, j2, j1, j0)
        }),
{
    assert(m.at(entry_ppn(e2(m, root, i2)), i1) == e1(m, root, i2, i1));
    if !b1(m, root, i2, i1) {
        lemma_grow(m, root);
        lemma_special_entries(m.next());
        let v = make_entry(m.next(), PageTableFlags::VALID);
        assert(e2(m.grow(), root, i2) == e2(m, root, i2));
        assert(b2(m.grow(), root, i2));
        lemma_set1(m.grow(), root, i2, i1, v);
        assert forall|j0: int| 0 <= j0 < 512 implies #[trigger] lookup(
            m,
            root,
            i2,
            i1,
            j0,
        ) is None by {}
    }
}

/// Where there is room for a page, the table of the middle level is there once
/// it has been gone to, and there is room for what is still needed.
pub proof fn lemma_enter_room(m: Mem, root: int, i2: int, i1: int)
    requires
        m.wf(),
        tree_wf(m, root),
        unshared(m, root),
        0 <= i2 < 512,
        0 <= i1 < 512,
        room_at(m, root, i2, i1, PageSize::Base),
    ensures
        ({
            let (m1, t1) = enter(m, root, i2);
            let (m2, t0) = enter(m1, t1, i1);
            &&& m1.wf()
            &&& m1.has(t1)
            &&& is_branch(m1.at(t1, i1)) || m1.available() >= 1
            &&& m2.wf()
            &&& m2.has(t0)
        }),
{
    lemma_enter2(m, root, i2);
    lemma_special_entries(0);
    let (m1, t1) = enter(m, root, i2);
    assert(m1.at(t1, i1) == e1(m1, root, i2, i1));
    lemma_enter1(m1, root, i2, i1);
    let (m2, t0) = enter(m1, t1, i1);
    assert(leaf_ok(e1(m2, root, i2, i1)));
    assert(leaf_ok(e2(m1, root, i2)));
}

/// Whether two triples of indices stand for the same page of the given size.
pub open spec fn same_page(
    i2: int,
    i1: int,
    i0: int,
    j2: int,
    j1: int,
    j0: int,
    size: PageSize,
) -> bool {
    match size {
        PageSize::Giga => i2 == j2,
        PageSize::Mega => i2 == j2 && i1 == j1,
        PageSize::Base => i2 == j2 && i1 == j1 && i0 == j0,
    }
}

/// Mapping a page maps it and nothing else: the indices of the page lead to its
/// entry, and all others where they led before. The tree stays a tree.
pub proof fn law_mapped_at(
    m: Mem,
    root: int,
    i2: int,
    i1: int,
    i0: int,
    e: u64,
    size: PageSize,
)
    requires
        m.wf(),
        tables_wf(m, root),
        unshared(m, root),
        0 <= i2 < 512,
        0 <= i1 < 512,
        0 <= i0 < 512,
        room_at(m, root, i2, i1, size),
        size != PageSize::Base ==> leaf_ok(e) && !is_branch(e),
    ensures
        mapped_at(m, root, i2, i1, i0, e, size).wf(),
        tables_wf(mapped_at(m, root, i2, i1, i0, e, size), root),
        tree_wf(m, root) && leaf_ok(e) && !is_branch(e) ==> tree_wf(
            mapped_at(m, root, i2, i1, i0, e, size),
            root,
        ),
        unshared(mapped_at(m, root, i2, i1, i0, e, size), root),
        mapped_at(m, root, i2, i1, i0, e, size).available() >= m.available() - 2,
        forall|j2: int, j1: int, j0: int|
            0 <= j2 < 512 && 0 <= j1 < 512 && 0 <= j0 < 512 ==> #[trigger] lookup(
                mapped_at(m, root, i2, i1, i0, e, size),
                root,
                j2,
                j1,
                j0,
            ) == if same_page(i2, i1, i0, j2, j1, j0, size) {
                leaf_only(e, size)
            } else {
                lookup(m, root, j2, j1, j0)
            },
{
    match size {
        PageSize::Giga => {
            lemma_set2(m, root, i2, e);
        },
        PageSize::Mega => {
            lemma_enter2(m, root, i2);
            let (m1, t1) = enter(m, root, i2);
            lemma_set1(m1, root, i2, i1, e);
        },
        PageSize::Base => {
            lemma_enter2(m, root, i2);
            lemma_special_entries(0);
            let (m1, t1) = enter(m, root, i2);
            lemma_enter1(m1, root, i2, i1);
            let (m2, t0) = enter(m1, t1, i1);
            lemma_set0(m2, root, i2, i1, i0, e);
        },
    }
}

/// To map a page of 4 KiB makes the tables that are missing on the way to it, and no
/// others.
pub proof fn law_tables_made(m: Mem, root: int, i2: int, i1: int, i0: int, e: u64)
    requires
        m.wf(),
        tables_wf(m, root),
        unshared(m, root),
        0 <= i2 < 512,
        0 <= i1 < 512,
        0 <= i0 < 512,
        room_at(m, root, i2, i1, PageSize::Base),
    ensures
        ({
            let n = mapped_at(m, root, i2, i1, i0, e, PageSize::Base);
            &&& n.available() == m.available() - missing_at(m, root, i2, i1)
            &&& forall|j2: int| #[trigger] b2(n, root, j2) == (j2 == i2 || b2(m, root, j2))
            &&& forall|j2: int, j1: int| #[trigger]
                b1(n, root, j2, j1) == ((j2 == i2 && j1 == i1) || b1(m, root, j2, j1))
        }),
{
    lemma_enter2(m, root, i2);
    lemma_special_entries(0);
    let (m1, t1) = enter(m, root, i2);
    lemma_enter1(m1, root, i2, i1);
    let (m2, t0) = enter(m1, t1, i1);
    lemma_set0(m2, root, i2, i1, i0, e);
}

/// To map a page of 1 GiB leaves the tables that are on the way to other pages.
pub proof fn law_other_tables(m: Mem, root: int, va: u64, e: u64, other: u64)
    requires
        m.wf(),
        tree_wf(m, root),
        unshared(m, root),
        leaf_ok(e),
        !is_branch(e),
        virt::vpn(other, 2) != virt::vpn(va, 2),
    ensures
        missing(mapped(m, root, va, e, PageSize::Giga), root, other) == missing(m, root, other),
{
    lemma_set2(m, root, virt::vpn(va, 2), e);
}

/// A walk finds what was mapped: after mapping the page of the physical address
/// `from` at `to`, with flags that allow some access, every address of that
/// page leads to the same offset from `from`, with those flags; and the walk of
/// every address of another page ends where it did before.
pub proof fn law_walk_after_map(
    m: Mem,
    root: int,
    from: u64,
    to: u64,
    flags: u8,
    size: PageSize,
    va: u64,
)
    requires
        m.wf(),
        tables_wf(m, root),
        unshared(m, root),
        has_room(m, root, to, size),
        from % 4096 == 0,
        from < DIRECT_MAPPED_PAGES * 4096,
        flags_valid(flags),
        flags_access(flags),
    ensures
        ({
            let n = mapped(m, root, to, map_entry(from, flags), size);
            &&& tree_wf(m, root) ==> tree_wf(n, root)
            &&& tables_wf(n, root)
            &&& unshared(n, root)
            &&& same_page(
                virt::vpn(to, 2),
                virt::vpn(to, 1),
                virt::vpn(to, 0),
                virt::vpn(va, 2),
                virt::vpn(va, 1),
                virt::vpn(va, 0),
                size,
            ) ==> walk_spec(n, root, va) == Some(
                ((from + size.offset(va)) as u64, flags),
            )
            &&& !same_page(
                virt::vpn(to, 2),
                virt::vpn(to, 1),
                virt::vpn(to, 0),
                virt::vpn(va, 2),
                virt::vpn(va, 1),
                virt::vpn(va, 0),
                size,
            ) ==> walk_spec(n, root, va) == walk_spec(m, root, va)
        }),
{
    let ppn = (from as int / 4096) % 0x1000_0000_0000;
    law_entry_round_trip(ppn, flags);
    law_mapped_at(
        m,
        root,
        virt::vpn(to, 2),
        virt::vpn(to, 1),
        virt::vpn(to, 0),
        map_entry(from, flags),
        size,
    );
    let n = mapped(m, root, to, map_entry(from, flags), size);
    assert(translate(n, root, va) == lookup(
        n,
        root,
        virt::vpn(va, 2),
        virt::vpn(va, 1),
        virt::vpn(va, 0),
    ));
}

/// How many bytes an entry of a table of the given level stands for: 4 KiB on the level
/// 0, and 512 times as many on each level above.
pub open spec fn span(level: nat) -> int
    decreases level,
{
    if level == 0 {
        0x1000
    } else {
        512 * span((level - 1) as nat)
    }
}

/// How a hart translates an address, from a table of the given level on. It takes the
/// entry of the address out of the table. One whose bit 0 is not set is not in use. One
/// whose bits 1 to 3 are not set leads to the table of the next level, if there is one,
/// whose number is in the bits 10 to 53. Any other one maps a page: the address lies in
/// it where it lies in what the entry stands for. The result is the physical address, and
/// the low eight bits of the entry.
pub open spec fn translated(m: Mem, table: int, level: nat, va: u64) -> Option<(int, int)>
    decreases level,
{
    let entry = m.at(table, (va as int / span(level)) % 512) as int;
    let number = (entry / 1024) % 0x1000_0000_0000;
    if entry % 2 == 0 {
        None
    } else if (entry / 2) % 8 != 0 {
        Some((number * 4096 + va as int % span(level), entry % 256))
    } else if level == 0 {
        None
    } else {
        translated(m, number, (level - 1) as nat, va)
    }
}

/// A walk ends where a hart that uses the page table would end, for every address.
pub proof fn law_walk_is_translation(m: Mem, root: int, va: u64)
    requires
        tree_wf(m, root),
    ensures
        match translated(m, root, 2, va) {
            Some((pa, flags)) => walk_spec(m, root, va) == Some((pa as u64, flags as u8)),
            None => walk_spec(m, root, va) is None,
        },
{
    reveal_with_fuel(translated, 4);
    reveal_with_fuel(span, 3);
    reveal(flags_valid);
    reveal(flags_access);
    reveal(entry_ppn);
    reveal(entry_flags);
    let i2 = virt::vpn(va, 2);
    let i1 = virt::vpn(va, 1);
    let i0 = virt::vpn(va, 0);
    let a = e2(m, root, i2);
    let b = e1(m, root, i2, i1);
    let c = e0(m, root, i2, i1, i0);
    assert(span(0) == 0x1000 && span(1) == 0x20_0000 && span(2) == 0x4000_0000);
    lemma_low_bits(a);
    lemma_low_bits(b);
    lemma_low_bits(c);
    assert(leaf_ok(a));
    if b2(m, root, i2) {
        assert(leaf_ok(b));
        if b1(m, root, i2, i1) {
            assert(!is_branch(c));
        }
    }
}

/// The flags of an entry are its low eight bits.
proof fn lemma_low_bits(e: u64)
    ensures
        (e % 256) as u8 % 2 == e as int % 2,
        ((e % 256) as u8 / 2) % 8 == (e as int / 2) % 8,
{
}

/// Addresses of one page of 4 KiB are translated alike: as far behind the physical
/// address of its beginning as they are behind its beginning.
#[verifier::spinoff_prover]
#[verifier::rlimit(50)]
pub proof fn law_page_in_one_piece(m: Mem, root: int, base: u64, offset: int)
    requires
        tree_wf(m, root),
        base % 4096 == 0,
        0 <= offset < 4096,
        base + offset <= u64::MAX,
    ensures
        match walk_spec(m, root, base) {
            Some((pa, flags)) => walk_spec(m, root, (base + offset) as u64) == Some(
                ((pa + offset) as u64, flags),
            ) && pa + offset <= u64::MAX,
            None => walk_spec(m, root, (base + offset) as u64) is None,
        },
{
    let va = (base + offset) as u64;
    assert(virt::vpn(va, 0) == virt::vpn(base, 0) && virt::vpn(va, 1) == virt::vpn(base, 1)
        && virt::vpn(va, 2) == virt::vpn(base, 2)) by {
        assert(va / 0x1000 == base / 0x1000);
        assert(va / 0x20_0000 == (va / 0x1000) / 512 && base / 0x20_0000 == (base / 0x1000) / 512);
        assert(va / 0x4000_0000 == (va / 0x20_0000) / 512 && base / 0x4000_0000 == (base
            / 0x20_0000) / 512);
    }
    let (i2, i1, i0) = (virt::vpn(base, 2), virt::vpn(base, 1), virt::vpn(base, 0));
    assert(leaf_ok(e2(m, root, i2)));
    if b2(m, root, i2) {
        assert(leaf_ok(e1(m, root, i2, i1)));
        if b1(m, root, i2, i1) {
            assert(leaf_ok(e0(m, root, i2, i1, i0)));
        }
    }
    if let Some(leaf) = translate(m, root, base) {
        assert(leaf.size.offset(va) == leaf.size.offset(base) + offset) by {
            match leaf.size {
                PageSize::Base => {},
                PageSize::Mega => {
                    assert((base as int % 0x20_0000) % 0x1000 == 0);
                },
                PageSize::Giga => {
                    assert((base as int % 0x4000_0000) % 0x1000 == 0);
                },
            }
        }
        reveal(entry_ppn);
    }
}

/// What userspace may read is what is mapped for it with the right to read: with the bits 0,
/// 1 and 4 of the flags.
pub proof fn law_userspace_reads_what_it_may(m: Mem, root: int, va: u64)
    ensures
        readable(m, root, va) <==> (walk_spec(m, root, va) matches Some((_, flags)) && flags % 2
            == 1 && (flags / 2) % 2 == 1 && (flags / 16) % 2 == 1),
{
    if let Some((_, flags)) = walk_spec(m, root, va) {
        assert(flags & PageTableFlags::USER_READ == PageTableFlags::USER_READ <==> flags % 2 == 1
            && (flags / 2) % 2 == 1 && (flags / 16) % 2 == 1) by (bit_vector);
    }
}

/// The register that says which page table a hart uses has the mode 8 in its four highest
/// bits, then 16 bits of the address space and 44 of the page of the root.
pub proof fn law_satp_fields(satp: Satp)
    requires
        satp.ppn@ < 0x1000_0000_0000,
        0 <= satp.ppn@,
    ensures
        satp.value() / 0x1000_0000_0000_0000 == 8,
        (satp.value() / 0x1000_0000_0000) % 0x1_0000 == satp.asid,
        satp.value() % 0x1000_0000_0000 == satp.ppn@,
{
}

/// What is put into the register that says which page table a hart uses is read out of it
/// again.
pub proof fn law_satp_is_read_back(satp: Satp, raw: RawSatp, back: Satp, mode: u8, on: bool)
    requires
        call_ensures(Satp::encode, (satp,), raw),
        0 <= satp.ppn@ < 0x1000_0000_0000,
    ensures
        call_ensures(RawSatp::decode, (raw,), back) ==> back.asid == satp.asid && back.ppn@
            == satp.ppn@,
        call_ensures(RawSatp::mode, (raw,), mode) ==> mode == 8,
        call_ensures(enabled, (raw,), on) ==> on,
{
    law_satp_fields(satp);
}

/// An entry is not in use where its bit 0 is not set; else it leads to a table where none of
/// its bits 1 to 3 is set, and maps a page where one is.
pub proof fn law_kinds_of_entries(entry: PageTableEntry, kind: PTEKind)
    requires
        call_ensures(PageTableEntry::kind, (entry,), kind),
    ensures
        kind is Invalid <==> entry.flags.bits % 2 == 0,
        kind is Leaf <==> entry.flags.bits % 2 == 1 && (entry.flags.bits / 2) % 8 != 0,
        kind is Branch <==> entry.flags.bits % 2 == 1 && (entry.flags.bits / 2) % 8 == 0,
        kind matches PTEKind::Branch(table) ==> table@ == entry.ppn@ * 4096,
{
    reveal(flags_valid);
    reveal(flags_access);
}

} // verus!
