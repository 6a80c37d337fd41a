//! Capabilities related to paging, and their operations.

use vstd::prelude::*;

use super::{Capability, CapabilityType, Captr};

verus! {

/// Page tables are divided into different "levels", where each level determines
/// which part of the address translation hierarchy a page corresponds to.
pub trait PagingLevel: Sized {
    /// The base-2 logarithm of this paging level's page size in bytes.
    spec fn size_log2() -> u64;

    /// The base-2 logarithm of this paging level's page size in bytes.
    fn page_size_log2() -> (r: u64)
        ensures
            r == Self::size_log2(),
    ;
}

/// Gigapages are 1GiB in size.
#[derive(Copy, Clone, Debug)]
pub struct GigaPage;

impl PagingLevel for GigaPage {
    open spec fn size_log2() -> u64 {
        30
    }

    fn page_size_log2() -> (r: u64) {
        30
    }
}

/// Megapages are 2MiB in size.
#[derive(Copy, Clone, Debug)]
pub struct MegaPage;

impl PagingLevel for MegaPage {
    open spec fn size_log2() -> u64 {
        21
    }

    fn page_size_log2() -> (r: u64) {
        21
    }
}

/// Base pages are 4KiB in size.
#[derive(Copy, Clone, Debug)]
pub struct BasePage;

impl PagingLevel for BasePage {
    open spec fn size_log2() -> u64 {
        12
    }

    fn page_size_log2() -> (r: u64) {
        12
    }
}

/// Pages whose size is not known beforehand.
#[derive(Copy, Clone, Debug)]
pub struct DynLevel;

impl PagingLevel for DynLevel {
    open spec fn size_log2() -> u64 {
        0
    }

    fn page_size_log2() -> (r: u64) {
        0
    }
}

/// Each level of page tables translates nine more bits of an address.
pub proof fn law_levels_are_nine_bits_apart()
    ensures
        MegaPage::size_log2() == BasePage::size_log2() + 9,
        GigaPage::size_log2() == MegaPage::size_log2() + 9,
{
}

/// The page capability corresponds to a page of physical memory that can be
/// mapped into a page table. The [`PagingLevel`] determines the size of the
/// page.
pub struct Page<L> {
    captr: Captr,
    phantom: core::marker::PhantomData<L>,
}

impl<L: PagingLevel> Page<L> {
    /// The captr.
    pub closed spec fn view(&self) -> u64 {
        self.captr@
    }
}

impl<L: PagingLevel> Capability for Page<L> {
    open spec fn captr(self) -> u64 {
        self@
    }

    open spec fn ty() -> CapabilityType {
        CapabilityType::Page
    }

    fn from_captr(c: Captr) -> (r: Self) {
        Page { captr: c, phantom: core::marker::PhantomData }
    }

    fn into_captr(self) -> (r: Captr) {
        self.captr
    }

    fn capability_type() -> (r: CapabilityType) {
        CapabilityType::Page
    }
}

/// The page table capability corresponds to a page table that can be used for
/// address translation.
#[derive(Copy, Clone, Debug, PartialEq, Eq, Structural)]
pub struct PageTable(pub Captr);

impl Capability for PageTable {
    open spec fn captr(self) -> u64 {
        self.0@
    }

    open spec fn ty() -> CapabilityType {
        CapabilityType::PgTbl
    }

    fn from_captr(c: Captr) -> (r: Self) {
        PageTable(c)
    }

    fn into_captr(self) -> (r: Captr) {
        self.0
    }

    fn capability_type() -> (r: CapabilityType) {
        CapabilityType::PgTbl
    }
}

/// Flags corresponding to access rights for a page by any process using the
/// page table.
#[derive(Copy, Clone, Debug, PartialEq, Eq, Structural)]
pub struct PageTableFlags {
    pub bits: u8,
}

proof fn lemma_flags_bits(bits: u64, other: u8)
    by (bit_vector)
    ensures
        (bits & 14) as u8 == (bits & 14),
        bits & 14 == ((bits / 2) % 8) * 2,
        bits & 14 < 16,
{
}

impl PageTableFlags {
    /// This page is readable, i.e. it can be used for load instructions.
    pub const READ: u8 = 2;

    /// This page is writable, i.e. it can be used for store instructions.
    pub const WRITE: u8 = 4;

    /// This page is executable, i.e. it can be used for instruction fetches.
    pub const EXECUTE: u8 = 8;

    /// This page is readable and writable.
    pub const RW: u8 = 6;

    /// This page is readable and executable.
    pub const RX: u8 = 10;

    /// This page is readable, writable, and executable.
    pub const RWX: u8 = 14;

    /// The flags with the given bits; bits that are no flags are dropped.
    pub fn from_bits_truncate(bits: u64) -> (r: Self)
        ensures
            r.bits == ((bits / 2) % 8) * 2,
    {
        proof {
            lemma_flags_bits(bits, 0);
        }
        PageTableFlags { bits: (bits & 14) as u8 }
    }

    /// The flags that are both in these and in `other`.
    pub fn intersection(self, other: PageTableFlags) -> (r: Self)
        ensures
            r.bits == self.bits & other.bits,
    {
        PageTableFlags { bits: self.bits & other.bits }
    }
}

/// Of the bits that userspace asks for, those that say how a page may be used are kept, the
/// bits 1 to 3, and no others.
pub proof fn law_flags_are_accesses(bits: u64, flags: PageTableFlags)
    requires
        call_ensures(PageTableFlags::from_bits_truncate, (bits,), flags),
    ensures
        flags.bits % 2 == 0 && flags.bits < 16,
        (flags.bits / 2) % 2 == 1 <==> (bits / 2) % 2 == 1,
        (flags.bits / 4) % 2 == 1 <==> (bits / 4) % 2 == 1,
        (flags.bits / 8) % 2 == 1 <==> (bits / 8) % 2 == 1,
{
}

} // verus!
