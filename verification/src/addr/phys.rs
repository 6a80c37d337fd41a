use vstd::prelude::*;

use super::mappings::{AddressLayout, Identity, Mapping};
use super::virt::Virtual;
use super::{Const, Mut, Mutability, PgOff};
use core::cmp::Ordering;
use core::marker::PhantomData;

verus! {

/// A physical address, with a specific [`Mapping`], used to convert it to and
/// from a [`Virtual`] address.
///
/// With the Sv39 paging strategy, a physical address is 56 bits long: a 44-bit
/// physical page number above a 12-bit page offset.
pub struct Physical<T, S, M> {
    addr: u64,
    phantom: PhantomData<(T, S, M)>,
}

impl<T, S, M> Copy for Physical<T, S, M> {

}

impl<T, S, M> Clone for Physical<T, S, M> {
    fn clone(&self) -> (r: Self)
        ensures
            r == *self,
    {
        *self
    }
}

impl<T, S, M> Physical<T, S, M> {
    /// The address.
    pub closed spec fn view(&self) -> u64 {
        self.addr
    }

    /// Create a [`Physical`] address from a word, without checking whether or
    /// not it is in the correct address space.
    #[inline(always)]
    pub fn from_usize_unchecked(addr: u64) -> (r: Self)
        ensures
            r@ == addr,
    {
        Physical { addr, phantom: PhantomData }
    }

    /// Convert a [`Physical`] address into a word.
    #[inline(always)]
    pub fn into_usize(self) -> (r: u64)
        ensures
            r == self@,
    {
        self.addr
    }

    /// Create a null [`Physical`] address.
    #[inline(always)]
    pub fn null() -> (r: Self)
        ensures
            r@ == 0,
    {
        Physical { addr: 0, phantom: PhantomData }
    }

    /// Returns `true` if this [`Physical`] address is null.
    #[inline]
    pub fn is_null(self) -> (r: bool)
        ensures
            r == (self@ == 0),
    {
        self.addr == 0
    }

    /// Cast a [`Physical`] address into an address of a different type.
    #[inline(always)]
    pub fn cast<U>(self) -> (r: Physical<U, S, M>)
        ensures
            r@ == self@,
    {
        Physical { addr: self.addr, phantom: PhantomData }
    }

    /// Cast this [`Physical`] address into an identity-mapped address.
    #[inline]
    pub fn into_identity(self) -> (r: Physical<T, Identity, M>)
        ensures
            r@ == self@,
    {
        Physical { addr: self.addr, phantom: PhantomData }
    }

    /// Cast this [`Physical`] address into a mutable address.
    #[inline]
    pub fn into_mut(self) -> (r: Physical<T, S, Mut>)
        ensures
            r@ == self@,
    {
        Physical { addr: self.addr, phantom: PhantomData }
    }

    /// Cast this [`Physical`] address into a constant address.
    #[inline]
    pub fn into_const(self) -> (r: Physical<T, S, Const>)
        ensures
            r@ == self@,
    {
        Physical { addr: self.addr, phantom: PhantomData }
    }

    /// Returns the physical page number of a [`Physical`] address.
    #[inline]
    pub fn ppn(self) -> (r: Ppn)
        ensures
            r@ == (self@ / 4096) % 0x1000_0000_0000,
    {
        proof {
            lemma_ppn_bits(self.addr, 0);
        }
        Ppn::from_usize_truncate(self.addr >> 12)
    }

    /// Returns the page offset of a [`Physical`] address.
    #[inline]
    pub fn page_offset(self) -> (r: PgOff)
        ensures
            r@ == self@ % 4096,
    {
        PgOff::from_usize_truncate(self.addr)
    }

    /// Returns true if this [`Physical`] address is page-aligned, i.e. its
    /// page offset is 0.
    #[inline]
    pub fn is_page_aligned(self) -> (r: bool)
        ensures
            r == (self@ % 4096 == 0),
    {
        self.page_offset().into_usize() == 0
    }
}

impl<T, S, M> PartialEq for Physical<T, S, M> {
    fn eq(&self, other: &Self) -> (r: bool) {
        self.addr == other.addr
    }
}

impl<T, S, M> vstd::std_specs::cmp::PartialEqSpecImpl for Physical<T, S, M> {
    open spec fn obeys_eq_spec() -> bool {
        true
    }

    open spec fn eq_spec(&self, other: &Self) -> bool {
        self@ == other@
    }
}

impl<T, S, M> Eq for Physical<T, S, M> {

}

impl<T, S, M> PartialOrd for Physical<T, S, M> {
    fn partial_cmp(&self, other: &Self) -> (r: Option<Ordering>) {
        if self.addr < other.addr {
            Some(Ordering::Less)
        } else if self.addr == other.addr {
            Some(Ordering::Equal)
        } else {
            Some(Ordering::Greater)
        }
    }
}

impl<T, S, M> vstd::std_specs::cmp::PartialOrdSpecImpl for Physical<T, S, M> {
    open spec fn obeys_partial_cmp_spec() -> bool {
        true
    }

    open spec fn partial_cmp_spec(&self, other: &Self) -> Option<Ordering> {
        if self@ < other@ {
            Some(Ordering::Less)
        } else if self@ == other@ {
            Some(Ordering::Equal)
        } else {
            Some(Ordering::Greater)
        }
    }
}

impl<T, S: Mapping, M: Mutability> Physical<T, S, M> {
    /// Create a [`Physical`] address from a word that is in the address space.
    pub fn from_usize(l: &AddressLayout, addr: u64) -> (r: Self)
        requires
            l.wf(),
            S::pspace(*l).has(addr),
        ensures
            r@ == addr,
    {
        Self::from_usize_unchecked(addr)
    }

    /// Create a [`Physical`] address from a word, checking whether it is in
    /// the correct address space.
    pub fn try_from_usize(l: &AddressLayout, addr: u64) -> (r: Option<Self>)
        requires
            l.wf(),
        ensures
            r is Some <==> S::pspace(*l).has(addr),
            r is Some ==> r->0@ == addr,
    {
        let space = S::paddr_space(l);
        if space.start <= addr && addr < space.end {
            Some(Self::from_usize_unchecked(addr))
        } else {
            None
        }
    }

    /// Increment an address `by` bytes, to an address inside the
    /// [`Mapping`]'s range.
    pub fn add(self, l: &AddressLayout, by: u64) -> (r: Self)
        requires
            l.wf(),
            self@ + by <= u64::MAX,
            S::pspace(*l).has((self@ + by) as u64),
        ensures
            r@ == self@ + by,
    {
        Self::from_usize(l, self.addr + by)
    }

    /// Increment an address `by` bytes, returning [`None`] if the resulting
    /// address is outside of the [`Mapping`]'s range.
    pub fn checked_add(self, l: &AddressLayout, by: u64) -> (r: Option<Self>)
        requires
            l.wf(),
        ensures
            r is Some <==> self@ + by <= u64::MAX && S::pspace(*l).has((self@ + by) as u64),
            r is Some ==> r->0@ == self@ + by,
    {
        match self.addr.checked_add(by) {
            Some(paddr) => Self::try_from_usize(l, paddr),
            None => None,
        }
    }

    /// Convert this address, which its [`Mapping`] maps, into a [`Virtual`]
    /// address.
    pub fn into_virt(self, l: &AddressLayout) -> (r: Virtual<T, S, M>)
        requires
            l.wf(),
            S::virt_of(*l, self@) is Some,
        ensures
            r@ == S::virt_of(*l, self@)->0,
    {
        self.try_into_virt(l).unwrap()
    }

    /// Try to convert this address into a [`Virtual`] address, returning
    /// [`None`] if the address is outside of the [`Mapping`]'s range.
    pub fn try_into_virt(self, l: &AddressLayout) -> (r: Option<Virtual<T, S, M>>)
        requires
            l.wf(),
        ensures
            r is Some <==> S::virt_of(*l, self@) is Some,
            r is Some ==> r->0@ == S::virt_of(*l, self@)->0,
    {
        S::phys2virt(l, self)
    }

    /// Create an address from a physical page number and, optionally, an
    /// offset into the page, where it is in the [`Mapping`]'s range.
    pub fn from_components(l: &AddressLayout, ppn: Ppn, pgoff: Option<PgOff>) -> (r: Self)
        requires
            l.wf(),
            S::pspace(*l).has(components(ppn@, offset_of(pgoff))),
        ensures
            r@ == components(ppn@, offset_of(pgoff)),
    {
        Self::try_from_components(l, ppn, pgoff).unwrap()
    }

    /// Try to create an address from a physical page number and, optionally,
    /// an offset into the page. This function will return [`None`] if the
    /// address is outside of the [`Mapping`]'s range.
    pub fn try_from_components(l: &AddressLayout, ppn: Ppn, pgoff: Option<PgOff>) -> (r: Option<
        Self,
    >)
        requires
            l.wf(),
        ensures
            r is Some <==> S::pspace(*l).has(components(ppn@, offset_of(pgoff))),
            r is Some ==> r->0@ == components(ppn@, offset_of(pgoff)),
    {
        let page: u64 = ppn.into_usize();
        let offset: u64 = match pgoff {
            Some(pgoff) => pgoff.into_usize(),
            None => 0,
        };
        proof {
            lemma_ppn_bits(page, offset);
        }
        Self::try_from_usize(l, (page << 12) | offset)
    }
}

/// The address of the byte `offset` of the page `ppn`.
pub open spec fn components(ppn: int, offset: int) -> u64 {
    (ppn * 4096 + offset) as u64
}

/// The number that an optional page offset stands for.
pub open spec fn offset_of(pgoff: Option<PgOff>) -> int {
    match pgoff {
        Some(pgoff) => pgoff@,
        None => 0,
    }
}

/// A 44-bit physical page number. See [`Physical`].
#[derive(Copy, Clone, Debug, PartialEq, Eq, PartialOrd, Ord, Hash, Structural)]
pub struct Ppn(u64);

/// A 44-bit bitmask (11 `F`s, times 4 bits each = 44 bits)
const PPN_MASK: u64 = 0x0FFF_FFFF_FFFF;

/// Shifts and masks of page numbers, as arithmetic.
proof fn lemma_ppn_bits(x: u64, offset: u64)
    by (bit_vector)
    ensures
        x >> 12 == x / 4096,
        x & 0x0FFF_FFFF_FFFF == x % 0x1000_0000_0000,
        x < 0x1000_0000_0000 && offset < 4096 ==> (x << 12) | offset == x * 4096 + offset,
{
}

impl Ppn {
    /// The page number.
    pub closed spec fn view(&self) -> int {
        self.0 as int
    }

    #[verifier::type_invariant]
    closed spec fn wf(self) -> bool {
        self.0 < 0x1000_0000_0000
    }

    /// Convert a word into a [`Ppn`], truncating extraneous bits as necessary.
    pub fn from_usize_truncate(ppn: u64) -> (r: Self)
        ensures
            r@ == ppn % 0x1000_0000_0000,
    {
        proof {
            lemma_ppn_bits(ppn, 0);
        }
        Ppn(ppn & PPN_MASK)
    }

    /// Convert a [`Ppn`] into a word.
    pub fn into_usize(self) -> (r: u64)
        ensures
            r == self@,
            r < 0x1000_0000_0000,
    {
        proof {
            use_type_invariant(&self);
        }
        self.0
    }
}

/// Taking an address apart into its page number and its offset and putting the
/// two together again gives the address, for every address of 56 bits.
pub proof fn law_physical_components(addr: u64)
    requires
        addr < 0x100_0000_0000_0000,
    ensures
        components((addr as int / 4096) % 0x1000_0000_0000, addr as int % 4096) == addr,
{
}

/// The page number and the offset of an address made of both are those it was
/// made of.
pub proof fn law_physical_parts(ppn: int, offset: int)
    requires
        0 <= ppn < 0x1000_0000_0000,
        0 <= offset < 4096,
    ensures
        (components(ppn, offset) as int / 4096) % 0x1000_0000_0000 == ppn,
        components(ppn, offset) as int % 4096 == offset,
{
}

/// The page of a physical address and its offset in it make up its lowest 56 bits.
pub proof fn law_physical_addresses_are_made_of_numbers<T, S: Mapping, M: Mutability>(
    p: Physical<T, S, M>,
    ppn: Ppn,
    offset: PgOff,
)
    requires
        call_ensures(Physical::<T, S, M>::ppn, (p,), ppn),
        call_ensures(Physical::<T, S, M>::page_offset, (p,), offset),
    ensures
        ppn@ * 4096 + offset@ == p@ % 0x100_0000_0000_0000,
        0 <= offset@ < 4096,
        0 <= ppn@ < 0x1000_0000_0000,
{
}

} // verus!
