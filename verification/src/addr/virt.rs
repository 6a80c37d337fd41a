use vstd::prelude::*;

use super::mappings::{AddressLayout, Identity, Mapping};
use super::phys;
use super::phys::Physical;
use super::{Const, Mut, Mutability, PgOff};
use core::cmp::Ordering;
use core::marker::PhantomData;

verus! {

/// The top bit of a 39-bit address.
const TOP_BIT: u64 = 0x40_0000_0000;

/// A word with bits 38 and up all equal to bit 38, if bit 38 is set; any other
/// word as it is.
pub open spec fn canonical(addr: u64) -> u64 {
    if (addr / 0x40_0000_0000) % 2 == 1 {
        (addr % 0x40_0000_0000 + 0xFFFF_FFC0_0000_0000) as u64
    } else {
        addr
    }
}

proof fn lemma_canonical_bits(addr: u64)
    by (bit_vector)
    ensures
        addr & 0x40_0000_0000 != 0 <==> (addr / 0x40_0000_0000) % 2 == 1,
        addr & 0x40_0000_0000 != 0 ==> addr | 0xFFFF_FFC0_0000_0000 == addr % 0x40_0000_0000
            + 0xFFFF_FFC0_0000_0000,
        (addr << 25) >> 25 == addr % 0x80_0000_0000,
{
}

/// Some implementations may require that the topmost bits of an address be
/// equal, up to and including the topmost bit used by the paging algorithm.
/// This function performs this transformation (sometimes called "canonical
/// addresses") on the 39 bits of an address; what is above them is kept where
/// the topmost of them is not set.
#[inline]
pub fn canonicalize(addr: u64) -> (r: u64)
    ensures
        r == canonical(addr),
{
    proof {
        lemma_canonical_bits(addr);
    }
    if addr & TOP_BIT != 0 {
        addr | 0xFFFF_FFC0_0000_0000
    } else {
        addr
    }
}

/// Inverse of [`canonicalize`]. This function will not recover lost data, but
/// will simply zero out the top bits, allowing tagged pointers to work.
#[inline]
pub fn decanonicalize(addr: u64) -> (r: u64)
    ensures
        r == addr % 0x80_0000_0000,
{
    proof {
        lemma_canonical_bits(addr);
    }
    (addr << 25) >> 25
}

/// A virtual address, with a specific [`Mapping`], used to convert it to and
/// from a [`Physical`] address.
///
/// With the Sv39 paging strategy, a virtual address is 39 bits long: three
/// 9-bit virtual page numbers above a 12-bit page offset.
pub struct Virtual<T, S, M> {
    addr: u64,
    phantom: PhantomData<(T, S, M)>,
}

impl<T, S, M> Copy for Virtual<T, S, M> {

}

impl<T, S, M> Clone for Virtual<T, S, M> {
    fn clone(&self) -> (r: Self)
        ensures
            r == *self,
    {
        *self
    }
}

impl<T, S, M> Virtual<T, S, M> {
    /// The address.
    pub closed spec fn view(&self) -> u64 {
        self.addr
    }

    /// Create a null [`Virtual`] address.
    #[inline]
    pub fn null() -> (r: Self)
        ensures
            r@ == 0,
    {
        Virtual { addr: 0, phantom: PhantomData }
    }

    /// Create a [`Virtual`] address from a word, without checking whether or
    /// not it is in the correct address space.
    #[inline(always)]
    pub fn from_usize_unchecked(addr: u64) -> (r: Self)
        ensures
            r@ == canonical(addr),
    {
        Virtual { addr: canonicalize(addr), phantom: PhantomData }
    }

    /// Convert a [`Virtual`] address into a word.
    #[inline(always)]
    pub fn into_usize(self) -> (r: u64)
        ensures
            r == self@,
    {
        self.addr
    }

    /// Get the virtual page numbers associated with this [`Virtual`] address.
    /// The 0th is most significant, and the 2nd is least significant.
    #[inline]
    pub fn vpns(self) -> (r: [Vpn; 3])
        ensures
            r@[0]@ == vpn(self@, 2),
            r@[1]@ == vpn(self@, 1),
            r@[2]@ == vpn(self@, 0),
    {
        proof {
            lemma_vpn_bits(self.addr);
        }
        let page: u64 = self.addr >> 12;
        [
            Vpn::from_usize_truncate(page >> 18),
            Vpn::from_usize_truncate(page >> 9),
            Vpn::from_usize_truncate(page),
        ]
    }

    /// Align a virtual address to the page it is in.
    ///
    /// This is essentially equivalent to
    /// `Virtual::from_components(addr.vpns(), None)`, but more convenient.
    #[inline]
    pub fn page_align(self) -> (r: Virtual<T, S, M>)
        ensures
            r@ == canonical((self@ - self@ % 4096) as u64),
    {
        proof {
            lemma_vpn_bits(self.addr);
        }
        Self::from_usize_unchecked(self.addr & !0xFFFu64)
    }

    /// Returns the page offset of the address.
    #[inline]
    pub fn page_offset(self) -> (r: PgOff)
        ensures
            r@ == self@ % 4096,
    {
        PgOff::from_usize_truncate(self.addr)
    }

    /// Returns true if the address is page-aligned, i.e. if the page offset is
    /// 0.
    #[inline]
    pub fn is_page_aligned(self) -> (r: bool)
        ensures
            r == (self@ % 4096 == 0),
    {
        self.page_offset().into_usize() == 0
    }

    /// Cast a [`Virtual`] address to another type.
    #[inline]
    pub fn cast<U>(self) -> (r: Virtual<U, S, M>)
        ensures
            r@ == self@,
    {
        Virtual { addr: self.addr, phantom: PhantomData }
    }

    /// Cast this [`Virtual`] address into an [`Identity`]-mapped address.
    #[inline]
    pub fn into_identity(self) -> (r: Virtual<T, Identity, M>)
        ensures
            r@ == self@,
    {
        Virtual { addr: self.addr, phantom: PhantomData }
    }

    /// Convert this [`Virtual`] address into a constant address.
    #[inline]
    pub fn into_const(self) -> (r: Virtual<T, S, Const>)
        ensures
            r@ == self@,
    {
        Virtual { addr: self.addr, phantom: PhantomData }
    }

    /// Convert this [`Virtual`] address into a mutable address.
    #[inline]
    pub fn into_mut(self) -> (r: Virtual<T, S, Mut>)
        ensures
            r@ == self@,
    {
        Virtual { addr: self.addr, phantom: PhantomData }
    }
}

impl<T, S, M> PartialEq for Virtual<T, S, M> {
    fn eq(&self, other: &Self) -> (r: bool) {
        self.addr == other.addr
    }
}

impl<T, S, M> vstd::std_specs::cmp::PartialEqSpecImpl for Virtual<T, S, M> {
    open spec fn obeys_eq_spec() -> bool {
        true
    }

    open spec fn eq_spec(&self, other: &Self) -> bool {
        self@ == other@
    }
}

impl<T, S, M> Eq for Virtual<T, S, M> {

}

impl<T, S, M> PartialOrd for Virtual<T, S, M> {
    fn partial_cmp(&self, other: &Self) -> (r: Option<Ordering>) {
        if self.addr < other.addr {
            Some(Ordering::Less)
        } else if self.addr == other.addr {
            Some(Ordering::Equal)
        } else {
            Some(Ordering::Greater)
        }
    }
}

impl<T, S, M> vstd::std_specs::cmp::PartialOrdSpecImpl for Virtual<T, S, M> {
    open spec fn obeys_partial_cmp_spec() -> bool {
        true
    }

    open spec fn partial_cmp_spec(&self, other: &Self) -> Option<Ordering> {
        if self@ < other@ {
            Some(Ordering::Less)
        } else if self@ == other@ {
            Some(Ordering::Equal)
        } else {
            Some(Ordering::Greater)
        }
    }
}

impl<T, S: Mapping, M: Mutability> Virtual<T, S, M> {
    /// Create a [`Virtual`] address from a word whose canonical form is in the
    /// address space.
    #[inline]
    pub fn from_usize(l: &AddressLayout, addr: u64) -> (r: Self)
        requires
            l.wf(),
            S::vspace(*l).has(canonical(addr)),
        ensures
            r@ == canonical(addr),
    {
        Self::from_usize_unchecked(addr)
    }

    /// Create a [`Virtual`] address from a word, checking whether it is in the
    /// correct address space once it is in canonical form.
    #[inline]
    pub fn try_from_usize(l: &AddressLayout, addr: u64) -> (r: Option<Self>)
        requires
            l.wf(),
        ensures
            r is Some <==> S::vspace(*l).has(canonical(addr)),
            r is Some ==> r->0@ == canonical(addr),
    {
        let addr: u64 = canonicalize(addr);
        let space = S::vaddr_space(l);
        if space.start <= addr && addr < space.end {
            Some(Virtual { addr, phantom: PhantomData })
        } else {
            None
        }
    }

    /// Create an address from virtual page numbers, and optionally, an offset
    /// into the page, where it is in the [`Mapping`]'s range.
    #[inline]
    pub fn from_components(l: &AddressLayout, vpns: [Vpn; 3], pgoff: Option<PgOff>) -> (r: Self)
        requires
            l.wf(),
            S::vspace(*l).has(canonical(virtual_components(vpns@, phys::offset_of(pgoff)))),
        ensures
            r@ == canonical(virtual_components(vpns@, phys::offset_of(pgoff))),
    {
        Self::try_from_components(l, vpns, pgoff).unwrap()
    }

    /// Create an address from virtual page numbers, and optionally, an offset
    /// into the page. This function will return [`None`] if the resulting
    /// address is outside of the [`Mapping`]'s range.
    #[inline]
    pub fn try_from_components(l: &AddressLayout, vpns: [Vpn; 3], pgoff: Option<PgOff>) -> (r:
        Option<Self>)
        requires
            l.wf(),
        ensures
            r is Some <==> S::vspace(*l).has(
                canonical(virtual_components(vpns@, phys::offset_of(pgoff))),
            ),
            r is Some ==> r->0@ == canonical(virtual_components(vpns@, phys::offset_of(pgoff))),
    {
        let vpn_2: u64 = vpns[0].into_usize();
        let vpn_1: u64 = vpns[1].into_usize();
        let vpn_0: u64 = vpns[2].into_usize();
        let offset: u64 = match pgoff {
            Some(pgoff) => pgoff.into_usize(),
            None => 0,
        };
        proof {
            lemma_join_bits(vpn_0, vpn_1, vpn_2, offset);
        }
        Self::try_from_usize(l, (((vpn_2 << 18) | (vpn_1 << 9) | vpn_0) << 12) | offset)
    }

    /// Convert a virtual address that its [`Mapping`] maps into a physical
    /// address.
    #[inline]
    pub fn into_phys(self, l: &AddressLayout) -> (r: Physical<T, S, M>)
        requires
            l.wf(),
            S::phys_of(*l, self@) is Some,
        ensures
            r@ == S::phys_of(*l, self@)->0,
    {
        self.try_into_phys(l).unwrap()
    }

    /// Try to convert a virtual address into a physical address, returning
    /// [`None`] if the address is outside of the [`Mapping`]'s range.
    #[inline]
    pub fn try_into_phys(self, l: &AddressLayout) -> (r: Option<Physical<T, S, M>>)
        requires
            l.wf(),
        ensures
            r is Some <==> S::phys_of(*l, self@) is Some,
            r is Some ==> r->0@ == S::phys_of(*l, self@)->0,
    {
        S::virt2phys(l, self)
    }

    /// Increment an address `by` bytes, to an address inside the
    /// [`Mapping`]'s range.
    #[inline]
    pub fn add(self, l: &AddressLayout, by: u64) -> (r: Self)
        requires
            l.wf(),
            self@ + by <= u64::MAX,
            S::vspace(*l).has(canonical((self@ + by) as u64)),
        ensures
            r@ == canonical((self@ + by) as u64),
    {
        Self::from_usize(l, self.addr + by)
    }

    /// Increment an address `by` bytes, returning [`None`] if the resulting
    /// address is outside of the [`Mapping`]'s range.
    pub fn checked_add(self, l: &AddressLayout, by: u64) -> (r: Option<Self>)
        requires
            l.wf(),
        ensures
            r is Some <==> self@ + by <= u64::MAX && S::vspace(*l).has(
                canonical((self@ + by) as u64),
            ),
            r is Some ==> r->0@ == canonical((self@ + by) as u64),
    {
        match self.addr.checked_add(by) {
            Some(vaddr) => Self::try_from_usize(l, vaddr),
            None => None,
        }
    }
}

/// The virtual page number of level `level` of an address.
pub open spec fn vpn(addr: u64, level: int) -> int {
    if level == 0 {
        (addr as int / 0x1000) % 512
    } else if level == 1 {
        (addr as int / 0x20_0000) % 512
    } else {
        (addr as int / 0x4000_0000) % 512
    }
}

/// The address that three virtual page numbers, the most significant first,
/// and a page offset stand for.
pub open spec fn virtual_components(vpns: Seq<Vpn>, offset: int) -> u64 {
    (vpns[0]@ * 0x4000_0000 + vpns[1]@ * 0x20_0000 + vpns[2]@ * 0x1000 + offset) as u64
}

/// Shifts and masks of a virtual address, as arithmetic.
proof fn lemma_vpn_bits(x: u64)
    by (bit_vector)
    ensures
        x >> 12 == x / 0x1000,
        (x >> 12) >> 9 == x / 0x20_0000,
        (x >> 12) >> 18 == x / 0x4000_0000,
        x & 0x1FF == x % 512,
        (x & 0x1FF) as u16 == x % 512,
        x >> 9 == x / 512,
        x >> 18 == x / 0x4_0000,
        x & !0xFFFu64 == x - x % 4096,
{
}

proof fn lemma_join_bits(vpn_0: u64, vpn_1: u64, vpn_2: u64, offset: u64)
    by (bit_vector)
    requires
        vpn_0 < 512,
        vpn_1 < 512,
        vpn_2 < 512,
        offset < 4096,
    ensures
        (((vpn_2 << 18) | (vpn_1 << 9) | vpn_0) << 12) | offset == vpn_2 * 0x4000_0000 + vpn_1
            * 0x20_0000 + vpn_0 * 0x1000 + offset,
        (vpn_2 << 18) | (vpn_1 << 9) | vpn_0 == vpn_2 * 0x4_0000 + vpn_1 * 512 + vpn_0,
{
}

/// A virtual page number. See [`Virtual`].
#[derive(Copy, Clone, Debug, PartialEq, Eq, PartialOrd, Ord, Hash, Structural)]
pub struct Vpn(u16);

/// A 9-bit mask.
const VPN_MASK: u64 = 0x1FF;

impl Vpn {
    /// The page number.
    pub closed spec fn view(&self) -> int {
        self.0 as int
    }

    #[verifier::type_invariant]
    closed spec fn wf(self) -> bool {
        self.0 < 512
    }

    /// Convert a word into a `Vpn`, truncating any extraneous bits as
    /// necessary.
    pub fn from_usize_truncate(vpn: u64) -> (r: Self)
        ensures
            r@ == vpn % 512,
    {
        proof {
            lemma_vpn_bits(vpn);
        }
        Vpn((vpn & VPN_MASK) as u16)
    }

    /// Convert a Vpn into a word.
    #[inline]
    pub fn into_usize(self) -> (r: u64)
        ensures
            r == self@,
            r < 512,
    {
        proof {
            use_type_invariant(&self);
        }
        self.0 as u64
    }

    /// Convert a Vpn into a [`u16`].
    #[inline(always)]
    pub fn into_u16(self) -> (r: u16)
        ensures
            r == self@,
            r < 512,
    {
        proof {
            use_type_invariant(&self);
        }
        self.0
    }
}

/// A collection of virtual page numbers ([`Vpn`]s) that fully define the
/// virtual address of some page in memory. The 0th [`Vpn`] is most significant,
/// and the 2nd [`Vpn`] is the least significant.
#[derive(Copy, Clone, Debug, PartialEq, Eq)]
pub struct Vpns(pub [Vpn; 3]);

impl From<u32> for Vpns {
    #[inline]
    fn from(x: u32) -> (r: Vpns)
        ensures
            r.0@[0]@ == (x / 0x4_0000) % 512,
            r.0@[1]@ == (x / 512) % 512,
            r.0@[2]@ == x % 512,
    {
        let x: u64 = x as u64;
        proof {
            lemma_vpn_bits(x);
        }
        Vpns(
            [
                Vpn::from_usize_truncate(x >> 18),
                Vpn::from_usize_truncate(x >> 9),
                Vpn::from_usize_truncate(x),
            ],
        )
    }
}

impl vstd::std_specs::convert::FromSpecImpl<u32> for Vpns {
    open spec fn obeys_from_spec() -> bool {
        false
    }

    open spec fn from_spec(x: u32) -> Vpns {
        arbitrary()
    }
}

impl From<Vpns> for u32 {
    #[inline]
    fn from(x: Vpns) -> (r: u32)
        ensures
            r == x.0@[0]@ * 0x4_0000 + x.0@[1]@ * 512 + x.0@[2]@,
    {
        let vpn_2: u64 = x.0[0].into_usize();
        let vpn_1: u64 = x.0[1].into_usize();
        let vpn_0: u64 = x.0[2].into_usize();
        proof {
            lemma_join_bits(vpn_0, vpn_1, vpn_2, 0);
        }
        ((vpn_2 << 18) | (vpn_1 << 9) | vpn_0) as u32
    }
}

impl vstd::std_specs::convert::FromSpecImpl<Vpns> for u32 {
    open spec fn obeys_from_spec() -> bool {
        true
    }

    open spec fn from_spec(x: Vpns) -> u32 {
        (x.0@[0]@ * 0x4_0000 + x.0@[1]@ * 512 + x.0@[2]@) as u32
    }
}

/// Canonicalizing twice is canonicalizing once.
pub proof fn law_canonical_idempotent(addr: u64)
    ensures
        canonical(canonical(addr)) == canonical(addr),
{
}

/// Zeroing out the top bits undoes canonicalization on every 39-bit address.
#[verifier::spinoff_prover]
#[verifier::rlimit(50)]
pub proof fn law_decanonicalize_canonical(addr: u64)
    requires
        addr < 0x80_0000_0000,
    ensures
        canonical(addr) % 0x80_0000_0000 == addr,
{
    lemma_page_bits(addr);
}

/// The bits from 12 to 38 of an address do not change when it is canonicalized
/// or aligned to its page, and determine a canonical address together with the
/// page offset.
proof fn lemma_page_bits(addr: u64)
    by (bit_vector)
    ensures
        (canonical(addr) / 0x1000) % 512 == (addr / 0x1000) % 512,
        (canonical(addr) / 0x20_0000) % 512 == (addr / 0x20_0000) % 512,
        (canonical(addr) / 0x4000_0000) % 512 == (addr / 0x4000_0000) % 512,
        ((addr - addr % 4096) as u64 / 0x1000) % 512 == (addr / 0x1000) % 512,
        ((addr - addr % 4096) as u64 / 0x20_0000) % 512 == (addr / 0x20_0000) % 512,
        ((addr - addr % 4096) as u64 / 0x4000_0000) % 512 == (addr / 0x4000_0000) % 512,
        addr % 0x80_0000_0000 == ((addr / 0x4000_0000) % 512) * 0x4000_0000 + ((addr / 0x20_0000)
            % 512) * 0x20_0000 + ((addr / 0x1000) % 512) * 0x1000 + addr % 4096,
        addr < 0x40_0000_0000 || addr >= 0xFFFF_FFC0_0000_0000 ==> canonical(
            addr % 0x80_0000_0000,
        ) == addr,
        addr < 0x80_0000_0000 ==> canonical(addr) % 0x80_0000_0000 == addr,
{
}

/// Canonicalization and page alignment leave the virtual page numbers alone.
pub proof fn law_vpns_canonical(addr: u64, level: int)
    requires
        0 <= level < 3,
    ensures
        vpn(canonical(addr), level) == vpn(addr, level),
        vpn((addr - addr % 4096) as u64, level) == vpn(addr, level),
{
    lemma_page_bits(addr);
}

/// Putting the page numbers and the offset of a canonical address together
/// again gives that address.
pub proof fn law_virtual_components(addr: u64)
    requires
        addr < 0x40_0000_0000 || addr >= 0xFFFF_FFC0_0000_0000,
    ensures
        canonical(
            (vpn(addr, 2) * 0x4000_0000 + vpn(addr, 1) * 0x20_0000 + vpn(addr, 0) * 0x1000
                + addr as int % 4096) as u64,
        ) == addr,
{
    lemma_page_bits(addr);
}

/// Three page numbers survive being joined into one number and split again.
pub proof fn law_vpns_join_split(v2: int, v1: int, v0: int)
    requires
        0 <= v0 < 512,
        0 <= v1 < 512,
        0 <= v2 < 512,
    ensures
        (v2 * 0x4_0000 + v1 * 512 + v0) % 512 == v0,
        ((v2 * 0x4_0000 + v1 * 512 + v0) / 512) % 512 == v1,
        ((v2 * 0x4_0000 + v1 * 512 + v0) / 0x4_0000) % 512 == v2,
{
}

/// The numbers of the tables of an address, from the root on, and its offset in its page make
/// up its lowest 39 bits.
#[verifier::spinoff_prover]
#[verifier::rlimit(50)]
pub proof fn law_addresses_are_made_of_numbers<T, S: Mapping, M: Mutability>(
    v: Virtual<T, S, M>,
    vpns: [Vpn; 3],
    offset: PgOff,
)
    requires
        call_ensures(Virtual::<T, S, M>::vpns, (v,), vpns),
        call_ensures(Virtual::<T, S, M>::page_offset, (v,), offset),
    ensures
        vpns@[0]@ * 0x4000_0000 + vpns@[1]@ * 0x20_0000 + vpns@[2]@ * 0x1000 + offset@ == v@
            % 0x80_0000_0000,
        0 <= vpns@[0]@ < 512 && 0 <= vpns@[1]@ < 512 && 0 <= vpns@[2]@ < 512,
        0 <= offset@ < 4096,
{
    lemma_page_bits(v@);
}

} // verus!
