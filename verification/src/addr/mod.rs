//! Utilities for translating virtual and physical addresses using invertible
//! mappings (i.e. not page tables).

use vstd::prelude::*;

pub mod mappings;
pub mod phys;
pub mod virt;

pub use mappings::{
    AddressLayout, DirectMapped, Identity, Kernel, Mapping, Space, ACTUAL_PHYSICAL_OFFSET,
    DIRECT_MAP_SIZE, KERNEL_OFFSET, KERNEL_PHYS_OFFSET,
};
pub use phys::{Physical, Ppn};
pub use virt::{canonicalize, decanonicalize, Virtual, Vpn, Vpns};

verus! {

/// A virtual `*const T`, with the given mapping.
pub type VirtualConst<T, S> = Virtual<T, S, Const>;

/// A virtual `*mut T`, with the given mapping.
pub type VirtualMut<T, S> = Virtual<T, S, Mut>;

/// A physical `*const T`, with the given mapping.
pub type PhysicalConst<T, S> = Physical<T, S, Const>;

/// A physical `*mut T`, with the given mapping.
pub type PhysicalMut<T, S> = Physical<T, S, Mut>;

/// Type tag for `*const T`-alike pointers.
#[derive(Copy, Clone, Debug, Default, PartialEq, Eq, PartialOrd, Ord, Hash, Structural)]
pub struct Const;

/// Type tag for `*mut T`-alike pointers.
#[derive(Copy, Clone, Debug, Default, PartialEq, Eq, PartialOrd, Ord, Hash, Structural)]
pub struct Mut;

/// Keeps [`Mutability`] to the tags of this module.
pub trait Sealed {

}

impl Sealed for Const {

}

impl Sealed for Mut {

}

/// Type tags for pointer mutability.
pub trait Mutability: Sealed {

}

impl Mutability for Const {

}

impl Mutability for Mut {

}

/// A 12-bit offset into a 4KiB (`4096` bytes) page.
#[derive(Copy, Clone, Debug, PartialEq, Eq, PartialOrd, Ord, Hash, Structural)]
pub struct PgOff(u16);

/// A 12-bit mask.
const PGOFF_MASK: u64 = 0xFFF;

/// What the low twelve bits of a word are, as numbers.
proof fn lemma_pgoff_bits(x: u64)
    by (bit_vector)
    ensures
        x & 0xFFF == x % 4096,
        (x & 0xFFF) as u16 == x % 4096,
{
}

impl PgOff {
    /// The offset as a number.
    pub closed spec fn view(&self) -> int {
        self.0 as int
    }

    #[verifier::type_invariant]
    closed spec fn wf(self) -> bool {
        self.0 < 4096
    }

    /// Convert a page offset from a word, truncating extraneous bits if
    /// necessary.
    pub fn from_usize_truncate(pgoff: u64) -> (r: Self)
        ensures
            r@ == pgoff % 4096,
    {
        proof {
            lemma_pgoff_bits(pgoff);
        }
        PgOff((pgoff & PGOFF_MASK) as u16)
    }

    /// Convert a page offset into a word.
    pub fn into_usize(self) -> (r: u64)
        ensures
            r == self@,
            r < 4096,
    {
        proof {
            use_type_invariant(&self);
        }
        self.0 as u64
    }

    /// Convert a page offset into a [`u16`].
    pub fn into_u16(self) -> (r: u16)
        ensures
            r == self@,
            r < 4096,
    {
        proof {
            use_type_invariant(&self);
        }
        self.0
    }
}

impl Default for PgOff {
    fn default() -> (r: Self)
        ensures
            r@ == 0,
    {
        PgOff(0)
    }
}

} // verus!
