use vstd::prelude::*;

use super::phys::Physical;
use super::virt;
use super::virt::Virtual;
use super::Mutability;
use core::ops::Range;

verus! {

/// The offset of kernel data in virtual memory.
pub const KERNEL_OFFSET: u64 = 0xFFFF_FFD0_0000_0000;

/// The offset of direct-mapped memory after paging has been enabled.
pub const ACTUAL_PHYSICAL_OFFSET: u64 = 0xFFFF_FFC0_0000_0000;

/// The offset of the kernel in physical memory.
pub const KERNEL_PHYS_OFFSET: u64 = 0x8020_0000;

/// The size of direct-mapped memory: 64 GiB.
pub const DIRECT_MAP_SIZE: u64 = 0x10_0000_0000;

/// What the mappings depend on besides constants: where the linker put the
/// kernel, and where direct-mapped physical memory currently begins.
#[derive(Copy, Clone, Debug, PartialEq, Eq, Structural)]
pub struct AddressLayout {
    /// The "current" offset of direct-mapped physical memory: 0 before paging
    /// is set up, [`ACTUAL_PHYSICAL_OFFSET`] afterwards.
    pub physical_offset: u64,
    /// The address of the first byte of the kernel.
    pub kernel_start: u64,
    /// The address behind the last byte of the kernel.
    pub kernel_end: u64,
}

impl AddressLayout {
    /// The kernel lies in order, and both windows end inside the address
    /// space.
    pub open spec fn wf(self) -> bool {
        &&& self.physical_offset + DIRECT_MAP_SIZE <= u64::MAX
        &&& self.kernel_start <= self.kernel_end
        &&& KERNEL_OFFSET + self.kernel_size() <= u64::MAX
    }

    /// The number of bytes of the kernel, and one page behind it.
    pub open spec fn kernel_size(self) -> int {
        self.kernel_end - self.kernel_start + 4096
    }
}

/// Direct-mapped addresses are physical addresses that are mapped at a fixed
/// offset: the first 64 GiB of physical memory.
#[derive(Copy, Clone, Debug, Default, PartialEq, Eq, PartialOrd, Ord, Hash, Structural)]
pub struct DirectMapped;

/// Kernel-mapped addresses are addresses that are part of the kernel code.
/// These are mapped at a fixed offset.
#[derive(Copy, Clone, Debug, Default, PartialEq, Eq, PartialOrd, Ord, Hash, Structural)]
pub struct Kernel;

/// Identity-mapped addresses do not have any mapping applied.
#[derive(Copy, Clone, Debug, Default, PartialEq, Eq, PartialOrd, Ord, Hash, Structural)]
pub struct Identity;

/// An address space: the addresses from `lo` up to, not including, `hi`.
pub struct Space {
    pub lo: int,
    pub hi: int,
}

impl Space {
    /// Whether the space holds the address.
    pub open spec fn has(self, addr: u64) -> bool {
        self.lo <= addr < self.hi
    }
}

/// A definition of an invertible mapping over address spaces.
pub trait Mapping: Sized {
    /// The virtual address space of this mapping.
    spec fn vspace(l: AddressLayout) -> Space;

    /// The physical address space of this mapping.
    spec fn pspace(l: AddressLayout) -> Space;

    /// The virtual address of a physical one, where it has one.
    spec fn virt_of(l: AddressLayout, paddr: u64) -> Option<u64>;

    /// The physical address of a virtual one, where it has one.
    spec fn phys_of(l: AddressLayout, vaddr: u64) -> Option<u64>;

    /// The virtual address space of this [`Mapping`].
    fn vaddr_space(l: &AddressLayout) -> (r: Range<u64>)
        requires
            l.wf(),
        ensures
            r.start == Self::vspace(*l).lo,
            r.end == Self::vspace(*l).hi,
    ;

    /// The physical address space of this [`Mapping`].
    fn paddr_space(l: &AddressLayout) -> (r: Range<u64>)
        requires
            l.wf(),
        ensures
            r.start == Self::pspace(*l).lo,
            r.end == Self::pspace(*l).hi,
    ;

    /// Convert a [`Physical`] address using this [`Mapping`] to a [`Virtual`]
    /// address; `None` if it has none.
    fn phys2virt<T, M: Mutability>(l: &AddressLayout, paddr: Physical<T, Self, M>) -> (r: Option<
        Virtual<T, Self, M>,
    >)
        requires
            l.wf(),
        ensures
            r is Some <==> Self::virt_of(*l, paddr@) is Some,
            r is Some ==> r->0@ == Self::virt_of(*l, paddr@)->0,
    ;

    /// Convert a [`Virtual`] address using this [`Mapping`] to a [`Physical`]
    /// address; `None` if it has none.
    fn virt2phys<T, M: Mutability>(l: &AddressLayout, vaddr: Virtual<T, Self, M>) -> (r: Option<
        Physical<T, Self, M>,
    >)
        requires
            l.wf(),
        ensures
            r is Some <==> Self::phys_of(*l, vaddr@) is Some,
            r is Some ==> r->0@ == Self::phys_of(*l, vaddr@)->0,
    ;
}

/// `addr`, brought into canonical form, if the space holds it then.
pub open spec fn canonical_in(space: Space, addr: int) -> Option<u64> {
    if 0 <= addr <= u64::MAX && space.has(virt::canonical(addr as u64)) {
        Some(virt::canonical(addr as u64))
    } else {
        None
    }
}

/// `addr`, if the space holds it.
pub open spec fn plain_in(space: Space, addr: int) -> Option<u64> {
    if 0 <= addr <= u64::MAX && space.has(addr as u64) {
        Some(addr as u64)
    } else {
        None
    }
}

/// The canonical form of `addr`, if it lies in the range.
fn checked_virtual<T, S, M>(space: &Range<u64>, addr: u64) -> (r: Option<Virtual<T, S, M>>)
    ensures
        r is Some <==> space.start <= virt::canonical(addr) < space.end,
        r is Some ==> r->0@ == virt::canonical(addr),
{
    let vaddr: Virtual<T, S, M> = Virtual::from_usize_unchecked(addr);
    let addr: u64 = vaddr.into_usize();
    if space.start <= addr && addr < space.end {
        Some(vaddr)
    } else {
        None
    }
}

/// `addr`, if it lies in the range.
fn checked_physical<T, S, M>(space: &Range<u64>, addr: u64) -> (r: Option<Physical<T, S, M>>)
    ensures
        r is Some <==> space.start <= addr < space.end,
        r is Some ==> r->0@ == addr,
{
    if space.start <= addr && addr < space.end {
        Some(Physical::from_usize_unchecked(addr))
    } else {
        None
    }
}

impl Mapping for DirectMapped {
    open spec fn vspace(l: AddressLayout) -> Space {
        Space { lo: l.physical_offset as int, hi: l.physical_offset + DIRECT_MAP_SIZE }
    }

    open spec fn pspace(l: AddressLayout) -> Space {
        Space { lo: 0, hi: DIRECT_MAP_SIZE as int }
    }

    open spec fn virt_of(l: AddressLayout, paddr: u64) -> Option<u64> {
        canonical_in(Self::vspace(l), paddr + l.physical_offset)
    }

    open spec fn phys_of(l: AddressLayout, vaddr: u64) -> Option<u64> {
        plain_in(Self::pspace(l), vaddr - l.physical_offset)
    }

    fn vaddr_space(l: &AddressLayout) -> (r: Range<u64>) {
        l.physical_offset..(l.physical_offset + DIRECT_MAP_SIZE)
    }

    fn paddr_space(l: &AddressLayout) -> (r: Range<u64>) {
        0..DIRECT_MAP_SIZE
    }

    fn phys2virt<T, M: Mutability>(l: &AddressLayout, paddr: Physical<T, Self, M>) -> (r: Option<
        Virtual<T, Self, M>,
    >) {
        match paddr.into_usize().checked_add(l.physical_offset) {
            Some(vaddr) => checked_virtual(&Self::vaddr_space(l), vaddr),
            None => None,
        }
    }

    fn virt2phys<T, M: Mutability>(l: &AddressLayout, vaddr: Virtual<T, Self, M>) -> (r: Option<
        Physical<T, Self, M>,
    >) {
        match vaddr.into_usize().checked_sub(l.physical_offset) {
            Some(paddr) => checked_physical(&Self::paddr_space(l), paddr),
            None => None,
        }
    }
}

impl Mapping for Kernel {
    open spec fn vspace(l: AddressLayout) -> Space {
        Space { lo: KERNEL_OFFSET as int, hi: KERNEL_OFFSET + l.kernel_size() }
    }

    open spec fn pspace(l: AddressLayout) -> Space {
        Space { lo: KERNEL_PHYS_OFFSET as int, hi: KERNEL_PHYS_OFFSET + l.kernel_size() }
    }

    open spec fn virt_of(l: AddressLayout, paddr: u64) -> Option<u64> {
        if paddr + KERNEL_OFFSET > u64::MAX {
            None
        } else {
            canonical_in(Self::vspace(l), paddr + KERNEL_OFFSET - KERNEL_PHYS_OFFSET)
        }
    }

    open spec fn phys_of(l: AddressLayout, vaddr: u64) -> Option<u64> {
        if vaddr < KERNEL_OFFSET {
            None
        } else {
            plain_in(Self::pspace(l), vaddr - KERNEL_OFFSET + KERNEL_PHYS_OFFSET)
        }
    }

    fn vaddr_space(l: &AddressLayout) -> (r: Range<u64>) {
        let kernel_size: u64 = l.kernel_end - l.kernel_start + 4096;
        KERNEL_OFFSET..(KERNEL_OFFSET + kernel_size)
    }

    fn paddr_space(l: &AddressLayout) -> (r: Range<u64>) {
        let kernel_size: u64 = l.kernel_end - l.kernel_start + 4096;
        KERNEL_PHYS_OFFSET..(KERNEL_PHYS_OFFSET + kernel_size)
    }

    fn phys2virt<T, M: Mutability>(l: &AddressLayout, paddr: Physical<T, Self, M>) -> (r: Option<
        Virtual<T, Self, M>,
    >) {
        match paddr.into_usize().checked_add(KERNEL_OFFSET) {
            Some(sum) => match sum.checked_sub(KERNEL_PHYS_OFFSET) {
                Some(vaddr) => checked_virtual(&Self::vaddr_space(l), vaddr),
                None => None,
            },
            None => None,
        }
    }

    fn virt2phys<T, M: Mutability>(l: &AddressLayout, vaddr: Virtual<T, Self, M>) -> (r: Option<
        Physical<T, Self, M>,
    >) {
        match vaddr.into_usize().checked_sub(KERNEL_OFFSET) {
            Some(offset) => match offset.checked_add(KERNEL_PHYS_OFFSET) {
                Some(paddr) => checked_physical(&Self::paddr_space(l), paddr),
                None => None,
            },
            None => None,
        }
    }
}

impl Mapping for Identity {
    open spec fn vspace(l: AddressLayout) -> Space {
        Space { lo: 0, hi: u64::MAX as int }
    }

    open spec fn pspace(l: AddressLayout) -> Space {
        Space { lo: 0, hi: u64::MAX as int }
    }

    open spec fn virt_of(l: AddressLayout, paddr: u64) -> Option<u64> {
        Some(virt::canonical(paddr))
    }

    open spec fn phys_of(l: AddressLayout, vaddr: u64) -> Option<u64> {
        Some(vaddr)
    }

    fn vaddr_space(l: &AddressLayout) -> (r: Range<u64>) {
        0..u64::MAX
    }

    fn paddr_space(l: &AddressLayout) -> (r: Range<u64>) {
        0..u64::MAX
    }

    fn phys2virt<T, M: Mutability>(l: &AddressLayout, paddr: Physical<T, Self, M>) -> (r: Option<
        Virtual<T, Self, M>,
    >) {
        Some(Virtual::from_usize_unchecked(paddr.into_usize()))
    }

    fn virt2phys<T, M: Mutability>(l: &AddressLayout, vaddr: Virtual<T, Self, M>) -> (r: Option<
        Physical<T, Self, M>,
    >) {
        Some(Physical::from_usize_unchecked(vaddr.into_usize()))
    }
}

/// A layout in which the mappings do what they are for: both windows consist
/// of canonical addresses, the kernel's is no larger than 64 GiB, and physical
/// memory is mapped either at 0 or at [`ACTUAL_PHYSICAL_OFFSET`].
pub open spec fn standard_layout(l: AddressLayout) -> bool {
    &&& l.wf()
    &&& l.physical_offset == 0 || l.physical_offset == ACTUAL_PHYSICAL_OFFSET
    &&& l.kernel_size() <= DIRECT_MAP_SIZE
}

/// Every physical address of the first 64 GiB is direct-mapped, and its virtual
/// address leads back to it.
pub proof fn law_direct_map_inverts(l: AddressLayout, paddr: u64)
    requires
        standard_layout(l),
        DirectMapped::pspace(l).has(paddr),
    ensures
        DirectMapped::virt_of(l, paddr) == Some((paddr + l.physical_offset) as u64),
        DirectMapped::phys_of(l, (paddr + l.physical_offset) as u64) == Some(paddr),
{
}

/// Every physical address of the kernel is mapped, and its virtual address
/// leads back to it.
pub proof fn law_kernel_map_inverts(l: AddressLayout, paddr: u64)
    requires
        standard_layout(l),
        Kernel::pspace(l).has(paddr),
    ensures
        Kernel::virt_of(l, paddr) == Some((paddr - KERNEL_PHYS_OFFSET + KERNEL_OFFSET) as u64),
        Kernel::phys_of(l, (paddr - KERNEL_PHYS_OFFSET + KERNEL_OFFSET) as u64) == Some(paddr),
{
}

/// Conversions of identity-mapped addresses always succeed, and lead back to
/// every canonical address.
pub proof fn law_identity_map_inverts(l: AddressLayout, paddr: u64)
    requires
        virt::canonical(paddr) == paddr,
    ensures
        Identity::virt_of(l, paddr) == Some(paddr),
        Identity::phys_of(l, paddr) == Some(paddr),
{
}

/// Memory that is mapped directly is found as far behind the offset of the layout as it is
/// behind its own beginning, for 64 GiB; nothing else is.
pub proof fn law_direct_map_is_bounded(l: AddressLayout, addr: u64)
    requires
        standard_layout(l),
    ensures
        DirectMapped::phys_of(l, addr) is Some <==> l.physical_offset <= addr < l.physical_offset
            + 0x10_0000_0000,
        addr < 0x40_0000_0000 ==> (DirectMapped::virt_of(l, addr) is Some <==> addr
            < 0x10_0000_0000),
{
    if addr < DIRECT_MAP_SIZE {
        law_direct_map_inverts(l, addr);
    }
}

} // verus!
