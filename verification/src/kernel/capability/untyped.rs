//! Memory that is not used for anything yet.

use vstd::prelude::*;

verus! {

/// A run of physical memory, of which the part below `free` has been used.
#[derive(Copy, Clone, Debug, PartialEq, Eq, Structural)]
pub struct Untyped {
    pub base: u64,
    pub free: u64,
    /// The number of bytes, as a power of two.
    pub size_log2: u8,
}

impl Untyped {
    /// The address behind the memory.
    pub open spec fn end(self) -> int {
        self.base + vstd::arithmetic::power2::pow2(self.size_log2 as nat)
    }

    /// Memory of which nothing has been used.
    pub fn new(base: u64, size_log2: u8) -> (r: Self)
        ensures
            r == (Untyped { base, free: base, size_log2 }),
    {
        Untyped { base, free: base, size_log2 }
    }

    /// Where the memory that has not been used begins.
    pub fn free_addr(&self) -> (r: u64)
        ensures
            r == self.free,
    {
        self.free
    }

    /// Where the memory begins.
    pub fn base_addr(&self) -> (r: u64)
        ensures
            r == self.base,
    {
        self.base
    }

    /// The number of bytes, as a power of two.
    pub fn size_log2(&self) -> (r: u8)
        ensures
            r == self.size_log2,
    {
        self.size_log2
    }

    /// Note up to where the memory has been used. It has to be further than its
    /// beginning, and no further than its end.
    pub fn set_free_addr(&mut self, addr: u64)
        requires
            old(self).base < addr <= old(self).end(),
        ensures
            *final(self) == (Untyped { free: addr, ..*old(self) }),
    {
        self.free = addr;
    }
}

/// How a slot holds unused memory: in 64 bits, the least significant first, the
/// type of the capability (5), the page numbers of the beginning and of the
/// unused rest (27 each), and the size as a power of two (5).
#[derive(Copy, Clone, Debug, PartialEq, Eq, Structural)]
pub struct UntypedSlot(pub u64);

impl UntypedSlot {
    /// The slot with the given fields; each is cut down to its width.
    pub open spec fn of(cap_type: int, base: int, free: int, size_log2: int) -> int {
        cap_type % 32 + (base % 0x800_0000) * 32 + (free % 0x800_0000) * 0x1_0000_0000 + (size_log2
            % 32) * 0x800_0000_0000_0000
    }

    /// The type of the capability.
    pub open spec fn cap_type_spec(self) -> int {
        self.0 as int % 32
    }

    /// The page number of the beginning.
    pub open spec fn base_spec(self) -> int {
        (self.0 as int / 32) % 0x800_0000
    }

    /// The page number of the unused rest.
    pub open spec fn free_spec(self) -> int {
        (self.0 as int / 0x1_0000_0000) % 0x800_0000
    }

    /// The size, as a power of two.
    pub open spec fn size_spec(self) -> int {
        self.0 as int / 0x800_0000_0000_0000
    }

    /// The slot that holds unused memory.
    pub fn metadata_to_slot(meta: &Untyped, cap_type: u8) -> (r: UntypedSlot)
        ensures
            r.0 == UntypedSlot::of(
                cap_type as int,
                meta.base as int / 4096,
                meta.free as int / 4096,
                meta.size_log2 as int,
            ),
    {
        let base: u64 = (meta.base / 4096) % 0x800_0000;
        let free: u64 = (meta.free / 4096) % 0x800_0000;
        UntypedSlot(
            (cap_type % 32) as u64 + base * 32 + free * 0x1_0000_0000 + ((meta.size_log2 % 32)
                as u64) * 0x800_0000_0000_0000,
        )
    }

    /// The type of the capability.
    pub fn cap_type(&self) -> (r: u8)
        ensures
            r == self.cap_type_spec(),
    {
        (self.0 % 32) as u8
    }

    /// The unused memory that the slot holds.
    pub fn metadata_from_slot(&self) -> (r: Untyped)
        ensures
            r.base == self.base_spec() * 4096,
            r.free == self.free_spec() * 4096,
            r.size_log2 == self.size_spec(),
    {
        Untyped {
            base: (self.0 / 32) % 0x800_0000 * 4096,
            free: (self.0 / 0x1_0000_0000) % 0x800_0000 * 4096,
            size_log2: (self.0 / 0x800_0000_0000_0000) as u8,
        }
    }
}

/// A slot gives back the unused memory that it was made of, if that consists of
/// pages whose numbers fit the slot.
pub proof fn law_untyped_slot_round_trip(meta: Untyped, cap_type: u8, slot: UntypedSlot)
    requires
        meta.base % 4096 == 0,
        meta.free % 4096 == 0,
        meta.base < 0x80_0000_0000,
        meta.free < 0x80_0000_0000,
        meta.size_log2 < 32,
        cap_type < 32,
        slot.0 == UntypedSlot::of(
            cap_type as int,
            meta.base as int / 4096,
            meta.free as int / 4096,
            meta.size_log2 as int,
        ),
    ensures
        slot.cap_type_spec() == cap_type,
        slot.base_spec() * 4096 == meta.base,
        slot.free_spec() * 4096 == meta.free,
        slot.size_spec() == meta.size_log2,
{
    let b = meta.base as int / 4096;
    let f = meta.free as int / 4096;
    let s = meta.size_log2 as int;
    let x = slot.0 as int;
    assert(x == cap_type + 32 * b + 0x1_0000_0000 * f + 0x800_0000_0000_0000 * s);
    assert(x / 32 == b + 0x800_0000 * f + 0x40_0000_0000_0000 * s);
    assert(x / 0x1_0000_0000 == f + 0x800_0000 * s);
}

/// The fields of a slot of untyped memory lie one behind the other: its type in five bits,
/// the page that it begins with in 27, the first free page in 27, and the logarithm of its
/// size in the five highest.
pub proof fn law_fields_of_an_untyped_slot(cap_type: int, base: int, free: int, size_log2: int)
    requires
        0 <= cap_type < 32,
        0 <= base < 0x800_0000,
        0 <= free < 0x800_0000,
        0 <= size_log2 < 32,
    ensures
        ({
            let slot = UntypedSlot::of(cap_type, base, free, size_log2);
            &&& 0 <= slot <= u64::MAX
            &&& slot % 0x20 == cap_type
            &&& (slot / 0x20) % 0x800_0000 == base
            &&& (slot / 0x1_0000_0000) % 0x800_0000 == free
            &&& slot / 0x800_0000_0000_0000 == size_log2
        }),
{
}

} // verus!
