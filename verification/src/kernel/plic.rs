//! The platform-level interrupt controller: which register does what.

use vstd::prelude::*;

verus! {

/// The largest number of an interrupt.
pub const MAX_INTERRUPT: u32 = 1023;

/// A value to be written to a register.
#[derive(Copy, Clone, Debug, PartialEq, Eq, Structural)]
pub struct RegisterWrite {
    pub addr: u64,
    pub value: u32,
}

/// The interrupt controller.
#[derive(Copy, Clone, Debug, PartialEq, Eq, Structural)]
pub struct Plic {
    /// Where its registers begin.
    pub plic_base: u64,
    pub init: bool,
}

/// The bytes of the registers of `harts` harts.
pub open spec fn extent(harts: int) -> int {
    0x20_2000 + 0x2000 * harts
}

/// With the bit `i` of a register set.
pub open spec fn with_bit(val: u32, i: u32) -> u32 {
    val | (1u32 << i)
}

/// With the bit `i` of a register cleared.
pub open spec fn without_bit(val: u32, i: u32) -> u32 {
    val & !(1u32 << i)
}

impl Plic {
    /// An interrupt controller of which nothing is known yet.
    pub fn new() -> (r: Self)
        ensures
            r == (Plic { plic_base: 0, init: false }),
    {
        Plic { plic_base: 0, init: false }
    }

    /// Whether the registers of a hart are all there.
    pub open spec fn has(self, hart: u64) -> bool {
        self.init && self.plic_base + extent(hart as int) <= u64::MAX
    }

    /// The register with the priority below which interrupts do not reach a
    /// hart.
    pub open spec fn threshold(self, hart: u64) -> int {
        self.plic_base + 0x20_1000 + 0x2000 * hart
    }

    /// The register from which a hart claims an interrupt, and to which it gives
    /// it back.
    pub open spec fn claim(self, hart: u64) -> int {
        self.plic_base + 0x20_1004 + 0x2000 * hart
    }

    /// The register with the bit that enables an interrupt for a hart.
    pub open spec fn enable(self, hart: u64, interrupt_id: u32) -> int {
        self.plic_base + 0x2080 + 0x100 * hart + 4 * (interrupt_id / 32)
    }

    /// Initialize the PLIC.
    pub fn init(&mut self, plic_base: u64)
        requires
            plic_base % 4096 == 0,
            !old(self).init,
        ensures
            *final(self) == (Plic { plic_base, init: true }),
    {
        self.plic_base = plic_base;
        self.init = true;
    }

    /// Set the priority below which interrupts do not reach a hart.
    pub fn hart_set_spriority(&self, hart: u64, spriority: u32) -> (r: RegisterWrite)
        requires
            self.has(hart),
        ensures
            r.addr == self.threshold(hart),
            r.value == spriority,
    {
        RegisterWrite { addr: self.plic_base + 0x20_1000 + 0x2000 * hart, value: spriority }
    }

    /// The register that has to be read to enable or disable an interrupt for a
    /// hart.
    pub fn enable_register(&self, hart: u64, interrupt_id: u32) -> (r: u64)
        requires
            self.has(hart),
            interrupt_id <= MAX_INTERRUPT,
        ensures
            r == self.enable(hart, interrupt_id),
    {
        let offset: u64 = (interrupt_id / 32) as u64;
        self.plic_base + 0x2080 + 0x100 * hart + 4 * offset
    }

    /// Enable an interrupt for a hart, given what its register holds.
    pub fn hart_senable(&self, hart: u64, interrupt_id: u32, val: u32) -> (r: RegisterWrite)
        requires
            self.has(hart),
            interrupt_id <= MAX_INTERRUPT,
        ensures
            r.addr == self.enable(hart, interrupt_id),
            r.value == with_bit(val, interrupt_id % 32),
    {
        let bit_idx: u32 = interrupt_id % 32;
        RegisterWrite {
            addr: self.enable_register(hart, interrupt_id),
            value: val | (1u32 << bit_idx),
        }
    }

    /// Disable an interrupt for a hart, given what its register holds.
    pub fn hart_sdisable(&self, hart: u64, interrupt_id: u32, val: u32) -> (r: RegisterWrite)
        requires
            self.has(hart),
            interrupt_id <= MAX_INTERRUPT,
        ensures
            r.addr == self.enable(hart, interrupt_id),
            r.value == without_bit(val, interrupt_id % 32),
    {
        let bit_idx: u32 = interrupt_id % 32;
        RegisterWrite {
            addr: self.enable_register(hart, interrupt_id),
            value: val & !(1u32 << bit_idx),
        }
    }

    /// Set the priority of an interrupt.
    pub fn set_priority(&self, interrupt_id: u32, priority: u32) -> (r: RegisterWrite)
        requires
            self.has(0),
            interrupt_id <= MAX_INTERRUPT,
        ensures
            r.addr == self.plic_base + 4 * interrupt_id,
            r.value == priority,
    {
        RegisterWrite { addr: self.plic_base + 4 * (interrupt_id as u64), value: priority }
    }

    /// The register from which a hart claims an interrupt.
    pub fn hart_sclaim(&self, hart: u64) -> (r: u64)
        requires
            self.has(hart),
        ensures
            r == self.claim(hart),
    {
        self.plic_base + 0x20_1004 + 0x2000 * hart
    }

    /// Give back an interrupt that a hart claimed.
    pub fn hart_sunclaim(&self, hart: u64, interrupt_id: u32) -> (r: RegisterWrite)
        requires
            self.has(hart),
            interrupt_id <= MAX_INTERRUPT,
        ensures
            r.addr == self.claim(hart),
            r.value == interrupt_id,
    {
        RegisterWrite { addr: self.plic_base + 0x20_1004 + 0x2000 * hart, value: interrupt_id }
    }
}

proof fn lemma_enable_bits(val: u32, i: u32, j: u32)
    by (bit_vector)
    requires
        i < 32,
        j < 32,
    ensures
        (val | (1u32 << i)) & (1u32 << i) != 0,
        (val & !(1u32 << i)) & (1u32 << i) == 0,
        i != j ==> (val | (1u32 << i)) & (1u32 << j) == val & (1u32 << j),
        i != j ==> (val & !(1u32 << i)) & (1u32 << j) == val & (1u32 << j),
        (val | (1u32 << i)) & !(1u32 << i) == val & !(1u32 << i),
{
}

/// Enabling and disabling an interrupt concern that interrupt alone: its bit is
/// set and cleared, and the bit of every other interrupt in the same register
/// stays; and disabling undoes enabling.
pub proof fn law_enable_one_interrupt(val: u32, i: u32, j: u32)
    requires
        i < 32,
        j < 32,
    ensures
        with_bit(val, i) & (1u32 << i) != 0,
        without_bit(val, i) & (1u32 << i) == 0,
        i != j ==> with_bit(val, i) & (1u32 << j) == val & (1u32 << j),
        i != j ==> without_bit(val, i) & (1u32 << j) == val & (1u32 << j),
        without_bit(with_bit(val, i), i) == without_bit(val, i),
{
    lemma_enable_bits(val, i, j);
}

/// Interrupts that share a bit position of a hart have different registers.
pub proof fn law_enable_registers_differ(plic: Plic, hart: u64, a: u32, b: u32)
    requires
        a != b,
    ensures
        plic.enable(hart, a) != plic.enable(hart, b) || a % 32 != b % 32,
{
}

/// A hart has two contexts of the interrupt controller, and the second is the one of
/// supervisor mode: of the contexts, which are counted from 0 on, the one with the number
/// 2 * `hart` + 1. A context has 0x80 bytes of bits that enable interrupts from 0x2000 on,
/// and 0x1000 bytes from 0x200000 on, with its threshold first and then the register to
/// claim from.
pub proof fn law_registers_of_a_hart(plic: Plic, hart: u64, interrupt_id: u32)
    ensures
        ({
            let context = 2 * hart + 1;
            &&& plic.enable(hart, interrupt_id) == plic.plic_base + 0x2000 + 0x80 * context + 4 * (
            interrupt_id / 32)
            &&& plic.threshold(hart) == plic.plic_base + 0x20_0000 + 0x1000 * context
            &&& plic.claim(hart) == plic.threshold(hart) + 4
        }),
{
}

/// A hart gives an interrupt back to the register that it claimed it from, and by its number;
/// the priority of an interrupt is in the word with its number, counted from the beginning.
pub proof fn law_claims_are_given_back(
    plic: Plic,
    hart: u64,
    interrupt_id: u32,
    value: u32,
    claim: u64,
    w: RegisterWrite,
)
    requires
        call_ensures(Plic::hart_sclaim, (&plic, hart), claim),
    ensures
        claim == plic.plic_base + 0x20_0000 + 0x1000 * (2 * hart + 1) + 4,
        call_ensures(Plic::hart_sunclaim, (&plic, hart, interrupt_id), w) ==> w.addr == claim
            && w.value == interrupt_id,
        call_ensures(Plic::set_priority, (&plic, interrupt_id, value), w) ==> w.addr
            == plic.plic_base + 4 * interrupt_id && w.value == value,
        call_ensures(Plic::hart_set_spriority, (&plic, hart, value), w) ==> w.addr == claim - 4
            && w.value == value,
        call_ensures(Plic::hart_senable, (&plic, hart, interrupt_id, value), w) ==> w.addr
            == plic.plic_base + 0x2000 + 0x80 * (2 * hart + 1) + 4 * (interrupt_id / 32) && w.value
            & (1u32 << (interrupt_id % 32)) != 0,
        call_ensures(Plic::hart_sdisable, (&plic, hart, interrupt_id, value), w) ==> w.addr
            == plic.plic_base + 0x2000 + 0x80 * (2 * hart + 1) + 4 * (interrupt_id / 32) && w.value
            & (1u32 << (interrupt_id % 32)) == 0,
{
    lemma_enable_bits(value, interrupt_id % 32, 0);
}

} // verus!
