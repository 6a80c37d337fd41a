//! The control registers of a hart, and how interrupts are kept off.

use vstd::prelude::*;

use super::hart_local;
use super::hart_local::HartCtx;
use super::paging::RawSatp;

verus! {

/// Supervisor Interrupt Enable
pub const SSTATUS_SIE: u64 = 0x2;

/// The mode before the last trap
pub const SSTATUS_SPP: u64 = 0x100;

/// Whether interrupts were enabled before the last trap
pub const SSTATUS_SPIE: u64 = 0x20;

/// Software interrupts
pub const SIE_SSIE: u64 = 0x2;

/// Timer interrupts
pub const SIE_STIE: u64 = 0x20;

/// External interrupts
pub const SIE_SEIE: u64 = 0x200;

/// A timer interrupt is pending
pub const SIP_STIP: u64 = 0x20;

/// A software interrupt is pending
pub const SIP_SSIP: u64 = 0x2;

/// Set in `scause` for interrupts
pub const SCAUSE_INTR_BIT: u64 = 0x8000_0000_0000_0000;

/// The control registers of a hart.
#[derive(Copy, Clone, Debug, PartialEq, Eq, Structural)]
pub struct ControlRegisters {
    pub sstatus: u64,
    pub sie: u64,
    pub sip: u64,
    pub satp: u64,
    pub tp: u64,
}

/// Set bits of a register. Returns whether or not one of them was set before.
fn csrrs(reg: &mut u64, mask: u64) -> (r: bool)
    ensures
        *final(reg) == *old(reg) | mask,
        r == (*old(reg) & mask != 0),
{
    let before: u64 = *reg;
    *reg = before | mask;
    before & mask != 0
}

/// Clear bits of a register. Returns whether or not one of them was set before.
fn csrrc(reg: &mut u64, mask: u64) -> (r: bool)
    ensures
        *final(reg) == *old(reg) & !mask,
        r == (*old(reg) & mask != 0),
{
    let before: u64 = *reg;
    *reg = before & !mask;
    before & mask != 0
}

impl ControlRegisters {
    /// Whether S-interrupts are enabled.
    pub open spec fn intr(self) -> bool {
        self.sstatus & SSTATUS_SIE != 0
    }

    /// With S-interrupts disabled.
    pub open spec fn off(self) -> ControlRegisters {
        ControlRegisters { sstatus: self.sstatus & !SSTATUS_SIE, ..self }
    }

    /// With S-interrupts enabled.
    pub open spec fn on(self) -> ControlRegisters {
        ControlRegisters { sstatus: self.sstatus | SSTATUS_SIE, ..self }
    }

    /// Whether S-interrupts are enabled.
    pub fn intr_enabled(&self) -> (r: bool)
        ensures
            r == self.intr(),
    {
        self.sstatus & SSTATUS_SIE != 0
    }

    /// Have interrupts enabled after the next return from a trap. Returns
    /// whether or not they would have been.
    pub fn set_spie(&mut self) -> (r: bool)
        ensures
            *final(self) == (ControlRegisters {
                sstatus: old(self).sstatus | SSTATUS_SPIE,
                ..*old(self)
            }),
            r == (old(self).sstatus & SSTATUS_SPIE != 0),
    {
        csrrs(&mut self.sstatus, SSTATUS_SPIE)
    }

    /// Have interrupts disabled after the next return from a trap. Returns
    /// whether or not they would have been enabled.
    pub fn clear_spie(&mut self) -> (r: bool)
        ensures
            *final(self) == (ControlRegisters {
                sstatus: old(self).sstatus & !SSTATUS_SPIE,
                ..*old(self)
            }),
            r == (old(self).sstatus & SSTATUS_SPIE != 0),
    {
        csrrc(&mut self.sstatus, SSTATUS_SPIE)
    }

    /// Have the next return from a trap lead to S-mode. Returns whether or not
    /// it would have.
    pub fn set_spp(&mut self) -> (r: bool)
        ensures
            *final(self) == (ControlRegisters {
                sstatus: old(self).sstatus | SSTATUS_SPP,
                ..*old(self)
            }),
            r == (old(self).sstatus & SSTATUS_SPP != 0),
    {
        csrrs(&mut self.sstatus, SSTATUS_SPP)
    }

    /// Have the next return from a trap lead to U-mode. Returns whether or not
    /// it would have led to S-mode.
    pub fn clear_spp(&mut self) -> (r: bool)
        ensures
            *final(self) == (ControlRegisters {
                sstatus: old(self).sstatus & !SSTATUS_SPP,
                ..*old(self)
            }),
            r == (old(self).sstatus & SSTATUS_SPP != 0),
    {
        csrrc(&mut self.sstatus, SSTATUS_SPP)
    }

    /// Disable S-interrupts. Returns whether or not they were enabled before.
    pub fn intr_off(&mut self) -> (r: bool)
        ensures
            *final(self) == old(self).off(),
            r == old(self).intr(),
    {
        csrrc(&mut self.sstatus, SSTATUS_SIE)
    }

    /// Enable S-interrupts. Returns whether or not they were enabled before.
    pub fn intr_on(&mut self) -> (r: bool)
        ensures
            *final(self) == old(self).on(),
            r == old(self).intr(),
    {
        csrrs(&mut self.sstatus, SSTATUS_SIE)
    }

    /// Enable software interrupts. Returns whether or not they were before.
    pub fn software_intr_on(&mut self) -> (r: bool)
        ensures
            *final(self) == (ControlRegisters { sie: old(self).sie | SIE_SSIE, ..*old(self) }),
            r == (old(self).sie & SIE_SSIE != 0),
    {
        csrrs(&mut self.sie, SIE_SSIE)
    }

    /// Disable software interrupts. Returns whether or not they were enabled.
    pub fn software_intr_off(&mut self) -> (r: bool)
        ensures
            *final(self) == (ControlRegisters { sie: old(self).sie & !SIE_SSIE, ..*old(self) }),
            r == (old(self).sie & SIE_SSIE != 0),
    {
        csrrc(&mut self.sie, SIE_SSIE)
    }

    /// Enable external interrupts. Returns whether or not they were before.
    pub fn external_intr_on(&mut self) -> (r: bool)
        ensures
            *final(self) == (ControlRegisters { sie: old(self).sie | SIE_SEIE, ..*old(self) }),
            r == (old(self).sie & SIE_SEIE != 0),
    {
        csrrs(&mut self.sie, SIE_SEIE)
    }

    /// Disable external interrupts. Returns whether or not they were enabled.
    pub fn external_intr_off(&mut self) -> (r: bool)
        ensures
            *final(self) == (ControlRegisters { sie: old(self).sie & !SIE_SEIE, ..*old(self) }),
            r == (old(self).sie & SIE_SEIE != 0),
    {
        csrrc(&mut self.sie, SIE_SEIE)
    }

    /// Enable timer interrupts. Returns whether or not they were before.
    pub fn timer_intr_on(&mut self) -> (r: bool)
        ensures
            *final(self) == (ControlRegisters { sie: old(self).sie | SIE_STIE, ..*old(self) }),
            r == (old(self).sie & SIE_STIE != 0),
    {
        csrrs(&mut self.sie, SIE_STIE)
    }

    /// Disable timer interrupts. Returns whether or not they were enabled.
    pub fn timer_intr_off(&mut self) -> (r: bool)
        ensures
            *final(self) == (ControlRegisters { sie: old(self).sie & !SIE_STIE, ..*old(self) }),
            r == (old(self).sie & SIE_STIE != 0),
    {
        csrrc(&mut self.sie, SIE_STIE)
    }

    /// Clear a pending timer interrupt.
    pub fn timer_intr_clear(&mut self)
        ensures
            *final(self) == (ControlRegisters { sip: old(self).sip & !SIP_STIP, ..*old(self) }),
    {
        let _ = csrrc(&mut self.sip, SIP_STIP);
    }

    /// Clear a pending software interrupt.
    pub fn software_intr_clear(&mut self)
        ensures
            *final(self) == (ControlRegisters { sip: old(self).sip & !SIP_SSIP, ..*old(self) }),
    {
        let _ = csrrc(&mut self.sip, SIP_SSIP);
    }

    /// Set the thread pointer. Returns the old thread pointer.
    pub fn set_tp(&mut self, v: u64) -> (r: u64)
        ensures
            *final(self) == (ControlRegisters { tp: v, ..*old(self) }),
            r == old(self).tp,
    {
        let tp: u64 = self.tp;
        self.tp = v;
        tp
    }

    /// The page table that is in use.
    pub fn get_satp(&self) -> (r: RawSatp)
        ensures
            r@ == self.satp,
    {
        RawSatp::new_unchecked(self.satp)
    }
}

/// The number of a hart: before hart-local data is set up, the thread pointer
/// holds it.
pub open spec fn hartid_of(csr: ControlRegisters, hart: HartCtx) -> u64 {
    if csr.tp > crate::addr::mappings::KERNEL_PHYS_OFFSET {
        hart.hartid
    } else {
        csr.tp
    }
}

/// Get the hart ID of the current hart.
pub fn hartid(csr: &ControlRegisters, hart: &HartCtx) -> (r: u64)
    ensures
        r == hartid_of(*csr, *hart),
{
    if !hart_local::enabled(csr.tp) {
        return csr.tp;
    }
    hart.hartid
}

/// A hart: its control registers, and what it has for itself.
#[derive(Copy, Clone, Debug, PartialEq, Eq, Structural)]
pub struct Hart {
    pub csr: ControlRegisters,
    pub ctx: HartCtx,
}

impl Hart {
    /// Whether hart-local data is set up.
    pub open spec fn local(self) -> bool {
        self.csr.tp > crate::addr::mappings::KERNEL_PHYS_OFFSET
    }

    /// The number of the hart.
    pub open spec fn id(self) -> u64 {
        hartid_of(self.csr, self.ctx)
    }

    /// With interrupts kept off once more.
    pub open spec fn pushed(self) -> Hart {
        if self.local() {
            Hart {
                csr: self.csr.off(),
                ctx: HartCtx {
                    holding_disabler: (self.ctx.holding_disabler + 1) as u64,
                    intena: if self.ctx.holding_disabler == 0 {
                        self.csr.intr()
                    } else {
                        self.ctx.intena
                    },
                    ..self.ctx
                },
            }
        } else {
            Hart { csr: self.csr.off(), ..self }
        }
    }

    /// With interrupts kept off once less: they are enabled again if nobody
    /// keeps them off any more, they were enabled before, and that is not
    /// inhibited.
    pub open spec fn popped(self) -> Hart {
        if self.local() {
            let left = (self.ctx.holding_disabler - 1) as u64;
            Hart {
                csr: if self.ctx.intena && left == 0 && !self.ctx.inhibit_intena {
                    self.csr.on()
                } else {
                    self.csr
                },
                ctx: HartCtx { holding_disabler: left, ..self.ctx },
            }
        } else {
            self
        }
    }
}

/// Keeps interrupts off while it is held.
#[derive(Debug)]
pub struct InterruptDisabler(u8);

impl InterruptDisabler {
    /// Disable interrupts, until [`Self::release`].
    pub fn new(hart: &mut Hart) -> (r: Self)
        requires
            old(hart).local() ==> old(hart).ctx.holding_disabler < u64::MAX,
        ensures
            *final(hart) == old(hart).pushed(),
    {
        let prev: bool = hart.csr.intr_off();
        if !hart_local::enabled(hart.csr.tp) {
            return InterruptDisabler(0);
        }
        hart.ctx.holding_disabler = hart.ctx.holding_disabler + 1;
        if hart.ctx.holding_disabler == 1 {
            hart.ctx.intena = prev;
        }
        InterruptDisabler(0)
    }

    /// Enable interrupts again, if they were enabled and nobody else keeps them
    /// off.
    pub fn release(self, hart: &mut Hart)
        requires
            old(hart).local() ==> old(hart).ctx.holding_disabler > 0,
        ensures
            *final(hart) == old(hart).popped(),
    {
        if !hart_local::enabled(hart.csr.tp) {
            return;
        }
        let left: u64 = hart.ctx.holding_disabler - 1;
        hart.ctx.holding_disabler = left;
        if hart.ctx.intena && left == 0 && !hart.ctx.inhibit_intena {
            let _ = hart.csr.intr_on();
        }
    }
}

proof fn lemma_sie_bits(x: u64)
    by (bit_vector)
    ensures
        (x & !0x2u64) & 0x2 == 0,
        (x | 0x2) & 0x2 != 0,
        x & 0x2 != 0 ==> (x & !0x2u64) | 0x2 == x,
        x & 0x2 == 0 ==> x & !0x2u64 == x,
{
}

/// While a disabler is held, interrupts are off; once it is released, all is as
/// it was before, unless it was the first one, and enabling interrupts again is
/// inhibited.
pub proof fn law_disabler_restores(hart: Hart)
    requires
        hart.local(),
        hart.ctx.holding_disabler < u64::MAX,
        hart.ctx.holding_disabler > 0 ==> !hart.csr.intr(),
    ensures
        !hart.pushed().csr.intr(),
        hart.pushed().popped().ctx.holding_disabler == hart.ctx.holding_disabler,
        hart.ctx.holding_disabler > 0 ==> hart.pushed().popped() == hart,
        hart.ctx.holding_disabler == 0 && !hart.ctx.inhibit_intena
            ==> hart.pushed().popped().csr == hart.csr,
{
    lemma_sie_bits(hart.csr.sstatus);
}

/// The bits that allow an interrupt, and those that say that there is one, are those of its
/// code: 1 for another hart, 5 for the timer, and 9 for devices. All of them are allowed by
/// the bit 1 of the status, which is the only one that changes where they are allowed or
/// forbidden.
pub proof fn law_bits_of_interrupts(csr: ControlRegisters)
    ensures
        SIE_SSIE == 1u64 << 1u64 && SIE_STIE == 1u64 << 5u64 && SIE_SEIE == 1u64 << 9u64,
        SIP_SSIP == 1u64 << 1u64 && SIP_STIP == 1u64 << 5u64,
        csr.intr() <==> (csr.sstatus / 2) % 2 == 1,
        csr.on().intr() && !csr.off().intr(),
        csr.on().sstatus == if (csr.sstatus / 2) % 2 == 1 {
            csr.sstatus as int
        } else {
            csr.sstatus + 2
        },
        csr.off().sstatus == if (csr.sstatus / 2) % 2 == 1 {
            csr.sstatus - 2
        } else {
            csr.sstatus as int
        },
{
    let s = csr.sstatus;
    assert(SIE_SSIE == 1u64 << 1u64 && SIE_STIE == 1u64 << 5u64 && SIE_SEIE == 1u64 << 9u64
        && SIP_SSIP == 1u64 << 1u64 && SIP_STIP == 1u64 << 5u64 && (s & SSTATUS_SIE != 0 <==> (s
        / 2) % 2 == 1) && (s | SSTATUS_SIE) & SSTATUS_SIE != 0 && (s & !SSTATUS_SIE) & SSTATUS_SIE
        == 0 && (s | SSTATUS_SIE) == if (s / 2) % 2 == 1 {
        s as int
    } else {
        s + 2
    } && (s & !SSTATUS_SIE) == if (s / 2) % 2 == 1 {
        s - 2
    } else {
        s as int
    }) by (bit_vector);
}

} // verus!
