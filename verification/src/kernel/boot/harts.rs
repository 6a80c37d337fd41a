//! The harts of the machine, and what each of them starts with.

use vstd::prelude::*;

use super::early::HartBootData;
use crate::addr::mappings::DirectMapped;
use crate::addr::{Physical, VirtualConst};
use crate::kernel::paging::RawSatp;
use crate::kernel::physmem::PhysicalMemory;

verus! {

/// A hart of the machine, as the device tree describes it.
#[derive(Copy, Clone, Debug, PartialEq, Eq, Structural)]
pub struct HartInfo {
    pub id: u64,
    /// How many ticks the time register makes in a second.
    pub timebase_frequency: u64,
}

/// The first hart from `i` on that has the given number.
pub open spec fn hart_of(harts: Seq<HartInfo>, id: u64, i: int) -> Option<HartInfo>
    decreases harts.len() - i,
{
    if i >= harts.len() {
        None
    } else if harts[i].id == id {
        Some(harts[i])
    } else {
        hart_of(harts, id, i + 1)
    }
}

/// Find the hart with the given number.
pub fn find_hart(harts: &Vec<HartInfo>, id: u64) -> (r: Option<HartInfo>)
    ensures
        r == hart_of(harts@, id, 0),
{
    let mut i: usize = 0;
    while i < harts.len()
        invariant
            i <= harts@.len(),
            hart_of(harts@, id, 0) == hart_of(harts@, id, i as int),
        decreases harts@.len() - i,
    {
        if harts[i].id == id {
            return Some(harts[i]);
        }
        i += 1;
    }
    None
}

/// The numbers of the first `n` harts that are not the given one, in order.
pub open spec fn others(harts: Seq<HartInfo>, id: u64, n: int) -> Seq<u64>
    decreases n,
{
    if n <= 0 {
        Seq::empty()
    } else if harts[n - 1].id != id {
        others(harts, id, n - 1).push(harts[n - 1].id)
    } else {
        others(harts, id, n - 1)
    }
}

/// The harts that the boot hart starts: all others, in order.
pub fn other_harts(harts: &Vec<HartInfo>, boot: u64) -> (r: Vec<u64>)
    ensures
        r@ == others(harts@, boot, harts@.len() as int),
{
    let mut v: Vec<u64> = Vec::new();
    let mut i: usize = 0;
    while i < harts.len()
        invariant
            i <= harts@.len(),
            v@ == others(harts@, boot, i as int),
        decreases harts@.len() - i,
    {
        if harts[i].id != boot {
            v.push(harts[i].id);
        }
        i += 1;
    }
    v
}

/// No hart is started twice over: the boot hart is not among those that it
/// starts, and every other hart is.
pub proof fn law_other_harts(harts: Seq<HartInfo>, boot: u64, n: int)
    requires
        0 <= n <= harts.len(),
    ensures
        forall|i: int|
            0 <= i < others(harts, boot, n).len() ==> #[trigger] others(harts, boot, n)[i] != boot,
        forall|i: int|
            0 <= i < n && (#[trigger] harts[i]).id != boot ==> others(harts, boot, n).contains(
                harts[i].id,
            ),
    decreases n,
{
    if n > 0 {
        law_other_harts(harts, boot, n - 1);
        let before = others(harts, boot, n - 1);
        let after = others(harts, boot, n);
        assert forall|i: int| 0 <= i < n && (#[trigger] harts[i]).id != boot implies after.contains(
            harts[i].id,
        ) by {
            if i == n - 1 {
                assert(after[after.len() - 1] == harts[i].id);
            } else {
                let j = choose|j: int| 0 <= j < before.len() && before[j] == harts[i].id;
                assert(after[j] == harts[i].id);
            }
        }
    }
}

/// The harts in the order in which they are seen to: the boot hart first, and then
/// the others as they are listed.
pub open spec fn boot_order(harts: Seq<HartInfo>, boot: u64) -> Seq<u64> {
    seq![boot] + others(harts, boot, harts.len() as int)
}

/// The harts in the order in which they are seen to.
pub fn harts_in_order(harts: &Vec<HartInfo>, boot: u64) -> (r: Vec<u64>)
    ensures
        r@ == boot_order(harts@, boot),
{
    let mut v: Vec<u64> = Vec::new();
    v.push(boot);
    let mut rest = other_harts(harts, boot);
    v.append(&mut rest);
    assert(v@ =~= boot_order(harts@, boot));
    v
}

/// Whether a mask of 64 bits has room for all the harts.
pub open spec fn maskable(harts: Seq<HartInfo>) -> bool {
    &&& harts.len() <= 64
    &&& forall|i: int| 0 <= i < harts.len() ==> (#[trigger] harts[i]).id < 64
}

/// Whether a mask of 64 bits has room for all the harts.
pub fn is_maskable(harts: &Vec<HartInfo>) -> (r: bool)
    ensures
        r == maskable(harts@),
{
    let mut i: usize = 0;
    while i < harts.len()
        invariant
            i <= harts@.len(),
            forall|j: int| 0 <= j < i ==> (#[trigger] harts@[j]).id < 64,
        decreases harts@.len() - i,
    {
        if harts[i].id >= 64 {
            return false;
        }
        i += 1;
    }
    harts.len() <= 64
}

/// Every hart is seen to, and nothing else is, where the boot hart is one of them.
pub proof fn law_boot_order(harts: Seq<HartInfo>, boot: u64)
    requires
        hart_of(harts, boot, 0) is Some,
    ensures
        boot_order(harts, boot).len() <= harts.len(),
        boot_order(harts, boot)[0] == boot,
        boot_order(harts, boot).contains(boot),
        forall|i: int|
            0 <= i < harts.len() ==> boot_order(harts, boot).contains((#[trigger] harts[i]).id),
        forall|j: int|
            0 <= j < boot_order(harts, boot).len() ==> exists|i: int|
                0 <= i < harts.len() && (#[trigger] harts[i]).id == #[trigger] boot_order(
                    harts,
                    boot,
                )[j],
        maskable(harts) ==> forall|j: int|
            0 <= j < boot_order(harts, boot).len() ==> (#[trigger] boot_order(harts, boot)[j]) < 64,
{
    let n = harts.len() as int;
    let order = boot_order(harts, boot);
    law_other_harts(harts, boot, n);
    let b = lemma_hart_of(harts, boot, 0);
    lemma_others(harts, boot, n);
    assert(order[0] == boot);
    assert forall|i: int| 0 <= i < n implies order.contains((#[trigger] harts[i]).id) by {
        if harts[i].id != boot {
            let rest = others(harts, boot, n);
            let j = choose|j: int| 0 <= j < rest.len() && rest[j] == harts[i].id;
            assert(order[j + 1] == harts[i].id);
        }
    }
    assert forall|j: int| 0 <= j < order.len() implies exists|i: int|
        0 <= i < harts.len() && (#[trigger] harts[i]).id == #[trigger] order[j] by {
        if j == 0 {
            assert(harts[b].id == order[j]);
        } else {
            assert(order[j] == others(harts, boot, n)[j - 1]);
        }
    }
}

/// Where the hart is that was found.
proof fn lemma_hart_of(harts: Seq<HartInfo>, id: u64, i: int) -> (r: int)
    requires
        0 <= i,
        hart_of(harts, id, i) is Some,
    ensures
        i <= r < harts.len(),
        harts[r].id == id,
    decreases harts.len() - i,
{
    if harts[i].id == id {
        i
    } else {
        lemma_hart_of(harts, id, i + 1)
    }
}

/// The other harts are harts, and there are fewer of them if the one that is left
/// out is there.
proof fn lemma_others(harts: Seq<HartInfo>, id: u64, n: int)
    requires
        0 <= n <= harts.len(),
    ensures
        others(harts, id, n).len() <= n,
        (exists|i: int| 0 <= i < n && (#[trigger] harts[i]).id == id) ==> others(harts, id, n).len()
            < n,
        forall|j: int|
            0 <= j < others(harts, id, n).len() ==> exists|i: int|
                0 <= i < n && (#[trigger] harts[i]).id == #[trigger] others(harts, id, n)[j],
    decreases n,
{
    if n > 0 {
        lemma_others(harts, id, n - 1);
        let now = others(harts, id, n);
        assert forall|j: int| 0 <= j < now.len() implies exists|i: int|
            0 <= i < n && (#[trigger] harts[i]).id == #[trigger] now[j] by {
            if j < others(harts, id, n - 1).len() {
                assert(now[j] == others(harts, id, n - 1)[j]);
            } else {
                assert(harts[n - 1].id == now[j]);
            }
        }
    }
}

/// How many ticks there are between two timer interrupts: about a tenth of a
/// second.
pub fn timer_interval(timebase_frequency: u64) -> (r: u64)
    ensures
        r == timebase_frequency / 10,
{
    timebase_frequency / 10
}

/// The size of the stack that a hart starts with: 4 MiB.
pub const HART_STACK_SIZE: u64 = 0x40_0000;

/// What another hart is started with: the page table of this one, a new stack,
/// and the device tree.
pub fn hart_boot_data(
    mem: &mut PhysicalMemory,
    satp: RawSatp,
    fdt_ptr: VirtualConst<u8, DirectMapped>,
) -> (r: HartBootData)
    requires
        old(mem)@.wf(),
        old(mem)@.available() >= 1024,
    ensures
        final(mem)@ == old(mem)@.grow_by(1024),
        final(mem)@.wf(),
        r.raw_satp == satp,
        r.sp_phys@ == old(mem)@.next() * 4096 + HART_STACK_SIZE,
        r.fdt_ptr_virt@ == fdt_ptr@,
{
    let stack_base: u64 = mem.allocate_run(1024);
    HartBootData {
        raw_satp: satp,
        sp_phys: Physical::from_usize_unchecked(stack_base * 4096 + HART_STACK_SIZE),
        fdt_ptr_virt: fdt_ptr,
    }
}

/// How much memory there is, in MiB.
#[derive(Copy, Clone, Debug, PartialEq, Eq, Structural)]
pub struct MemoryUsage {
    pub used: u64,
    pub total: u64,
    pub free: u64,
}

/// How much memory is used and free, in MiB.
pub fn memory_usage(mem: &PhysicalMemory) -> (r: MemoryUsage)
    requires
        mem@.wf(),
    ensures
        r.used == mem@.frames() / 256,
        r.total == mem@.limit / 256,
        r.free == mem@.available() / 256,
{
    let free: u64 = mem.num_free_pages();
    let total: u64 = mem.num_pages();
    let used: u64 = total - free;
    MemoryUsage {
        used: used * 4096 / 0x10_0000,
        total: total * 4096 / 0x10_0000,
        free: free * 4096 / 0x10_0000,
    }
}

/// The name of the kind of serial port that is supported.
pub open spec fn ns16550a() -> Seq<u8> {
    seq![0x6e, 0x73, 0x31, 0x36, 0x35, 0x35, 0x30, 0x61]
}

/// Whether one of the kinds that a serial port says it is compatible with is
/// the supported one.
pub fn is_supported_uart(compatible: &Vec<Vec<u8>>) -> (r: bool)
    ensures
        r == (exists|i: int|
            0 <= i < compatible@.len() && #[trigger] compatible@[i]@ == ns16550a()),
{
    let mut i: usize = 0;
    while i < compatible.len()
        invariant
            i <= compatible@.len(),
            forall|j: int| 0 <= j < i ==> #[trigger] compatible@[j]@ != ns16550a(),
        decreases compatible@.len() - i,
    {
        let name: &Vec<u8> = &compatible[i];
        if name.len() == 8 && name[0] == 0x6e && name[1] == 0x73 && name[2] == 0x31 && name[3]
            == 0x36 && name[4] == 0x35 && name[5] == 0x35 && name[6] == 0x30 && name[7] == 0x61 {
            assert(compatible@[i as int]@ =~= ns16550a());
            return true;
        }
        assert(compatible@[i as int]@ != ns16550a()) by {
            let n = compatible@[i as int]@;
            let w = ns16550a();
            assert(w.len() == 8);
            if n == w {
                assert(n[0] == w[0] && n[1] == w[1] && n[2] == w[2] && n[3] == w[3]);
                assert(n[4] == w[4] && n[5] == w[5] && n[6] == w[6] && n[7] == w[7]);
            }
        }
        i += 1;
    }
    false
}

/// The hart that is found by its number has that number and is the first with it; none is
/// found only where none has it.
pub proof fn law_harts_are_found(harts: Seq<HartInfo>, id: u64, i: int)
    requires
        0 <= i <= harts.len(),
    ensures
        match hart_of(harts, id, i) {
            Some(hart) => hart.id == id && exists|k: int|
                i <= k < harts.len() && (#[trigger] harts[k]) == hart && forall|j: int|
                    i <= j < k ==> (#[trigger] harts[j]).id != id,
            None => forall|k: int| i <= k < harts.len() ==> (#[trigger] harts[k]).id != id,
        },
    decreases harts.len() - i,
{
    if i < harts.len() && harts[i].id != id {
        law_harts_are_found(harts, id, i + 1);
        if let Some(hart) = hart_of(harts, id, i) {
            let k = choose|k: int|
                i + 1 <= k < harts.len() && (#[trigger] harts[k]) == hart && forall|j: int|
                    i + 1 <= j < k ==> (#[trigger] harts[j]).id != id;
            assert(harts[k] == hart);
        }
    }
}

/// The console that is supported is named ns16550a, and nothing else is.
pub proof fn law_supported_console(name: Seq<u8>)
    ensures
        name == ns16550a() <==> name == "ns16550a"@.map_values(|c: char| c as u8),
{
    reveal_strlit("ns16550a");
    assert(ns16550a() =~= "ns16550a"@.map_values(|c: char| c as u8));
}

/// The timer of a hart goes off ten times a second.
pub proof fn law_ten_times_a_second(frequency: u64, interval: u64)
    requires
        call_ensures(timer_interval, (frequency,), interval),
    ensures
        10 * interval <= frequency < 10 * interval + 10,
{
}

} // verus!
