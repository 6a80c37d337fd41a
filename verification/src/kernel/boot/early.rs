//! Early boot: finding the memory that the kernel can use, and turning on
//! paging.

use vstd::prelude::*;

use super::devicetree;
use super::harts;
use super::runs;
use super::table;
use super::table::Part;
use super::tree;
use crate::addr::mappings;
use crate::addr::mappings::{
    AddressLayout, DirectMapped, Kernel, Mapping, ACTUAL_PHYSICAL_OFFSET, DIRECT_MAP_SIZE,
};
use crate::addr::virt;
use crate::addr::{Physical, PhysicalConst, PhysicalMut, VirtualConst};
use crate::elf;
use crate::kernel::paging;
use crate::kernel::paging::{PageTable, PageTableFlags, RawSatp, Satp};
use crate::kernel::physmem::{Mem, PhysicalMemory};
use crate::kernel::trampoline::TRAMPOLINE_PAGE;

verus! {

/// A region of physical memory.
#[derive(Copy, Clone, Debug, PartialEq, Eq, Structural)]
pub struct MemoryRegion {
    pub start: u64,
    pub size: u64,
}

impl MemoryRegion {
    /// Whether the region holds the kernel.
    pub open spec fn holds(self, kernel_start: u64, kernel_end: u64) -> bool {
        self.start <= kernel_start && kernel_end <= self.start + self.size
    }
}

/// The first region from `i` on that holds the kernel.
pub open spec fn region_of(
    regions: Seq<MemoryRegion>,
    kernel_start: u64,
    kernel_end: u64,
    i: int,
) -> Option<MemoryRegion>
    decreases regions.len() - i,
{
    if i >= regions.len() {
        None
    } else if regions[i].holds(kernel_start, kernel_end) {
        Some(regions[i])
    } else {
        region_of(regions, kernel_start, kernel_end, i + 1)
    }
}

/// Find the memory region that contains the kernel.
pub fn find_region(regions: &Vec<MemoryRegion>, kernel_start: u64, kernel_end: u64) -> (r: Option<
    MemoryRegion,
>)
    requires
        forall|i: int|
            0 <= i < regions@.len() ==> (#[trigger] regions@[i]).start + regions@[i].size
                <= u64::MAX,
    ensures
        r == region_of(regions@, kernel_start, kernel_end, 0),
{
    let mut i: usize = 0;
    while i < regions.len()
        invariant
            i <= regions@.len(),
            forall|i: int|
                0 <= i < regions@.len() ==> (#[trigger] regions@[i]).start + regions@[i].size
                    <= u64::MAX,
            region_of(regions@, kernel_start, kernel_end, 0) == region_of(
                regions@,
                kernel_start,
                kernel_end,
                i as int,
            ),
        decreases regions@.len() - i,
    {
        let region = regions[i];
        if region.start <= kernel_start && kernel_end <= region.start + region.size {
            return Some(region);
        }
        i += 1;
    }
    None
}

/// The least multiple of a page that is not below `x`.
pub open spec fn page_ceiling(x: int) -> int {
    (x + 4095) / 4096 * 4096
}

/// Round up to a multiple of a page.
pub fn round_up_page(x: u64) -> (r: u64)
    requires
        x + 4095 <= u64::MAX,
    ensures
        r == page_ceiling(x as int),
        x <= r < x + 4096,
        r % 4096 == 0,
{
    (x + 4095) / 4096 * 4096
}

/// The largest power of two that is not above `size`.
pub fn floor_pow2(size: u64) -> (r: u64)
    requires
        size > 0,
    ensures
        elf::power_of_two(r as int),
        r <= size < 2 * r,
{
    let mut p: u64 = 1;
    let mut k: u32 = 0;
    proof {
        vstd::arithmetic::power2::lemma2_to64();
    }
    while p <= size / 2
        invariant
            1 <= p <= size,
            k < 64,
            p == vstd::arithmetic::power2::pow2(k as nat),
        decreases size - p,
    {
        proof {
            vstd::arithmetic::power2::lemma2_to64_rest();
            vstd::arithmetic::power2::lemma_pow2_unfold((k + 1) as nat);
            if k == 63 {
                assert(p == 0x8000_0000_0000_0000);
            }
        }
        p = p * 2;
        k += 1;
    }
    p
}

/// Where the memory that nobody uses yet begins: behind the kernel, and behind
/// the device tree if that lies behind the kernel.
pub open spec fn free_start(fdt_ptr: u64, fdt_size: u64, kernel_end: u64) -> int {
    if fdt_ptr >= kernel_end {
        page_ceiling(fdt_ptr + fdt_size)
    } else {
        page_ceiling(kernel_end as int)
    }
}

/// Where the memory that nobody uses yet begins.
pub fn pma_start(fdt_ptr: u64, fdt_size: u64, kernel_end: u64) -> (r: u64)
    requires
        fdt_ptr + fdt_size + 4095 <= u64::MAX,
        kernel_end + 4095 <= u64::MAX,
    ensures
        r == free_start(fdt_ptr, fdt_size, kernel_end),
        r >= kernel_end,
        fdt_ptr >= kernel_end ==> r >= fdt_ptr + fdt_size,
        r % 4096 == 0,
{
    if fdt_ptr >= kernel_end {
        round_up_page(fdt_ptr + fdt_size)
    } else {
        round_up_page(kernel_end)
    }
}

/// Where the linker put the kernel and its parts.
#[derive(Copy, Clone, Debug, PartialEq, Eq, Structural)]
pub struct Image {
    pub kernel_start: u64,
    pub kernel_end: u64,
    pub bss_start: u64,
    pub bss_end: u64,
    pub data_start: u64,
    pub data_end: u64,
    pub tmp_stack_bottom: u64,
    pub tmp_stack_top: u64,
    pub text_start: u64,
    pub text_end: u64,
}

impl Image {
    /// The parts of the image, in the order in which they are mapped: data can
    /// be read and written, code read and executed.
    pub open spec fn parts_spec(self) -> Seq<Part> {
        let data = PageTableFlags { bits: table::DATA_FLAGS };
        let code = PageTableFlags { bits: table::CODE_FLAGS };
        seq![
            Part { start: self.bss_start, end: self.bss_end, flags: data },
            Part { start: self.data_start, end: self.data_end, flags: data },
            Part { start: self.tmp_stack_bottom, end: self.tmp_stack_top, flags: data },
            Part { start: self.text_start, end: self.text_end, flags: code },
        ]
    }

    /// The parts of the image.
    pub fn parts(&self) -> (r: Vec<Part>)
        ensures
            r@ == self.parts_spec(),
    {
        let data = PageTableFlags { bits: table::DATA_FLAGS };
        let code = PageTableFlags { bits: table::CODE_FLAGS };
        let mut parts: Vec<Part> = Vec::new();
        parts.push(Part { start: self.bss_start, end: self.bss_end, flags: data });
        parts.push(Part { start: self.data_start, end: self.data_end, flags: data });
        parts.push(Part { start: self.tmp_stack_bottom, end: self.tmp_stack_top, flags: data });
        parts.push(Part { start: self.text_start, end: self.text_end, flags: code });
        assert(parts@ =~= self.parts_spec());
        parts
    }

    /// The layout of addresses before paging is on.
    pub open spec fn layout(self) -> AddressLayout {
        AddressLayout {
            physical_offset: 0,
            kernel_start: self.kernel_start,
            kernel_end: self.kernel_end,
        }
    }

    /// The parts lie in the kernel, which the linker put where it expects to
    /// be, and have no page in common.
    pub open spec fn wf(self) -> bool {
        let parts = self.parts_spec();
        &&& mappings::standard_layout(self.layout())
        &&& self.kernel_start == mappings::KERNEL_PHYS_OFFSET
        &&& self.kernel_end + 4096 <= DIRECT_MAP_SIZE
        &&& forall|i: int| 0 <= i < parts.len() ==> (#[trigger] parts[i]).wf(self.layout())
        &&& forall|i: int, j: int|
            0 <= i < j < parts.len() ==> (#[trigger] parts[i]).apart(#[trigger] parts[j])
    }
}

/// What paging is turned on with: memory, and the kernel's page table.
pub struct Paging {
    pub mem: PhysicalMemory,
    pub table: PageTable,
    /// What goes into the register that turns paging on.
    pub satp: RawSatp,
}

/// Memory of which no frame has been handed out: what is left of a region
/// behind the kernel, the size of the region being cut down to a power of two.
pub open spec fn fresh_memory(region: MemoryRegion, free: int, mem: Mem) -> bool {
    exists|size: u64|
        elf::power_of_two(size as int) && size <= region.size < 2 * size && #[trigger] fresh_in(
            region.start + size,
            free,
            mem,
        )
}

/// Memory of which no frame has been handed out: that from `free` up to `end`.
pub open spec fn fresh_in(end: int, free: int, mem: Mem) -> bool {
    &&& mem.first == free / 4096
    &&& mem.limit == end / 4096 - free / 4096
    &&& mem.words == Seq::<u64>::empty()
}

/// Memory once the kernel's page table has been made.
pub open spec fn table_made(mem: Mem, image: Image) -> Mem {
    let root = mem.next();
    table::gibs_mapped(
        table::parts_mapped(mem.grow(), root, image.parts_spec(), 4),
        root,
        0,
        ACTUAL_PHYSICAL_OFFSET,
        table::DATA_FLAGS,
        64,
    )
}

/// Whether there is enough memory for the kernel's page table: its root, and the
/// tables that its parts need.
pub open spec fn enough_memory(mem: Mem, image: Image) -> bool {
    mem.available() >= 1 + table::tables_needed(image.parts_spec(), 4)
}

/// The flags of the kernel's mappings allow access.
proof fn lemma_kernel_flags()
    ensures
        paging::flags_valid(table::DATA_FLAGS),
        paging::flags_access(table::DATA_FLAGS),
        paging::flags_valid(table::CODE_FLAGS),
        paging::flags_access(table::CODE_FLAGS),
{
    reveal(paging::flags_valid);
    reveal(paging::flags_access);
}

/// The parts of the kernel need no fewer tables than none.
proof fn lemma_some_tables(image: Image)
    requires
        image.wf(),
    ensures
        table::tables_needed(image.parts_spec(), 4) >= 0,
{
    let parts = image.parts_spec();
    assert forall|i: int| 0 <= i < parts.len() implies (#[trigger] parts[i]).pages() >= 0 by {
        assert(parts[i].wf(image.layout()));
    }
    table::lemma_tables_needed(parts, 0, 4);
}

/// Make the kernel's page table: the parts of its image where the linker
/// expects them to be, and the first 64 gibibytes of physical memory.
pub fn kernel_table(mem: &mut PhysicalMemory, image: &Image) -> (r: PageTable)
    requires
        old(mem)@.wf(),
        image.wf(),
        enough_memory(old(mem)@, *image),
    ensures
        final(mem)@ == table_made(old(mem)@, *image),
        final(mem)@.wf(),
        r.root == old(mem)@.next(),
        paging::tree_wf(final(mem)@, r.root as int),
{
    let ghost m = mem@;
    let l = AddressLayout {
        physical_offset: 0,
        kernel_start: image.kernel_start,
        kernel_end: image.kernel_end,
    };
    let parts = image.parts();
    proof {
        lemma_some_tables(*image);
    }
    let root_pgtbl = PageTable::new(mem);
    let ghost root = root_pgtbl.root as int;
    assert(mem@.frames() == m.frames() + 1);
    table::map_parts(mem, root_pgtbl, &l, &parts);
    proof {
        table::law_parts_walk(m.grow(), root, l, parts@, 4, 0);
        lemma_kernel_flags();
    }
    table::map_gibs(
        mem,
        root_pgtbl,
        0,
        ACTUAL_PHYSICAL_OFFSET,
        PageTableFlags { bits: table::DATA_FLAGS },
        64,
    );
    root_pgtbl
}

/// Whether paging can be turned on in one of the regions: none of them goes beyond
/// the last address, and the first one that holds the kernel has enough memory.
pub open spec fn can_page(
    regions: Seq<MemoryRegion>,
    image: Image,
    fdt_ptr: u64,
    fdt_size: u64,
) -> bool {
    &&& forall|i: int|
        0 <= i < regions.len() ==> (#[trigger] regions[i]).start + regions[i].size <= u64::MAX
    &&& fdt_ptr + fdt_size + 4095 <= u64::MAX
    &&& region_of(regions, image.kernel_start, image.kernel_end, 0) matches Some(region)
        && usable(region, free_start(fdt_ptr, fdt_size, image.kernel_end), image)
}

/// What paging is turned on with: memory that is what is left of the region that
/// holds the kernel, with the kernel's page table in it.
pub open spec fn paging_made(
    regions: Seq<MemoryRegion>,
    image: Image,
    fdt_ptr: u64,
    fdt_size: u64,
    r: Paging,
) -> bool {
    &&& exists|mem: Mem|
        fresh_memory(
            region_of(regions, image.kernel_start, image.kernel_end, 0)->0,
            free_start(fdt_ptr, fdt_size, image.kernel_end),
            mem,
        ) && r.mem@ == #[trigger] table_made(mem, image) && r.table.root == mem.next()
    &&& r.mem@.wf()
    &&& paging::tree_wf(r.mem@, r.table.root as int)
    &&& paging::unshared(r.mem@, r.table.root as int)
    &&& paging::translate(r.mem@, r.table.root as int, TRAMPOLINE_PAGE) is None
    &&& r.satp@ == 0x8000_0000_0000_0000 + r.table.root
}

/// Find the memory that the kernel can use among the regions, and make its page
/// table there.
pub fn make_paging(
    regions: &Vec<MemoryRegion>,
    image: &Image,
    fdt_ptr: u64,
    fdt_size: u64,
) -> (r: Paging)
    requires
        image.wf(),
        can_page(regions@, *image, fdt_ptr, fdt_size),
    ensures
        paging_made(regions@, *image, fdt_ptr, fdt_size, r),
{
    let region = match find_region(regions, image.kernel_start, image.kernel_end) {
        Some(region) => region,
        None => MemoryRegion { start: 0, size: 1 },
    };
    let size: u64 = floor_pow2(region.size);
    let start: u64 = pma_start(fdt_ptr, fdt_size, image.kernel_end);
    let first: u64 = start / 4096;
    proof {
        lemma_some_tables(*image);
    }
    let limit: u64 = (region.start + size) / 4096 - first;
    let mut mem = PhysicalMemory::new(first, limit);
    let ghost m = mem@;
    proof {
        assert(fresh_in(region.start + size, start as int, m));
        assert(fresh_memory(region, start as int, m));
        law_trampoline_is_unmapped(m, *image);
    }
    let root_pgtbl = kernel_table(&mut mem, image);
    let ppn = root_pgtbl.as_physical().ppn();
    let satp = Satp { asid: 0, ppn }.encode();
    Paging { mem, table: root_pgtbl, satp }
}

/// Whether one of the kinds that a serial port is compatible with is the supported
/// one.
pub open spec fn uart_supported(compatible: Option<Seq<Seq<u8>>>) -> bool {
    compatible matches Some(names) && exists|i: int|
        0 <= i < names.len() && #[trigger] names[i] == harts::ns16550a()
}

/// Whether a machine can boot on the device tree `data`: the tree can be read,
/// output goes to a serial port that is supported, and paging can be turned on in
/// one of the regions of memory.
pub open spec fn can_boot(data: Seq<u8>, image: Image, fdt_ptr: u64) -> bool {
    &&& tree::tree_wf(data)
    &&& devicetree::fdt_stdout_address(data) is Some
    &&& uart_supported(devicetree::fdt_stdout_compatible(data))
    &&& devicetree::sized(devicetree::fdt_regions(data))
    &&& can_page(
        devicetree::regions_of(devicetree::fdt_regions(data)),
        image,
        fdt_ptr,
        data.len() as u64,
    )
}

/// What early boot leaves: paging, and where the serial port is.
pub struct EarlyBoot {
    pub paging: Paging,
    pub uart: u64,
}

/// Read the device tree `data`, which is at `fdt_ptr`: find the serial port and the
/// memory that the kernel can use, and make the kernel's page table there.
pub fn early_boot(data: &[u8], image: &Image, fdt_ptr: u64) -> (r: EarlyBoot)
    requires
        image.wf(),
        can_boot(data@, *image, fdt_ptr),
    ensures
        paging_made(
            devicetree::regions_of(devicetree::fdt_regions(data@)),
            *image,
            fdt_ptr,
            data@.len() as u64,
            r.paging,
        ),
        Some(r.uart) == devicetree::fdt_stdout_address(data@),
{
    let uart: u64 = match devicetree::stdout_address(data) {
        Some(uart) => uart,
        None => 0,
    };
    let regions = match devicetree::read_regions(data) {
        Some(regions) => regions,
        None => Vec::new(),
    };
    let paging = make_paging(&regions, image, fdt_ptr, data.len() as u64);
    EarlyBoot { paging, uart }
}

/// Boot early on the device tree `data`, if a machine can boot on it.
pub fn try_early_boot(data: &[u8], image: &Image, fdt_ptr: u64) -> (r: Option<EarlyBoot>)
    requires
        image.wf(),
    ensures
        r is Some <==> can_boot(data@, *image, fdt_ptr),
        r matches Some(boot) ==> {
            &&& paging_made(
                devicetree::regions_of(devicetree::fdt_regions(data@)),
                *image,
                fdt_ptr,
                data@.len() as u64,
                boot.paging,
            )
            &&& Some(boot.uart) == devicetree::fdt_stdout_address(data@)
        },
{
    if !tree::check_tree(data) || devicetree::stdout_address(data).is_none() {
        return None;
    }
    let supported: bool = match devicetree::stdout_compatible(data) {
        Some(names) => {
            proof {
                let all = devicetree::bytes_of(Some(names))->0;
                assert(forall|i: int|
                    0 <= i < names@.len() ==> #[trigger] all[i] == names@[i]@);
                assert(forall|i: int|
                    0 <= i < names@.len() ==> #[trigger] names@[i]@ == all[i]);
            }
            harts::is_supported_uart(&names)
        },
        None => false,
    };
    if !supported {
        return None;
    }
    match devicetree::read_regions(data) {
        Some(regions) => {
            if !is_pageable(&regions, image, fdt_ptr, data.len() as u64) {
                return None;
            }
        },
        None => {
            return None;
        },
    }
    Some(early_boot(data, image, fdt_ptr))
}

/// Whether paging can be turned on in one of the regions.
fn is_pageable(regions: &Vec<MemoryRegion>, image: &Image, fdt_ptr: u64, fdt_size: u64) -> (r: bool)
    requires
        image.wf(),
        forall|i: int|
            0 <= i < regions@.len() ==> (#[trigger] regions@[i]).start + regions@[i].size
                <= u64::MAX,
    ensures
        r == can_page(regions@, *image, fdt_ptr, fdt_size),
{
    if fdt_ptr > u64::MAX - 4095 || fdt_size > u64::MAX - 4095 - fdt_ptr {
        return false;
    }
    let region = match find_region(regions, image.kernel_start, image.kernel_end) {
        Some(region) => region,
        None => {
            return false;
        },
    };
    if region.size == 0 || region.size > DIRECT_MAP_SIZE || region.start > DIRECT_MAP_SIZE
        - region.size {
        return false;
    }
    let size: u64 = floor_pow2(region.size);
    let start: u64 = pma_start(fdt_ptr, fdt_size, image.kernel_end);
    let first: u64 = start / 4096;
    let end: u64 = (region.start + size) / 4096;
    let tables: u64 = image_tables(image);
    proof {
        assert forall|other: u64|
            #[trigger] elf::power_of_two(other as int) && other <= region.size < 2
                * other implies other == size by {
            lemma_one_floor(region.size, size, other);
        }
    }
    first <= end && end - first >= 1 + tables
}

/// How many tables the kernel needs, besides the root.
fn image_tables(image: &Image) -> (r: u64)
    requires
        image.wf(),
    ensures
        r == table::tables_needed(image.parts_spec(), 4),
        r <= 0x800_0000,
{
    let parts = image.parts();
    let l = AddressLayout {
        physical_offset: 0,
        kernel_start: image.kernel_start,
        kernel_end: image.kernel_end,
    };
    table::count_tables(&parts, &l)
}

/// There is one largest power of two that is not above a size.
proof fn lemma_one_floor(size: u64, a: u64, b: u64)
    requires
        elf::power_of_two(a as int),
        elf::power_of_two(b as int),
        a <= size < 2 * a,
        b <= size < 2 * b,
    ensures
        a == b,
{
    let i = choose|i: nat| i < 64 && a == #[trigger] vstd::arithmetic::power2::pow2(i);
    let j = choose|j: nat| j < 64 && b == #[trigger] vstd::arithmetic::power2::pow2(j);
    vstd::arithmetic::power2::lemma_pow2_unfold(i + 1);
    vstd::arithmetic::power2::lemma_pow2_unfold(j + 1);
    if i < j {
        if i + 1 < j {
            vstd::arithmetic::power2::lemma_pow2_strictly_increases(i + 1, j);
        }
    } else if j < i {
        if j + 1 < i {
            vstd::arithmetic::power2::lemma_pow2_strictly_increases(j + 1, i);
        }
    }
}

/// Whether what is left of a region, cut down to a power of two, is
/// direct-mapped and large enough for the kernel's page table.
pub open spec fn usable(region: MemoryRegion, free: int, image: Image) -> bool {
    &&& region.size > 0
    &&& region.start + region.size <= DIRECT_MAP_SIZE
    &&& forall|size: u64|
        #[trigger] elf::power_of_two(size as int) && size <= region.size < 2 * size ==> (
        region.start + size) / 4096 - free / 4096 >= 1 + table::tables_needed(
            image.parts_spec(),
            4,
        )
}

/// The registers with which a hart goes on once paging is on.
#[derive(Copy, Clone, Debug, PartialEq, Eq, Structural)]
pub struct Handover {
    /// The trap vector: turning on paging traps there.
    pub stvec: u64,
    pub sp: u64,
    pub gp: u64,
    pub satp: u64,
    /// The first argument: where the device tree is.
    pub a0: u64,
}


/// Where the boot hart goes on: in the kernel's address space, on the same
/// stack, with the device tree where physical memory is mapped now.
pub fn hand_over(
    l: &AddressLayout,
    kmain: u64,
    tmp_stack_end: u64,
    gp: u64,
    fdt_ptr: u64,
    satp: RawSatp,
) -> (r: Handover)
    requires
        mappings::standard_layout(*l),
        Kernel::pspace(*l).has(kmain),
        Kernel::pspace(*l).has(tmp_stack_end),
        Kernel::pspace(*l).has(gp),
        DirectMapped::pspace(*l).has(fdt_ptr),
    ensures
        r == (Handover {
            stvec: (kmain - mappings::KERNEL_PHYS_OFFSET + mappings::KERNEL_OFFSET) as u64,
            sp: (tmp_stack_end - mappings::KERNEL_PHYS_OFFSET + mappings::KERNEL_OFFSET) as u64,
            gp: (gp - mappings::KERNEL_PHYS_OFFSET + mappings::KERNEL_OFFSET) as u64,
            satp: satp@,
            a0: (fdt_ptr + ACTUAL_PHYSICAL_OFFSET) as u64,
        }),
{
    let after = AddressLayout { physical_offset: ACTUAL_PHYSICAL_OFFSET, ..*l };
    proof {
        mappings::law_kernel_map_inverts(after, kmain);
        mappings::law_kernel_map_inverts(after, tmp_stack_end);
        mappings::law_kernel_map_inverts(after, gp);
        mappings::law_direct_map_inverts(after, fdt_ptr);
    }
    let kmain: PhysicalConst<u8, Kernel> = Physical::from_usize_unchecked(kmain);
    let stack: PhysicalMut<u8, Kernel> = Physical::from_usize_unchecked(tmp_stack_end);
    let global: PhysicalMut<u8, Kernel> = Physical::from_usize_unchecked(gp);
    let fdt: PhysicalConst<u8, DirectMapped> = Physical::from_usize_unchecked(fdt_ptr);
    Handover {
        stvec: kmain.into_virt(&after).into_usize(),
        sp: stack.into_virt(&after).into_usize(),
        gp: global.into_virt(&after).into_usize(),
        satp: satp.as_usize(),
        a0: fdt.into_virt(&after).into_usize(),
    }
}

/// What the boot hart leaves for another hart to start with.
pub struct HartBootData {
    pub raw_satp: RawSatp,
    pub sp_phys: PhysicalMut<u8, DirectMapped>,
    pub fdt_ptr_virt: VirtualConst<u8, DirectMapped>,
}

/// Where another hart goes on: on the stack that the boot hart gave it, in the
/// same address space.
pub fn early_boot_hart(l: &AddressLayout, data: &HartBootData, kmain_hart: u64, gp: u64) -> (r:
    Handover)
    requires
        mappings::standard_layout(*l),
        l.physical_offset == ACTUAL_PHYSICAL_OFFSET,
        Kernel::pspace(*l).has(kmain_hart),
        Kernel::pspace(*l).has(gp),
        DirectMapped::pspace(*l).has(data.sp_phys@),
    ensures
        r == (Handover {
            stvec: (kmain_hart - mappings::KERNEL_PHYS_OFFSET + mappings::KERNEL_OFFSET) as u64,
            sp: (data.sp_phys@ + ACTUAL_PHYSICAL_OFFSET) as u64,
            gp: (gp - mappings::KERNEL_PHYS_OFFSET + mappings::KERNEL_OFFSET) as u64,
            satp: data.raw_satp@,
            a0: data.fdt_ptr_virt@,
        }),
{
    proof {
        mappings::law_kernel_map_inverts(*l, kmain_hart);
        mappings::law_kernel_map_inverts(*l, gp);
        mappings::law_direct_map_inverts(*l, data.sp_phys@);
    }
    let kmain_hart: PhysicalConst<u8, Kernel> = Physical::from_usize_unchecked(kmain_hart);
    let global: PhysicalMut<u8, Kernel> = Physical::from_usize_unchecked(gp);
    Handover {
        stvec: kmain_hart.into_virt(l).into_usize(),
        sp: data.sp_phys.into_virt(l).into_usize(),
        gp: global.into_virt(l).into_usize(),
        satp: data.raw_satp.as_usize(),
        a0: data.fdt_ptr_virt.into_usize(),
    }
}

/// Every page of the parts of the kernel is found once they are mapped.
#[verifier::spinoff_prover]
#[verifier::rlimit(60)]
proof fn lemma_part_is_found(mem: Mem, image: Image, k: int, i: int)
    requires
        mem.wf(),
        image.wf(),
        table::parts_mappable(mem.grow(), mem.next(), image.layout(), image.parts_spec()),
        0 <= k < 4,
        0 <= i < image.parts_spec()[k].pages(),
    ensures
        ({
            let part = image.parts_spec()[k];
            paging::walk_spec(
                table::parts_mapped(mem.grow(), mem.next(), image.parts_spec(), 4),
                mem.next(),
                runs::nth(part.virt(), i),
            ) == Some(((part.start + 4096 * i) as u64, part.flags.bits))
        }),
{
    let parts = image.parts_spec();
    let part = parts[k];
    let va = runs::nth(part.virt(), i);
    assert(part.wf(image.layout()));
    table::lemma_part_pages(image.layout(), part, i);
    assert(va % 4096 == 0);
    table::law_parts_walk(mem.grow(), mem.next(), image.layout(), parts, 4, va);
}

/// To map physical memory leaves the parts of the kernel where they are.
#[verifier::spinoff_prover]
#[verifier::rlimit(60)]
proof fn lemma_part_stays(mem: Mem, image: Image, k: int, i: int)
    requires
        image.wf(),
        table::gibs_mappable(
            table::parts_mapped(mem.grow(), mem.next(), image.parts_spec(), 4),
            mem.next(),
            0,
            ACTUAL_PHYSICAL_OFFSET,
            table::DATA_FLAGS,
            64,
        ),
        0 <= k < 4,
        0 <= i < image.parts_spec()[k].pages(),
    ensures
        ({
            let va = runs::nth(image.parts_spec()[k].virt(), i);
            paging::translate(table_made(mem, image), mem.next(), va) == paging::translate(
                table::parts_mapped(mem.grow(), mem.next(), image.parts_spec(), 4),
                mem.next(),
                va,
            )
        }),
{
    let part = image.parts_spec()[k];
    assert(part.wf(image.layout()));
    table::lemma_part_pages(image.layout(), part, i);
    lemma_windows(part.start + 4096 * i, 0);
    table::law_gibs_translate(
        table::parts_mapped(mem.grow(), mem.next(), image.parts_spec(), 4),
        mem.next(),
        0,
        ACTUAL_PHYSICAL_OFFSET,
        table::DATA_FLAGS,
        64,
        runs::nth(part.virt(), i),
    );
}

/// Once the kernel's page table is made, every page of its parts is found
/// where the linker expects it to be.
pub proof fn law_kernel_is_mapped(mem: Mem, image: Image, k: int, i: int)
    requires
        mem.wf(),
        image.wf(),
        enough_memory(mem, image),
        0 <= k < 4,
        0 <= i < image.parts_spec()[k].pages(),
    ensures
        ({
            let part = image.parts_spec()[k];
            paging::walk_spec(
                table_made(mem, image),
                mem.next(),
                runs::nth(part.virt(), i),
            ) == Some(((part.start + 4096 * i) as u64, part.flags.bits))
        }),
{
    lemma_parts_made(mem, image);
    lemma_part_is_found(mem, image, k, i);
    lemma_part_stays(mem, image, k, i);
}

/// Once the kernel's page table is made, every address of the first 64
/// gibibytes of physical memory is found as far behind where direct-mapped
/// memory begins.
pub proof fn law_memory_is_mapped(mem: Mem, image: Image, paddr: u64)
    requires
        mem.wf(),
        image.wf(),
        enough_memory(mem, image),
        paddr < DIRECT_MAP_SIZE,
    ensures
        paging::walk_spec(
            table_made(mem, image),
            mem.next(),
            (ACTUAL_PHYSICAL_OFFSET + paddr) as u64,
        ) == Some((paddr, table::DATA_FLAGS)),
{
    let root = mem.next();
    let before = table::parts_mapped(mem.grow(), root, image.parts_spec(), 4);
    lemma_parts_made(mem, image);
    lemma_windows(mappings::KERNEL_PHYS_OFFSET as int, paddr);
    table::law_gibs_translate(
        before,
        root,
        0,
        ACTUAL_PHYSICAL_OFFSET,
        table::DATA_FLAGS,
        64,
        (ACTUAL_PHYSICAL_OFFSET + paddr) as u64,
    );
    let g = (paddr / table::GIB * table::GIB) as u64;
    paging::law_entry_round_trip((g as int / 4096) % 0x1000_0000_0000, table::DATA_FLAGS);
}

/// The kernel's page table leaves room for the trampoline: nothing is mapped where
/// it goes.
pub proof fn law_trampoline_is_unmapped(mem: Mem, image: Image)
    requires
        mem.wf(),
        image.wf(),
        enough_memory(mem, image),
    ensures
        paging::translate(table_made(mem, image), mem.next(), TRAMPOLINE_PAGE) is None,
        paging::unshared(table_made(mem, image), mem.next()),
{
    let root = mem.next();
    let parts = image.parts_spec();
    let before = table::parts_mapped(mem.grow(), root, parts, 4);
    lemma_parts_made(mem, image);
    assert(virt::vpn(TRAMPOLINE_PAGE, 2) == 511);
    assert(virt::vpn(ACTUAL_PHYSICAL_OFFSET, 2) == 256);
    table::law_gibs_translate(
        before,
        root,
        0,
        ACTUAL_PHYSICAL_OFFSET,
        table::DATA_FLAGS,
        64,
        TRAMPOLINE_PAGE,
    );
    table::law_parts_walk(mem.grow(), root, image.layout(), parts, 4, TRAMPOLINE_PAGE);
    assert forall|k: int, i: int| 0 <= k < 4 && 0 <= i < parts[k].pages() implies runs::page(
        TRAMPOLINE_PAGE,
    ) != runs::page(#[trigger] runs::nth((#[trigger] parts[k]).virt(), i)) by {
        assert(parts[k].wf(image.layout()));
        table::lemma_part_pages(image.layout(), parts[k], i);
        reveal(runs::page);
    }
}

/// Once the parts of the kernel are mapped, physical memory can be.
proof fn lemma_parts_made(mem: Mem, image: Image)
    requires
        mem.wf(),
        image.wf(),
        enough_memory(mem, image),
    ensures
        table::parts_mappable(mem.grow(), mem.next(), image.layout(), image.parts_spec()),
        table::gibs_mappable(
            table::parts_mapped(mem.grow(), mem.next(), image.parts_spec(), 4),
            mem.next(),
            0,
            ACTUAL_PHYSICAL_OFFSET,
            table::DATA_FLAGS,
            64,
        ),
        paging::flags_valid(table::DATA_FLAGS),
        paging::flags_access(table::DATA_FLAGS),
{
    lemma_some_tables(image);
    lemma_new_table(mem);
    lemma_kernel_flags();
    table::law_parts_walk(mem.grow(), mem.next(), image.layout(), image.parts_spec(), 4, 0);
}

/// The windows of the kernel and of physical memory are apart.
proof fn lemma_windows(pa: int, paddr: u64)
    requires
        mappings::KERNEL_PHYS_OFFSET <= pa < mappings::KERNEL_PHYS_OFFSET + DIRECT_MAP_SIZE,
        paddr < DIRECT_MAP_SIZE,
    ensures
        virt::vpn(ACTUAL_PHYSICAL_OFFSET, 2) == 256,
        virt::vpn((pa - mappings::KERNEL_PHYS_OFFSET + mappings::KERNEL_OFFSET) as u64, 2) >= 320,
        virt::vpn((ACTUAL_PHYSICAL_OFFSET + paddr) as u64, 2) == 256 + paddr / table::GIB,
{
}

/// A table that has just been made maps nothing.
proof fn lemma_new_table(mem: Mem)
    requires
        mem.wf(),
        mem.available() > 0,
    ensures
        mem.grow().wf(),
        mem.grow().available() == mem.available() - 1,
        paging::tree_wf(mem.grow(), mem.next()),
        paging::unshared(mem.grow(), mem.next()),
        forall|va: u64| #[trigger] paging::translate(mem.grow(), mem.next(), va) is None,
{
    let root = mem.next();
    let after = mem.grow();
    assert(after.frames() == mem.frames() + 1);
    reveal(paging::entry_flags);
    reveal(paging::flags_valid);
    assert forall|i: int| 0 <= i < 512 implies #[trigger] paging::e2(after, root, i) == 0 by {}
}

/// The region of memory that is found is the first that the kernel lies in as a whole; none is
/// found only where there is no such region.
pub proof fn law_region_holds_the_kernel(
    regions: Seq<MemoryRegion>,
    kernel_start: u64,
    kernel_end: u64,
    i: int,
)
    requires
        0 <= i <= regions.len(),
    ensures
        match region_of(regions, kernel_start, kernel_end, i) {
            Some(region) => region.start <= kernel_start && kernel_end <= region.start
                + region.size && exists|k: int|
                i <= k < regions.len() && (#[trigger] regions[k]) == region && forall|j: int|
                    i <= j < k ==> !((#[trigger] regions[j]).start <= kernel_start && kernel_end
                        <= regions[j].start + regions[j].size),
            None => forall|k: int|
                i <= k < regions.len() ==> !((#[trigger] regions[k]).start <= kernel_start
                    && kernel_end <= regions[k].start + regions[k].size),
        },
    decreases regions.len() - i,
{
    if i < regions.len() && !regions[i].holds(kernel_start, kernel_end) {
        law_region_holds_the_kernel(regions, kernel_start, kernel_end, i + 1);
        if let Some(region) = region_of(regions, kernel_start, kernel_end, i) {
            let k = choose|k: int|
                i + 1 <= k < regions.len() && (#[trigger] regions[k]) == region && forall|j: int|
                    i + 1 <= j < k ==> !((#[trigger] regions[j]).start <= kernel_start
                        && kernel_end <= regions[j].start + regions[j].size);
            assert(regions[k] == region);
        }
    } else if i < regions.len() {
        assert(regions[i] == regions[i]);
    }
}

/// Memory is handed out from a page on that is behind the kernel, and behind the device tree
/// where that lies behind the kernel; less than a page is lost.
pub proof fn law_free_memory_is_behind(fdt_ptr: u64, fdt_size: u64, kernel_end: u64)
    ensures
        ({
            let free = free_start(fdt_ptr, fdt_size, kernel_end);
            let last = if fdt_ptr >= kernel_end {
                fdt_ptr + fdt_size
            } else {
                kernel_end as int
            };
            &&& free % 4096 == 0
            &&& last <= free < last + 4096
            &&& kernel_end <= free
        }),
{
}

/// The kernel goes on where it is mapped: its code, its stack and its data as far behind the
/// beginning of its addresses as they are behind the beginning of its memory, and the device
/// tree as far behind that of the memory that is mapped directly.
pub proof fn law_the_kernel_goes_on_where_it_is_mapped(
    l: AddressLayout,
    kmain: u64,
    stack: u64,
    gp: u64,
    fdt_ptr: u64,
    satp: RawSatp,
    r: Handover,
)
    requires
        call_ensures(hand_over, (&l, kmain, stack, gp, fdt_ptr, satp), r),
        mappings::standard_layout(l),
        Kernel::pspace(l).has(kmain),
        Kernel::pspace(l).has(stack),
        Kernel::pspace(l).has(gp),
        DirectMapped::pspace(l).has(fdt_ptr),
    ensures
        Kernel::phys_of(l, r.stvec) == Some(kmain),
        Kernel::phys_of(l, r.sp) == Some(stack),
        Kernel::phys_of(l, r.gp) == Some(gp),
        r.a0 - 0xFFFF_FFC0_0000_0000 == fdt_ptr,
        r.satp == satp@,
{
    mappings::law_kernel_map_inverts(l, kmain);
    mappings::law_kernel_map_inverts(l, stack);
    mappings::law_kernel_map_inverts(l, gp);
}

} // verus!
