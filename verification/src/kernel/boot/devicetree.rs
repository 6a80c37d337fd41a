//! The device tree that the firmware hands to the kernel.

use vstd::prelude::*;

use super::early::MemoryRegion;
use super::harts::HartInfo;
use super::tree;

verus! {

/// Why a device tree could not be loaded.
#[derive(Copy, Clone, Debug, PartialEq, Eq, Structural)]
pub enum FdtError {
    /// It does not begin with the magic number.
    BadMagic,
    /// There is none.
    BadPtr,
    /// There are fewer bytes than it says to have.
    BufferTooSmall,
}

/// The bytes of the header.
pub const FDT_HEADER_SIZE: usize = 40;

/// The number with which a device tree begins.
pub const FDT_MAGIC: u32 = 0xd00d_feed;

/// The 32-bit big-endian number at `at`.
pub open spec fn be32(b: Seq<u8>, at: int) -> int {
    0x100_0000 * b[at] + 0x1_0000 * b[at + 1] + 0x100 * b[at + 2] + b[at + 3]
}

/// The size that the header of a device tree states, if the header is valid and
/// that many bytes are there.
pub open spec fn stated_size(data: Seq<u8>) -> Result<u64, FdtError> {
    if data.len() < FDT_HEADER_SIZE {
        Err(FdtError::BufferTooSmall)
    } else if be32(data, 0) != FDT_MAGIC {
        Err(FdtError::BadMagic)
    } else if data.len() < be32(data, 4) {
        Err(FdtError::BufferTooSmall)
    } else {
        Ok(be32(data, 4) as u64)
    }
}

/// Calls `fdt::Fdt::new`, and `total_size` on what it returns. The contract
/// claims that the former reads a header of ten big-endian numbers, the first of
/// which is the magic number and the second the size of the tree, and looks at
/// nothing else; and that the latter returns that size.
#[verifier::external_body]
fn fdt_total_size(data: &[u8]) -> (r: Result<u64, FdtError>)
    ensures
        r == stated_size(data@),
{
    match fdt::Fdt::new(data) {
        Ok(tree) => Ok(tree.total_size() as u64),
        Err(fdt::FdtError::BadMagic) => Err(FdtError::BadMagic),
        Err(fdt::FdtError::BadPtr) => Err(FdtError::BadPtr),
        Err(fdt::FdtError::BufferTooSmall) => Err(FdtError::BufferTooSmall),
    }
}

/// The bytes of the device tree with which `data` begins; the error, if it does
/// not begin with one.
pub fn load_tree<'a>(data: &'a [u8]) -> (r: Result<&'a [u8], FdtError>)
    ensures
        match stated_size(data@) {
            Ok(size) => r matches Ok(tree) && tree@ == data@.take(size as int),
            Err(e) => r matches Err(f) && f == e,
        },
{
    match fdt_total_size(data) {
        Ok(size) => {
            let tree: &'a [u8] = vstd::slice::slice_subrange(data, 0, size as usize);
            assert(tree@ =~= data@.take(size as int));
            Ok(tree)
        },
        Err(e) => Err(e),
    }
}

/// What [`fdt::Fdt::memory`] and [`fdt::standard_nodes::Memory::regions`] return:
/// where each region of memory begins, and its size, if it has one.
pub uninterp spec fn fdt_regions(data: Seq<u8>) -> Seq<(u64, Option<u64>)>;

/// Calls `fdt::Fdt::memory`, and `regions` on what it returns. The contract claims
/// that they return the same for the same bytes, on every tree that can be read.
#[verifier::external_body]
fn memory_regions(data: &[u8]) -> (r: Vec<(u64, Option<u64>)>)
    requires
        tree::tree_wf(data@),
    ensures
        r@ == fdt_regions(data@),
{
    let tree = fdt::Fdt::new(data).unwrap();
    let memory = tree.memory();
    let regions = memory.regions();
    regions.map(|r| (r.starting_address as u64, r.size.map(|size| size as u64))).collect()
}

/// What [`fdt::Fdt::cpus`] returns: the number of each hart, and the frequency of
/// its time register.
pub uninterp spec fn fdt_harts(data: Seq<u8>) -> Seq<(u64, u64)>;

/// Calls `fdt::Fdt::cpus`, and on each hart that it returns `ids` with `first`, and
/// `timebase_frequency`. The contract claims that they return the same for the
/// same bytes, on every tree that can be read.
#[verifier::external_body]
fn cpus(data: &[u8]) -> (r: Vec<(u64, u64)>)
    requires
        tree::tree_wf(data@),
    ensures
        r@ == fdt_harts(data@),
{
    let tree = fdt::Fdt::new(data).unwrap();
    let cpus = tree.cpus();
    cpus.map(|cpu| (cpu.ids().first() as u64, cpu.timebase_frequency() as u64)).collect()
}

/// Where the registers of what [`fdt::standard_nodes::Chosen::stdout`] returns
/// begin, if it returns a device and the device has registers.
pub uninterp spec fn fdt_stdout_address(data: Seq<u8>) -> Option<u64>;

/// Calls `fdt::Fdt::chosen`, `stdout` on what it returns, and `reg` on the device.
/// The contract claims that they return the same for the same bytes, on every tree
/// that can be read.
#[verifier::external_body]
pub(crate) fn stdout_address(data: &[u8]) -> (r: Option<u64>)
    requires
        tree::tree_wf(data@),
    ensures
        r == fdt_stdout_address(data@),
{
    let tree = fdt::Fdt::new(data).unwrap();
    let region = tree.chosen().stdout()?.reg()?.next();
    region.map(|r| r.starting_address as u64)
}

/// The names of the kinds that what [`fdt::standard_nodes::Chosen::stdout`] returns
/// is compatible with, if it returns a device and the device says so.
pub uninterp spec fn fdt_stdout_compatible(data: Seq<u8>) -> Option<Seq<Seq<u8>>>;

/// The bytes of names.
pub open spec fn bytes_of(names: Option<Vec<Vec<u8>>>) -> Option<Seq<Seq<u8>>> {
    match names {
        Some(names) => Some(Seq::new(names@.len(), |i: int| names@[i]@)),
        None => None,
    }
}

/// Calls `fdt::Fdt::chosen`, `stdout` on what it returns, and `compatible` on the
/// device. The contract claims that they return the same for the same bytes, on
/// every tree that can be read.
#[verifier::external_body]
pub(crate) fn stdout_compatible(data: &[u8]) -> (r: Option<Vec<Vec<u8>>>)
    requires
        tree::tree_wf(data@),
    ensures
        bytes_of(r) == fdt_stdout_compatible(data@),
{
    let tree = fdt::Fdt::new(data).unwrap();
    let names = tree.chosen().stdout()?.compatible()?.all();
    Some(names.map(|name| name.as_bytes().to_vec()).collect())
}

/// The first interrupt of what [`fdt::standard_nodes::Chosen::stdout`] returns, if
/// it returns a device and the device has interrupts.
pub uninterp spec fn fdt_stdout_interrupt(data: Seq<u8>) -> Option<u64>;

/// Calls `fdt::Fdt::chosen`, `stdout` on what it returns, and `interrupts` on the
/// device. The contract claims that they return the same for the same bytes, on
/// every tree that can be read.
#[verifier::external_body]
pub(crate) fn stdout_interrupt(data: &[u8]) -> (r: Option<u64>)
    requires
        tree::tree_wf(data@),
    ensures
        r == fdt_stdout_interrupt(data@),
{
    let tree = fdt::Fdt::new(data).unwrap();
    let interrupt = tree.chosen().stdout()?.interrupts()?.next();
    interrupt.map(|number| number as u64)
}

/// Where the registers of what [`fdt::Fdt::find_compatible`] returns for a name
/// begin, if it returns a device and the device has registers.
pub uninterp spec fn fdt_compatible_address(data: Seq<u8>, name: Seq<char>) -> Option<u64>;

/// Calls `fdt::Fdt::find_compatible`, and `reg` on the device that it returns. The
/// contract claims that they return the same for the same bytes and the same name,
/// on every tree that can be read.
#[verifier::external_body]
pub(crate) fn compatible_address(data: &[u8], name: &str) -> (r: Option<u64>)
    requires
        tree::tree_wf(data@),
    ensures
        r == fdt_compatible_address(data@, name@),
{
    let tree = fdt::Fdt::new(data).unwrap();
    let region = tree.find_compatible(&[name])?.reg()?.next();
    region.map(|r| r.starting_address as u64)
}

/// Whether every region has a size, and ends.
pub open spec fn sized(regions: Seq<(u64, Option<u64>)>) -> bool {
    forall|i: int|
        0 <= i < regions.len() ==> ((#[trigger] regions[i]).1 matches Some(size) && regions[i].0
            + size <= u64::MAX)
}

/// The regions of memory that have a size.
pub open spec fn regions_of(regions: Seq<(u64, Option<u64>)>) -> Seq<MemoryRegion> {
    Seq::new(
        regions.len(),
        |i: int| MemoryRegion { start: regions[i].0, size: regions[i].1->0 },
    )
}

/// The harts.
pub open spec fn harts_of(harts: Seq<(u64, u64)>) -> Seq<HartInfo> {
    Seq::new(
        harts.len(),
        |i: int| HartInfo { id: harts[i].0, timebase_frequency: harts[i].1 },
    )
}

/// Turn what a tree says of regions of memory into regions; nothing, if one has no
/// size or does not end.
pub fn to_regions(regions: &Vec<(u64, Option<u64>)>) -> (r: Option<Vec<MemoryRegion>>)
    ensures
        r is Some <==> sized(regions@),
        r matches Some(v) ==> v@ == regions_of(regions@),
{
    let mut v: Vec<MemoryRegion> = Vec::new();
    let mut i: usize = 0;
    while i < regions.len()
        invariant
            i <= regions@.len(),
            v@.len() == i,
            forall|j: int|
                0 <= j < i ==> ((#[trigger] regions@[j]).1 matches Some(size) && regions@[j].0
                    + size <= u64::MAX),
            forall|j: int| 0 <= j < i ==> #[trigger] v@[j] == regions_of(regions@)[j],
        decreases regions@.len() - i,
    {
        let (start, size) = regions[i];
        match size {
            Some(size) => {
                if size > u64::MAX - start {
                    assert(!sized(regions@)) by {
                        assert(regions@[i as int].1 == Some(size));
                    }
                    return None;
                }
                v.push(MemoryRegion { start, size });
            },
            None => {
                assert(regions@[i as int].1 is None);
                return None;
            },
        }
        i += 1;
    }
    assert(v@ =~= regions_of(regions@));
    Some(v)
}

/// Turn what a tree says of harts into harts.
pub fn to_harts(harts: &Vec<(u64, u64)>) -> (r: Vec<HartInfo>)
    ensures
        r@ == harts_of(harts@),
{
    let mut v: Vec<HartInfo> = Vec::new();
    let mut i: usize = 0;
    while i < harts.len()
        invariant
            i <= harts@.len(),
            v@ == harts_of(harts@).take(i as int),
        decreases harts@.len() - i,
    {
        let (id, timebase_frequency) = harts[i];
        v.push(HartInfo { id, timebase_frequency });
        i += 1;
        assert(v@ =~= harts_of(harts@).take(i as int));
    }
    assert(v@ =~= harts_of(harts@));
    v
}

/// The regions of memory of a tree; nothing, if one has no size or does not end.
pub fn read_regions(data: &[u8]) -> (r: Option<Vec<MemoryRegion>>)
    requires
        tree::tree_wf(data@),
    ensures
        r is Some <==> sized(fdt_regions(data@)),
        r matches Some(v) ==> v@ == regions_of(fdt_regions(data@)),
{
    let regions = memory_regions(data);
    to_regions(&regions)
}

/// The harts of a tree.
pub fn read_harts(data: &[u8]) -> (r: Vec<HartInfo>)
    requires
        tree::tree_wf(data@),
    ensures
        r@ == harts_of(fdt_harts(data@)),
{
    let harts = cpus(data);
    to_harts(&harts)
}

/// The numbers of a device tree are big-endian: each byte is worth 256 times as much as the
/// one behind it.
pub proof fn law_numbers_are_big_endian(b: Seq<u8>, at: int)
    ensures
        be32(b, at) / 0x100_0000 == b[at],
        (be32(b, at) / 0x1_0000) % 256 == b[at + 1],
        (be32(b, at) / 0x100) % 256 == b[at + 2],
        be32(b, at) % 256 == b[at + 3],
        0 <= be32(b, at) < 0x1_0000_0000,
{
}

/// A device tree begins with the bytes d0 0d fe ed, and its size is stated behind them; it is
/// there as a whole where a size is given.
pub proof fn law_device_trees_state_their_size(data: Seq<u8>)
    ensures
        stated_size(data) matches Ok(size) ==> {
            &&& data[0] == 0xd0 && data[1] == 0x0d && data[2] == 0xfe && data[3] == 0xed
            &&& size <= data.len()
            &&& size == 0x100_0000 * data[4] + 0x1_0000 * data[5] + 0x100 * data[6] + data[7]
        },
        data.len() >= 40 && !(data[0] == 0xd0 && data[1] == 0x0d && data[2] == 0xfe && data[3]
            == 0xed) ==> stated_size(data) == Err::<u64, FdtError>(FdtError::BadMagic),
        data.len() < 40 ==> stated_size(data) == Err::<u64, FdtError>(FdtError::BufferTooSmall),
{
    law_numbers_are_big_endian(data, 0);
}

} // verus!
