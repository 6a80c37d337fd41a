//! A linked list allocator.
//!
//! - Every node has a size tag, with some padding before the data. A node's
//!   size does not count the tag.
//! - What the tags say, and the padding of the nodes that are in use, is kept in
//!   two lists beside the heap, not in its memory. The room that they take there
//!   is left: a tag in front of every node, and a word in front of the data.
//! - Nodes are chosen by first fit.
//! - Freed nodes are kept in address order. Freeing a node coalesces it, first
//!   forward, then backward.
//! - If the space that is wasted at the end of a node is above a threshold, the
//!   node is split, and the latter part stays in the free list.

use vstd::prelude::*;

use super::growth;
use super::phys;
use super::phys::what_order;
use crate::kernel::boot::runs;
use crate::kernel::paging;
use crate::kernel::paging::PageTable;
use crate::kernel::physmem::{Mem, PhysicalMemory};

verus! {

/// The size of a tag.
pub const TAG_SIZE: u64 = 8;

/// The least size of a node: a free node holds two links.
pub const MIN_NODE_SIZE: u64 = 16;

/// A node is split if more than this many bytes are wasted at its end.
pub const BLOCK_SPLIT_THRESHOLD: u64 = 64;

/// The size and the alignment of an allocation.
#[derive(Copy, Clone, Debug, PartialEq, Eq, Structural)]
pub struct Layout {
    pub size: u64,
    pub align: u64,
}

impl Layout {
    /// The alignment is a power of two, and the size does not overflow when it
    /// is rounded up to it.
    pub open spec fn wf(self) -> bool {
        &&& exists|n: nat| self.align == #[trigger] vstd::arithmetic::power2::pow2(n)
        &&& self.size + self.align <= 0x8000_0000_0000_0000
    }
}

/// A node of the free list.
#[derive(Copy, Clone, Debug, PartialEq, Eq, Structural)]
pub struct FreeNode {
    /// Where the node's tag is.
    pub addr: u64,
    /// The node's size.
    pub size: u64,
}

impl FreeNode {
    /// The address behind the node.
    pub open spec fn end(self) -> int {
        self.addr + 8 + self.size
    }
}

/// A node that is in use.
#[derive(Copy, Clone, Debug, PartialEq, Eq, Structural)]
pub struct UsedNode {
    /// Where the node's tag is.
    pub addr: u64,
    /// The node's size.
    pub size: u64,
    /// The number of bytes between the tag and the data.
    pub padding: u64,
}

impl UsedNode {
    /// The address behind the node.
    pub open spec fn end(self) -> int {
        self.addr + 8 + self.size
    }

    /// Where the data is.
    pub open spec fn data(self) -> int {
        self.addr + 8 + self.padding
    }
}

/// The least number that has to be added to `addr` to make it a multiple of
/// `align`.
pub open spec fn align_offset(addr: int, align: int) -> int {
    (align - addr % align) % align
}

/// The padding of an allocation in a node whose tag ends at `node_base`: up to
/// the next aligned address, but at least one word.
#[verifier::opaque]
pub open spec fn padding_of(node_base: int, layout: Layout) -> int {
    let offset = align_offset(node_base, layout.align as int);
    if offset == 0 {
        if layout.align < 8 {
            8
        } else {
            layout.align as int
        }
    } else {
        offset
    }
}

/// The size that a node whose tag ends at `node_base` needs to have for an
/// allocation.
#[verifier::opaque]
pub open spec fn needed_size(node_base: int, layout: Layout) -> int {
    let extra = if layout.size < 16 {
        16 - layout.size
    } else {
        0
    };
    let padding = padding_of(node_base, layout);
    layout.size + if padding < extra {
        extra
    } else {
        padding
    }
}

/// The state of the allocator.
#[verifier::ext_equal]
pub struct Heap {
    /// Whether the allocator has been given memory.
    pub init: bool,
    pub base: int,
    pub mapped: int,
    pub unmanaged: int,
    pub free: Seq<FreeNode>,
    pub used: Seq<UsedNode>,
}

/// Whether no two nodes of the free list could be one.
pub open spec fn coalesced(free: Seq<FreeNode>) -> bool {
    forall|i: int, j: int|
        0 <= i < j < free.len() ==> !touches(#[trigger] free[i], #[trigger] free[j])
}

/// Whether two stretches of memory do not meet.
pub open spec fn apart(a: int, a_end: int, b: int, b_end: int) -> bool {
    a_end <= b || b_end <= a
}

impl Heap {
    /// Whether a node lies in the managed part of the heap.
    pub open spec fn holds(self, addr: int, size: int) -> bool {
        &&& self.base <= addr
        &&& addr % 8 == 0
        &&& 16 <= size
        &&& addr + 8 + size <= self.unmanaged
    }

    /// The nodes of the heap are in order, and no two of the free list could be one.
    pub open spec fn wf(self) -> bool {
        self.nodes_wf() && coalesced(self.free)
    }

    /// The nodes lie in the managed part of the heap, which is mapped, no two of
    /// them meet, and the free list is in address order. The data of a node that is
    /// in use lies in the node. A heap that has been given no memory has no nodes.
    pub open spec fn nodes_wf(self) -> bool {
        &&& self.base % 4096 == 0
        &&& self.mapped % 4096 == 0
        &&& self.unmanaged <= self.base + self.mapped <= u64::MAX
        &&& !self.init ==> self.free.len() == 0 && self.used.len() == 0
        &&& 0 <= self.base <= self.unmanaged <= u64::MAX
        &&& self.unmanaged % 8 == 0
        &&& forall|i: int|
            0 <= i < self.free.len() ==> self.holds(
                (#[trigger] self.free[i]).addr as int,
                self.free[i].size as int,
            )
        &&& forall|i: int|
            0 <= i < self.used.len() ==> self.holds(
                (#[trigger] self.used[i]).addr as int,
                self.used[i].size as int,
            ) && self.used[i].data() <= self.used[i].end()
        &&& forall|i: int, j: int|
            0 <= i < j < self.free.len() ==> (#[trigger] self.free[i]).end() <= (
            #[trigger] self.free[j]).addr
        &&& forall|i: int, j: int|
            0 <= i < j < self.used.len() ==> apart(
                (#[trigger] self.used[i]).addr as int,
                self.used[i].end(),
                (#[trigger] self.used[j]).addr as int,
                self.used[j].end(),
            )
        &&& forall|i: int, j: int|
            0 <= i < self.free.len() && 0 <= j < self.used.len() ==> apart(
                (#[trigger] self.free[i]).addr as int,
                self.free[i].end(),
                (#[trigger] self.used[j]).addr as int,
                self.used[j].end(),
            )
    }

    /// Whether the node `i` of the free list is large enough.
    pub open spec fn fits(self, layout: Layout, i: int) -> bool {
        self.free[i].size >= needed_size(self.free[i].addr + 8, layout)
    }

    /// Whether `i` is the first node of the free list that is large enough, or
    /// the length of the list if none is.
    pub open spec fn first_fit(self, layout: Layout, i: int) -> bool {
        &&& 0 <= i <= self.free.len()
        &&& forall|k: int| 0 <= k < i ==> !(#[trigger] self.fits(layout, k))
        &&& i < self.free.len() ==> self.fits(layout, i)
    }

    /// The heap once the node `i` of the free list has been taken whole.
    pub open spec fn taken(self, layout: Layout, i: int) -> Heap {
        let node = self.free[i];
        Heap {
            free: self.free.remove(i),
            used: self.used.push(
                UsedNode {
                    addr: node.addr,
                    size: node.size,
                    padding: padding_of(node.addr + 8, layout) as u64,
                },
            ),
            ..self
        }
    }

    /// The heap once the front part of the node `i` of the free list has been
    /// taken, and the rest has become a node of its own.
    pub open spec fn split(self, layout: Layout, i: int) -> Heap {
        let node = self.free[i];
        let end = node.addr + 8 + needed_size(node.addr + 8, layout);
        let next = end + align_offset(end, 8);
        Heap {
            free: self.free.update(
                i,
                FreeNode { addr: next as u64, size: (node.end() - next - 8) as u64 },
            ),
            used: self.used.push(
                UsedNode {
                    addr: node.addr,
                    size: (next - node.addr - 8) as u64,
                    padding: padding_of(node.addr + 8, layout) as u64,
                },
            ),
            ..self
        }
    }

    /// Whether the node `i` of the free list is split rather than taken whole.
    pub open spec fn splits(self, layout: Layout, i: int) -> bool {
        self.free[i].size - needed_size(self.free[i].addr + 8, layout) > BLOCK_SPLIT_THRESHOLD
    }

    /// Whether more memory has to be mapped for a new node.
    pub open spec fn grows(self, layout: Layout) -> bool {
        let node_base = self.unmanaged + 8;
        self.base + self.mapped - node_base < needed_size(node_base, layout)
    }

    /// How many bytes more have to be mapped for a new node: as many as it has,
    /// and its tag, if that does not lie in what is mapped.
    pub open spec fn growth(self, layout: Layout) -> int {
        let node_base = self.unmanaged + 8;
        needed_size(node_base, layout) + if self.base + self.mapped < node_base {
            8int
        } else {
            0
        }
    }

    /// The heap once a new node has been made at the end of its managed part,
    /// and `grown` bytes have been mapped.
    pub open spec fn extended(self, layout: Layout, grown: int) -> Heap {
        let node_base = self.unmanaged + 8;
        let end = node_base + needed_size(node_base, layout);
        Heap {
            mapped: self.mapped + grown,
            unmanaged: end + align_offset(end, 8),
            used: self.used.push(
                UsedNode {
                    addr: self.unmanaged as u64,
                    size: needed_size(node_base, layout) as u64,
                    padding: padding_of(node_base, layout) as u64,
                },
            ),
            ..self
        }
    }
}

impl Heap {
    /// Whether an allocation turns this heap into `next`: the first node of the
    /// free list that is large enough is taken or split; where there is none,
    /// the heap is extended, and more memory mapped if what is mapped does not
    /// suffice.
    pub open spec fn allocates(self, layout: Layout, next: Heap) -> bool {
        exists|i: int| #[trigger]
            self.first_fit(layout, i) && if i < self.free.len() {
                next == if self.splits(layout, i) {
                    self.split(layout, i)
                } else {
                    self.taken(layout, i)
                }
            } else if self.grows(layout) {
                exists|order: nat| #[trigger]
                    grown_by(self.growth(layout), order) && next == self.extended(
                        layout,
                        phys::order_bytes(order) as int,
                    )
            } else {
                next == self.extended(layout, 0)
            }
    }

    /// Where the heap is mapped next.
    pub open spec fn mapped_end(self) -> u64 {
        (self.base + self.mapped) as u64
    }

    /// Whether an allocation finds what it needs in a physical memory with the
    /// page table `root`: where the heap has to be extended, the addresses do not
    /// end, and where more memory has to be mapped, it can be.
    pub open spec fn allocatable(self, m: Mem, root: int, layout: Layout) -> bool {
        self.first_fit(layout, self.free.len() as int) ==> {
            &&& self.unmanaged + needed_size(self.unmanaged + 8, layout) + 16 <= u64::MAX
            &&& self.grows(layout) ==> {
                &&& self.growth(layout) <= 0x8000_0000_0000_0000
                &&& forall|order: nat| #[trigger]
                    grown_by(self.growth(layout), order) ==> growth::growable(
                        m,
                        root,
                        self.mapped_end(),
                        vstd::arithmetic::power2::pow2(order) as int,
                    )
            }
        }
    }

    /// Physical memory with the page table `root`, after an allocation has turned
    /// this heap into `next`: the frames by which the heap has grown have been
    /// handed out and mapped at its end.
    pub open spec fn grows_memory(self, m: Mem, root: int, next: Heap) -> Mem {
        let n = (next.mapped - self.mapped) / 4096;
        if n > 0 {
            growth::grown(m, root, self.mapped_end(), n)
        } else {
            m
        }
    }

    /// Whether all that counts as mapped is mapped, in a physical memory with the
    /// page table `root`.
    pub open spec fn backed(self, m: Mem, root: int) -> bool {
        growth::is_mapped(m, root, self.base, self.mapped)
    }
}

/// A linked list allocator.
pub struct LinkedListAlloc {
    init: bool,
    mapped_size: u64,
    base: u64,
    unmanaged_ptr: u64,
    free_list: Vec<FreeNode>,
    used: Vec<UsedNode>,
}

proof fn lemma_multiple_of_8(x: int)
    requires
        x % 8 == 0,
    ensures
        x % 1 == 0,
        x % 2 == 0,
        x % 4 == 0,
        (x + 8) % 1 == 0,
        (x + 8) % 2 == 0,
        (x + 8) % 4 == 0,
        (x + 8) % 8 == 0,
{
}

/// What holds of the padding.
proof fn lemma_padding(node_base: int, layout: Layout)
    requires
        layout.wf(),
        0 <= node_base,
        node_base % 8 == 0,
    ensures
        1 <= layout.align,
        8 <= padding_of(node_base, layout),
        padding_of(node_base, layout) <= 8 || padding_of(node_base, layout) <= layout.align,
        padding_of(node_base, layout) % 8 == 0,
        (node_base + padding_of(node_base, layout)) % (layout.align as int) == 0,
        16 <= needed_size(node_base, layout),
        layout.size + padding_of(node_base, layout) <= needed_size(node_base, layout),
        needed_size(node_base, layout) <= 0x8000_0000_0000_0010,
{
    reveal(padding_of);
    reveal(needed_size);
    let n = choose|n: nat| layout.align == #[trigger] vstd::arithmetic::power2::pow2(n);
    let a = layout.align as int;
    vstd::arithmetic::power2::lemma2_to64();
    vstd::arithmetic::power2::lemma_pow2_pos(n);
    if n <= 3 {
        lemma_multiple_of_8(node_base);
        assert(a == 1 || a == 2 || a == 4 || a == 8);
        vstd::arithmetic::div_mod::lemma_mod_self_0(a);
    } else {
        vstd::arithmetic::power2::lemma_pow2_adds(3, (n - 3) as nat);
        let b = vstd::arithmetic::power2::pow2((n - 3) as nat) as int;
        assert(a == 8 * b);
        vstd::arithmetic::power2::lemma_pow2_pos((n - 3) as nat);
        let q = node_base / a;
        let r = node_base % a;
        vstd::arithmetic::div_mod::lemma_fundamental_div_mod(node_base, a);
        assert(node_base == 8 * (b * q) + r) by (nonlinear_arith)
            requires
                node_base == a * q + r,
                a == 8 * b,
        ;
        assert(r % 8 == 0);
        if r == 0 {
            assert((a - r) % a == 0) by {
                vstd::arithmetic::div_mod::lemma_mod_self_0(a);
            }
            assert((node_base + a) % a == 0) by {
                vstd::arithmetic::div_mod::lemma_mod_add_multiples_vanish(node_base, a);
            }
        } else {
            vstd::arithmetic::div_mod::lemma_small_mod((a - r) as nat, a as nat);
            assert(node_base + (a - r) == a * (q + 1)) by (nonlinear_arith)
                requires
                    node_base == a * q + r,
            ;
            vstd::arithmetic::div_mod::lemma_mod_multiples_basic(q + 1, a);
            assert(a * (q + 1) == (q + 1) * a) by (nonlinear_arith);
        }
    }
}

/// The number of bytes to the next multiple of `align`.
fn offset_to(addr: u64, align: u64) -> (r: u64)
    requires
        align > 0,
    ensures
        r == align_offset(addr as int, align as int),
        r < align,
{
    let rest: u64 = addr % align;
    proof {
        if rest == 0 {
            vstd::arithmetic::div_mod::lemma_mod_self_0(align as int);
        } else {
            vstd::arithmetic::div_mod::lemma_small_mod((align - rest) as nat, align as nat);
        }
    }
    if rest == 0 {
        0
    } else {
        align - rest
    }
}

/// The size that a node needs to have for an allocation, and the padding.
fn calculate_needed_size(node_base: u64, layout: Layout) -> (r: (u64, u64))
    requires
        layout.wf(),
        node_base % 8 == 0,
    ensures
        r.0 == needed_size(node_base as int, layout),
        r.1 == padding_of(node_base as int, layout),
{
    proof {
        lemma_padding(node_base as int, layout);
        reveal(padding_of);
        reveal(needed_size);
    }
    let offset: u64 = offset_to(node_base, layout.align);
    let min_layout_size: u64 = if layout.size < MIN_NODE_SIZE {
        MIN_NODE_SIZE
    } else {
        layout.size
    };
    let extra_padding: u64 = min_layout_size - layout.size;
    let padding: u64 = if offset == 0 {
        if layout.align < TAG_SIZE {
            TAG_SIZE
        } else {
            layout.align
        }
    } else {
        offset
    };
    let needed: u64 = layout.size + if padding < extra_padding {
        extra_padding
    } else {
        padding
    };
    (needed, padding)
}

/// What lies in whole pages does so up to the next word, too.
proof fn lemma_page_holds(end: int, limit: int)
    requires
        end <= limit,
        limit % 4096 == 0,
    ensures
        0 <= align_offset(end, 8) < 8,
        (end + align_offset(end, 8)) % 8 == 0,
        end + align_offset(end, 8) <= limit,
{
    let r = end % 8;
    let q = limit / 4096;
    assert(limit == 4096 * q);
    let d = end / 8;
    assert(end == 8 * d + r);
    if r == 0 {
        assert(align_offset(end, 8) == 0);
    } else {
        assert(align_offset(end, 8) == 8 - r);
        assert(d < 512 * q);
    }
}

/// Nodes behind the managed part of the heap meet none of it.
#[verifier::spinoff_prover]
proof fn lemma_extended_wf(h: Heap, layout: Layout, grown: int)
    requires
        h.nodes_wf(),
        h.init,
        layout.wf(),
        h.unmanaged + 8 + needed_size(h.unmanaged + 8, layout) + 8 <= u64::MAX,
        0 <= grown,
        grown % 4096 == 0,
        h.unmanaged + 8 + needed_size(h.unmanaged + 8, layout) <= h.base + h.mapped + grown
            <= u64::MAX,
    ensures
        h.extended(layout, grown).nodes_wf(),
{
    lemma_padding(h.unmanaged + 8, layout);
    let n = h.extended(layout, grown);
    let end = h.unmanaged + 8 + needed_size(h.unmanaged + 8, layout);
    lemma_page_holds(end, h.base + h.mapped + grown);
    assert(n.used.last().end() == end);
    assert forall|i: int| 0 <= i < n.used.len() implies n.holds(
        (#[trigger] n.used[i]).addr as int,
        n.used[i].size as int,
    ) && n.used[i].data() <= n.used[i].end() by {
        if i < h.used.len() {
            assert(n.used[i] == h.used[i]);
        }
    }
    assert forall|i: int| 0 <= i < n.free.len() implies n.holds(
        (#[trigger] n.free[i]).addr as int,
        n.free[i].size as int,
    ) by {
        assert(n.free[i] == h.free[i]);
    }
}

/// Taking a node whole, or the front part of it, keeps nodes apart.
proof fn lemma_taken_wf(h: Heap, layout: Layout, i: int)
    requires
        h.nodes_wf(),
        layout.wf(),
        0 <= i < h.free.len(),
        h.fits(layout, i),
    ensures
        h.taken(layout, i).nodes_wf(),
{
    assert(h.holds(h.free[i].addr as int, h.free[i].size as int));
    lemma_padding(h.free[i].addr + 8, layout);
    let n = h.taken(layout, i);
    assert forall|k: int| 0 <= k < n.free.len() implies #[trigger] n.free[k] == h.free[if k < i {
        k
    } else {
        k + 1
    }] by {}
    assert forall|k: int| 0 <= k < n.used.len() implies n.holds(
        (#[trigger] n.used[k]).addr as int,
        n.used[k].size as int,
    ) && n.used[k].data() <= n.used[k].end() by {
        if k == h.used.len() {
            assert(h.holds(h.free[i].addr as int, h.free[i].size as int));
        } else {
            assert(n.used[k] == h.used[k]);
        }
    }
}

proof fn lemma_split_wf(h: Heap, layout: Layout, i: int)
    requires
        h.nodes_wf(),
        layout.wf(),
        0 <= i < h.free.len(),
        h.fits(layout, i),
        h.splits(layout, i),
    ensures
        h.split(layout, i).nodes_wf(),
{
    let node = h.free[i];
    assert(h.holds(node.addr as int, node.size as int));
    lemma_padding(node.addr + 8, layout);
    let n = h.split(layout, i);
    let end = node.addr + 8 + needed_size(node.addr + 8, layout);
    assert(0 <= align_offset(end, 8) < 8);
    assert((end + align_offset(end, 8)) % 8 == 0);
    assert(n.free[i].end() == node.end());
    assert(n.free[i].addr >= node.addr);
    assert forall|k: int| 0 <= k < n.free.len() && k != i implies #[trigger] n.free[k]
        == h.free[k] by {}
    assert forall|k: int| 0 <= k < n.used.len() implies n.holds(
        (#[trigger] n.used[k]).addr as int,
        n.used[k].size as int,
    ) && n.used[k].data() <= n.used[k].end() by {
        if k < h.used.len() {
            assert(n.used[k] == h.used[k]);
        }
    }
}

impl LinkedListAlloc {
    /// The state of the allocator.
    pub closed spec fn view(&self) -> Heap {
        Heap {
            init: self.init,
            base: self.base as int,
            mapped: self.mapped_size as int,
            unmanaged: self.unmanaged_ptr as int,
            free: self.free_list@,
            used: self.used@,
        }
    }

    /// An allocator that has no memory yet.
    pub fn new() -> (r: Self)
        ensures
            r@ == (Heap {
                init: false,
                base: 0,
                mapped: 0,
                unmanaged: 0,
                free: Seq::empty(),
                used: Seq::empty(),
            }),
            r@.wf(),
    {
        LinkedListAlloc {
            init: false,
            mapped_size: 0,
            base: 0,
            unmanaged_ptr: 0,
            free_list: Vec::new(),
            used: Vec::new(),
        }
    }

    /// Give the allocator the memory from `base` on, which must be
    /// page-aligned. Nothing of it is mapped yet.
    pub fn init(&mut self, base: u64)
        requires
            base % 4096 == 0,
        ensures
            final(self)@ == (Heap {
                init: true,
                base: base as int,
                unmanaged: base as int,
                ..old(self)@
            }),
            old(self)@.wf() && !old(self)@.init && base + old(self)@.mapped <= u64::MAX
                ==> final(self)@.wf(),
    {
        self.base = base;
        self.unmanaged_ptr = base;
        self.init = true;
    }

    /// Find the first node of the free list that is large enough.
    fn find_first_fit(&self, layout: Layout) -> (r: usize)
        requires
            self@.wf(),
            layout.wf(),
        ensures
            self@.first_fit(layout, r as int),
    {
        let ghost h = self@;
        let mut i: usize = 0;
        while i < self.free_list.len()
            invariant
                h == self@,
                h.wf(),
                layout.wf(),
                i <= h.free.len(),
                forall|k: int| 0 <= k < i ==> !(#[trigger] h.fits(layout, k)),
            decreases h.free.len() - i,
        {
            let node = self.free_list[i];
            assert(node == h.free[i as int]);
            assert(h.holds(node.addr as int, node.size as int));
            let (needed, _) = calculate_needed_size(node.addr + TAG_SIZE, layout);
            if node.size >= needed {
                assert(h.fits(layout, i as int));
                return i;
            }
            assert(!h.fits(layout, i as int));
            i += 1;
        }
        i
    }

    /// Allocate memory, and return where it is. The allocator must have been
    /// given memory. Where what is mapped does not suffice, frames are handed out
    /// and mapped at its end, in the page table `pgtbl`.
    pub fn allocate(&mut self, mem: &mut PhysicalMemory, pgtbl: PageTable, layout: Layout) -> (r:
        u64)
        requires
            old(self)@.wf(),
            old(self)@.init,
            layout.wf(),
            old(self)@.allocatable(old(mem)@, pgtbl.root as int, layout),
        ensures
            final(self)@.wf(),
            r == final(self)@.used.last().data(),
            old(self)@.allocates(layout, final(self)@),
            final(mem)@ == old(self)@.grows_memory(
                old(mem)@,
                pgtbl.root as int,
                final(self)@,
            ),
            r as int % (layout.align as int) == 0,
            r + layout.size <= final(self)@.used.last().end(),
            final(self)@.used.last().end() <= final(self)@.base + final(self)@.mapped,
    {
        let ghost h = self@;
        let i: usize = self.find_first_fit(layout);
        if i < self.free_list.len() {
            let node = self.free_list[i];
            assert(node == h.free[i as int]);
            assert(h.holds(node.addr as int, node.size as int));
            assert(h.fits(layout, i as int));
            proof {
                lemma_padding(node.addr + 8, layout);
            }
            let (needed, padding) = calculate_needed_size(node.addr + TAG_SIZE, layout);
            if node.size - needed > BLOCK_SPLIT_THRESHOLD {
                let end: u64 = node.addr + TAG_SIZE + needed;
                let next: u64 = end + offset_to(end, 8);
                self.free_list.set(
                    i,
                    FreeNode { addr: next, size: node.size - (next - node.addr - TAG_SIZE) - TAG_SIZE },
                );
                self.used.push(
                    UsedNode { addr: node.addr, size: next - node.addr - TAG_SIZE, padding },
                );
                proof {
                    lemma_split_wf(h, layout, i as int);
                    assert(self@ =~= h.split(layout, i as int));
                    assert(h.allocates(layout, self@));
                    lemma_coalesced_after_allocation(h, self@, layout);
                }
            } else {
                self.free_list.remove(i);
                self.used.push(UsedNode { addr: node.addr, size: node.size, padding });
                proof {
                    lemma_taken_wf(h, layout, i as int);
                    assert(self@ =~= h.taken(layout, i as int));
                    assert(h.allocates(layout, self@));
                    lemma_coalesced_after_allocation(h, self@, layout);
                }
            }
            node.addr + TAG_SIZE + padding
        } else {
            let addr: u64 = self.unmanaged_ptr;
            proof {
                lemma_padding(addr + 8, layout);
            }
            let (needed, padding) = calculate_needed_size(addr + TAG_SIZE, layout);
            let mapped_end: u64 = self.base + self.mapped_size;
            let available: u64 = if mapped_end < addr + TAG_SIZE {
                0
            } else {
                mapped_end - (addr + TAG_SIZE)
            };
            assert(h.first_fit(layout, h.free.len() as int));
            let ghost mut grown: int = 0;
            if available < needed {
                let missing: u64 = if mapped_end < addr + TAG_SIZE {
                    needed + TAG_SIZE
                } else {
                    needed
                };
                let order: u32 = what_order(missing);
                let bytes: u64 = phys::order_size(order);
                proof {
                    assert(grown_by(h.growth(layout), order as nat));
                    grown = bytes as int;
                    assert(bytes as int / 4096 == vstd::arithmetic::power2::pow2(order as nat));
                }
                growth::grow(mem, pgtbl, mapped_end, bytes / 4096);
                self.mapped_size = self.mapped_size + bytes;
            }
            let end: u64 = addr + TAG_SIZE + needed;
            self.unmanaged_ptr = end + offset_to(end, 8);
            self.used.push(UsedNode { addr, size: needed, padding });
            proof {
                lemma_extended_wf(h, layout, grown);
                assert(self@ =~= h.extended(layout, grown));
                assert(h.first_fit(layout, i as int));
                assert(coalesced(self@.free));
            }
            addr + TAG_SIZE + padding
        }
    }
}

/// Whether `order` is the order of an allocation of `size` bytes.
pub open spec fn grown_by(size: int, order: nat) -> bool {
    &&& size <= phys::order_bytes(order)
    &&& order > 0 ==> phys::order_bytes((order - 1) as nat) < size
}

// ---- freeing ----

/// Whether the free node `b` follows the free node `a` directly: nothing but
/// the bytes up to the next word is between them.
pub open spec fn touches(a: FreeNode, b: FreeNode) -> bool {
    a.end() + align_offset(a.end(), 8) == b.addr
}

/// The node that consists of `a`, `b` and what is between them.
pub open spec fn merged(a: FreeNode, b: FreeNode) -> FreeNode {
    FreeNode { addr: a.addr, size: (b.end() - a.addr - 8) as u64 }
}

/// The free list once the nodes `i` and `i + 1` have been made one, if they
/// touch.
pub open spec fn joined(free: Seq<FreeNode>, i: int) -> Seq<FreeNode> {
    if 0 <= i && i + 1 < free.len() && touches(free[i], free[i + 1]) {
        free.update(i, merged(free[i], free[i + 1])).remove(i + 1)
    } else {
        free
    }
}

/// Whether `i` is the place of a node at `addr` in the free list.
pub open spec fn place_of(free: Seq<FreeNode>, addr: u64, i: int) -> bool {
    &&& 0 <= i <= free.len()
    &&& forall|k: int| 0 <= k < i ==> (#[trigger] free[k]).addr < addr
    &&& forall|k: int| i <= k < free.len() ==> addr <= (#[trigger] free[k]).addr
}

impl Heap {
    /// Whether `u` is the node in use whose data is at `ptr`.
    pub open spec fn is_used(self, ptr: int, u: int) -> bool {
        0 <= u < self.used.len() && self.used[u].data() == ptr
    }

    /// The heap once the node `u` is not in use any more, and is at the place
    /// `i` of the free list, coalesced forward and then backward.
    pub open spec fn freed(self, u: int, i: int) -> Heap {
        let node = FreeNode { addr: self.used[u].addr, size: self.used[u].size };
        Heap {
            used: self.used.remove(u),
            free: joined(joined(self.free.insert(i, node), i), i - 1),
            ..self
        }
    }

    /// Whether freeing what is at `ptr` turns this heap into `next`.
    pub open spec fn deallocates(self, ptr: int, next: Heap) -> bool {
        exists|u: int, i: int| #[trigger]
            self.is_used(ptr, u) && #[trigger] place_of(self.free, self.used[u].addr, i) && next
                == self.freed(u, i)
    }
}

/// Moving a node from those in use to the free list keeps nodes apart.
proof fn lemma_insert_wf(h: Heap, u: int, i: int)
    requires
        h.nodes_wf(),
        0 <= u < h.used.len(),
        place_of(h.free, h.used[u].addr, i),
    ensures
        (Heap {
            used: h.used.remove(u),
            free: h.free.insert(i, FreeNode { addr: h.used[u].addr, size: h.used[u].size }),
            ..h
        }).nodes_wf(),
{
    let node = FreeNode { addr: h.used[u].addr, size: h.used[u].size };
    let n = Heap { used: h.used.remove(u), free: h.free.insert(i, node), ..h };
    assert(h.holds(h.used[u].addr as int, h.used[u].size as int));
    assert forall|k: int| 0 <= k < n.used.len() implies #[trigger] n.used[k] == h.used[if k < u {
        k
    } else {
        k + 1
    }] by {}
    assert forall|k: int| 0 <= k < n.free.len() implies #[trigger] n.free[k] == if k < i {
        h.free[k]
    } else if k == i {
        node
    } else {
        h.free[k - 1]
    } by {}
    assert forall|k: int| 0 <= k < h.free.len() implies apart(
        (#[trigger] h.free[k]).addr as int,
        h.free[k].end(),
        node.addr as int,
        node.end(),
    ) && h.holds(h.free[k].addr as int, h.free[k].size as int) by {
        assert(h.used[u].end() == node.end());
    }
}

/// Making one node of two that touch keeps nodes apart: no node fits between
/// the two.
proof fn lemma_joined_wf(h: Heap, i: int)
    requires
        h.nodes_wf(),
    ensures
        (Heap { free: joined(h.free, i), ..h }).nodes_wf(),
{
    if 0 <= i && i + 1 < h.free.len() && touches(h.free[i], h.free[i + 1]) {
        let a = h.free[i];
        let b = h.free[i + 1];
        let n = Heap { free: joined(h.free, i), ..h };
        assert(h.holds(a.addr as int, a.size as int));
        assert(h.holds(b.addr as int, b.size as int));
        let m = merged(a, b);
        assert(m.end() == b.end());
        assert forall|k: int| 0 <= k < n.free.len() implies #[trigger] n.free[k] == if k < i {
            h.free[k]
        } else if k == i {
            m
        } else {
            h.free[k + 1]
        } by {}
        assert(0 <= align_offset(a.end(), 8) < 8);
        assert forall|j: int| 0 <= j < h.used.len() implies apart(
            m.addr as int,
            m.end(),
            (#[trigger] h.used[j]).addr as int,
            h.used[j].end(),
        ) by {
            let u = h.used[j];
            assert(h.holds(u.addr as int, u.size as int));
            assert(apart(a.addr as int, a.end(), u.addr as int, u.end()));
            assert(apart(b.addr as int, b.end(), u.addr as int, u.end()));
        }
    }
}

impl LinkedListAlloc {
    /// Make one of the nodes `i` and `i + 1` of the free list, if they touch.
    fn join(&mut self, i: usize)
        requires
            old(self)@.nodes_wf(),
            i < old(self)@.free.len(),
        ensures
            final(self)@ == (Heap { free: joined(old(self)@.free, i as int), ..old(self)@ }),
            final(self)@.nodes_wf(),
    {
        let ghost h = self@;
        proof {
            lemma_joined_wf(h, i as int);
        }
        if self.free_list.len() - i > 1 {
            let a = self.free_list[i];
            let b = self.free_list[i + 1];
            assert(h.holds(h.free[i as int].addr as int, h.free[i as int].size as int));
            assert(h.holds(h.free[i + 1].addr as int, h.free[i + 1].size as int));
            assert(h.free[i as int].end() <= h.free[i + 1].addr);
            let end: u64 = a.addr + TAG_SIZE + a.size;
            if b.addr - end == offset_to(end, 8) {
                self.free_list.set(
                    i,
                    FreeNode { addr: a.addr, size: b.addr + b.size - a.addr },
                );
                self.free_list.remove(i + 1);
                assert(self@.free =~= joined(h.free, i as int));
            }
        }
        assert(self@ =~= (Heap { free: joined(h.free, i as int), ..h }));
    }

    /// Free the memory that was allocated at `ptr`. What it was allocated for is not
    /// needed: the node is known by its address.
    pub fn deallocate(&mut self, ptr: u64, _layout: Layout)
        requires
            old(self)@.wf(),
            exists|u: int| old(self)@.is_used(ptr as int, u),
        ensures
            final(self)@.wf(),
            old(self)@.deallocates(ptr as int, final(self)@),
    {
        let ghost h = self@;
        let mut u: usize = 0;
        while u < self.used.len()
            invariant_except_break
                u <= h.used.len(),
                h == self@,
                h.wf(),
                exists|v: int| u <= v && h.is_used(ptr as int, v),
            ensures
                h == self@,
                h.is_used(ptr as int, u as int),
            decreases h.used.len() - u,
        {
            let node = self.used[u];
            assert(node == h.used[u as int]);
            let ghost v = choose|v: int| u <= v && h.is_used(ptr as int, v);
            assert(h.holds(node.addr as int, node.size as int));
            if ptr >= node.addr + TAG_SIZE && ptr - node.addr - TAG_SIZE == node.padding {
                break;
            }
            assert(v != u);
            u += 1;
        }
        let node = self.used[u];
        let mut i: usize = 0;
        while i < self.free_list.len() && self.free_list[i].addr < node.addr
            invariant
                i <= h.free.len(),
                h == self@,
                forall|k: int| 0 <= k < i ==> (#[trigger] h.free[k]).addr < node.addr,
            decreases h.free.len() - i,
        {
            i += 1;
        }
        proof {
            assert forall|k: int| i <= k < h.free.len() implies node.addr <= (
            #[trigger] h.free[k]).addr by {
                assert(h.holds(h.free[i as int].addr as int, h.free[i as int].size as int));
                if k > i {
                    assert(h.free[i as int].end() <= h.free[k].addr);
                }
            }
            assert(place_of(h.free, node.addr, i as int));
            lemma_insert_wf(h, u as int, i as int);
        }
        self.used.remove(u);
        self.free_list.insert(i, FreeNode { addr: node.addr, size: node.size });
        assert(self@ =~= (Heap {
            used: h.used.remove(u as int),
            free: h.free.insert(i as int, FreeNode { addr: node.addr, size: node.size }),
            ..h
        }));
        self.join(i);
        if i > 0 {
            self.join(i - 1);
        }
        proof {
            assert(self@ =~= h.freed(u as int, i as int));
            assert(h.deallocates(ptr as int, self@));
            lemma_coalesced_after_deallocation(h, self@, ptr as int);
        }
    }
}

/// What an allocation hands out is in no other allocation: the data of two
/// nodes in use, which may reach to the end of the node, do not meet.
pub proof fn law_allocations_are_apart(h: Heap, i: int, j: int)
    requires
        h.wf(),
        0 <= i < h.used.len(),
        0 <= j < h.used.len(),
        i != j,
    ensures
        h.used[i].addr <= h.used[i].data() <= h.used[i].end(),
        apart(h.used[i].data(), h.used[i].end(), h.used[j].data(), h.used[j].end()),
{
    if i < j {
        assert(apart(
            h.used[i].addr as int,
            h.used[i].end(),
            h.used[j].addr as int,
            h.used[j].end(),
        ));
    } else {
        assert(apart(
            h.used[j].addr as int,
            h.used[j].end(),
            h.used[i].addr as int,
            h.used[i].end(),
        ));
    }
}

/// All that counts as mapped is mapped: an allocation maps the memory by which
/// the heap grows, as far as there are addresses.
pub proof fn law_heap_stays_mapped(h: Heap, next: Heap, m: Mem, root: int, layout: Layout)
    requires
        h.wf(),
        layout.wf(),
        h.backed(m, root),
        h.allocatable(m, root, layout),
        h.allocates(layout, next),
        next.mapped <= 4096 * runs::PAGES,
    ensures
        next.backed(h.grows_memory(m, root, next), root),
{
    let n = (next.mapped - h.mapped) / 4096;
    if n > 0 {
        let i = choose|i: int| #[trigger]
            h.first_fit(layout, i) && if i < h.free.len() {
                next == if h.splits(layout, i) {
                    h.split(layout, i)
                } else {
                    h.taken(layout, i)
                }
            } else if h.grows(layout) {
                exists|order: nat| #[trigger]
                    grown_by(h.growth(layout), order) && next == h.extended(
                        layout,
                        phys::order_bytes(order) as int,
                    )
            } else {
                next == h.extended(layout, 0)
            };
        assert(i == h.free.len());
        let order = choose|order: nat| #[trigger]
            grown_by(h.growth(layout), order) && next == h.extended(
                layout,
                phys::order_bytes(order) as int,
            );
        assert(n == vstd::arithmetic::power2::pow2(order));
        growth::lemma_grown(m, root, h.base, h.mapped, n);
    }
}

/// Every address of a node that is in use is mapped, readable and writable.
pub proof fn law_allocations_are_mapped(h: Heap, m: Mem, root: int, i: int, va: u64)
    requires
        h.wf(),
        h.backed(m, root),
        0 <= i < h.used.len(),
        h.used[i].addr <= va < h.used[i].end(),
    ensures
        paging::walk_spec(m, root, va) matches Some((_, flags)) && flags == growth::HEAP_FLAGS,
{
    assert(h.holds(h.used[i].addr as int, h.used[i].size as int));
}

/// Whether a stretch of memory is in a node of the free list.
pub open spec fn is_free(free: Seq<FreeNode>, addr: int, end: int) -> bool {
    exists|i: int| 0 <= i < free.len() && (#[trigger] free[i]).addr <= addr && end <= free[i].end()
}

/// Nodes that do not follow each other in the free list do not touch.
proof fn lemma_apart_do_not_touch(h: Heap, i: int, j: int)
    requires
        h.nodes_wf(),
        0 <= i,
        i + 1 < j < h.free.len(),
    ensures
        !touches(h.free[i], h.free[j]),
{
    let k = i + 1;
    assert(h.free[i].end() <= h.free[k].addr);
    assert(h.free[k].end() <= h.free[j].addr);
    assert(h.holds(h.free[k].addr as int, h.free[k].size as int));
    assert(align_offset(h.free[i].end(), 8) < 8);
}

/// After an allocation no two nodes that follow each other touch.
#[verifier::spinoff_prover]
proof fn lemma_allocates_coalesced(h: Heap, next: Heap, layout: Layout, i: int)
    requires
        h.nodes_wf(),
        layout.wf(),
        coalesced(h.free),
        h.allocates(layout, next),
        0 <= i,
        i + 1 < next.free.len(),
    ensures
        !touches(next.free[i], next.free[i + 1]),
{
    let k = choose|k: int| #[trigger]
        h.first_fit(layout, k) && if k < h.free.len() {
            next == if h.splits(layout, k) {
                h.split(layout, k)
            } else {
                h.taken(layout, k)
            }
        } else if h.grows(layout) {
            exists|order: nat| #[trigger]
                grown_by(h.growth(layout), order) && next == h.extended(
                    layout,
                    phys::order_bytes(order) as int,
                )
        } else {
            next == h.extended(layout, 0)
        };
    if k == h.free.len() {
        assert(next.free == h.free);
        assert(!touches(h.free[i], h.free[i + 1]));
    } else if h.splits(layout, k) {
        lemma_split_coalesced(h, layout, k, i);
    } else {
        lemma_taken_coalesced(h, layout, k, i);
    }
}

/// After a deallocation no two nodes that follow each other touch.
#[verifier::spinoff_prover]
proof fn lemma_deallocates_coalesced(h: Heap, next: Heap, ptr: int, i: int)
    requires
        h.nodes_wf(),
        coalesced(h.free),
        h.deallocates(ptr, next),
        0 <= i,
        i + 1 < next.free.len(),
    ensures
        !touches(next.free[i], next.free[i + 1]),
{
    let (u, p) = choose|u: int, p: int| #[trigger]
        h.is_used(ptr, u) && #[trigger] place_of(h.free, h.used[u].addr, p) && next == h.freed(
            u,
            p,
        );
    lemma_freed_coalesced(h, u, p, i);
}

/// An allocation leaves no nodes in the free list that could be one.
#[verifier::spinoff_prover]
proof fn lemma_coalesced_after_allocation(h: Heap, next: Heap, layout: Layout)
    requires
        h.wf(),
        next.nodes_wf(),
        layout.wf(),
        h.allocates(layout, next),
    ensures
        next.wf(),
{
    assert forall|i: int, j: int| 0 <= i < j < next.free.len() implies !touches(
        #[trigger] next.free[i],
        #[trigger] next.free[j],
    ) by {
        if i + 1 < j {
            lemma_apart_do_not_touch(next, i, j);
        } else {
            lemma_allocates_coalesced(h, next, layout, i);
        }
    }
}

/// A deallocation leaves no nodes in the free list that could be one.
#[verifier::spinoff_prover]
proof fn lemma_coalesced_after_deallocation(h: Heap, next: Heap, ptr: int)
    requires
        h.wf(),
        next.nodes_wf(),
        h.deallocates(ptr, next),
    ensures
        next.wf(),
{
    assert forall|i: int, j: int| 0 <= i < j < next.free.len() implies !touches(
        #[trigger] next.free[i],
        #[trigger] next.free[j],
    ) by {
        if i + 1 < j {
            lemma_apart_do_not_touch(next, i, j);
        } else {
            lemma_deallocates_coalesced(h, next, ptr, i);
        }
    }
}

/// Nodes of the free list that could be one are made one as soon as they can: there
/// are never two of them.
pub proof fn law_free_nodes_are_coalesced(h: Heap, i: int, j: int)
    requires
        h.wf(),
        0 <= i < h.free.len(),
        0 <= j < h.free.len(),
    ensures
        !touches(h.free[i], h.free[j]),
{
    assert(h.holds(h.free[i].addr as int, h.free[i].size as int));
    assert(h.holds(h.free[j].addr as int, h.free[j].size as int));
    if j < i {
        assert(h.free[j].end() <= h.free[i].addr);
    }
}

/// What was freed, and what was free before, is free after the node `u` has been
/// freed.
pub proof fn law_freed_memory_is_free(h: Heap, u: int, p: int, addr: int, end: int)
    requires
        h.wf(),
        0 <= u < h.used.len(),
        place_of(h.free, h.used[u].addr, p),
        is_free(h.free, addr, end) || (h.used[u].addr <= addr && end <= h.used[u].end()),
    ensures
        is_free(h.freed(u, p).free, addr, end),
{
    let node = FreeNode { addr: h.used[u].addr, size: h.used[u].size };
    lemma_insert_wf(h, u, p);
    let listed = Heap { used: h.used.remove(u), free: h.free.insert(p, node), ..h };
    if is_free(h.free, addr, end) {
        let i = choose|i: int|
            0 <= i < h.free.len() && (#[trigger] h.free[i]).addr <= addr && end <= h.free[i].end();
        let j = if i < p {
            i
        } else {
            i + 1
        };
        assert(listed.free[j] == h.free[i]);
    } else {
        assert(listed.free[p] == node);
    }
    lemma_joined_is_free(listed, p, addr, end);
    lemma_joined_wf(listed, p);
    lemma_joined_is_free(Heap { free: joined(listed.free, p), ..listed }, p - 1, addr, end);
}

/// To make two nodes one keeps what is free.
proof fn lemma_joined_is_free(h: Heap, i: int, addr: int, end: int)
    requires
        h.nodes_wf(),
        is_free(h.free, addr, end),
    ensures
        is_free(joined(h.free, i), addr, end),
{
    if 0 <= i && i + 1 < h.free.len() && touches(h.free[i], h.free[i + 1]) {
        let a = h.free[i];
        let b = h.free[i + 1];
        let n = joined(h.free, i);
        lemma_merged(h, i);
        let k = choose|k: int|
            0 <= k < h.free.len() && (#[trigger] h.free[k]).addr <= addr && end <= h.free[k].end();
        let j = if k <= i {
            k
        } else {
            k - 1
        };
        assert(n[i] == merged(a, b));
        if k != i && k != i + 1 {
            assert(n[j] == h.free[k]);
        } else {
            assert(n[i].addr <= addr && end <= n[i].end());
        }
    }
}

/// Two nodes of the free list made one begin where the first does and end where
/// the second does.
proof fn lemma_merged(h: Heap, i: int)
    requires
        h.nodes_wf(),
        0 <= i,
        i + 1 < h.free.len(),
    ensures
        merged(h.free[i], h.free[i + 1]).addr == h.free[i].addr,
        merged(h.free[i], h.free[i + 1]).end() == h.free[i + 1].end(),
        h.free[i].end() <= h.free[i + 1].end(),
        h.free[i].addr <= h.free[i + 1].addr,
{
    assert(h.holds(h.free[i].addr as int, h.free[i].size as int));
    assert(h.holds(h.free[i + 1].addr as int, h.free[i + 1].size as int));
}

/// To make two nodes one leaves those that followed each other around them.
proof fn lemma_joined_pairs(h: Heap, i: int)
    requires
        h.nodes_wf(),
        0 <= i,
        i + 1 < h.free.len(),
        touches(h.free[i], h.free[i + 1]),
    ensures
        joined(h.free, i).len() == h.free.len() - 1,
        forall|k: int|
            0 <= k && k + 1 < joined(h.free, i).len() ==> (touches(
                #[trigger] joined(h.free, i)[k],
                joined(h.free, i)[k + 1],
            ) <==> touches(
                h.free[if k < i {
                    k
                } else {
                    k + 1
                }],
                h.free[if k < i {
                    k + 1
                } else {
                    k + 2
                }],
            )),
{
    lemma_merged(h, i);
}

/// After a node has been freed no two that follow each other touch.
proof fn lemma_freed_coalesced(h: Heap, u: int, p: int, i: int)
    requires
        h.nodes_wf(),
        coalesced(h.free),
        0 <= u < h.used.len(),
        place_of(h.free, h.used[u].addr, p),
        0 <= i,
        i + 1 < h.freed(u, p).free.len(),
    ensures
        !touches(h.freed(u, p).free[i], h.freed(u, p).free[i + 1]),
{
    let node = FreeNode { addr: h.used[u].addr, size: h.used[u].size };
    lemma_insert_wf(h, u, p);
    let l0 = Heap { used: h.used.remove(u), free: h.free.insert(p, node), ..h };
    assert forall|k: int|
        0 <= k && k + 1 < l0.free.len() && k != p - 1 && k != p implies !touches(
        #[trigger] l0.free[k],
        l0.free[k + 1],
    ) by {
        if k < p {
            assert(l0.free[k] == h.free[k]);
            assert(l0.free[k + 1] == h.free[k + 1]);
        } else {
            assert(l0.free[k] == h.free[k - 1]);
            assert(l0.free[k + 1] == h.free[k]);
        }
    }
    let l1 = Heap { free: joined(l0.free, p), ..l0 };
    lemma_joined_wf(l0, p);
    if p + 1 < l0.free.len() && touches(l0.free[p], l0.free[p + 1]) {
        lemma_joined_pairs(l0, p);
    }
    assert forall|k: int| 0 <= k && k + 1 < l1.free.len() && k != p - 1 implies !touches(
        #[trigger] l1.free[k],
        l1.free[k + 1],
    ) by {}
    if 0 <= p - 1 && p < l1.free.len() && touches(l1.free[p - 1], l1.free[p]) {
        lemma_joined_pairs(l1, p - 1);
    }
}

/// After a node has been split no two that follow each other touch.
#[verifier::spinoff_prover]
proof fn lemma_split_coalesced(h: Heap, layout: Layout, k: int, i: int)
    requires
        h.nodes_wf(),
        layout.wf(),
        coalesced(h.free),
        0 <= k < h.free.len(),
        h.fits(layout, k),
        h.splits(layout, k),
        0 <= i,
        i + 1 < h.free.len(),
    ensures
        !touches(h.split(layout, k).free[i], h.split(layout, k).free[i + 1]),
{
    let node = h.free[k];
    let free = h.split(layout, k).free;
    assert(h.holds(node.addr as int, node.size as int));
    lemma_padding(node.addr + 8, layout);
    let end = node.addr + 8 + needed_size(node.addr + 8, layout);
    assert(0 <= align_offset(end, 8) < 8);
    assert(free[k].end() == node.end());
    assert(free[k].addr > node.addr);
    assert(!touches(h.free[i], h.free[i + 1]));
    if i + 1 == k {
        let a = h.free[i];
        assert(free[i] == a);
        assert(a.end() <= node.addr);
        assert(a.end() + align_offset(a.end(), 8) <= node.addr);
    } else if i == k {
        assert(free[i + 1] == h.free[i + 1]);
    } else {
        assert(free[i] == h.free[i]);
        assert(free[i + 1] == h.free[i + 1]);
    }
}

/// After a node has been taken whole no two that follow each other touch.
#[verifier::spinoff_prover]
proof fn lemma_taken_coalesced(h: Heap, layout: Layout, k: int, i: int)
    requires
        h.nodes_wf(),
        coalesced(h.free),
        0 <= k < h.free.len(),
        0 <= i,
        i + 2 < h.free.len(),
    ensures
        !touches(h.taken(layout, k).free[i], h.taken(layout, k).free[i + 1]),
{
    let free = h.taken(layout, k).free;
    if i + 1 == k {
        assert(free[i] == h.free[i]);
        assert(free[i + 1] == h.free[i + 2]);
        lemma_apart_do_not_touch(h, i, i + 2);
    } else if i < k {
        assert(free[i] == h.free[i]);
        assert(free[i + 1] == h.free[i + 1]);
        assert(!touches(h.free[i], h.free[i + 1]));
    } else {
        assert(free[i] == h.free[i + 1]);
        assert(free[i + 1] == h.free[i + 2]);
        assert(!touches(h.free[i + 1], h.free[i + 2]));
    }
}

} // verus!
