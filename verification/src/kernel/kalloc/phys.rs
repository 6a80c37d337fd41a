//! Orders of physical memory allocations.

use vstd::prelude::*;

verus! {

/// The number of bytes of an allocation of the given order.
pub open spec fn order_bytes(order: nat) -> nat {
    4096 * vstd::arithmetic::power2::pow2(order)
}

/// The order of an allocation of `size` bytes: the least `n` for which `2^n`
/// pages hold it.
pub fn what_order(size: u64) -> (r: u32)
    requires
        size <= 0x8000_0000_0000_0000,
    ensures
        r <= 51,
        size <= order_bytes(r as nat),
        order_bytes(r as nat) <= 0x8000_0000_0000_0000,
        r > 0 ==> order_bytes((r - 1) as nat) < size,
{
    let mut order: u32 = 0;
    let mut bytes: u64 = 4096;
    proof {
        vstd::arithmetic::power2::lemma2_to64();
        vstd::arithmetic::power2::lemma2_to64_rest();
    }
    while bytes < size
        invariant
            size <= 0x8000_0000_0000_0000,
            bytes == order_bytes(order as nat),
            bytes <= 0x8000_0000_0000_0000,
            order <= 51,
            order_bytes(51) == 0x8000_0000_0000_0000,
            order > 0 ==> order_bytes((order - 1) as nat) < size,
        decreases 51 - order,
    {
        proof {
            vstd::arithmetic::power2::lemma_pow2_unfold((order + 1) as nat);
            if order + 1 < 51 {
                vstd::arithmetic::power2::lemma_pow2_strictly_increases((order + 1) as nat, 51);
            }
        }
        bytes = bytes * 2;
        order += 1;
    }
    order
}

/// The number of pages of an allocation that has `pages` pages: the least power of two
/// that is not below them.
pub open spec fn frames_for(pages: int) -> int
    decreases pages,
{
    if pages <= 1 {
        1
    } else {
        2 * frames_for((pages + 1) / 2)
    }
}

/// An allocation has the pages of its order.
proof fn lemma_frames_for(pages: int, order: nat)
    requires
        pages <= vstd::arithmetic::power2::pow2(order),
        order > 0 ==> vstd::arithmetic::power2::pow2((order - 1) as nat) < pages,
    ensures
        frames_for(pages) == vstd::arithmetic::power2::pow2(order),
    decreases order,
{
    vstd::arithmetic::power2::lemma2_to64();
    if order > 0 {
        vstd::arithmetic::power2::lemma_pow2_pos((order - 1) as nat);
        vstd::arithmetic::power2::lemma_pow2_unfold(order);
        if order > 1 {
            vstd::arithmetic::power2::lemma_pow2_unfold((order - 1) as nat);
        }
        lemma_frames_for((pages + 1) / 2, (order - 1) as nat);
    }
}

/// An allocation is as large as what it is for, and less than twice as large.
pub proof fn law_frames_for(pages: int)
    ensures
        pages <= frames_for(pages),
        1 <= frames_for(pages),
        pages >= 1 ==> frames_for(pages) < 2 * pages,
    decreases pages,
{
    if pages > 1 {
        law_frames_for((pages + 1) / 2);
    }
}

/// The number of pages of an allocation that has `pages` pages.
pub fn allocation_pages(pages: u64) -> (r: u64)
    requires
        pages <= 0x8_0000_0000_0000,
    ensures
        r == frames_for(pages as int),
{
    let order: u32 = what_order(4096 * pages);
    proof {
        lemma_frames_for(pages as int, order as nat);
    }
    order_size(order) / 4096
}

/// The number of bytes of an allocation of the given order.
pub fn order_size(order: u32) -> (r: u64)
    requires
        order <= 51,
    ensures
        r == order_bytes(order as nat),
{
    proof {
        vstd::arithmetic::power2::lemma2_to64_rest();
        if order < 51 {
            vstd::arithmetic::power2::lemma_pow2_strictly_increases(order as nat, 51);
        }
        vstd::bits::lemma_u64_shl_is_mul(4096, order as u64);
    }
    4096u64 << (order as u64)
}

} // verus!
