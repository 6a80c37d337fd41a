//! Page tables that lie behind other memory, and leave it alone.

use vstd::prelude::*;

use super::runs;
use crate::addr::virt;
use crate::kernel::paging;
use crate::kernel::paging::{PageSize, PageTableFlags};
use crate::kernel::physmem::Mem;

verus! {

/// The number of words below the frame `lo`.
pub open spec fn words_below(m: Mem, lo: int) -> int {
    (lo - m.first) * 512
}

/// Memory from the frame `lo` on.
pub open spec fn from(m: Mem, lo: int) -> Mem {
    Mem {
        first: lo,
        limit: m.limit - (lo - m.first),
        words: m.words.skip(words_below(m, lo)),
    }
}

/// Whether the frame `lo` is in memory, or is the next to be handed out.
pub open spec fn splits(m: Mem, lo: int) -> bool {
    m.wf() && m.first <= lo <= m.next()
}

/// Whether two memories are the same below the frame `lo`.
pub open spec fn same_below(a: Mem, b: Mem, lo: int) -> bool {
    &&& a.first == b.first
    &&& a.limit == b.limit
    &&& splits(a, lo)
    &&& splits(b, lo)
    &&& a.words.take(words_below(a, lo)) == b.words.take(words_below(b, lo))
}

/// What is from a frame on is memory of its own.
pub proof fn lemma_from(m: Mem, lo: int)
    requires
        splits(m, lo),
    ensures
        from(m, lo).wf(),
        from(m, lo).next() == m.next(),
        from(m, lo).available() == m.available(),
        forall|t: int| lo <= t ==> (#[trigger] from(m, lo).has(t) <==> m.has(t)),
        forall|t: int, i: int|
            from(m, lo).has(t) && 0 <= i < 512 ==> #[trigger] from(m, lo).at(t, i) == m.at(t, i),
{
    let w = from(m, lo);
    assert(w.words.len() == m.words.len() - words_below(m, lo));
    assert(w.frames() == m.frames() - (lo - m.first));
}

/// To write a word behind the frame `lo` is to write it to the memory there.
proof fn lemma_from_set(m: Mem, lo: int, t: int, i: int, v: u64)
    requires
        splits(m, lo),
        from(m, lo).has(t),
        0 <= i < 512,
    ensures
        from(m.set(t, i, v), lo) == from(m, lo).set(t, i, v),
        same_below(m.set(t, i, v), m, lo),
{
    lemma_from(m, lo);
    let k = words_below(m, lo);
    let j = (t - m.first) * 512 + i;
    assert(k <= j < m.words.len());
    assert(m.words.update(j, v).skip(k) =~= m.words.skip(k).update(j - k, v));
    assert(m.words.update(j, v).take(k) =~= m.words.take(k));
    assert((t - lo) * 512 + i == j - k);
}

/// To hand out frames is to hand them out from the memory behind `lo`.
pub proof fn lemma_from_grow(m: Mem, lo: int, n: int)
    requires
        splits(m, lo),
        0 <= n <= m.available(),
    ensures
        from(m.grow_by(n), lo) == from(m, lo).grow_by(n),
        same_below(m.grow_by(n), m, lo),
        n == 1 ==> m.grow_by(1) == m.grow() && from(m, lo).grow_by(1) == from(m, lo).grow(),
{
    lemma_from(m, lo);
    let k = words_below(m, lo);
    let zeroes = Seq::new((512 * n) as nat, |i: int| 0u64);
    assert((m.words + zeroes).skip(k) =~= m.words.skip(k) + zeroes);
    assert((m.words + zeroes).take(k) =~= m.words.take(k));
    assert(m.grow_by(n).frames() == m.frames() + n);
    if n == 1 {
        assert(m.grow_by(1) =~= m.grow());
        assert(from(m, lo).grow_by(1) =~= from(m, lo).grow());
    }
}

/// A tree behind the frame `lo` is a tree of all of memory, in which the same
/// addresses lead to the same places.
pub proof fn lemma_tree_behind(m: Mem, lo: int, root: int)
    requires
        splits(m, lo),
        paging::tree_wf(from(m, lo), root),
        paging::unshared(from(m, lo), root),
    ensures
        paging::tree_wf(m, root),
        paging::unshared(m, root),
        forall|va: u64| #[trigger]
            paging::translate(m, root, va) == paging::translate(from(m, lo), root, va),
        forall|i2: int| 0 <= i2 < 512 ==> #[trigger] paging::e2(m, root, i2) == paging::e2(
            from(m, lo),
            root,
            i2,
        ),
        runs::tables_kept(from(m, lo), m, root),
{
    lemma_from(m, lo);
    let w = from(m, lo);
    assert forall|i2: int| 0 <= i2 < 512 implies #[trigger] paging::e2(m, root, i2) == paging::e2(
        w,
        root,
        i2,
    ) by {
        assert(w.at(root, i2) == m.at(root, i2));
    }
    assert forall|i2: int| #[trigger] paging::b2(m, root, i2) == paging::b2(w, root, i2) by {}
    assert forall|i2: int, i1: int|
        paging::b2(w, root, i2) && 0 <= i1 < 512 implies #[trigger] paging::e1(m, root, i2, i1)
        == paging::e1(w, root, i2, i1) by {
        let t = paging::entry_ppn(paging::e2(w, root, i2));
        assert(paging::leaf_ok(paging::e2(w, root, i2)));
        assert(w.at(t, i1) == m.at(t, i1));
    }
    assert forall|i2: int, i1: int| #[trigger]
        paging::b1(m, root, i2, i1) == paging::b1(w, root, i2, i1) by {
        assert(paging::b2(m, root, i2) == paging::b2(w, root, i2));
        if paging::b2(w, root, i2) && 0 <= i1 < 512 {
            assert(paging::e1(m, root, i2, i1) == paging::e1(w, root, i2, i1));
        }
    }
    assert forall|i2: int, i1: int, i0: int|
        paging::b1(w, root, i2, i1) && 0 <= i0 < 512 implies #[trigger] paging::e0(
        m,
        root,
        i2,
        i1,
        i0,
    ) == paging::e0(w, root, i2, i1, i0) by {
        let t = paging::entry_ppn(paging::e1(w, root, i2, i1));
        assert(paging::leaf_ok(paging::e1(w, root, i2, i1)));
        assert(paging::e1(m, root, i2, i1) == paging::e1(w, root, i2, i1));
        assert(w.at(t, i0) == m.at(t, i0));
    }
}

/// To go to the next table behind the frame `lo` is to do so in the memory
/// there.
proof fn lemma_from_enter(m: Mem, lo: int, t: int, i: int)
    requires
        splits(m, lo),
        from(m, lo).has(t),
        0 <= i < 512,
        paging::is_branch(from(m, lo).at(t, i)) || m.available() >= 1,
    ensures
        ({
            let (n, u) = paging::enter(m, t, i);
            let (w, v) = paging::enter(from(m, lo), t, i);
            &&& from(n, lo) == w
            &&& u == v
            &&& same_below(n, m, lo)
        }),
{
    lemma_from(m, lo);
    assert(from(m, lo).at(t, i) == m.at(t, i));
    if !paging::is_branch(m.at(t, i)) {
        let e = paging::make_entry(m.next(), PageTableFlags::VALID);
        lemma_from_grow(m, lo, 1);
        lemma_from(m.grow(), lo);
        assert(m.grow().has(t));
        lemma_from_set(m.grow(), lo, t, i, e);
    }
}

/// To map a page in a tree behind the frame `lo` is to map it in the memory
/// there; what is below stays as it is.
pub proof fn lemma_from_mapped(m: Mem, lo: int, root: int, va: u64, e: u64)
    requires
        splits(m, lo),
        paging::tree_wf(from(m, lo), root),
        paging::unshared(from(m, lo), root),
        paging::has_room(from(m, lo), root, va, PageSize::Base),
    ensures
        from(paging::mapped(m, root, va, e, PageSize::Base), lo) == paging::mapped(
            from(m, lo),
            root,
            va,
            e,
            PageSize::Base,
        ),
        same_below(paging::mapped(m, root, va, e, PageSize::Base), m, lo),
{
    let w = from(m, lo);
    let i2 = virt::vpn(va, 2);
    let i1 = virt::vpn(va, 1);
    let i0 = virt::vpn(va, 0);
    lemma_from(m, lo);
    assert(paging::leaf_ok(paging::e2(w, root, i2)));
    lemma_from_enter(m, lo, root, i2);
    let (m1, t1) = paging::enter(m, root, i2);
    let (w1, _) = paging::enter(w, root, i2);
    paging::lemma_enter_room(w, root, i2, i1);
    lemma_from(m1, lo);
    lemma_from_enter(m1, lo, t1, i1);
    let (m2, t0) = paging::enter(m1, t1, i1);
    lemma_from(m2, lo);
    lemma_from_set(m2, lo, t0, i0, e);
}

/// To map a run of pages in a tree behind the frame `lo` is to map it in the
/// memory there; what is below stays as it is.
pub proof fn lemma_from_run(
    m: Mem,
    lo: int,
    root: int,
    phys: u64,
    to: u64,
    flags: u8,
    n: int,
)
    requires
        splits(m, lo),
        paging::tree_wf(from(m, lo), root),
        !paging::flags_point(flags),
        runs::run_mappable(from(m, lo), root, phys, to, flags, n),
    ensures
        from(runs::run_mapped(m, root, phys, to, flags, n), lo) == runs::run_mapped(
            from(m, lo),
            root,
            phys,
            to,
            flags,
            n,
        ),
        same_below(runs::run_mapped(m, root, phys, to, flags, n), m, lo),
        runs::run_mappable(m, root, phys, to, flags, n),
    decreases n,
{
    let w = from(m, lo);
    lemma_from(m, lo);
    lemma_tree_behind(m, lo, root);
    runs::lemma_fewer_missing(w, m, root, to, n);
    if n > 0 {
        runs::lemma_shorter(w, root, phys, to, flags, n - 1, n);
        lemma_from_run(m, lo, root, phys, to, flags, n - 1);
        let before = runs::run_mapped(m, root, phys, to, flags, n - 1);
        let last = runs::nth(to, n - 1);
        runs::lemma_next_page(w, root, phys, to, flags, n - 1, n);
        lemma_from_mapped(
            before,
            lo,
            root,
            last,
            paging::map_entry(runs::nth(phys, n - 1), flags),
        );
    }
}

/// What is below a frame stays, through one change after another.
pub proof fn lemma_same_below_trans(a: Mem, b: Mem, c: Mem, lo: int)
    requires
        same_below(a, b, lo),
        same_below(b, c, lo),
    ensures
        same_below(a, c, lo),
{
}

/// What is below a frame stays if what is below a later one does.
pub proof fn lemma_same_below_less(a: Mem, b: Mem, lo: int, hi: int)
    requires
        same_below(a, b, hi),
        splits(b, lo),
        lo <= hi,
    ensures
        same_below(a, b, lo),
{
    let k = words_below(b, lo);
    let j = words_below(b, hi);
    assert(a.words.take(k) =~= a.words.take(j).take(k));
    assert(b.words.take(k) =~= b.words.take(j).take(k));
}

/// A tree stays what it is, and its addresses lead where they did, while memory
/// is handed out and written behind it.
pub proof fn lemma_tree_before(after: Mem, before: Mem, root: int)
    requires
        same_below(after, before, before.next()),
        paging::tree_wf(before, root),
        paging::unshared(before, root),
    ensures
        paging::tree_wf(after, root),
        paging::unshared(after, root),
        forall|va: u64| #[trigger]
            paging::walk_spec(after, root, va) == paging::walk_spec(before, root, va),
        runs::tables_kept(before, after, root),
{
    let k = words_below(before, before.next());
    assert forall|t: int, i: int|
        before.has(t) && 0 <= i < 512 implies after.has(t) && #[trigger] after.at(t, i)
        == before.at(t, i) by {
        let j = (t - before.first) * 512 + i;
        assert(0 <= j < k);
        assert(after.words.take(k)[j] == after.words[j]);
        assert(before.words.take(k)[j] == before.words[j]);
    }
    assert forall|i2: int| 0 <= i2 < 512 implies #[trigger] paging::e2(after, root, i2)
        == paging::e2(before, root, i2) by {
        assert(after.at(root, i2) == before.at(root, i2));
    }
    assert forall|i2: int| #[trigger] paging::b2(after, root, i2) == paging::b2(
        before,
        root,
        i2,
    ) by {}
    assert forall|i2: int, i1: int|
        paging::b2(before, root, i2) && 0 <= i1 < 512 implies #[trigger] paging::e1(
        after,
        root,
        i2,
        i1,
    ) == paging::e1(before, root, i2, i1) by {
        let t = paging::entry_ppn(paging::e2(before, root, i2));
        assert(paging::leaf_ok(paging::e2(before, root, i2)));
        assert(after.at(t, i1) == before.at(t, i1));
    }
    assert forall|i2: int, i1: int| #[trigger]
        paging::b1(after, root, i2, i1) == paging::b1(before, root, i2, i1) by {
        assert(paging::b2(after, root, i2) == paging::b2(before, root, i2));
        if paging::b2(before, root, i2) && 0 <= i1 < 512 {
            assert(paging::e1(after, root, i2, i1) == paging::e1(before, root, i2, i1));
        }
    }
    assert forall|i2: int, i1: int, i0: int|
        paging::b1(before, root, i2, i1) && 0 <= i0 < 512 implies #[trigger] paging::e0(
        after,
        root,
        i2,
        i1,
        i0,
    ) == paging::e0(before, root, i2, i1, i0) by {
        let t = paging::entry_ppn(paging::e1(before, root, i2, i1));
        assert(paging::leaf_ok(paging::e1(before, root, i2, i1)));
        assert(paging::e1(after, root, i2, i1) == paging::e1(before, root, i2, i1));
        assert(after.at(t, i0) == before.at(t, i0));
    }
    assert forall|va: u64| #[trigger] paging::walk_spec(after, root, va) == paging::walk_spec(
        before,
        root,
        va,
    ) by {
        assert(paging::translate(after, root, va) == paging::translate(before, root, va));
    }
}

} // verus!
