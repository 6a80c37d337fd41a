//! The derivation tree: which capability was made from which.
//!
//! Slots are named by their index. A slot's children form a list: the slot
//! points to the first, and each child to its neighbours and to its parent.

use vstd::prelude::*;

verus! {

/// The links of a slot.
#[derive(Copy, Clone, Debug, PartialEq, Eq, Structural)]
pub struct DerivationTreeNode {
    pub first_child: Option<usize>,
    pub parent: Option<usize>,
    pub next_sibling: Option<usize>,
    pub prev_sibling: Option<usize>,
}

impl Default for DerivationTreeNode {
    /// A slot that is linked to nothing.
    fn default() -> (r: Self)
        ensures
            r == DerivationTreeNode::alone(),
    {
        DerivationTreeNode { first_child: None, parent: None, next_sibling: None, prev_sibling: None }
    }
}

impl DerivationTreeNode {
    /// The links of a slot that is linked to nothing.
    pub open spec fn alone() -> Self {
        DerivationTreeNode { first_child: None, parent: None, next_sibling: None, prev_sibling: None }
    }

    /// Whether the slot has a child.
    pub fn has_child(&self) -> (r: bool)
        ensures
            r == self.first_child is Some,
    {
        self.first_child.is_some()
    }
}

/// A slot of the tree: a capability and its links.
pub struct DerivationSlot<C> {
    pub cap: C,
    pub dtnode: DerivationTreeNode,
}

impl<C: Copy> Copy for DerivationSlot<C> {

}

impl<C: Copy> Clone for DerivationSlot<C> {
    fn clone(&self) -> (r: Self)
        ensures
            r == *self,
    {
        *self
    }
}

/// A slot's index among the slots of which `a` and `b` have changed places.
pub open spec fn exchange(a: int, b: int, i: int) -> int {
    if i == a {
        b
    } else if i == b {
        a
    } else {
        i
    }
}

/// A link, once `a` and `b` have changed places.
pub open spec fn exchange_link(a: int, b: int, link: Option<usize>) -> Option<usize> {
    match link {
        Some(i) => Some(exchange(a, b, i as int) as usize),
        None => None,
    }
}

/// Slots and their links.
pub struct DerivationTree<C> {
    slots: Vec<DerivationSlot<C>>,
}

/// A link points to one of the slots.
pub open spec fn in_range<C>(s: Seq<DerivationSlot<C>>, link: Option<usize>) -> bool {
    link matches Some(i) ==> i < s.len()
}

/// Links point to slots, a first child has no neighbour before it, and
/// neighbours point to each other.
pub open spec fn chained<C>(s: Seq<DerivationSlot<C>>) -> bool {
    forall|i: int|
        0 <= i < s.len() ==> {
            let n = (#[trigger] s[i]).dtnode;
            &&& in_range(s, n.first_child)
            &&& in_range(s, n.parent)
            &&& in_range(s, n.next_sibling)
            &&& in_range(s, n.prev_sibling)
            &&& n.first_child matches Some(c) ==> s[c as int].dtnode.prev_sibling is None
            &&& n.next_sibling matches Some(d) ==> s[d as int].dtnode.prev_sibling == Some(
                i as usize,
            )
            &&& n.prev_sibling matches Some(c) ==> s[c as int].dtnode.next_sibling == Some(
                i as usize,
            )
        }
}

/// The links agree with one another: besides, a first child points back to its
/// parent, and neighbours have the same parent.
pub open spec fn linked<C>(s: Seq<DerivationSlot<C>>) -> bool {
    &&& chained(s)
    &&& s.len() <= usize::MAX
    &&& forall|i: int|
        0 <= i < s.len() ==> {
            let n = (#[trigger] s[i]).dtnode;
            &&& n.first_child matches Some(c) ==> s[c as int].dtnode.parent == Some(i as usize)
            &&& n.next_sibling matches Some(d) ==> s[d as int].dtnode.parent == n.parent
        }
}

/// The slot `k` places behind the link `start`.
pub open spec fn nth<C>(s: Seq<DerivationSlot<C>>, start: Option<usize>, k: nat) -> Option<usize>
    decreases k,
{
    if k == 0 {
        start
    } else {
        match nth(s, start, (k - 1) as nat) {
            Some(i) => s[i as int].dtnode.next_sibling,
            None => None,
        }
    }
}

/// Whether `c` is in the list of children of `p`.
pub open spec fn listed<C>(s: Seq<DerivationSlot<C>>, p: int, c: int) -> bool {
    exists|k: nat| #[trigger] nth(s, s[p].dtnode.first_child, k) == Some(c as usize)
}

/// Whether `c` is among the first `k` slots from the link `start` on.
spec fn visited<C>(s: Seq<DerivationSlot<C>>, start: Option<usize>, k: nat, c: int) -> bool {
    exists|j: nat| j < k && #[trigger] nth(s, start, j) == Some(c as usize)
}

/// A slot, with another parent.
pub open spec fn with_parent<C>(slot: DerivationSlot<C>, parent: Option<usize>) -> DerivationSlot<
    C,
> {
    DerivationSlot { dtnode: DerivationTreeNode { parent, ..slot.dtnode }, ..slot }
}

/// What a list of children is like: its slots exist, and each but the first
/// points back to the one before it.
proof fn lemma_nth_back<C>(s: Seq<DerivationSlot<C>>, p: int, k: nat)
    requires
        chained(s),
        0 <= p < s.len(),
        nth(s, s[p].dtnode.first_child, k) is Some,
    ensures
        nth(s, s[p].dtnode.first_child, k)->0 < s.len(),
        k == 0 ==> s[nth(s, s[p].dtnode.first_child, k)->0 as int].dtnode.prev_sibling is None,
        k > 0 ==> s[nth(s, s[p].dtnode.first_child, k)->0 as int].dtnode.prev_sibling == nth(
            s,
            s[p].dtnode.first_child,
            (k - 1) as nat,
        ),
    decreases k,
{
    if k > 0 {
        lemma_nth_back(s, p, (k - 1) as nat);
    }
}

/// No slot is twice in a list of children.
proof fn lemma_nth_distinct<C>(s: Seq<DerivationSlot<C>>, p: int, i: nat, j: nat)
    requires
        chained(s),
        0 <= p < s.len(),
        i < j,
        nth(s, s[p].dtnode.first_child, j) is Some,
    ensures
        nth(s, s[p].dtnode.first_child, i) != nth(s, s[p].dtnode.first_child, j),
    decreases i,
{
    let first = s[p].dtnode.first_child;
    lemma_nth_back(s, p, j);
    if nth(s, first, i) == nth(s, first, j) {
        lemma_nth_back(s, p, i);
        if i > 0 {
            lemma_nth_distinct(s, p, (i - 1) as nat, (j - 1) as nat);
        }
    }
}

/// A list of children is no longer than there are slots.
proof fn lemma_nth_bound<C>(s: Seq<DerivationSlot<C>>, p: int, k: nat)
    requires
        chained(s),
        0 <= p < s.len(),
        nth(s, s[p].dtnode.first_child, k) is Some,
    ensures
        k < s.len(),
{
    let first = s[p].dtnode.first_child;
    lemma_nth_prefix(s, first, k);
    let visited = Seq::new((k + 1) as nat, |i: int| nth(s, first, i as nat)->0 as int);
    assert forall|i: int, j: int| 0 <= i < j < visited.len() implies visited[i] != visited[j] by {
        lemma_nth_prefix(s, first, j as nat);
        lemma_nth_distinct(s, p, i as nat, j as nat);
    }
    assert(visited.no_duplicates());
    visited.unique_seq_to_set();
    let all = vstd::set_lib::set_int_range(0, s.len() as int);
    vstd::set_lib::lemma_int_range(0, s.len() as int);
    assert(visited.to_set().subset_of(all)) by {
        assert forall|x: int| visited.to_set().contains(x) implies all.contains(x) by {
            let i = choose|i: int| 0 <= i < visited.len() && visited[i] == x;
            lemma_nth_prefix(s, first, i as nat);
            lemma_nth_back(s, p, i as nat);
        }
    }
    vstd::set_lib::lemma_len_subset(visited.to_set(), all);
}

/// A list that reaches its place `k` reaches all places before it.
proof fn lemma_nth_prefix<C>(s: Seq<DerivationSlot<C>>, start: Option<usize>, k: nat)
    requires
        nth(s, start, k) is Some,
    ensures
        forall|i: nat| i <= k ==> #[trigger] nth(s, start, i) is Some,
    decreases k,
{
    if k > 0 {
        lemma_nth_prefix(s, start, (k - 1) as nat);
    }
}

/// Lists depend on the links to the next neighbours alone.
proof fn lemma_nth_same<C>(
    s: Seq<DerivationSlot<C>>,
    t: Seq<DerivationSlot<C>>,
    start: Option<usize>,
    k: nat,
)
    requires
        s.len() == t.len(),
        chained(s),
        in_range(s, start),
        forall|i: int|
            0 <= i < s.len() ==> (#[trigger] t[i]).dtnode.next_sibling
                == s[i].dtnode.next_sibling,
    ensures
        nth(t, start, k) == nth(s, start, k),
        in_range(s, nth(s, start, k)),
    decreases k,
{
    if k > 0 {
        lemma_nth_same(s, t, start, (k - 1) as nat);
    }
}

impl<C: Copy> DerivationTree<C> {
    /// The slots.
    pub closed spec fn view(&self) -> Seq<DerivationSlot<C>> {
        self.slots@
    }

    /// Make `parent` the parent of each child in the list of `x`.
    fn set_parents(&mut self, x: usize, parent: Option<usize>)
        requires
            chained(old(self)@),
            x < old(self)@.len(),
            in_range(old(self)@, parent),
        ensures
            final(self)@.len() == old(self)@.len(),
            forall|i: int|
                0 <= i < old(self)@.len() ==> #[trigger] final(self)@[i] == if listed(
                    old(self)@,
                    x as int,
                    i,
                ) {
                    with_parent(old(self)@[i], parent)
                } else {
                    old(self)@[i]
                },
            chained(final(self)@),
    {
        let ghost s = self@;
        assert(self.slots.len() == s.len());
        let ghost first = s[x as int].dtnode.first_child;
        let ghost mut k: nat = 0;
        let mut child: Option<usize> = self.slots[x].dtnode.first_child;
        loop
            invariant
                chained(s),
                s.len() <= usize::MAX,
                x < s.len(),
                s == old(self)@,
                first == s[x as int].dtnode.first_child,
                in_range(s, parent),
                self.slots@.len() == s.len(),
                child == nth(s, first, k),
                k <= s.len(),
                forall|i: int|
                    0 <= i < s.len() && visited(s, first, k, i)
                        ==> #[trigger] self.slots@[i] == with_parent(s[i], parent),
                forall|i: int|
                    0 <= i < s.len() && !visited(s, first, k, i)
                        ==> #[trigger] self.slots@[i] == s[i],
            ensures
                child is None,
                child == nth(s, first, k),
            decreases s.len() - k,
        {
            match child {
                None => {
                    break;
                },
                Some(c) => {
                    proof {
                        lemma_nth_back(s, x as int, k);
                        lemma_nth_bound(s, x as int, k);
                        if visited(s, first, k, c as int) {
                            let j = choose|j: nat| j < k && #[trigger] nth(s, first, j) == Some(c);
                            lemma_nth_distinct(s, x as int, j, k);
                        }
                    }
                    assert(self.slots@[c as int] == s[c as int]);
                    let mut slot = self.slots[c];
                    slot.dtnode.parent = parent;
                    let ghost before = self.slots@;
                    self.slots.set(c, slot);
                    child = slot.dtnode.next_sibling;
                    proof {
                        assert forall|i: int|
                            0 <= i < s.len() && visited(s, first, k + 1, i) implies #[trigger] self.slots@[i]
                            == with_parent(s[i], parent) by {
                            let j = choose|j: nat| j < k + 1 && #[trigger] nth(s, first, j) == Some(i as usize);
                            if j == k {
                                assert(i == c);
                            }
                        }
                        assert forall|i: int|
                            0 <= i < s.len() && !visited(s, first, k + 1, i) implies #[trigger] self.slots@[i]
                            == s[i] by {
                            assert(nth(s, first, k) == Some(c));
                            assert(i != c);
                        }
                        k = k + 1;
                    }
                },
            }
        }
        proof {
            assert forall|i: int| 0 <= i < s.len() && listed(s, x as int, i) implies visited(
                s,
                first,
                k,
                i,
            ) by {
                let j = choose|j: nat| #[trigger] nth(s, first, j) == Some(i as usize);
                if j >= k {
                    lemma_nth_prefix(s, first, j);
                    assert(nth(s, first, k) is Some);
                }
            }
            assert(self@ =~= self.slots@);
        }
    }

    /// Exchange `a` and `b` where they are first children. `pa` and `pb`
    /// are the slots of which they are.
    fn exchange_first_children(&mut self, a: usize, b: usize, pa: Option<usize>, pb: Option<usize>)
        requires
            in_range(old(self)@, pa),
            in_range(old(self)@, pb),
            a != b,
            forall|j: int|
                0 <= j < old(self)@.len() ==> ((#[trigger] old(self)@[j]).dtnode.first_child
                    == Some(a) <==> pa == Some(j as usize)),
            forall|j: int|
                0 <= j < old(self)@.len() ==> ((#[trigger] old(self)@[j]).dtnode.first_child
                    == Some(b) <==> pb == Some(j as usize)),
        ensures
            final(self)@.len() == old(self)@.len(),
            forall|j: int|
                0 <= j < old(self)@.len() ==> #[trigger] final(self)@[j] == (DerivationSlot {
                    dtnode: DerivationTreeNode {
                        first_child: exchange_link(
                            a as int,
                            b as int,
                            old(self)@[j].dtnode.first_child,
                        ),
                        ..old(self)@[j].dtnode
                    },
                    ..old(self)@[j]
                }),
    {
        assert(self.slots.len() == self.slots@.len());
        if let Some(p) = pa {
            let mut slot = self.slots[p];
            slot.dtnode.first_child = Some(b);
            self.slots.set(p, slot);
        }
        if let Some(p) = pb {
            let mut slot = self.slots[p];
            slot.dtnode.first_child = Some(a);
            self.slots.set(p, slot);
        }
    }

    /// Exchange `a` and `b` where they are next neighbours. `pa` and `pb`
    /// are the slots of which they are.
    fn exchange_next_siblings(&mut self, a: usize, b: usize, pa: Option<usize>, pb: Option<usize>)
        requires
            in_range(old(self)@, pa),
            in_range(old(self)@, pb),
            a != b,
            forall|j: int|
                0 <= j < old(self)@.len() ==> ((#[trigger] old(self)@[j]).dtnode.next_sibling
                    == Some(a) <==> pa == Some(j as usize)),
            forall|j: int|
                0 <= j < old(self)@.len() ==> ((#[trigger] old(self)@[j]).dtnode.next_sibling
                    == Some(b) <==> pb == Some(j as usize)),
        ensures
            final(self)@.len() == old(self)@.len(),
            forall|j: int|
                0 <= j < old(self)@.len() ==> #[trigger] final(self)@[j] == (DerivationSlot {
                    dtnode: DerivationTreeNode {
                        next_sibling: exchange_link(
                            a as int,
                            b as int,
                            old(self)@[j].dtnode.next_sibling,
                        ),
                        ..old(self)@[j].dtnode
                    },
                    ..old(self)@[j]
                }),
    {
        assert(self.slots.len() == self.slots@.len());
        if let Some(p) = pa {
            let mut slot = self.slots[p];
            slot.dtnode.next_sibling = Some(b);
            self.slots.set(p, slot);
        }
        if let Some(p) = pb {
            let mut slot = self.slots[p];
            slot.dtnode.next_sibling = Some(a);
            self.slots.set(p, slot);
        }
    }

    /// Exchange `a` and `b` where they are previous neighbours. `pa` and `pb`
    /// are the slots of which they are.
    fn exchange_prev_siblings(&mut self, a: usize, b: usize, pa: Option<usize>, pb: Option<usize>)
        requires
            in_range(old(self)@, pa),
            in_range(old(self)@, pb),
            a != b,
            forall|j: int|
                0 <= j < old(self)@.len() ==> ((#[trigger] old(self)@[j]).dtnode.prev_sibling
                    == Some(a) <==> pa == Some(j as usize)),
            forall|j: int|
                0 <= j < old(self)@.len() ==> ((#[trigger] old(self)@[j]).dtnode.prev_sibling
                    == Some(b) <==> pb == Some(j as usize)),
        ensures
            final(self)@.len() == old(self)@.len(),
            forall|j: int|
                0 <= j < old(self)@.len() ==> #[trigger] final(self)@[j] == (DerivationSlot {
                    dtnode: DerivationTreeNode {
                        prev_sibling: exchange_link(
                            a as int,
                            b as int,
                            old(self)@[j].dtnode.prev_sibling,
                        ),
                        ..old(self)@[j].dtnode
                    },
                    ..old(self)@[j]
                }),
    {
        assert(self.slots.len() == self.slots@.len());
        if let Some(p) = pa {
            let mut slot = self.slots[p];
            slot.dtnode.prev_sibling = Some(b);
            self.slots.set(p, slot);
        }
        if let Some(p) = pb {
            let mut slot = self.slots[p];
            slot.dtnode.prev_sibling = Some(a);
            self.slots.set(p, slot);
        }
    }

    /// The slot of which `i` is the first child, if it is one.
    fn first_child_of(&self, i: usize) -> (r: Option<usize>)
        requires
            linked(self@),
            i < self@.len(),
        ensures
            in_range(self@, r),
            forall|j: int|
                0 <= j < self@.len() ==> ((#[trigger] self@[j]).dtnode.first_child == Some(i)
                    <==> r == Some(j as usize)),
    {
        assert(self.slots.len() == self.slots@.len());
        match self.slots[i].dtnode.parent {
            Some(p) => match self.slots[p].dtnode.first_child {
                Some(c) => if c == i {
                    Some(p)
                } else {
                    None
                },
                None => None,
            },
            None => None,
        }
    }

    /// Exchange two capabilities: each takes the other's slot, and keeps its
    /// place in the tree.
    pub fn swap(&mut self, a: usize, b: usize)
        requires
            linked(old(self)@),
            a < old(self)@.len(),
            b < old(self)@.len(),
            a != b,
        ensures
            final(self)@ == swapped(old(self)@, a as int, b as int),
            linked(final(self)@),
    {
        let ghost s = self@;
        let na = self.slots[a].dtnode;
        let nb = self.slots[b].dtnode;
        let pa = self.first_child_of(a);
        let pb = self.first_child_of(b);

        self.set_parents(a, Some(b));
        let ghost s1 = self@;
        self.set_parents(b, Some(a));
        proof {
            lemma_swap_parents(s, s1, self@, a as int, b as int);
        }
        self.exchange_first_children(a, b, pa, pb);
        self.exchange_next_siblings(a, b, na.prev_sibling, nb.prev_sibling);
        self.exchange_prev_siblings(a, b, na.next_sibling, nb.next_sibling);

        let slot_a = self.slots[a];
        let slot_b = self.slots[b];
        self.slots.set(a, slot_b);
        self.slots.set(b, slot_a);
        proof {
            assert(self@ =~= swapped(s, a as int, b as int));
            lemma_swapped_linked(s, a as int, b as int);
        }
    }

    /// Slots for the given capabilities, linked to nothing.
    pub fn new(caps: Vec<C>) -> (r: Self)
        ensures
            r@ == Seq::new(
                caps@.len(),
                |i: int| DerivationSlot { cap: caps@[i], dtnode: DerivationTreeNode::alone() },
            ),
            linked(r@),
    {
        let mut slots: Vec<DerivationSlot<C>> = Vec::new();
        let mut i: usize = 0;
        assert(caps.len() == caps@.len());
        while i < caps.len()
            invariant
                i <= caps@.len(),
                slots@.len() == i,
                forall|k: int|
                    0 <= k < i ==> #[trigger] slots@[k] == (DerivationSlot {
                        cap: caps@[k],
                        dtnode: DerivationTreeNode::alone(),
                    }),
            decreases caps@.len() - i,
        {
            slots.push(DerivationSlot { cap: caps[i], dtnode: DerivationTreeNode::default() });
            i += 1;
        }
        let tree = DerivationTree { slots };
        assert(tree@ =~= Seq::new(
            caps@.len(),
            |i: int| DerivationSlot { cap: caps@[i], dtnode: DerivationTreeNode::alone() },
        ));
        tree
    }

    /// The capability in a slot.
    pub fn cap(&self, i: usize) -> (r: C)
        requires
            i < self@.len(),
        ensures
            r == self@[i as int].cap,
    {
        self.slots[i].cap
    }

    /// The links of a slot.
    pub fn dtnode(&self, i: usize) -> (r: DerivationTreeNode)
        requires
            i < self@.len(),
        ensures
            r == self@[i as int].dtnode,
    {
        self.slots[i].dtnode
    }

    /// Make `child` the first child of `parent`. It must not have a parent, nor
    /// be `parent` itself, nor have neighbours if `parent` has children.
    pub fn add_child(&mut self, parent: usize, child: usize)
        requires
            linked(old(self)@),
            parent < old(self)@.len(),
            child < old(self)@.len(),
            parent != child,
            old(self)@[child as int].dtnode.parent is None,
            old(self)@[parent as int].dtnode.first_child is Some ==> {
                &&& old(self)@[child as int].dtnode.next_sibling is None
                &&& old(self)@[child as int].dtnode.prev_sibling is None
            },
        ensures
            final(self)@ == child_added(old(self)@, parent as int, child as int),
            old(self)@[child as int].dtnode.next_sibling is None
                && old(self)@[child as int].dtnode.prev_sibling is None ==> linked(final(self)@),
    {
        let mut parent_slot = self.slots[parent];
        let mut child_slot = self.slots[child];
        let first = parent_slot.dtnode.first_child;
        parent_slot.dtnode.first_child = Some(child);
        child_slot.dtnode.parent = Some(parent);
        if let Some(next) = first {
            assert(self@[next as int].dtnode.parent == Some(parent));
            child_slot.dtnode.next_sibling = Some(next);
            if next == parent {
                parent_slot.dtnode.prev_sibling = Some(child);
            } else {
                let mut next_slot = self.slots[next];
                next_slot.dtnode.prev_sibling = Some(child);
                self.slots.set(next, next_slot);
            }
        }
        self.slots.set(parent, parent_slot);
        self.slots.set(child, child_slot);
        assert(self@ =~= child_added(old(self)@, parent as int, child as int));
    }

    /// Delete the capability in a slot: put `empty` in its place, and take the
    /// slot out of the tree. Its children are left without a parent, and its
    /// neighbours without a neighbour on that side.
    pub fn delete(&mut self, x: usize, empty: C)
        requires
            linked(old(self)@),
            x < old(self)@.len(),
        ensures
            final(self)@ == deleted(old(self)@, x as int, empty),
            linked(final(self)@),
    {
        let ghost s = self@;
        assert(self.slots.len() == self.slots@.len());
        let node = self.slots[x].dtnode;
        let owner = self.first_child_of(x);
        self.set_parents(x, None);
        if let Some(p) = owner {
            let mut slot = self.slots[p];
            slot.dtnode.first_child = node.next_sibling;
            self.slots.set(p, slot);
        }
        if let Some(next) = node.next_sibling {
            let mut slot = self.slots[next];
            slot.dtnode.prev_sibling = None;
            self.slots.set(next, slot);
        }
        if let Some(prev) = node.prev_sibling {
            let mut slot = self.slots[prev];
            slot.dtnode.next_sibling = None;
            self.slots.set(prev, slot);
        }
        self.slots.set(x, DerivationSlot { cap: empty, dtnode: DerivationTreeNode::default() });
        proof {
            assert(self@ =~= deleted(s, x as int, empty));
            lemma_deleted_linked(s, x as int, empty);
        }
    }

    /// The children in the list of a slot, the first one first.
    pub fn children(&self, x: usize) -> (r: Vec<usize>)
        requires
            linked(self@),
            x < self@.len(),
        ensures
            forall|k: int|
                0 <= k < r@.len() ==> Some(#[trigger] r@[k]) == nth(
                    self@,
                    self@[x as int].dtnode.first_child,
                    k as nat,
                ),
            nth(self@, self@[x as int].dtnode.first_child, r@.len()) is None,
    {
        let ghost s = self@;
        let ghost first = s[x as int].dtnode.first_child;
        let mut list: Vec<usize> = Vec::new();
        let mut child: Option<usize> = self.slots[x].dtnode.first_child;
        while child.is_some()
            invariant
                linked(s),
                s == self@,
                x < s.len(),
                first == s[x as int].dtnode.first_child,
                child == nth(s, first, list@.len()),
                list@.len() <= s.len(),
                forall|k: int|
                    0 <= k < list@.len() ==> Some(#[trigger] list@[k]) == nth(
                        s,
                        first,
                        k as nat,
                    ),
            decreases s.len() - list@.len(),
        {
            proof {
                lemma_nth_back(s, x as int, list@.len());
                lemma_nth_bound(s, x as int, list@.len());
            }
            let c: usize = child.unwrap();
            list.push(c);
            child = self.slots[c].dtnode.next_sibling;
        }
        list
    }

    /// Follow the parents of `other` upwards: whether they come back to
    /// `other`. They have to end there or at a slot without a parent.
    pub fn is_ancestor_of(&self, other: usize) -> (r: bool)
        requires
            linked(self@),
            other < self@.len(),
            exists|k: nat| #[trigger] climb_ends(self@, other, k),
        ensures
            r <==> exists|k: nat| k > 0 && #[trigger] climb(self@, other, k) == Some(other),
    {
        let ghost s = self@;
        let ghost bound = choose|k: nat| #[trigger] climb_ends(s, other, k);
        let ghost mut k: nat = 0;
        let mut node = self.slots[other].dtnode;
        while node.parent.is_some()
            invariant
                linked(s),
                s == self@,
                other < s.len(),
                climb_ends(s, other, bound),
                climb(s, other, k) is Some,
                climb(s, other, k)->0 < s.len(),
                node == s[climb(s, other, k)->0 as int].dtnode,
                k < bound,
                forall|j: nat| 0 < j <= k ==> #[trigger] climb(s, other, j) != Some(other),
                forall|j: nat| j <= k ==> #[trigger] climb(s, other, j) is Some,
            decreases bound - k,
        {
            let parent: usize = node.parent.unwrap();
            assert(climb(s, other, k + 1) == Some(parent));
            if parent == other {
                return true;
            }
            proof {
                if k + 1 == bound {
                    assert(climb(s, other, bound) is Some);
                }
                k = k + 1;
            }
            node = self.slots[parent].dtnode;
        }
        assert(climb(s, other, k + 1) is None);
        assert forall|j: nat| j > 0 implies #[trigger] climb(s, other, j) != Some(other) by {
            if j > k {
                lemma_climb_none(s, other, k + 1, j);
            }
        }
        false
    }
}

/// The slot that is `k` parents above `i`.
pub open spec fn climb<C>(s: Seq<DerivationSlot<C>>, i: usize, k: nat) -> Option<usize>
    decreases k,
{
    if k == 0 {
        Some(i)
    } else {
        match climb(s, i, (k - 1) as nat) {
            Some(p) => s[p as int].dtnode.parent,
            None => None,
        }
    }
}

/// Whether following the parents of `i` ends, or is back at `i`, after `k`
/// steps.
pub open spec fn climb_ends<C>(s: Seq<DerivationSlot<C>>, i: usize, k: nat) -> bool {
    k > 0 && (climb(s, i, k) is None || climb(s, i, k) == Some(i))
}

proof fn lemma_climb_none<C>(s: Seq<DerivationSlot<C>>, i: usize, k: nat, j: nat)
    requires
        climb(s, i, k) is None,
        k <= j,
    ensures
        climb(s, i, j) is None,
    decreases j,
{
    if k < j {
        lemma_climb_none(s, i, k, (j - 1) as nat);
    }
}

/// The slots once `c` has become the first child of `p`.
pub open spec fn child_added<C>(s: Seq<DerivationSlot<C>>, p: int, c: int) -> Seq<
    DerivationSlot<C>,
> {
    let first = s[p].dtnode.first_child;
    Seq::new(
        s.len(),
        |i: int|
            DerivationSlot {
                cap: s[i].cap,
                dtnode: DerivationTreeNode {
                    first_child: if i == p {
                        Some(c as usize)
                    } else {
                        s[i].dtnode.first_child
                    },
                    parent: if i == c {
                        Some(p as usize)
                    } else {
                        s[i].dtnode.parent
                    },
                    next_sibling: if i == c && first is Some {
                        first
                    } else {
                        s[i].dtnode.next_sibling
                    },
                    prev_sibling: if first == Some(i as usize) {
                        Some(c as usize)
                    } else {
                        s[i].dtnode.prev_sibling
                    },
                },
            },
    )
}

/// The slots once the capability in `x` has been deleted.
pub open spec fn deleted<C>(s: Seq<DerivationSlot<C>>, x: int, empty: C) -> Seq<
    DerivationSlot<C>,
> {
    Seq::new(
        s.len(),
        |i: int|
            if i == x {
                DerivationSlot { cap: empty, dtnode: DerivationTreeNode::alone() }
            } else {
                DerivationSlot {
                    cap: s[i].cap,
                    dtnode: DerivationTreeNode {
                        first_child: if s[i].dtnode.first_child == Some(x as usize) {
                            s[x].dtnode.next_sibling
                        } else {
                            s[i].dtnode.first_child
                        },
                        parent: if listed(s, x, i) {
                            None
                        } else {
                            s[i].dtnode.parent
                        },
                        next_sibling: if s[i].dtnode.next_sibling == Some(x as usize) {
                            None
                        } else {
                            s[i].dtnode.next_sibling
                        },
                        prev_sibling: if s[i].dtnode.prev_sibling == Some(x as usize) {
                            None
                        } else {
                            s[i].dtnode.prev_sibling
                        },
                    },
                }
            },
    )
}

/// Deleting a capability keeps the links in agreement.
proof fn lemma_deleted_linked<C>(s: Seq<DerivationSlot<C>>, x: int, empty: C)
    requires
        linked(s),
        0 <= x < s.len(),
    ensures
        linked(deleted(s, x, empty)),
{
    let t = deleted(s, x, empty);
    assert forall|i: int| 0 <= i < t.len() implies {
        let n = (#[trigger] t[i]).dtnode;
        &&& in_range(t, n.first_child)
        &&& in_range(t, n.parent)
        &&& in_range(t, n.next_sibling)
        &&& in_range(t, n.prev_sibling)
        &&& n.first_child matches Some(c) ==> t[c as int].dtnode.prev_sibling is None
            && t[c as int].dtnode.parent == Some(i as usize)
        &&& n.next_sibling matches Some(d) ==> t[d as int].dtnode.prev_sibling == Some(i as usize)
            && t[d as int].dtnode.parent == n.parent
        &&& n.prev_sibling matches Some(c) ==> t[c as int].dtnode.next_sibling == Some(i as usize)
    } by {
        if i != x {
            let o = s[i].dtnode;
            if let Some(c) = t[i].dtnode.first_child {
                if listed(s, x, c as int) {
                    lemma_listed(s, x, c as int);
                }
            }
            if let Some(d) = o.next_sibling {
                assert(s[d as int].dtnode.prev_sibling == Some(i as usize));
                if listed(s, x, i) {
                    lemma_listed(s, x, i);
                }
                if listed(s, x, d as int) {
                    lemma_listed(s, x, d as int);
                }
            }
            if let Some(c) = o.prev_sibling {
                assert(s[c as int].dtnode.next_sibling == Some(i as usize));
            }
        }
    }
}

/// The parent that the slot `j` has once the capabilities in `a` and `b` are
/// exchanged: the slots in the list of one now belong to the other slot.
pub open spec fn swapped_parent<C>(s: Seq<DerivationSlot<C>>, a: int, b: int, j: int) -> Option<
    usize,
> {
    if listed(s, a, j) {
        Some(b as usize)
    } else if listed(s, b, j) {
        Some(a as usize)
    } else {
        s[j].dtnode.parent
    }
}

/// The slots once the capabilities in `a` and `b` are exchanged.
pub open spec fn swapped<C>(s: Seq<DerivationSlot<C>>, a: int, b: int) -> Seq<DerivationSlot<C>> {
    Seq::new(
        s.len(),
        |i: int|
            {
                let j = exchange(a, b, i);
                DerivationSlot {
                    cap: s[j].cap,
                    dtnode: DerivationTreeNode {
                        first_child: exchange_link(a, b, s[j].dtnode.first_child),
                        parent: swapped_parent(s, a, b, j),
                        next_sibling: exchange_link(a, b, s[j].dtnode.next_sibling),
                        prev_sibling: exchange_link(a, b, s[j].dtnode.prev_sibling),
                    },
                }
            },
    )
}

/// The slots in the list of a slot point back to it.
proof fn lemma_listed_parent<C>(s: Seq<DerivationSlot<C>>, p: int, k: nat)
    requires
        linked(s),
        0 <= p < s.len(),
        nth(s, s[p].dtnode.first_child, k) is Some,
    ensures
        nth(s, s[p].dtnode.first_child, k)->0 < s.len(),
        s[nth(s, s[p].dtnode.first_child, k)->0 as int].dtnode.parent == Some(p as usize),
    decreases k,
{
    lemma_nth_back(s, p, k);
    if k > 0 {
        lemma_listed_parent(s, p, (k - 1) as nat);
        let c = nth(s, s[p].dtnode.first_child, (k - 1) as nat)->0;
        assert(s[c as int].dtnode.next_sibling == nth(s, s[p].dtnode.first_child, k));
    }
}

proof fn lemma_listed<C>(s: Seq<DerivationSlot<C>>, p: int, c: int)
    requires
        linked(s),
        0 <= p < s.len(),
        0 <= c < s.len(),
        listed(s, p, c),
    ensures
        s[c].dtnode.parent == Some(p as usize),
        s[c].dtnode.prev_sibling is None ==> s[p].dtnode.first_child == Some(c as usize),
        s[c].dtnode.next_sibling matches Some(d) ==> listed(s, p, d as int),
        s[c].dtnode.prev_sibling matches Some(d) ==> listed(s, p, d as int),
{
    let first = s[p].dtnode.first_child;
    let k = choose|k: nat| #[trigger] nth(s, first, k) == Some(c as usize);
    lemma_listed_parent(s, p, k);
    lemma_nth_back(s, p, k);
    assert(nth(s, first, k + 1) == s[c].dtnode.next_sibling);
    if k > 0 {
        assert(nth(s, first, (k - 1) as nat) == s[c].dtnode.prev_sibling);
    }
}

/// The parents, once those of the children of both slots have been exchanged.
proof fn lemma_swap_parents<C>(
    s: Seq<DerivationSlot<C>>,
    s1: Seq<DerivationSlot<C>>,
    s2: Seq<DerivationSlot<C>>,
    a: int,
    b: int,
)
    requires
        linked(s),
        0 <= a < s.len(),
        0 <= b < s.len(),
        a != b,
        s1.len() == s.len(),
        s2.len() == s.len(),
        forall|i: int|
            0 <= i < s.len() ==> #[trigger] s1[i] == if listed(s, a, i) {
                with_parent(s[i], Some(b as usize))
            } else {
                s[i]
            },
        forall|i: int|
            0 <= i < s.len() ==> #[trigger] s2[i] == if listed(s1, b, i) {
                with_parent(s1[i], Some(a as usize))
            } else {
                s1[i]
            },
    ensures
        forall|i: int|
            0 <= i < s.len() ==> #[trigger] s2[i] == with_parent(
                s[i],
                swapped_parent(s, a, b, i),
            ),
{
    let first = s[b].dtnode.first_child;
    assert(s1[b].dtnode.first_child == first);
    assert forall|i: int| 0 <= i < s.len() implies #[trigger] s2[i] == with_parent(
        s[i],
        swapped_parent(s, a, b, i),
    ) by {
        assert forall|k: nat| #[trigger] nth(s1, first, k) == nth(s, first, k) by {
            lemma_nth_same(s, s1, first, k);
        }
        assert(listed(s1, b, i) == listed(s, b, i)) by {
            if listed(s1, b, i) {
                let k = choose|k: nat| #[trigger] nth(s1, first, k) == Some(i as usize);
                assert(nth(s, first, k) == Some(i as usize));
            }
            if listed(s, b, i) {
                let k = choose|k: nat| #[trigger] nth(s, first, k) == Some(i as usize);
                assert(nth(s1, first, k) == Some(i as usize));
            }
        }
        if listed(s, a, i) {
            lemma_listed(s, a, i);
        }
        if listed(s, b, i) {
            lemma_listed(s, b, i);
        }
    }
}

/// Exchanging two capabilities keeps the links in agreement.
proof fn lemma_swapped_linked<C>(s: Seq<DerivationSlot<C>>, a: int, b: int)
    requires
        linked(s),
        0 <= a < s.len(),
        0 <= b < s.len(),
        a != b,
    ensures
        linked(swapped(s, a, b)),
{
    let t = swapped(s, a, b);
    assert forall|i: int| 0 <= i < t.len() implies {
        let n = (#[trigger] t[i]).dtnode;
        &&& in_range(t, n.first_child)
        &&& in_range(t, n.parent)
        &&& in_range(t, n.next_sibling)
        &&& in_range(t, n.prev_sibling)
        &&& n.first_child matches Some(c) ==> t[c as int].dtnode.prev_sibling is None
            && t[c as int].dtnode.parent == Some(i as usize)
        &&& n.next_sibling matches Some(d) ==> t[d as int].dtnode.prev_sibling == Some(i as usize)
            && t[d as int].dtnode.parent == n.parent
        &&& n.prev_sibling matches Some(c) ==> t[c as int].dtnode.next_sibling == Some(i as usize)
    } by {
        let j = exchange(a, b, i);
        let o = s[j].dtnode;
        if let Some(c) = o.first_child {
            assert(nth(s, s[j].dtnode.first_child, 0) == Some(c));
            assert(listed(s, j, c as int));
            if listed(s, a, c as int) {
                lemma_listed(s, a, c as int);
            }
            if listed(s, b, c as int) {
                lemma_listed(s, b, c as int);
            }
        }
        if let Some(d) = o.next_sibling {
            assert(s[d as int].dtnode.prev_sibling == Some(j as usize));
            if listed(s, a, j) {
                lemma_listed(s, a, j);
            }
            if listed(s, b, j) {
                lemma_listed(s, b, j);
            }
            if listed(s, a, d as int) {
                lemma_listed(s, a, d as int);
            }
            if listed(s, b, d as int) {
                lemma_listed(s, b, d as int);
            }
        }
        if let Some(c) = o.prev_sibling {
            assert(s[c as int].dtnode.next_sibling == Some(j as usize));
        }
    }
}

/// Lists keep their order when two capabilities are exchanged.
proof fn lemma_swapped_nth<C>(
    s: Seq<DerivationSlot<C>>,
    a: int,
    b: int,
    start: Option<usize>,
    k: nat,
)
    requires
        linked(s),
        0 <= a < s.len(),
        0 <= b < s.len(),
        a != b,
        in_range(s, start),
    ensures
        nth(swapped(s, a, b), exchange_link(a, b, start), k) == exchange_link(
            a,
            b,
            nth(s, start, k),
        ),
        in_range(s, nth(s, start, k)),
    decreases k,
{
    if k > 0 {
        lemma_swapped_nth(s, a, b, start, (k - 1) as nat);
    }
}

/// Exchanging two capabilities changes the places of slots, and nothing about
/// who is whose child: `c` is in the list of `p` if and only if it is so where
/// the two now are.
pub proof fn law_swap_keeps_children<C>(
    s: Seq<DerivationSlot<C>>,
    a: int,
    b: int,
    p: int,
    c: int,
)
    requires
        linked(s),
        0 <= a < s.len(),
        0 <= b < s.len(),
        a != b,
        0 <= p < s.len(),
        0 <= c < s.len(),
    ensures
        listed(swapped(s, a, b), exchange(a, b, p), exchange(a, b, c)) == listed(s, p, c),
{
    let t = swapped(s, a, b);
    let q = exchange(a, b, p);
    let d = exchange(a, b, c);
    let first = s[p].dtnode.first_child;
    assert(t[q].dtnode.first_child == exchange_link(a, b, first));
    if listed(s, p, c) {
        let k = choose|k: nat| #[trigger] nth(s, first, k) == Some(c as usize);
        lemma_swapped_nth(s, a, b, first, k);
        assert(nth(t, t[q].dtnode.first_child, k) == Some(d as usize));
    }
    if listed(t, q, d) {
        let k = choose|k: nat| #[trigger] nth(t, t[q].dtnode.first_child, k) == Some(d as usize);
        lemma_swapped_nth(s, a, b, first, k);
        assert(nth(s, first, k) == Some(c as usize));
    }
}

proof fn lemma_exchange_twice(a: int, b: int, link: Option<usize>)
    requires
        0 <= a <= usize::MAX,
        0 <= b <= usize::MAX,
    ensures
        exchange_link(a, b, exchange_link(a, b, link)) == link,
{
}

proof fn lemma_swap_twice_parent<C>(s: Seq<DerivationSlot<C>>, a: int, b: int, i: int)
    requires
        linked(s),
        0 <= a < s.len(),
        0 <= b < s.len(),
        a != b,
        0 <= i < s.len(),
    ensures
        swapped_parent(swapped(s, a, b), a, b, exchange(a, b, i)) == s[i].dtnode.parent,
{
    let t = swapped(s, a, b);
    let j = exchange(a, b, i);
    law_swap_keeps_children(s, a, b, b, i);
    law_swap_keeps_children(s, a, b, a, i);
    assert(t[j].dtnode.parent == swapped_parent(s, a, b, i));
    if listed(s, a, i) {
        lemma_listed(s, a, i);
    }
    if listed(s, b, i) {
        lemma_listed(s, b, i);
    }
}

/// Exchanging two capabilities twice changes nothing.
pub proof fn law_swap_twice<C>(s: Seq<DerivationSlot<C>>, a: int, b: int)
    requires
        linked(s),
        0 <= a < s.len(),
        0 <= b < s.len(),
        a != b,
    ensures
        swapped(swapped(s, a, b), a, b) == s,
{
    let t = swapped(s, a, b);
    let u = swapped(t, a, b);
    assert forall|i: int| 0 <= i < s.len() implies #[trigger] u[i] == s[i] by {
        let n = s[i].dtnode;
        lemma_swap_twice_parent(s, a, b, i);
        lemma_exchange_twice(a, b, n.first_child);
        lemma_exchange_twice(a, b, n.next_sibling);
        lemma_exchange_twice(a, b, n.prev_sibling);
        let j = exchange(a, b, i);
        assert(exchange(a, b, j) == i);
        assert(t[j].cap == s[i].cap);
        assert(t[j].dtnode.first_child == exchange_link(a, b, n.first_child));
        assert(t[j].dtnode.next_sibling == exchange_link(a, b, n.next_sibling));
        assert(t[j].dtnode.prev_sibling == exchange_link(a, b, n.prev_sibling));
        assert(u[i].dtnode.first_child == n.first_child);
    }
    assert(u =~= s);
}

/// A slot whose capability has been deleted is linked to nothing, and nothing
/// in the lists of the other slots leads to it.
pub proof fn law_deleted_is_unlisted<C>(s: Seq<DerivationSlot<C>>, x: int, empty: C, p: int)
    requires
        linked(s),
        0 <= x < s.len(),
        0 <= p < s.len(),
    ensures
        deleted(s, x, empty)[x].dtnode == DerivationTreeNode::alone(),
        !listed(deleted(s, x, empty), p, x),
{
    let t = deleted(s, x, empty);
    lemma_deleted_linked(s, x, empty);
    if listed(t, p, x) {
        lemma_listed(t, p, x);
    }
}

/// To add a child leaves the rest of each list as it is.
proof fn lemma_add_child_rest<C>(s: Seq<DerivationSlot<C>>, p: int, c: int, q: int, k: nat)
    requires
        linked(s),
        0 <= p < s.len(),
        0 <= c < s.len(),
        p != c,
        s[c].dtnode.parent is None,
        0 <= q < s.len(),
    ensures
        nth(child_added(s, p, c), s[q].dtnode.first_child, k) == nth(
            s,
            s[q].dtnode.first_child,
            k,
        ),
    decreases k,
{
    if k > 0 {
        lemma_add_child_rest(s, p, c, q, (k - 1) as nat);
        if nth(s, s[q].dtnode.first_child, (k - 1) as nat) is Some {
            lemma_listed_parent(s, q, (k - 1) as nat);
        }
    }
}

/// The list of which a new slot is the first is that slot and the list behind it.
proof fn lemma_list_behind<C>(s: Seq<DerivationSlot<C>>, c: usize, k: nat)
    ensures
        nth(s, Some(c), k + 1) == nth(s, s[c as int].dtnode.next_sibling, k),
    decreases k,
{
    if k > 0 {
        lemma_list_behind(s, c, (k - 1) as nat);
    } else {
        reveal_with_fuel(nth, 2);
    }
}

/// A child that is added becomes the first in the list of its parent; those that
/// were in the list follow it, in the same order. All other lists stay as they
/// are.
pub proof fn law_add_child_is_first<C>(s: Seq<DerivationSlot<C>>, p: int, c: int)
    requires
        linked(s),
        0 <= p < s.len(),
        0 <= c < s.len(),
        p != c,
        s[c].dtnode.parent is None,
        s[c].dtnode.next_sibling is None,
        s[c].dtnode.prev_sibling is None,
    ensures
        ({
            let t = child_added(s, p, c);
            &&& nth(t, t[p].dtnode.first_child, 0) == Some(c as usize)
            &&& forall|k: nat|
                nth(t, t[p].dtnode.first_child, k + 1) == #[trigger] nth(
                    s,
                    s[p].dtnode.first_child,
                    k,
                )
            &&& forall|q: int, k: nat|
                0 <= q < s.len() && q != p ==> #[trigger] nth(t, t[q].dtnode.first_child, k) == nth(
                    s,
                    s[q].dtnode.first_child,
                    k,
                )
        }),
{
    let t = child_added(s, p, c);
    assert forall|k: nat|
        nth(t, t[p].dtnode.first_child, k + 1) == #[trigger] nth(s, s[p].dtnode.first_child, k) by {
        lemma_list_behind(t, c as usize, k);
        lemma_add_child_rest(s, p, c, p, k);
    }
    assert forall|q: int, k: nat| 0 <= q < s.len() && q != p implies #[trigger] nth(
        t,
        t[q].dtnode.first_child,
        k,
    ) == nth(s, s[q].dtnode.first_child, k) by {
        lemma_add_child_rest(s, p, c, q, k);
    }
}

} // verus!
