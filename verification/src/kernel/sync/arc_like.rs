//! Reference counts.

use vstd::prelude::*;

verus! {

/// Anything that counts the references to what it stands for.
pub trait ArcLike: Sized {
    /// How many references there are.
    spec fn count(&self) -> u64;

    /// What is referred to.
    spec fn referent(&self) -> int;

    /// How many references there are.
    fn refcount(&self) -> (r: u64)
        ensures
            r == self.count(),
    ;

    /// Note how many references there are.
    fn set_refcount(&mut self, n: u64)
        ensures
            final(self).count() == n,
            final(self).referent() == old(self).referent(),
    ;

    /// One more reference. There must not be too many.
    fn increase_refcount(&mut self)
        requires
            old(self).count() <= u64::MAX / 2,
        ensures
            final(self).count() == old(self).count() + 1,
            final(self).referent() == old(self).referent(),
    {
        let n: u64 = self.refcount();
        self.set_refcount(n + 1);
    }

    /// One reference less. Returns whether it was the last, and what was
    /// referred to has to go.
    fn drop_impl(&mut self) -> (r: bool)
        requires
            old(self).count() > 0,
        ensures
            final(self).count() == old(self).count() - 1,
            final(self).referent() == old(self).referent(),
            r == (old(self).count() == 1),
    {
        let n: u64 = self.refcount();
        self.set_refcount(n - 1);
        n == 1
    }
}

} // verus!
