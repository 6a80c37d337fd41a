//! The addresses of linked symbols.

use vstd::prelude::*;

verus! {

/// An opaque reference to the address of some linker symbol.
#[derive(Copy, Clone, Debug, PartialEq, Eq, Structural)]
pub struct Symbol {
    addr: u64,
}

impl Symbol {
    /// The address of the symbol.
    pub closed spec fn view(&self) -> u64 {
        self.addr
    }

    /// The symbol at an address.
    pub fn at(addr: u64) -> (r: Self)
        ensures
            r@ == addr,
    {
        Symbol { addr }
    }

    /// The address of this linker symbol.
    pub fn into_usize(&self) -> (r: u64)
        ensures
            r == self@,
    {
        self.addr
    }
}

} // verus!
