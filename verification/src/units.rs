//! Storage units: conversions between kibibytes, mebibytes, gibibytes and
//! bytes.

use vstd::prelude::*;

verus! {

/// 1 kibibyte (KiB) is 1024 bytes.
pub const KIB: usize = 1024;

/// 1 mebibyte (MiB) is 1024 kibibytes (KiB).
pub const MIB: usize = KIB * KIB;

/// 1 gibibyte (GiB) is 1024 mebibytes (MiB).
pub const GIB: usize = KIB * KIB * KIB;

/// Integral types that can be converted between storage units.
pub trait StorageUnits: Sized {
    /// The number that `self` stands for.
    spec fn count(self) -> int;

    /// The least number that the type can hold.
    spec fn least() -> int;

    /// The greatest number that the type can hold.
    spec fn greatest() -> int;

    /// Convert `self` from kibibytes (KiB) to bytes.
    fn kib(self) -> (r: Self)
        requires
            Self::least() <= self.count() * 1024 <= Self::greatest(),
        ensures
            r.count() == self.count() * 1024,
    ;

    /// Convert `self` from mebibytes (MiB) to bytes.
    fn mib(self) -> (r: Self)
        requires
            Self::least() <= self.count() * 0x10_0000 <= Self::greatest(),
        ensures
            r.count() == self.count() * 0x10_0000,
    ;

    /// Convert `self` from gibibytes (GiB) to bytes.
    fn gib(self) -> (r: Self)
        requires
            Self::least() <= self.count() * 0x4000_0000 <= Self::greatest(),
        ensures
            r.count() == self.count() * 0x4000_0000,
    ;
}

impl StorageUnits for u16 {
    open spec fn count(self) -> int {
        self as int
    }

    open spec fn least() -> int {
        u16::MIN as int
    }

    open spec fn greatest() -> int {
        u16::MAX as int
    }

    #[inline(always)]
    fn kib(self) -> (r: u16) {
        self * 1024
    }

    #[inline(always)]
    fn mib(self) -> (r: u16) {
        self * 1024 * 1024
    }

    #[inline(always)]
    fn gib(self) -> (r: u16) {
        self * 1024 * 1024 * 1024
    }
}

impl StorageUnits for u32 {
    open spec fn count(self) -> int {
        self as int
    }

    open spec fn least() -> int {
        u32::MIN as int
    }

    open spec fn greatest() -> int {
        u32::MAX as int
    }

    #[inline(always)]
    fn kib(self) -> (r: u32) {
        self * 1024
    }

    #[inline(always)]
    fn mib(self) -> (r: u32) {
        self * 1024 * 1024
    }

    #[inline(always)]
    fn gib(self) -> (r: u32) {
        self * 1024 * 1024 * 1024
    }
}

impl StorageUnits for u64 {
    open spec fn count(self) -> int {
        self as int
    }

    open spec fn least() -> int {
        u64::MIN as int
    }

    open spec fn greatest() -> int {
        u64::MAX as int
    }

    #[inline(always)]
    fn kib(self) -> (r: u64) {
        self * 1024
    }

    #[inline(always)]
    fn mib(self) -> (r: u64) {
        self * 1024 * 1024
    }

    #[inline(always)]
    fn gib(self) -> (r: u64) {
        self * 1024 * 1024 * 1024
    }
}

impl StorageUnits for usize {
    open spec fn count(self) -> int {
        self as int
    }

    open spec fn least() -> int {
        usize::MIN as int
    }

    open spec fn greatest() -> int {
        usize::MAX as int
    }

    #[inline(always)]
    fn kib(self) -> (r: usize) {
        self * 1024
    }

    #[inline(always)]
    fn mib(self) -> (r: usize) {
        self * 1024 * 1024
    }

    #[inline(always)]
    fn gib(self) -> (r: usize) {
        self * 1024 * 1024 * 1024
    }
}

impl StorageUnits for i16 {
    open spec fn count(self) -> int {
        self as int
    }

    open spec fn least() -> int {
        i16::MIN as int
    }

    open spec fn greatest() -> int {
        i16::MAX as int
    }

    #[inline(always)]
    fn kib(self) -> (r: i16) {
        self * 1024
    }

    #[inline(always)]
    fn mib(self) -> (r: i16) {
        self * 1024 * 1024
    }

    #[inline(always)]
    fn gib(self) -> (r: i16) {
        self * 1024 * 1024 * 1024
    }
}

impl StorageUnits for i32 {
    open spec fn count(self) -> int {
        self as int
    }

    open spec fn least() -> int {
        i32::MIN as int
    }

    open spec fn greatest() -> int {
        i32::MAX as int
    }

    #[inline(always)]
    fn kib(self) -> (r: i32) {
        self * 1024
    }

    #[inline(always)]
    fn mib(self) -> (r: i32) {
        self * 1024 * 1024
    }

    #[inline(always)]
    fn gib(self) -> (r: i32) {
        self * 1024 * 1024 * 1024
    }
}

impl StorageUnits for i64 {
    open spec fn count(self) -> int {
        self as int
    }

    open spec fn least() -> int {
        i64::MIN as int
    }

    open spec fn greatest() -> int {
        i64::MAX as int
    }

    #[inline(always)]
    fn kib(self) -> (r: i64) {
        self * 1024
    }

    #[inline(always)]
    fn mib(self) -> (r: i64) {
        self * 1024 * 1024
    }

    #[inline(always)]
    fn gib(self) -> (r: i64) {
        self * 1024 * 1024 * 1024
    }
}

impl StorageUnits for isize {
    open spec fn count(self) -> int {
        self as int
    }

    open spec fn least() -> int {
        isize::MIN as int
    }

    open spec fn greatest() -> int {
        isize::MAX as int
    }

    #[inline(always)]
    fn kib(self) -> (r: isize) {
        self * 1024
    }

    #[inline(always)]
    fn mib(self) -> (r: isize) {
        self * 1024 * 1024
    }

    #[inline(always)]
    fn gib(self) -> (r: isize) {
        self * 1024 * 1024 * 1024
    }
}

/// A mebibyte is 1024 kibibytes, and a gibibyte 1024 mebibytes.
pub proof fn law_units_nest<S: StorageUnits>(s: S)
    ensures
        s.count() * 0x10_0000 == (s.count() * 1024) * 1024,
        s.count() * 0x4000_0000 == (s.count() * 0x10_0000) * 1024,
{
}

} // verus!
