//! Token and pool addresses as 160-bit unsigned integers.

use vstd::prelude::*;

verus! {

/// A 20-byte address held as its big-endian value: `hi` holds the upper four
/// bytes and `lo` the lower sixteen. The order of the fields is the order of
/// the bytes, so the derived order is the byte-wise order of the address.
#[derive(Clone, Copy, Debug, PartialEq, Eq, Structural, Hash, PartialOrd, Ord)]
pub struct Address {
    pub hi: u32,
    pub lo: u128,
}

/// 2^128.
pub open spec fn low_modulus() -> int {
    (0x1_0000_0000_0000_0000 * 0x1_0000_0000_0000_0000) as int
}

impl Address {
    /// The numeric value of the address.
    pub open spec fn value(self) -> int {
        self.hi as int * low_modulus() + self.lo as int
    }

    /// Address whose lower eight bytes hold `n` in big-endian order, the
    /// other bytes being zero.
    pub fn from_low_u64_be(n: u64) -> (r: Address)
        ensures
            r.value() == n as int,
    {
        Address { hi: 0, lo: n as u128 }
    }

    /// Whether `self` orders strictly before `other`.
    pub fn lt(&self, other: &Address) -> (r: bool)
        ensures
            r == (self.value() < other.value()),
    {
        proof {
            lemma_value_order(*self, *other);
        }
        self.hi < other.hi || (self.hi == other.hi && self.lo < other.lo)
    }
}

/// Comparing values is comparing `hi` first, then `lo`.
pub proof fn lemma_value_order(a: Address, b: Address)
    ensures
        (a.value() < b.value()) == (a.hi < b.hi || (a.hi == b.hi && a.lo < b.lo)),
        (a.value() == b.value()) == (a == b),
{
    let m = low_modulus();
    if a.hi < b.hi {
        assert(a.hi as int * m + m <= b.hi as int * m) by (nonlinear_arith)
            requires
                a.hi < b.hi,
                m > 0,
        ;
    } else if a.hi > b.hi {
        assert(b.hi as int * m + m <= a.hi as int * m) by (nonlinear_arith)
            requires
                b.hi < a.hi,
                m > 0,
        ;
    }
}

} // verus!
