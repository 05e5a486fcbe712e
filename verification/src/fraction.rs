//! Exact fractions of non-negative integers.

use vstd::prelude::*;

verus! {

/// The fraction `num / den`. It is proper where `den` is positive.
#[derive(Clone, Copy, Debug, PartialEq, Eq, Structural)]
pub struct Fraction {
    pub num: u64,
    pub den: u64,
}

impl Fraction {
    /// The denominator is not zero.
    pub open spec fn is_proper(self) -> bool {
        self.den > 0
    }

    /// This fraction is strictly smaller than `other`.
    pub open spec fn less_than(self, other: Fraction) -> bool {
        self.num * other.den < other.num * self.den
    }

    /// The fraction is zero.
    pub open spec fn is_zero(self) -> bool {
        self.num == 0
    }

    /// The fraction is strictly below one.
    pub open spec fn below_one(self) -> bool {
        self.num < self.den
    }
}

} // verus!
