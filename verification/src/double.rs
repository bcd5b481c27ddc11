//! IEEE 754 doubles carried by bit pattern.
//!
//! Coordinates, distances and altitudes reach the library as the 64 bits of a double. The
//! library never computes with them in floating point: it orders them, which the encoding
//! allows with integer comparisons, and [`Double::value`] says what number a pattern stands for.
use vstd::arithmetic::power2::{
    lemma_pow2_pos, lemma_pow2_strictly_increases, lemma_pow2_unfold, pow2,
};
use vstd::prelude::*;

verus! {

/// The bit pattern of an IEEE 754 double (`to_bits` gives it, `from_bits` takes it).
#[derive(Debug, Clone, Copy, PartialEq, Eq, Structural)]
pub struct Double {
    pub bits: u64,
}

/// How many of the units that [`Double::value`] counts in make up the number one.
pub open spec fn unit() -> int {
    pow2(1074) as int
}

/// The number that a pattern without its sign bit stands for, in units of 2^-1074. An
/// exponent field of all ones continues the scale, which puts infinity above every number.
pub open spec fn magnitude(pattern: int) -> int {
    let exponent = pattern / 0x10_0000_0000_0000;
    let fraction = pattern % 0x10_0000_0000_0000;
    if exponent == 0 {
        fraction
    } else {
        (0x10_0000_0000_0000 + fraction) * pow2((exponent - 1) as nat)
    }
}

impl Double {
    /// Whether the sign bit is set.
    pub open spec fn negative(self) -> bool {
        self.bits >= 0x8000_0000_0000_0000
    }

    /// The pattern without its sign bit.
    pub open spec fn unsigned_pattern(self) -> int {
        if self.negative() {
            self.bits - 0x8000_0000_0000_0000
        } else {
            self.bits as int
        }
    }

    /// Whether the pattern is one of the "not a number" patterns.
    pub open spec fn is_nan(self) -> bool {
        self.unsigned_pattern() > 0x7ff0_0000_0000_0000
    }

    /// The number that the pattern stands for, in units of 2^-1074 (see [`unit`]): every finite
    /// double is a whole number of them. The two zeros have the same value.
    pub open spec fn value(self) -> int {
        if self.negative() {
            -magnitude(self.unsigned_pattern())
        } else {
            magnitude(self.unsigned_pattern())
        }
    }

    /// `self < other`, which is false when either side is not a number.
    pub open spec fn below(self, other: Double) -> bool {
        !self.is_nan() && !other.is_nan() && self.value() < other.value()
    }

    /// `self <= other`, which is false when either side is not a number.
    pub open spec fn at_most(self, other: Double) -> bool {
        !self.is_nan() && !other.is_nan() && self.value() <= other.value()
    }

    /// `self == other` as numbers, which is false when either side is not a number.
    pub open spec fn equals(self, other: Double) -> bool {
        !self.is_nan() && !other.is_nan() && self.value() == other.value()
    }

    /// The pattern without its sign bit, as [`Double::unsigned_pattern`].
    fn pattern(self) -> (pattern: u64)
        ensures
            pattern == self.unsigned_pattern(),
    {
        if self.bits >= 0x8000_0000_0000_0000 {
            self.bits - 0x8000_0000_0000_0000
        } else {
            self.bits
        }
    }

    /// Whether this is one of the "not a number" patterns.
    pub fn nan(self) -> (r: bool)
        ensures
            r == self.is_nan(),
    {
        self.pattern() > 0x7ff0_0000_0000_0000
    }

    /// The `<` of floating point.
    pub fn lt(self, other: Double) -> (r: bool)
        ensures
            r == self.below(other),
    {
        let a: u64 = self.pattern();
        let b: u64 = other.pattern();
        proof {
            law_pattern_order(a as int, b as int);
            law_pattern_order(b as int, a as int);
            lemma_magnitude_sign(a as int);
            lemma_magnitude_sign(b as int);
        }
        if self.nan() || other.nan() {
            false
        } else if self.bits >= 0x8000_0000_0000_0000 {
            if other.bits >= 0x8000_0000_0000_0000 {
                b < a
            } else {
                a > 0 || b > 0
            }
        } else if other.bits >= 0x8000_0000_0000_0000 {
            false
        } else {
            a < b
        }
    }

    /// The `<=` of floating point.
    pub fn le(self, other: Double) -> (r: bool)
        ensures
            r == self.at_most(other),
    {
        if self.nan() || other.nan() {
            false
        } else {
            !other.lt(self)
        }
    }

    /// The `==` of floating point.
    pub fn same(self, other: Double) -> (r: bool)
        ensures
            r == self.equals(other),
    {
        self.le(other) && other.le(self)
    }

    /// The maximum as floating point has it: a side that is not a number gives way to the other.
    pub fn max(self, other: Double) -> (r: Double)
        ensures
            r == self || r == other,
            self.is_nan() ==> r == other,
            !self.is_nan() && other.is_nan() ==> r == self,
            !self.is_nan() ==> self.at_most(r),
            !other.is_nan() ==> other.at_most(r),
    {
        if self.nan() || self.lt(other) {
            other
        } else {
            self
        }
    }
}

/// The value zero.
pub fn zero() -> (r: Double)
    ensures
        r.bits == 0,
        !r.is_nan(),
        r.value() == 0,
{
    Double { bits: 0 }
}

/// A larger pattern stands for a larger number: doubles of one sign are ordered as their bits are.
pub proof fn law_pattern_order(a: int, b: int)
    requires
        0 <= a,
        0 <= b,
    ensures
        a < b ==> magnitude(a) < magnitude(b),
{
    if a < b {
        let one = 0x10_0000_0000_0000int;
        let ea = a / one;
        let eb = b / one;
        let fa = a % one;
        let fb = b % one;
        assert(ea <= eb);
        if eb == 0 {
        } else if ea == eb {
            assert(fa < fb);
            let p = pow2((ea - 1) as nat) as int;
            lemma_pow2_pos((ea - 1) as nat);
            assert((one + fa) * p < (one + fb) * p) by (nonlinear_arith)
                requires
                    fa < fb,
                    p > 0,
            ;
        } else {
            let q = pow2((eb - 1) as nat) as int;
            lemma_pow2_pos((eb - 1) as nat);
            assert((one + fb) * q >= one * q) by (nonlinear_arith)
                requires
                    fb >= 0,
                    q > 0,
            ;
            if ea == 0 {
                assert(one * q >= one) by (nonlinear_arith)
                    requires
                        q >= 1,
                        one > 0,
                ;
            } else {
                let p = pow2((ea - 1) as nat) as int;
                lemma_pow2_pos((ea - 1) as nat);
                assert(2 * p <= q) by {
                    lemma_pow2_unfold(ea as nat);
                    if ea < eb - 1 {
                        lemma_pow2_strictly_increases(ea as nat, (eb - 1) as nat);
                    }
                }
                assert((one + fa) * p < one * q) by (nonlinear_arith)
                    requires
                        fa < one,
                        p > 0,
                        2 * p <= q,
                        one > 0,
                ;
            }
        }
    }
}

/// Only the pattern zero stands for zero, and no magnitude is negative.
proof fn lemma_magnitude_sign(pattern: int)
    requires
        0 <= pattern,
    ensures
        magnitude(pattern) >= 0,
        magnitude(pattern) == 0 <==> pattern == 0,
{
    assert(magnitude(0) == 0);
    law_pattern_order(0, pattern);
}

} // verus!
