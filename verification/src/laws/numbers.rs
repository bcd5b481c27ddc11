//! Doubles: which patterns are numbers, how they are ordered, and what they stand for.
use crate::double::{law_pattern_order, magnitude, unit, Double};
use vstd::arithmetic::power2::{
    lemma2_to64, lemma2_to64_rest, lemma_pow2_adds, lemma_pow2_unfold, pow2,
};
use vstd::prelude::*;

verus! {

/// A pattern is "not a number" exactly if its exponent bits are all ones and its fraction is not
/// zero, whatever its sign.
pub proof fn law_nan_patterns(d: Double)
    ensures
        d.is_nan() <==> d.bits % 0x8000_0000_0000_0000 / 0x10_0000_0000_0000 == 0x7ff && d.bits
            % 0x10_0000_0000_0000 != 0,
{
}

/// Doubles that are numbers are ordered as their bits are, with the order turned round where the
/// sign bit is set; the two zeros are equal, and nothing is ordered with what is not a number.
pub proof fn law_order_of_patterns(a: Double, b: Double)
    ensures
        ({
            let x = if a.bits >= 0x8000_0000_0000_0000 {
                0x8000_0000_0000_0000 - a.bits
            } else {
                a.bits as int
            };
            let y = if b.bits >= 0x8000_0000_0000_0000 {
                0x8000_0000_0000_0000 - b.bits
            } else {
                b.bits as int
            };
            let numbers = -0x7ff0_0000_0000_0000 <= x <= 0x7ff0_0000_0000_0000
                && -0x7ff0_0000_0000_0000 <= y <= 0x7ff0_0000_0000_0000;
            &&& a.below(b) <==> numbers && x < y
            &&& a.at_most(b) <==> numbers && x <= y
            &&& a.equals(b) <==> numbers && x == y
        }),
{
    let p = a.unsigned_pattern();
    let q = b.unsigned_pattern();
    law_pattern_order(p, q);
    law_pattern_order(q, p);
    law_pattern_order(0, p);
    law_pattern_order(0, q);
    assert(magnitude(0) == 0);
}

/// The steps from one double to the next: below the first power of two they are of one size, and
/// from each power of two to the next they double. Zero is zero, and one is one.
pub proof fn law_steps_between_doubles(pattern: int)
    requires
        0 <= pattern,
    ensures
        magnitude(0) == 0,
        magnitude(0x3ff0_0000_0000_0000) == unit(),
        magnitude(pattern + 1) - magnitude(pattern) == (if pattern < 0x10_0000_0000_0000 {
            1
        } else {
            pow2((pattern / 0x10_0000_0000_0000 - 1) as nat) as int
        }),
{
    let one = 0x10_0000_0000_0000int;
    let e = pattern / one;
    let f = pattern % one;
    lemma2_to64();
    lemma2_to64_rest();
    lemma_pow2_adds(52, 1022);
    if f < one - 1 {
        assert((pattern + 1) / one == e && (pattern + 1) % one == f + 1);
        if e > 0 {
            let p = pow2((e - 1) as nat) as int;
            assert((one + (f + 1)) * p - (one + f) * p == p) by (nonlinear_arith);
        }
    } else {
        assert((pattern + 1) / one == e + 1 && (pattern + 1) % one == 0);
        if e > 0 {
            let p = pow2((e - 1) as nat) as int;
            lemma_pow2_unfold(e as nat);
            assert((one + 0) * (2 * p) - (one + (one - 1)) * p == p) by (nonlinear_arith);
        }
    }
}

/// A sign bit turns a value into its opposite.
pub proof fn law_sign_bit_negates(bits: u64)
    requires
        bits < 0x8000_0000_0000_0000,
    ensures
        (Double { bits: (bits + 0x8000_0000_0000_0000) as u64 }).value() == -(Double {
            bits,
        }).value(),
        (Double { bits }).value() == magnitude(bits as int),
{
}

} // verus!
