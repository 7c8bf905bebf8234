//! The error of Stirling's formula: which way it is computed.
//!
//! For `n` up to 15 the error is tabulated at the whole and the half
//! numbers and computed from the logarithm of the gamma function
//! elsewhere; above 15 it is a series in `1 / n^2`, the shorter the
//! larger `n` is.

use vstd::prelude::*;
use vstd::arithmetic::power2::{
    lemma2_to64,
    lemma2_to64_rest,
    lemma_pow2_adds,
    lemma_pow2_pos,
    pow2,
};
use crate::double::{
    double,
    is_exactly,
    lemma_magnitude_order,
    lemma_nearest_below,
    Double,
    HIDDEN_BIT,
};
use crate::integral::lemma_whole_of;

verus! {

/// The pattern of 15.
pub const TABLE_END_BITS: u64 = 0x402e_0000_0000_0000;

/// The pattern of 35.
pub const FIVE_TERMS_BITS: u64 = 0x4041_8000_0000_0000;

/// The pattern of 80.
pub const FOUR_TERMS_BITS: u64 = 0x4054_0000_0000_0000;

/// The pattern of 500.
pub const THREE_TERMS_BITS: u64 = 0x407f_4000_0000_0000;

/// The ways to compute the error of Stirling's formula at `n`.
#[derive(Clone, Copy, Debug, PartialEq, Eq, Structural)]
pub enum StirlingCase {
    /// `n` is `index / 2`, from 0 to 15: entry `index` of the table.
    Tabulated { index: usize },
    /// `n` is at most 15 and no half of a whole number: from the
    /// logarithm of the gamma function.
    ByLogGamma,
    /// `n` is above 15 (or NaN): the series with that many terms, from
    /// 5 for `n` up to 35 down to 2 for `n` above 500.
    Series { terms: u8 },
}

/// `n` is a half of a whole number from 0 to 30: its double is that
/// whole number.
pub open spec fn is_half_of(n: Double, index: int) -> bool {
    &&& 0 <= index <= 30
    &&& !n.is_nan()
    &&& 2 * n.value() == index * pow2(1074)
}

/// Twice a double from zero to 15, which is exact.
fn twice(n: Double) -> (r: Double)
    requires
        n.ge(double(0)),
        n.le(double(TABLE_END_BITS)),
    ensures
        r.is_finite(),
        !r.sign(),
        r.magnitude() == 2 * n.magnitude(),
{
    let a: u64 = n.abs().to_bits();
    proof {
        lemma_magnitude_order(n, double(0));
        lemma_magnitude_order(n, double(TABLE_END_BITS));
        lemma2_to64();
        lemma2_to64_rest();
    }
    if a < HIDDEN_BIT {
        // subnormal: the fraction doubles, and may become the hidden bit
        let r = Double::from_bits(2 * a);
        proof {
            assert(n.exponent() == 0 && n.magnitude() == a);
            if 2 * a >= HIDDEN_BIT {
                assert(r.exponent() == 1 && r.fraction() == 2 * a - HIDDEN_BIT);
                assert((HIDDEN_BIT + r.fraction()) * pow2(0) == 2 * a) by (nonlinear_arith)
                    requires
                        pow2(0) == 1,
                        HIDDEN_BIT + r.fraction() == 2 * a,
                ;
            } else {
                assert(r.exponent() == 0 && r.fraction() == 2 * a);
            }
        }
        r
    } else {
        // normal: the exponent goes up by one
        let r = Double::from_bits(a + HIDDEN_BIT);
        proof {
            let e = n.exponent();
            let m = (HIDDEN_BIT + n.fraction()) as int;
            let low = pow2((e - 1) as nat) as int;
            assert(e >= 1);
            assert(r.exponent() == e + 1 && r.fraction() == n.fraction());
            lemma_pow2_adds(1, (e - 1) as nat);
            lemma_pow2_pos((e - 1) as nat);
            assert(pow2(e) == 2 * low);
            assert(m * (2 * low) == 2 * (m * low) && m * low >= 0) by (nonlinear_arith)
                requires
                    low > 0,
                    m >= 0,
            ;
            assert(n.magnitude() == m * low);
            assert(r.magnitude() == m * (2 * low));
        }
        r
    }
}

/// Chooses the way to compute the error of Stirling's formula at `n`.
pub fn stirlerr_case(n: Double) -> (r: StirlingCase)
    ensures
        r matches StirlingCase::Tabulated { index } ==> is_half_of(n, index as int),
        (exists|index: int| is_half_of(n, index)) ==> r is Tabulated,
        r is ByLogGamma ==> n.le(double(TABLE_END_BITS)),
        r matches StirlingCase::Series { terms } ==> !n.le(double(TABLE_END_BITS)) && terms == (
        if n.gt(double(THREE_TERMS_BITS)) {
            2int
        } else if n.gt(double(FOUR_TERMS_BITS)) {
            3int
        } else if n.gt(double(FIVE_TERMS_BITS)) {
            4int
        } else {
            5int
        }),
{
    if n.le(Double::from_bits(TABLE_END_BITS)) {
        proof {
            lemma_pow2_pos(1074);
            lemma_magnitude_order(n, double(0));
            lemma_fifteen();
        }
        if n.ge(Double::from_bits(0)) {
            let nn = twice(n);
            proof {
                lemma_whole_of(nn);
                lemma_magnitude_order(nn, double(0));
            }
            if nn.is_integer() {
                let index: i32 = nn.to_i32();
                proof {
                    crate::integral::lemma_integer_magnitude(nn);
                    assert(nn.whole() * pow2(1074) <= 30 * pow2(1074));
                    assert(nn.whole() <= 30) by (nonlinear_arith)
                        requires
                            nn.whole() * pow2(1074) <= 30 * pow2(1074),
                            pow2(1074) > 0,
                    ;
                }
                return StirlingCase::Tabulated { index: index as usize };
            }
            proof {
                assert forall|index: int| !is_half_of(n, index) by {
                    if is_half_of(n, index) {
                        vstd::arithmetic::div_mod::lemma_mod_multiples_basic(
                            index,
                            pow2(1074) as int,
                        );
                    }
                }
            }
        } else {
            proof {
                assert forall|index: int| !is_half_of(n, index) by {
                    if is_half_of(n, index) {
                        assert(index * pow2(1074) >= 0) by (nonlinear_arith)
                            requires
                                index >= 0,
                                pow2(1074) > 0,
                        ;
                    }
                }
            }
        }
        return StirlingCase::ByLogGamma;
    }
    proof {
        lemma_fifteen();
        lemma_pow2_pos(1074);
        assert forall|index: int| !is_half_of(n, index) by {
            if is_half_of(n, index) {
                lemma_magnitude_order(n, double(0));
                assert(index * pow2(1074) <= 30 * pow2(1074)) by (nonlinear_arith)
                    requires
                        index <= 30,
                        pow2(1074) > 0,
                ;
            }
        }
    }
    if n.gt(Double::from_bits(THREE_TERMS_BITS)) {
        StirlingCase::Series { terms: 2 }
    } else if n.gt(Double::from_bits(FOUR_TERMS_BITS)) {
        StirlingCase::Series { terms: 3 }
    } else if n.gt(Double::from_bits(FIVE_TERMS_BITS)) {
        StirlingCase::Series { terms: 4 }
    } else {
        StirlingCase::Series { terms: 5 }
    }
}

/// The end of the table is 15 exactly.
proof fn lemma_fifteen()
    ensures
        double(TABLE_END_BITS).value() == 15 * pow2(1074),
{
    lemma2_to64_rest();
    assert(double(TABLE_END_BITS).exponent() == 1026);
    assert(double(TABLE_END_BITS).fraction() == 0xe_0000_0000_0000);
    lemma_nearest_below(double(TABLE_END_BITS), 15, 1, 49, 0x2_0000_0000_0000);
    assert(is_exactly(double(TABLE_END_BITS), 15, 1));
}

} // verus!
