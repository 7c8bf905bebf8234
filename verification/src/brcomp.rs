//! The factor `x^a y^b / B(a, b)` and the routines around it: which
//! formula applies.

use vstd::prelude::*;
use vstd::arithmetic::div_mod::lemma_fundamental_div_mod;
use vstd::arithmetic::power2::{
    lemma2_to64,
    lemma2_to64_rest,
    lemma_pow2_adds,
    lemma_pow2_pos,
    pow2,
};
use crate::double::{
    double,
    is_exactly,
    is_nearest,
    lemma_magnitude_order,
    lemma_nearest_below,
    Double,
    HALF_BITS,
    NAN_BITS,
    ONE_BITS,
};
use crate::dpq::{r_d__0, zero_probability};
use crate::toms708::{max, max_of, min, min_of};

verus! {

/// The pattern of 8.
pub const EIGHT_BITS: u64 = 0x4020_0000_0000_0000;

/// The pattern of 0.375.
pub const THREE_EIGHTHS_BITS: u64 = 0x3fd8_0000_0000_0000;

/// The pattern of 0.25.
pub const QUARTER_BITS: u64 = 0x3fd0_0000_0000_0000;

/// The pattern of 1.1.
pub const TAYLOR_BELOW_BITS: u64 = 0x3ff1_9999_9999_999a;

/// The formulas for `1 / B(a, b)`, by the lesser parameter `a0` and the
/// greater `b0`.
#[derive(Clone, Copy, Debug, PartialEq, Eq, Structural)]
pub enum FactorCase {
    /// `a0 >= 8`: the expansion for two large parameters.
    BothLarge,
    /// `1 <= a0 < 8`: the logarithm of the beta function.
    LesserAtLeastOne,
    /// `a0 < 1` and `b0 >= 8`.
    SmallWithLarge,
    /// `a0 < 1` and `b0 <= 1`.
    BothAtMostOne,
    /// `a0 < 1 < b0 < 8`: `b0` is reduced by whole steps into `(0, 1]`.
    SmallWithMiddle,
}

/// The formula for the parameters `a` and `b`.
pub open spec fn factor_case_of(a: Double, b: Double) -> FactorCase {
    let a0 = min_of(a, b);
    let b0 = max_of(a, b);
    if !a0.lt(double(EIGHT_BITS)) {
        FactorCase::BothLarge
    } else if a0.ge(double(ONE_BITS)) {
        FactorCase::LesserAtLeastOne
    } else if b0.ge(double(EIGHT_BITS)) {
        FactorCase::SmallWithLarge
    } else if b0.le(double(ONE_BITS)) {
        FactorCase::BothAtMostOne
    } else {
        FactorCase::SmallWithMiddle
    }
}

/// Chooses the formula for `1 / B(a, b)`.
pub fn factor_case(a: Double, b: Double) -> (r: FactorCase)
    ensures
        r == factor_case_of(a, b),
{
    let a0 = min(a, b);
    let b0 = max(a, b);
    if !a0.lt(Double::from_bits(EIGHT_BITS)) {
        FactorCase::BothLarge
    } else if a0.ge(Double::from_bits(ONE_BITS)) {
        FactorCase::LesserAtLeastOne
    } else if b0.ge(Double::from_bits(EIGHT_BITS)) {
        FactorCase::SmallWithLarge
    } else if b0.le(Double::from_bits(ONE_BITS)) {
        FactorCase::BothAtMostOne
    } else {
        FactorCase::SmallWithMiddle
    }
}

/// For parameters that are not NaN the five cases are what their names
/// say of the two parameters themselves.
pub proof fn lemma_factor_case(a: Double, b: Double)
    requires
        !a.is_nan(),
        !b.is_nan(),
    ensures
        ({
            let c = factor_case_of(a, b);
            let one = double(ONE_BITS);
            let eight = double(EIGHT_BITS);
            &&& c == FactorCase::BothLarge <==> a.ge(eight) && b.ge(eight)
            &&& c == FactorCase::LesserAtLeastOne <==> a.ge(one) && b.ge(one) && (a.lt(eight)
                || b.lt(eight))
            &&& c == FactorCase::BothAtMostOne <==> a.le(one) && b.le(one) && (a.lt(one) || b.lt(
                one,
            ))
            &&& c == FactorCase::SmallWithLarge <==> (a.lt(one) && b.ge(eight)) || (b.lt(one)
                && a.ge(eight))
            &&& c == FactorCase::SmallWithMiddle <==> (a.lt(one) && one.lt(b) && b.lt(eight)) || (
            b.lt(one) && one.lt(a) && a.lt(eight))
        }),
{
    lemma_magnitude_order(a, b);
    lemma_magnitude_order(double(ONE_BITS), double(EIGHT_BITS));
}

/// The number of whole steps that bring a parameter `b0` between 1 and
/// 8 down into `(1, 2]`, one less than its whole part; one more step
/// then brings it into `(0, 1]`.
pub fn middle_steps(b0: Double) -> (n: i32)
    requires
        double(ONE_BITS).lt(b0),
        b0.lt(double(EIGHT_BITS)),
    ensures
        n == b0.whole() - 1,
        0 <= n <= 6,
{
    let w: i32 = b0.to_i32();
    proof {
        let unit = pow2(1074) as int;
        lemma_pow2_pos(1074);
        lemma2_to64();
        lemma2_to64_rest();
        lemma_pow2_adds(52, 1022);
        lemma_pow2_adds(3, 1074);
        lemma_pow2_adds(52, 1025);
        lemma_magnitude_order(b0, double(0));
        assert(double(ONE_BITS).exponent() == 1023);
        assert(double(EIGHT_BITS).exponent() == 1026);
        assert(double(ONE_BITS).value() == unit);
        assert(double(EIGHT_BITS).value() == 8 * unit);
        let m = b0.magnitude() as int;
        assert(unit < m && m < 8 * unit);
        lemma_fundamental_div_mod(m, unit);
        assert(1 <= m / unit && m / unit <= 7) by (nonlinear_arith)
            requires
                unit < m,
                m < 8 * unit,
                m == unit * (m / unit) + m % unit,
                0 <= m % unit,
                m % unit < unit,
        ;
    }
    w - 1
}

/// The pairs of logarithms `(ln x, ln y)` for `x + y = 1`, by which of
/// the two is taken from the other through `ln(1 - t)`.
#[derive(Clone, Copy, Debug, PartialEq, Eq, Structural)]
pub enum LogTerms {
    /// `x <= 0.375`: `ln y` is `ln(1 - x)`.
    FromX,
    /// Both above 0.375: two plain logarithms.
    Plain,
    /// `y <= 0.375 < x`: `ln x` is `ln(1 - y)`.
    FromY,
}

/// Chooses how the two logarithms are taken.
pub fn log_terms(x: Double, y: Double) -> (r: LogTerms)
    ensures
        r == LogTerms::FromX <==> x.le(double(THREE_EIGHTHS_BITS)),
        r == LogTerms::Plain <==> !x.le(double(THREE_EIGHTHS_BITS)) && y.gt(
            double(THREE_EIGHTHS_BITS),
        ),
{
    let limit = Double::from_bits(THREE_EIGHTHS_BITS);
    if x.le(limit) {
        LogTerms::FromX
    } else if y.gt(limit) {
        LogTerms::Plain
    } else {
        LogTerms::FromY
    }
}

/// What the factor `x^a y^b / B(a, b)` is at the ends of the unit
/// interval: zero.
pub fn brcomp_special(x: Double, y: Double, log_p: bool) -> (r: Option<Double>)
    ensures
        x.is_zero() || y.is_zero() ==> r == Some(zero_probability(log_p)),
        !(x.is_zero() || y.is_zero()) ==> r.is_none(),
{
    if x.is_zero() || y.is_zero() {
        Some(r_d__0(log_p))
    } else {
        None
    }
}

/// What the continued fraction gives without a single step: NaN where
/// `lambda` is not finite or the factor `brc` in front is NaN, and zero
/// on the linear scale where that factor is zero.
pub fn bfrac_special(lambda: Double, brc: Double, log_p: bool) -> (r: Option<Double>)
    ensures
        !lambda.is_finite() || brc.is_nan() ==> r == Some(double(NAN_BITS)),
        lambda.is_finite() && !brc.is_nan() && !log_p && brc.is_zero() ==> r == Some(double(0)),
        lambda.is_finite() && !brc.is_nan() && (log_p || !brc.is_zero()) ==> r.is_none(),
{
    if !lambda.is_finite() || brc.is_nan() {
        return Some(Double::from_bits(NAN_BITS));
    }
    if !log_p && brc.is_zero() {
        return Some(Double::from_bits(0));
    }
    None
}

/// The ways to evaluate the scaled complement of the incomplete gamma
/// ratio, `Q(a, x) / r`.
#[derive(Clone, Copy, Debug, PartialEq, Eq, Structural)]
pub enum GratCase {
    /// `a x` is zero and `x <= a`: the whole of `1 / r`.
    Whole,
    /// `a x` is zero and `x > a`: zero.
    Nothing,
    /// `a` is one half and `x` below a quarter: through the error
    /// function.
    ErrorFunction,
    /// `a` is one half: through the scaled complementary error
    /// function.
    ComplementaryErrorFunction,
    /// `x` below 1.1: the Taylor series.
    Taylor,
    /// The continued fraction.
    ContinuedFraction,
}

/// Chooses the evaluation of `Q(a, x) / r`; `a_x` is the product `a x`
/// as the caller's arithmetic rounds it.
pub fn grat_case(a: Double, x: Double, a_x: Double) -> (r: GratCase)
    ensures
        r == GratCase::Whole <==> a_x.eq(double(0)) && x.le(a),
        r == GratCase::Nothing <==> a_x.eq(double(0)) && !x.le(a),
        r == GratCase::ErrorFunction <==> !a_x.eq(double(0)) && a.eq(double(HALF_BITS)) && x.lt(
            double(QUARTER_BITS),
        ),
        r == GratCase::ComplementaryErrorFunction <==> !a_x.eq(double(0)) && a.eq(
            double(HALF_BITS),
        ) && !x.lt(double(QUARTER_BITS)),
        r == GratCase::Taylor <==> !a_x.eq(double(0)) && !a.eq(double(HALF_BITS)) && x.lt(
            double(TAYLOR_BELOW_BITS),
        ),
{
    if a_x.eq(Double::from_bits(0)) {
        if x.le(a) {
            GratCase::Whole
        } else {
            GratCase::Nothing
        }
    } else if a.eq(Double::from_bits(HALF_BITS)) {
        if x.lt(Double::from_bits(QUARTER_BITS)) {
            GratCase::ErrorFunction
        } else {
            GratCase::ComplementaryErrorFunction
        }
    } else if x.lt(Double::from_bits(TAYLOR_BELOW_BITS)) {
        GratCase::Taylor
    } else {
        GratCase::ContinuedFraction
    }
}

/// Whether `exp(mu + x)` is taken as the product `exp(mu) exp(x)`: it is
/// unless `mu` and `x` have opposite signs and their sum `w`, as the
/// caller's arithmetic rounds it, lies between them and zero.
pub fn esum_splits(mu: i32, x: Double, w: Double) -> (r: bool)
    ensures
        r == (if x.gt(double(0)) {
            mu > 0 || w.lt(double(0))
        } else {
            mu < 0 || w.gt(double(0))
        }),
{
    let zero = Double::from_bits(0);
    if x.gt(zero) {
        mu > 0 || w.lt(zero)
    } else {
        mu < 0 || w.gt(zero)
    }
}

/// Each threshold is the double nearest to the decimal number that it
/// stands for; 8, 0.375 and 0.25 are exact.
pub proof fn lemma_thresholds()
    ensures
        is_exactly(double(EIGHT_BITS), 8, 1),
        is_exactly(double(THREE_EIGHTHS_BITS), 3, 0x8),
        is_exactly(double(QUARTER_BITS), 1, 0x4),
        is_nearest(double(TAYLOR_BELOW_BITS), 11, 10),
{
    assert(is_exactly(double(EIGHT_BITS), 8, 1)) by {
        lemma2_to64_rest();
        assert(double(EIGHT_BITS).exponent() == 1026);
        assert(double(EIGHT_BITS).fraction() == 0);
        lemma_nearest_below(double(EIGHT_BITS), 8, 1, 49, 0x2_0000_0000_0000);
    }
    assert(is_exactly(double(THREE_EIGHTHS_BITS), 3, 0x8)) by {
        lemma2_to64_rest();
        assert(double(THREE_EIGHTHS_BITS).exponent() == 1021);
        assert(double(THREE_EIGHTHS_BITS).fraction() == 0x8_0000_0000_0000);
        lemma_nearest_below(double(THREE_EIGHTHS_BITS), 3, 0x8, 54, 0x40_0000_0000_0000);
    }
    assert(is_exactly(double(QUARTER_BITS), 1, 0x4)) by {
        lemma2_to64_rest();
        assert(double(QUARTER_BITS).exponent() == 1021);
        assert(double(QUARTER_BITS).fraction() == 0);
        lemma_nearest_below(double(QUARTER_BITS), 1, 0x4, 54, 0x40_0000_0000_0000);
    }
    assert(is_nearest(double(TAYLOR_BELOW_BITS), 11, 10)) by {
        lemma2_to64_rest();
        assert(double(TAYLOR_BELOW_BITS).exponent() == 1023);
        assert(double(TAYLOR_BELOW_BITS).fraction() == 0x1_9999_9999_999a);
        lemma_nearest_below(double(TAYLOR_BELOW_BITS), 11, 10, 52, 0x10_0000_0000_0000);
    }
}

} // verus!
