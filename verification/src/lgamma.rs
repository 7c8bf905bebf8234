//! The logarithm of the absolute value of the gamma function: its sign,
//! its limit cases and the choice of the formula.

use vstd::prelude::*;
use vstd::arithmetic::power2::{lemma2_to64, lemma2_to64_rest};
use crate::double::{
    double,
    is_exactly,
    lemma_magnitude_order,
    lemma_nearest_above,
    lemma_nearest_below,
    Double,
    NAN_BITS,
    POS_INF_BITS,
};
use crate::integral::lemma_whole_of;

verus! {

/// The pattern of 2.5327372760800758e305: beyond it the logarithm of
/// the gamma function overflows.
pub const LGAMMA_XMAX_BITS: u64 = 0x7f57_1547_652b_82fe;

/// The pattern of 1e-306.
pub const LGAMMA_TINY_BITS: u64 = 0x0066_789e_3750_f791;

/// The pattern of 10.
pub const LGAMMA_TEN_BITS: u64 = 0x4024_0000_0000_0000;

/// The pattern of 4934720.
pub const LGAMMA_NO_CORRECTION_BITS: u64 = 0x4152_d310_0000_0000;

/// The pattern of 1e17.
pub const LGAMMA_HUGE_BITS: u64 = 0x4376_3457_85d8_a000;

/// The gamma function is negative at `x`: between the poles at `-1` and
/// `0`, at `-3` and `-2`, and so on, that is for a negative finite `x`
/// whose absolute value has an even whole part.
pub open spec fn gamma_is_negative(x: Double) -> bool {
    x.lt(double(0)) && x.is_finite() && x.whole() % 2 == 0
}

/// The sign of the gamma function at `x`: -1 where it is negative, 1
/// elsewhere, at the poles and for NaN too.
pub fn gamma_sign(x: Double) -> (r: i32)
    ensures
        r == (if gamma_is_negative(x) {
            -1int
        } else {
            1int
        }),
{
    if x.lt(Double::from_bits(0)) && x.is_finite() && x.whole_is_even() {
        -1
    } else {
        1
    }
}

/// The logarithm of the absolute value of the gamma function at `x`,
/// where it is known without evaluation.
///
/// * NaN gives NaN.
/// * At the poles, zero and the negative whole numbers, it is `inf`.
/// * Beyond 2.5327372760800758e305 in absolute value it overflows:
///   `inf`.
pub open spec fn lgammafn_known(x: Double) -> Option<Double> {
    if x.is_nan() {
        Some(double(NAN_BITS))
    } else if x.le(double(0)) && x.is_integer() {
        Some(double(POS_INF_BITS))
    } else if x.abs().gt(double(LGAMMA_XMAX_BITS)) {
        Some(double(POS_INF_BITS))
    } else {
        None
    }
}

/// The logarithm of the absolute value of the gamma function where it
/// needs no evaluation: see [`lgammafn_known`].
pub fn lgammafn_special(x: Double) -> (r: Option<Double>)
    ensures
        r == lgammafn_known(x),
        x.is_nan() ==> r == Some(double(NAN_BITS)),
        r.is_none() ==> x.is_finite() && !x.is_zero(),
{
    if x.is_nan() {
        return Some(Double::from_bits(NAN_BITS));
    }
    proof {
        lemma_magnitude_order(x, double(0));
        lemma_magnitude_order(x.abs(), double(LGAMMA_XMAX_BITS));
        lemma_whole_of(x);
    }
    if x.le(Double::from_bits(0)) && x.is_integer() {
        return Some(Double::from_bits(POS_INF_BITS));
    }
    if x.abs().gt(Double::from_bits(LGAMMA_XMAX_BITS)) {
        return Some(Double::from_bits(POS_INF_BITS));
    }
    None
}

/// The formulas for the logarithm of the gamma function at a finite
/// `x` that is no pole, with `y` for its absolute value.
#[derive(Clone, Copy, Debug, PartialEq, Eq, Structural)]
pub enum LogGammaFormula {
    /// `y` below 1e-306: the gamma function is `1 / x` as far as
    /// doubles can tell, the result is `-ln(y)`.
    Reciprocal,
    /// `y` up to 10: the logarithm of the gamma function itself.
    Direct,
    /// `x` above 1e17: `x (ln(x) - 1)`.
    Leading,
    /// `x` above 4934720: Stirling's formula without its correction.
    Stirling,
    /// `x` above 10: Stirling's formula with its correction.
    Corrected,
    /// `x` below -10: the reflection formula.
    Reflection,
}

/// Chooses the formula for the logarithm of the gamma function.
pub fn lgammafn_formula(x: Double) -> (r: LogGammaFormula)
    requires
        !x.is_nan(),
    ensures
        r == LogGammaFormula::Reciprocal <==> x.abs().lt(double(LGAMMA_TINY_BITS)),
        r == LogGammaFormula::Direct <==> !x.abs().lt(double(LGAMMA_TINY_BITS)) && x.abs().le(
            double(LGAMMA_TEN_BITS),
        ),
        r == LogGammaFormula::Reflection <==> x.lt(double(LGAMMA_TEN_BITS).neg()),
        r == LogGammaFormula::Leading <==> x.gt(double(LGAMMA_HUGE_BITS)),
        r == LogGammaFormula::Stirling <==> x.gt(double(LGAMMA_NO_CORRECTION_BITS)) && x.le(
            double(LGAMMA_HUGE_BITS),
        ),
{
    let y = x.abs();
    proof {
        lemma_magnitude_order(x, double(0));
        lemma_magnitude_order(x, double(LGAMMA_TEN_BITS));
        lemma_magnitude_order(x, double(LGAMMA_TINY_BITS));
        lemma_magnitude_order(x, double(LGAMMA_HUGE_BITS));
        lemma_magnitude_order(x, double(LGAMMA_NO_CORRECTION_BITS));
        lemma_magnitude_order(y, double(0));
        lemma_magnitude_order(y, double(LGAMMA_TEN_BITS));
        lemma_magnitude_order(y, double(LGAMMA_TINY_BITS));
        lemma_magnitude_order(y, x);
        lemma_magnitude_order(double(LGAMMA_TEN_BITS), double(LGAMMA_TINY_BITS));
        lemma_magnitude_order(double(LGAMMA_TEN_BITS), double(LGAMMA_HUGE_BITS));
        lemma_magnitude_order(double(LGAMMA_TEN_BITS), double(LGAMMA_NO_CORRECTION_BITS));
        lemma_magnitude_order(double(LGAMMA_HUGE_BITS), double(LGAMMA_NO_CORRECTION_BITS));
    }
    if y.lt(Double::from_bits(LGAMMA_TINY_BITS)) {
        LogGammaFormula::Reciprocal
    } else if y.le(Double::from_bits(LGAMMA_TEN_BITS)) {
        LogGammaFormula::Direct
    } else if x.gt(Double::from_bits(0)) {
        if x.gt(Double::from_bits(LGAMMA_HUGE_BITS)) {
            LogGammaFormula::Leading
        } else if x.gt(Double::from_bits(LGAMMA_NO_CORRECTION_BITS)) {
            LogGammaFormula::Stirling
        } else {
            LogGammaFormula::Corrected
        }
    } else {
        LogGammaFormula::Reflection
    }
}

/// The pattern of 94906265.62425156: from here on the correction is
/// `1 / (12 x)` as far as doubles can tell.
pub const CORRECTION_XBIG_BITS: u64 = 0x4196_a09e_667f_3bcd;

/// The ways to compute the correction of Stirling's formula.
#[derive(Clone, Copy, Debug, PartialEq, Eq, Structural)]
pub enum CorrectionCase {
    /// `x` is below 10, or NaN: the correction is not defined, NaN.
    Undefined,
    /// `x` is from 10 up to 94906265.62425156: the Chebyshev series.
    Series,
    /// `x` is larger: `1 / (12 x)`, which underflows for the largest.
    Leading,
}

/// Chooses the way to compute the correction of Stirling's formula.
pub fn lgammacor_case(x: Double) -> (r: CorrectionCase)
    ensures
        r == CorrectionCase::Undefined <==> !x.ge(double(LGAMMA_TEN_BITS)),
        r == CorrectionCase::Series <==> x.ge(double(LGAMMA_TEN_BITS)) && x.lt(
            double(CORRECTION_XBIG_BITS),
        ),
{
    if !x.ge(Double::from_bits(LGAMMA_TEN_BITS)) {
        CorrectionCase::Undefined
    } else if x.lt(Double::from_bits(CORRECTION_XBIG_BITS)) {
        CorrectionCase::Series
    } else {
        CorrectionCase::Leading
    }
}

/// The three whole thresholds are exact.
pub proof fn lemma_thresholds()
    ensures
        is_exactly(double(LGAMMA_TEN_BITS), 10, 1),
        is_exactly(double(LGAMMA_NO_CORRECTION_BITS), 4934720, 1),
        is_exactly(double(LGAMMA_HUGE_BITS), 100000000000000000, 1),
{
    assert(is_exactly(double(LGAMMA_TEN_BITS), 10, 1)) by {
        lemma2_to64_rest();
        assert(double(LGAMMA_TEN_BITS).exponent() == 1026);
        assert(double(LGAMMA_TEN_BITS).fraction() == 0x4_0000_0000_0000);
        lemma_nearest_below(double(LGAMMA_TEN_BITS), 10, 1, 49, 0x2_0000_0000_0000);
    }
    assert(is_exactly(double(LGAMMA_NO_CORRECTION_BITS), 4934720, 1)) by {
        lemma2_to64();
        assert(double(LGAMMA_NO_CORRECTION_BITS).exponent() == 1045);
        assert(double(LGAMMA_NO_CORRECTION_BITS).fraction() == 0x2_d310_0000_0000);
        lemma_nearest_below(double(LGAMMA_NO_CORRECTION_BITS), 4934720, 1, 30, 0x4000_0000);
    }
    assert(is_exactly(double(LGAMMA_HUGE_BITS), 100000000000000000, 1)) by {
        lemma2_to64();
        assert(double(LGAMMA_HUGE_BITS).exponent() == 1079);
        assert(double(LGAMMA_HUGE_BITS).fraction() == 0x6_3457_85d8_a000);
        lemma_nearest_above(double(LGAMMA_HUGE_BITS), 100000000000000000, 1, 4, 0x10);
    }
}

} // verus!
