//! The ranges of the elementary approximations.
//!
//! Each of these functions is computed by a rational approximation near
//! zero and by its definition farther out; the error function is 1 in
//! absolute value from 5.8 on.

use vstd::prelude::*;
use vstd::arithmetic::power2::lemma2_to64_rest;
use crate::double::{
    double,
    is_exactly,
    is_nearest,
    lemma_magnitude_order,
    lemma_nearest_below,
    Double,
    HALF_BITS,
    ONE_BITS,
    SIGN_BIT,
};

verus! {

/// The pattern of 4.
pub const FOUR_BITS: u64 = 0x4010_0000_0000_0000;

/// The pattern of 5.8.
pub const ERF_IS_ONE_BITS: u64 = 0x4017_3333_3333_3333;

/// The pattern of 0.375.
pub const ALNREL_BITS: u64 = 0x3fd8_0000_0000_0000;

/// The pattern of 0.15.
pub const REXPM1_BITS: u64 = 0x3fc3_3333_3333_3333;

/// The pattern of -0.39.
pub const RLOG1_LOW_BITS: u64 = 0xbfd8_f5c2_8f5c_28f6;

/// The pattern of 0.57.
pub const RLOG1_HIGH_BITS: u64 = 0x3fe2_3d70_a3d7_0a3d;

/// The pattern of 0.18.
pub const RLOG1_CENTRE_BITS: u64 = 0x3fc7_0a3d_70a3_d70a;

/// The ranges of the error function, by the absolute value of its
/// argument.
#[derive(Clone, Copy, Debug, PartialEq, Eq, Structural)]
pub enum ErfRange {
    /// Up to one half.
    Near,
    /// Up to 4.
    Middle,
    /// Below 5.8 (and NaN).
    Far,
    /// From 5.8 on: the function is 1 or -1.
    Saturated,
}

/// Chooses the approximation of the error function at `x`.
pub fn erf_range(x: Double) -> (r: ErfRange)
    ensures
        r == ErfRange::Near <==> x.abs().le(double(HALF_BITS)),
        r == ErfRange::Middle <==> !x.abs().le(double(HALF_BITS)) && x.abs().le(
            double(FOUR_BITS),
        ),
        r == ErfRange::Saturated <==> x.abs().ge(double(ERF_IS_ONE_BITS)),
{
    let ax = x.abs();
    proof {
        lemma_magnitude_order(ax, double(HALF_BITS));
        lemma_magnitude_order(ax, double(FOUR_BITS));
        lemma_magnitude_order(ax, double(ERF_IS_ONE_BITS));
        lemma_magnitude_order(double(HALF_BITS), double(FOUR_BITS));
        lemma_magnitude_order(double(FOUR_BITS), double(ERF_IS_ONE_BITS));
    }
    if ax.le(Double::from_bits(HALF_BITS)) {
        ErfRange::Near
    } else if ax.le(Double::from_bits(FOUR_BITS)) {
        ErfRange::Middle
    } else if ax.ge(Double::from_bits(ERF_IS_ONE_BITS)) {
        ErfRange::Saturated
    } else {
        ErfRange::Far
    }
}

/// The error function from 5.8 on: 1 to the right and -1 to the left.
pub fn erf_saturated(x: Double) -> (r: Double)
    requires
        x.abs().ge(double(ERF_IS_ONE_BITS)),
    ensures
        r.abs() == double(ONE_BITS),
        r.sign() == x.sign(),
{
    proof {
        lemma_magnitude_order(x, double(0));
        lemma_magnitude_order(x.abs(), double(ERF_IS_ONE_BITS));
    }
    if x.gt(Double::from_bits(0)) {
        Double::from_bits(ONE_BITS)
    } else {
        Double::from_bits(ONE_BITS + SIGN_BIT)
    }
}

/// Whether `ln(1 + a)` is taken from the rational approximation: for
/// `|a|` up to 0.375.
pub fn alnrel_is_rational(a: Double) -> (r: bool)
    ensures
        r == !a.abs().gt(double(ALNREL_BITS)),
{
    !a.abs().gt(Double::from_bits(ALNREL_BITS))
}

/// Whether `exp(x) - 1` is taken from the rational approximation: for
/// `|x|` up to 0.15.
pub fn rexpm1_is_rational(x: Double) -> (r: bool)
    ensures
        r == x.abs().le(double(REXPM1_BITS)),
{
    x.abs().le(Double::from_bits(REXPM1_BITS))
}

/// The ranges of `x - ln(1 + x)`.
#[derive(Clone, Copy, Debug, PartialEq, Eq, Structural)]
pub enum Rlog1Range {
    /// Below -0.39 or above 0.57: by the definition.
    Direct,
    /// From -0.39 up to -0.18: the series around -0.3.
    Low,
    /// Above 0.18 up to 0.57: the series around one third.
    High,
    /// From -0.18 to 0.18 (and NaN): the series around zero.
    Centre,
}

/// Chooses the evaluation of `x - ln(1 + x)`.
pub fn rlog1_range(x: Double) -> (r: Rlog1Range)
    ensures
        r == Rlog1Range::Direct <==> x.lt(double(RLOG1_LOW_BITS)) || x.gt(double(RLOG1_HIGH_BITS)),
        r == Rlog1Range::Low <==> x.ge(double(RLOG1_LOW_BITS)) && x.lt(
            double(RLOG1_CENTRE_BITS).neg(),
        ),
        r == Rlog1Range::High <==> x.gt(double(RLOG1_CENTRE_BITS)) && x.le(
            double(RLOG1_HIGH_BITS),
        ),
{
    proof {
        lemma_magnitude_order(x, double(RLOG1_LOW_BITS));
        lemma_magnitude_order(x, double(RLOG1_HIGH_BITS));
        lemma_magnitude_order(x, double(RLOG1_CENTRE_BITS));
        lemma_magnitude_order(double(RLOG1_LOW_BITS), double(RLOG1_CENTRE_BITS));
        lemma_magnitude_order(double(RLOG1_HIGH_BITS), double(RLOG1_CENTRE_BITS));
    }
    if x.lt(Double::from_bits(RLOG1_LOW_BITS)) || x.gt(Double::from_bits(RLOG1_HIGH_BITS)) {
        Rlog1Range::Direct
    } else if x.lt(Double::from_bits(RLOG1_CENTRE_BITS).neg()) {
        Rlog1Range::Low
    } else if x.gt(Double::from_bits(RLOG1_CENTRE_BITS)) {
        Rlog1Range::High
    } else {
        Rlog1Range::Centre
    }
}

/// Each end of a range is the double nearest to the decimal number
/// that it stands for; 4 and 0.375 are exact.
pub proof fn lemma_thresholds()
    ensures
        is_exactly(double(FOUR_BITS), 4, 1),
        is_nearest(double(ERF_IS_ONE_BITS), 29, 5),
        is_exactly(double(ALNREL_BITS), 3, 0x8),
        is_nearest(double(REXPM1_BITS), 3, 20),
        is_nearest(double(RLOG1_LOW_BITS), -39, 100),
        is_nearest(double(RLOG1_HIGH_BITS), 57, 100),
        is_nearest(double(RLOG1_CENTRE_BITS), 9, 50),
{
    assert(is_exactly(double(FOUR_BITS), 4, 1)) by {
        lemma2_to64_rest();
        assert(double(FOUR_BITS).exponent() == 1025);
        assert(double(FOUR_BITS).fraction() == 0);
        lemma_nearest_below(double(FOUR_BITS), 4, 1, 50, 0x4_0000_0000_0000);
    }
    assert(is_nearest(double(ERF_IS_ONE_BITS), 29, 5)) by {
        lemma2_to64_rest();
        assert(double(ERF_IS_ONE_BITS).exponent() == 1025);
        assert(double(ERF_IS_ONE_BITS).fraction() == 0x7_3333_3333_3333);
        lemma_nearest_below(double(ERF_IS_ONE_BITS), 29, 5, 50, 0x4_0000_0000_0000);
    }
    assert(is_exactly(double(ALNREL_BITS), 3, 0x8)) by {
        lemma2_to64_rest();
        assert(double(ALNREL_BITS).exponent() == 1021);
        assert(double(ALNREL_BITS).fraction() == 0x8_0000_0000_0000);
        lemma_nearest_below(double(ALNREL_BITS), 3, 0x8, 54, 0x40_0000_0000_0000);
    }
    assert(is_nearest(double(REXPM1_BITS), 3, 20)) by {
        lemma2_to64_rest();
        assert(double(REXPM1_BITS).exponent() == 1020);
        assert(double(REXPM1_BITS).fraction() == 0x3_3333_3333_3333);
        lemma_nearest_below(double(REXPM1_BITS), 3, 20, 55, 0x80_0000_0000_0000);
    }
    assert(is_nearest(double(RLOG1_LOW_BITS), -39, 100)) by {
        lemma2_to64_rest();
        assert(double(RLOG1_LOW_BITS).exponent() == 1021);
        assert(double(RLOG1_LOW_BITS).fraction() == 0x8_f5c2_8f5c_28f6);
        lemma_nearest_below(double(RLOG1_LOW_BITS), -39, 100, 54, 0x40_0000_0000_0000);
    }
    assert(is_nearest(double(RLOG1_HIGH_BITS), 57, 100)) by {
        lemma2_to64_rest();
        assert(double(RLOG1_HIGH_BITS).exponent() == 1022);
        assert(double(RLOG1_HIGH_BITS).fraction() == 0x2_3d70_a3d7_0a3d);
        lemma_nearest_below(double(RLOG1_HIGH_BITS), 57, 100, 53, 0x20_0000_0000_0000);
    }
    assert(is_nearest(double(RLOG1_CENTRE_BITS), 9, 50)) by {
        lemma2_to64_rest();
        assert(double(RLOG1_CENTRE_BITS).exponent() == 1020);
        assert(double(RLOG1_CENTRE_BITS).fraction() == 0x7_0a3d_70a3_d70a);
        lemma_nearest_below(double(RLOG1_CENTRE_BITS), 9, 50, 55, 0x80_0000_0000_0000);
    }
}

} // verus!
