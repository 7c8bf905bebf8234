//! The gamma function where it needs no evaluation.

use vstd::prelude::*;
use vstd::arithmetic::power2::lemma2_to64_rest;
use crate::double::{
    double,
    is_nearest,
    lemma_magnitude_order,
    lemma_nearest_below,
    Double,
    NAN_BITS,
    NEG_INF_BITS,
    POS_INF_BITS,
};

verus! {

/// The pattern of 171.61447887182298: above it the gamma function
/// overflows.
pub const GAMMA_XMAX_BITS: u64 = 0x4065_73a9_cf98_5201;

/// The pattern of -170.5674972726612: below it the gamma function
/// underflows.
pub const GAMMA_XMIN_BITS: u64 = 0xc065_5228_f00a_54c5;

/// The gamma function has a pole at `x`: zero or a negative whole
/// number; `-inf` counts as one.
pub open spec fn gamma_pole(x: Double) -> bool {
    x.is_zero() || (x.lt(double(0)) && (x.is_integer() || x.is_infinite()))
}

/// The gamma function at `x`, where it is known without evaluation.
///
/// * NaN and the poles give NaN.
/// * Above 171.61447887182298 it overflows: `inf`.
/// * Below -170.5674972726612 it underflows: 0.
pub open spec fn gammafn_known(x: Double) -> Option<Double> {
    if x.is_nan() || gamma_pole(x) {
        Some(double(NAN_BITS))
    } else if x.gt(double(GAMMA_XMAX_BITS)) {
        Some(double(POS_INF_BITS))
    } else if x.lt(double(GAMMA_XMIN_BITS)) {
        Some(double(0))
    } else {
        None
    }
}

/// The gamma function where it needs no evaluation: see
/// [`gammafn_known`].
pub fn gammafn_special(x: Double) -> (r: Option<Double>)
    ensures
        r == gammafn_known(x),
        x.is_nan() ==> r == Some(double(NAN_BITS)),
        r.is_none() ==> x.is_finite() && !x.is_zero(),
{
    if x.is_nan() {
        return Some(Double::from_bits(NAN_BITS));
    }
    if x.is_zero() || (x.lt(Double::from_bits(0)) && (x.is_integer() || x.is_infinite())) {
        return Some(Double::from_bits(NAN_BITS));
    }
    proof {
        lemma_magnitude_order(x, double(GAMMA_XMAX_BITS));
        lemma_magnitude_order(double(NEG_INF_BITS), double(GAMMA_XMIN_BITS));
    }
    if x.gt(Double::from_bits(GAMMA_XMAX_BITS)) {
        return Some(Double::from_bits(POS_INF_BITS));
    }
    if x.lt(Double::from_bits(GAMMA_XMIN_BITS)) {
        return Some(Double::from_bits(0));
    }
    None
}

/// The two limits are the doubles nearest to their decimal numbers.
pub proof fn lemma_thresholds()
    ensures
        is_nearest(double(GAMMA_XMAX_BITS), 8580723943591149, 50000000000000),
        is_nearest(double(GAMMA_XMIN_BITS), -426418743181653, 2500000000000),
{
    assert(is_nearest(double(GAMMA_XMAX_BITS), 8580723943591149, 50000000000000)) by {
        lemma2_to64_rest();
        assert(double(GAMMA_XMAX_BITS).exponent() == 1030);
        assert(double(GAMMA_XMAX_BITS).fraction() == 0x5_73a9_cf98_5201);
        lemma_nearest_below(
            double(GAMMA_XMAX_BITS),
            8580723943591149,
            50000000000000,
            45,
            0x2000_0000_0000,
        );
    }
    assert(is_nearest(double(GAMMA_XMIN_BITS), -426418743181653, 2500000000000)) by {
        lemma2_to64_rest();
        assert(double(GAMMA_XMIN_BITS).exponent() == 1030);
        assert(double(GAMMA_XMIN_BITS).fraction() == 0x5_5228_f00a_54c5);
        lemma_nearest_below(
            double(GAMMA_XMIN_BITS),
            -426418743181653,
            2500000000000,
            45,
            0x2000_0000_0000,
        );
    }
}

} // verus!
