//! The gamma density where it needs no evaluation.

use vstd::prelude::*;
use crate::double::{double, lemma_magnitude_order, Double, NAN_BITS, ONE_BITS, POS_INF_BITS};
use crate::dpq::{on_log_scale, r_d__0, zero_probability};

verus! {

/// The gamma density at `x` for the given shape and scale, where it is
/// known without evaluation.
///
/// * A NaN argument, a negative shape or a scale that is not positive
///   gives NaN.
/// * Left of zero the density is zero.
/// * Shape 0 is the point mass at 0: `inf` there, zero elsewhere.
/// * At `x = 0` the density is `inf` for a shape below 1 and zero for a
///   shape above 1. (For shape 1 it is `1 / scale`, which is computed.)
pub open spec fn dgamma_known(x: Double, shape: Double, scale: Double, give_log: bool) -> Option<
    Double,
> {
    if x.is_nan() || shape.is_nan() || scale.is_nan() {
        Some(double(NAN_BITS))
    } else if shape.lt(double(0)) || scale.le(double(0)) {
        Some(double(NAN_BITS))
    } else if x.lt(double(0)) {
        Some(zero_probability(give_log))
    } else if shape.is_zero() {
        Some(
            if x.is_zero() {
                double(POS_INF_BITS)
            } else {
                zero_probability(give_log)
            },
        )
    } else if x.is_zero() && shape.lt(double(ONE_BITS)) {
        Some(double(POS_INF_BITS))
    } else if x.is_zero() && shape.gt(double(ONE_BITS)) {
        Some(zero_probability(give_log))
    } else {
        None
    }
}

/// The gamma density where it needs no evaluation: see
/// [`dgamma_known`].
pub fn dgamma_special(x: Double, shape: Double, scale: Double, give_log: bool) -> (r: Option<
    Double,
>)
    ensures
        r == dgamma_known(x, shape, scale, give_log),
        x.is_nan() || shape.is_nan() || scale.is_nan() ==> r == Some(double(NAN_BITS)),
        r.is_none() ==> x.ge(double(0)) && double(0).lt(shape) && double(0).lt(scale),
{
    let zero = Double::from_bits(0);
    let one = Double::from_bits(ONE_BITS);
    proof {
        lemma_magnitude_order(shape, double(0));
    }
    if x.is_nan() || shape.is_nan() || scale.is_nan() {
        return Some(Double::from_bits(NAN_BITS));
    }
    if shape.lt(zero) || scale.le(zero) {
        return Some(Double::from_bits(NAN_BITS));
    }
    if x.lt(zero) {
        return Some(r_d__0(give_log));
    }
    if shape.is_zero() {
        return Some(
            if x.is_zero() {
                Double::from_bits(POS_INF_BITS)
            } else {
                r_d__0(give_log)
            },
        );
    }
    if x.is_zero() {
        if shape.lt(one) {
            return Some(Double::from_bits(POS_INF_BITS));
        }
        if shape.gt(one) {
            return Some(r_d__0(give_log));
        }
    }
    None
}

/// Whatever is settled on the log scale is the logarithm of what is
/// settled on the linear scale.
pub proof fn lemma_dgamma_log_linear(x: Double, shape: Double, scale: Double)
    ensures
        dgamma_known(x, shape, scale, true).is_some() == dgamma_known(
            x,
            shape,
            scale,
            false,
        ).is_some(),
        dgamma_known(x, shape, scale, false) matches Some(p) ==> on_log_scale(
            p,
            dgamma_known(x, shape, scale, true).unwrap(),
        ),
{
}

} // verus!
