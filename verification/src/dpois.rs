//! The Poisson density where it needs no evaluation.

use vstd::prelude::*;
use crate::double::{double, Double, NAN_BITS};
use crate::dpq::{on_log_scale, one_probability, r_d__0, r_d__1, zero_probability};

verus! {

/// The Poisson probability of `x` for mean `lambda`, where it is known
/// without evaluation and before `x` is rounded to a whole number.
///
/// * A NaN argument or a negative `lambda` gives NaN.
/// * A negative or infinite `x` has probability zero.
pub open spec fn dpois_known(x: Double, lambda: Double, give_log: bool) -> Option<Double> {
    if x.is_nan() || lambda.is_nan() {
        Some(double(NAN_BITS))
    } else if lambda.lt(double(0)) {
        Some(double(NAN_BITS))
    } else if x.lt(double(0)) || !x.is_finite() {
        Some(zero_probability(give_log))
    } else {
        None
    }
}

/// The Poisson density where it needs no evaluation: see
/// [`dpois_known`]. `None` asks for the probability of `x` rounded to
/// the nearest whole number.
pub fn dpois_special(x: Double, lambda: Double, give_log: bool) -> (r: Option<Double>)
    ensures
        r == dpois_known(x, lambda, give_log),
        x.is_nan() || lambda.is_nan() ==> r == Some(double(NAN_BITS)),
{
    if x.is_nan() || lambda.is_nan() {
        return Some(Double::from_bits(NAN_BITS));
    }
    if lambda.lt(Double::from_bits(0)) {
        return Some(Double::from_bits(NAN_BITS));
    }
    if x.lt(Double::from_bits(0)) || !x.is_finite() {
        return Some(r_d__0(give_log));
    }
    None
}

/// The Poisson probability of a point `x`, whole or not, where it is
/// known without evaluation.
///
/// * `lambda = 0` is the point mass at 0.
/// * An infinite `lambda` leaves no mass at any point.
/// * A negative `x` has probability zero.
pub open spec fn dpois_raw_known(x: Double, lambda: Double, give_log: bool) -> Option<Double> {
    if lambda.is_zero() {
        Some(
            if x.is_zero() {
                one_probability(give_log)
            } else {
                zero_probability(give_log)
            },
        )
    } else if !lambda.is_finite() {
        Some(zero_probability(give_log))
    } else if x.lt(double(0)) {
        Some(zero_probability(give_log))
    } else {
        None
    }
}

/// The Poisson probability of a point where it needs no evaluation: see
/// [`dpois_raw_known`].
pub fn dpois_raw_special(x: Double, lambda: Double, give_log: bool) -> (r: Option<Double>)
    ensures
        r == dpois_raw_known(x, lambda, give_log),
{
    if lambda.is_zero() {
        return Some(
            if x.is_zero() {
                r_d__1(give_log)
            } else {
                r_d__0(give_log)
            },
        );
    }
    if !lambda.is_finite() {
        return Some(r_d__0(give_log));
    }
    if x.lt(Double::from_bits(0)) {
        return Some(r_d__0(give_log));
    }
    None
}

/// Whatever is settled on the log scale is the logarithm of what is
/// settled on the linear scale.
pub proof fn lemma_dpois_log_linear(x: Double, lambda: Double)
    ensures
        dpois_known(x, lambda, true).is_some() == dpois_known(x, lambda, false).is_some(),
        dpois_known(x, lambda, false) matches Some(p) ==> on_log_scale(
            p,
            dpois_known(x, lambda, true).unwrap(),
        ),
        dpois_raw_known(x, lambda, true).is_some() == dpois_raw_known(x, lambda, false).is_some(),
        dpois_raw_known(x, lambda, false) matches Some(p) ==> on_log_scale(
            p,
            dpois_raw_known(x, lambda, true).unwrap(),
        ),
{
}

} // verus!
