//! The normal quantile where it needs no evaluation.

use vstd::prelude::*;
use vstd::arithmetic::power2::lemma2_to64_rest;
use crate::double::{
    double,
    is_exactly,
    is_nearest,
    lemma_magnitude_order,
    lemma_nearest_below,
    Double,
    NAN_BITS,
    NEG_INF_BITS,
    ONE_BITS,
    POS_INF_BITS,
};
use crate::dpq::{is_lower_one, is_lower_zero, probability_out_of_range, r_q_p01_boundaries};

verus! {

/// The quantile of the normal distribution at probability `p`, where it
/// is known without evaluation.
///
/// * A NaN argument, a probability outside its range or a negative
///   `sigma` gives NaN.
/// * Lower-tail probability zero gives `-inf`, one gives `inf`.
/// * `sigma = 0` is the point mass at `mu`: every other quantile is
///   `mu`.
pub open spec fn qnorm_known(p: Double, mu: Double, sigma: Double, lower_tail: bool, log_p: bool)
    -> Option<Double> {
    if p.is_nan() || mu.is_nan() || sigma.is_nan() {
        Some(double(NAN_BITS))
    } else if probability_out_of_range(p, log_p) {
        Some(double(NAN_BITS))
    } else if is_lower_zero(p, lower_tail, log_p) {
        Some(double(NEG_INF_BITS))
    } else if is_lower_one(p, lower_tail, log_p) {
        Some(double(POS_INF_BITS))
    } else if sigma.lt(double(0)) {
        Some(double(NAN_BITS))
    } else if sigma.is_zero() {
        Some(mu)
    } else {
        None
    }
}

/// The normal quantile where it needs no evaluation: see
/// [`qnorm_known`]. `None` asks for the quantile of a probability
/// strictly between 0 and 1, with `sigma` positive.
pub fn qnorm5_special(p: Double, mu: Double, sigma: Double, lower_tail: bool, log_p: bool) -> (r:
    Option<Double>)
    ensures
        r == qnorm_known(p, mu, sigma, lower_tail, log_p),
        p.is_nan() || mu.is_nan() || sigma.is_nan() ==> r == Some(double(NAN_BITS)),
{
    if p.is_nan() || mu.is_nan() || sigma.is_nan() {
        return Some(Double::from_bits(NAN_BITS));
    }
    let ends = r_q_p01_boundaries(
        p,
        Double::from_bits(NEG_INF_BITS),
        Double::from_bits(POS_INF_BITS),
        lower_tail,
        log_p,
    );
    proof {
        lemma_magnitude_order(p, double(0));
        lemma_magnitude_order(p, double(ONE_BITS));
        lemma_magnitude_order(p, double(NEG_INF_BITS));
    }
    if ends.is_some() {
        return ends;
    }
    if sigma.lt(Double::from_bits(0)) {
        return Some(Double::from_bits(NAN_BITS));
    }
    if sigma.is_zero() {
        return Some(mu);
    }
    None
}

/// The pattern of 0.425.
pub const CENTRAL_BITS: u64 = 0x3fdb_3333_3333_3333;

/// The pattern of 5.
pub const INTERMEDIATE_BITS: u64 = 0x4014_0000_0000_0000;

/// The pattern of 816.
pub const ASYMPTOTIC_BITS: u64 = 0x4089_8000_0000_0000;

/// The rational approximations of the quantile.
#[derive(Clone, Copy, Debug, PartialEq, Eq, Structural)]
pub enum QuantileRange {
    /// The probability is within 0.425 of one half.
    Central,
    /// `r`, the square root of minus the logarithm of the lesser tail,
    /// is up to 5.
    Intermediate,
    /// `r` is above 5 and below 816.
    Extreme,
    /// `r` is 816 or more: the quantile is `r` times the square root
    /// of 2.
    Asymptotic,
}

/// Whether the quantile is taken from the central approximation: `q` is
/// the lower-tail probability less one half.
pub fn qnorm_is_central(q: Double) -> (r: bool)
    ensures
        r == q.abs().le(double(CENTRAL_BITS)),
{
    q.abs().le(Double::from_bits(CENTRAL_BITS))
}

/// Outside the central range, whether the logarithm of the lesser tail
/// is the argument itself: it is when a log probability was given for
/// the tail that is the lesser one.
pub fn qnorm_log_is_given(q: Double, lower_tail: bool, log_p: bool) -> (r: bool)
    ensures
        r == (log_p && ((lower_tail && q.le(double(0))) || (!lower_tail && q.gt(double(0))))),
{
    let zero = Double::from_bits(0);
    log_p && ((lower_tail && q.le(zero)) || (!lower_tail && q.gt(zero)))
}

/// Chooses the approximation in the tails, by `r`.
pub fn qnorm_tail_range(r: Double) -> (range: QuantileRange)
    ensures
        range != QuantileRange::Central,
        range == QuantileRange::Intermediate <==> r.le(double(INTERMEDIATE_BITS)),
        range == QuantileRange::Asymptotic <==> r.ge(double(ASYMPTOTIC_BITS)),
{
    proof {
        lemma_magnitude_order(r, double(INTERMEDIATE_BITS));
        lemma_magnitude_order(r, double(ASYMPTOTIC_BITS));
        lemma_magnitude_order(double(INTERMEDIATE_BITS), double(ASYMPTOTIC_BITS));
    }
    if r.le(Double::from_bits(INTERMEDIATE_BITS)) {
        QuantileRange::Intermediate
    } else if r.ge(Double::from_bits(ASYMPTOTIC_BITS)) {
        QuantileRange::Asymptotic
    } else {
        QuantileRange::Extreme
    }
}

/// Each end of a range is the double nearest to the decimal number
/// that it stands for; 5 and 816 are exact.
pub proof fn lemma_thresholds()
    ensures
        is_nearest(double(CENTRAL_BITS), 17, 40),
        is_exactly(double(INTERMEDIATE_BITS), 5, 1),
        is_exactly(double(ASYMPTOTIC_BITS), 816, 1),
{
    assert(is_nearest(double(CENTRAL_BITS), 17, 40)) by {
        lemma2_to64_rest();
        assert(double(CENTRAL_BITS).exponent() == 1021);
        assert(double(CENTRAL_BITS).fraction() == 0xb_3333_3333_3333);
        lemma_nearest_below(double(CENTRAL_BITS), 17, 40, 54, 0x40_0000_0000_0000);
    }
    assert(is_exactly(double(INTERMEDIATE_BITS), 5, 1)) by {
        lemma2_to64_rest();
        assert(double(INTERMEDIATE_BITS).exponent() == 1025);
        assert(double(INTERMEDIATE_BITS).fraction() == 0x4_0000_0000_0000);
        lemma_nearest_below(double(INTERMEDIATE_BITS), 5, 1, 50, 0x4_0000_0000_0000);
    }
    assert(is_exactly(double(ASYMPTOTIC_BITS), 816, 1)) by {
        lemma2_to64_rest();
        assert(double(ASYMPTOTIC_BITS).exponent() == 1032);
        assert(double(ASYMPTOTIC_BITS).fraction() == 0x9_8000_0000_0000);
        lemma_nearest_below(double(ASYMPTOTIC_BITS), 816, 1, 43, 0x800_0000_0000);
    }
}

} // verus!
