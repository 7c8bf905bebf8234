//! The normal distribution function: its limit cases and the choice of
//! the rational approximation.

use vstd::prelude::*;
use vstd::arithmetic::power2::{lemma2_to64, lemma2_to64_rest, lemma_pow2_adds, pow2};
use crate::double::{
    double,
    is_exactly,
    is_nearest,
    lemma_magnitude_order,
    lemma_nearest_below,
    Double,
    NAN_BITS,
};
use crate::dpq::{
    are_two_tails,
    on_log_scale,
    one_probability,
    r_d__0,
    r_d__1,
    r_dt_0,
    r_dt_1,
    zero_probability,
};
use crate::pbeta::tail_of;

verus! {

/// The upper quartile of the standard normal, 0.67448975.
pub const QUARTILE_BITS: u64 = 0x3fe5_956b_8737_9746;

/// The square root of 32.
pub const SQRT_32_BITS: u64 = 0x4016_a09e_667f_3bcd;

/// The pattern of 1e170.
pub const LOG_TAIL_BITS: u64 = 0x633a_7f52_45e5_a2cf;

/// The pattern of 37.5193: below its negative the lower tail underflows.
pub const FAR_TAIL_BITS: u64 = 0x4042_c278_6c22_680a;

/// The pattern of 8.2924: above it the lower tail rounds to 1.
pub const NEAR_TAIL_BITS: u64 = 0x4020_95b5_73ea_b368;

/// Half the machine epsilon, 2^-53.
pub const HALF_EPSILON_BITS: u64 = 0x3ca0_0000_0000_0000;

/// The normal distribution function at `x`, where it is known without
/// evaluation.
///
/// * A NaN argument, an infinite `x` that equals `mu`, or a negative
///   `sigma` gives NaN.
/// * `sigma = 0` is the point mass at `mu`: the lower tail is 0 below
///   `mu` and 1 from `mu` on.
pub open spec fn pnorm_known(x: Double, mu: Double, sigma: Double, lower_tail: bool, log_p: bool)
    -> Option<Double> {
    if x.is_nan() || mu.is_nan() || sigma.is_nan() {
        Some(double(NAN_BITS))
    } else if x.is_infinite() && mu.eq(x) {
        Some(double(NAN_BITS))
    } else if sigma.lt(double(0)) {
        Some(double(NAN_BITS))
    } else if sigma.is_zero() {
        Some(tail_of(!x.lt(mu), lower_tail, log_p))
    } else {
        None
    }
}

/// The normal distribution function where it needs no evaluation: see
/// [`pnorm_known`]. `None` asks for the standardized argument
/// `(x - mu) / sigma`, with `sigma` positive.
pub fn pnorm_special(x: Double, mu: Double, sigma: Double, lower_tail: bool, log_p: bool) -> (r:
    Option<Double>)
    ensures
        r == pnorm_known(x, mu, sigma, lower_tail, log_p),
        x.is_nan() || mu.is_nan() || sigma.is_nan() ==> r == Some(double(NAN_BITS)),
        r.is_none() ==> double(0).lt(sigma),
{
    if x.is_nan() || mu.is_nan() || sigma.is_nan() {
        return Some(Double::from_bits(NAN_BITS));
    }
    if x.is_infinite() && mu.eq(x) {
        return Some(Double::from_bits(NAN_BITS));
    }
    proof {
        lemma_magnitude_order(sigma, double(0));
    }
    if sigma.le(Double::from_bits(0)) {
        if sigma.lt(Double::from_bits(0)) {
            return Some(Double::from_bits(NAN_BITS));
        }
        return Some(pnorm_limit(x, mu, lower_tail, log_p));
    }
    None
}

/// The distribution function where the standardized argument is not
/// finite: all mass lies on one side of `x`, to the right when `x` is
/// below `mu`.
pub fn pnorm_limit(x: Double, mu: Double, lower_tail: bool, log_p: bool) -> (r: Double)
    ensures
        r == tail_of(!x.lt(mu), lower_tail, log_p),
{
    if x.lt(mu) {
        r_dt_0(lower_tail, log_p)
    } else {
        r_dt_1(lower_tail, log_p)
    }
}

/// The four ranges of the standardized argument `x`.
#[derive(Clone, Copy, Debug, PartialEq, Eq, Structural)]
pub enum NormalRange {
    /// `|x|` up to the upper quartile: the first rational approximation,
    /// of `x` squared.
    Central,
    /// `|x|` up to the square root of 32: the second approximation.
    Middle,
    /// Farther out, where the tail asked for is still a positive double
    /// or its logarithm is wanted: the third approximation, of `1 / x^2`.
    Tail,
    /// Beyond that: the tails are 0 and 1.
    Saturated,
}

/// The range of a standardized argument that is not NaN. `lower` and
/// `upper` say which of the tails are wanted.
pub open spec fn normal_range(x: Double, lower: bool, upper: bool, log_p: bool) -> NormalRange {
    let y = x.abs();
    if y.le(double(QUARTILE_BITS)) {
        NormalRange::Central
    } else if y.lt(double(SQRT_32_BITS)) {
        NormalRange::Middle
    } else if (log_p && y.lt(double(LOG_TAIL_BITS))) || (lower && double(FAR_TAIL_BITS).neg().lt(x)
        && x.lt(double(NEAR_TAIL_BITS))) || (upper && double(NEAR_TAIL_BITS).neg().lt(x) && x.lt(
        double(FAR_TAIL_BITS),
    )) {
        NormalRange::Tail
    } else {
        NormalRange::Saturated
    }
}

/// Chooses the approximation for the standardized argument `x`. With
/// `i_tail` 0 only the lower tail is wanted, with 1 only the upper tail,
/// with any other value both.
pub fn pnorm_range(x: Double, i_tail: i32, log_p: bool) -> (r: NormalRange)
    ensures
        r == normal_range(x, i_tail != 1, i_tail != 0, log_p),
{
    let lower = i_tail != 1;
    let upper = i_tail != 0;
    let y = x.abs();
    let near = Double::from_bits(NEAR_TAIL_BITS);
    let far = Double::from_bits(FAR_TAIL_BITS);
    if y.le(Double::from_bits(QUARTILE_BITS)) {
        NormalRange::Central
    } else if y.lt(Double::from_bits(SQRT_32_BITS)) {
        NormalRange::Middle
    } else if (log_p && y.lt(Double::from_bits(LOG_TAIL_BITS))) || (lower && far.neg().lt(x)
        && x.lt(near)) || (upper && near.neg().lt(x) && x.lt(far)) {
        NormalRange::Tail
    } else {
        NormalRange::Saturated
    }
}

/// In the central range, whether `|x|` is above half the machine
/// epsilon, so that its square counts at all.
pub fn pnorm_square_counts(x: Double) -> (r: bool)
    ensures
        r == x.abs().gt(double(HALF_EPSILON_BITS)),
{
    x.abs().gt(Double::from_bits(HALF_EPSILON_BITS))
}

/// The two tails beyond the range of the approximations: `(0, 1)` to
/// the left of zero and `(1, 0)` to the right, on the scale asked for.
pub fn pnorm_saturated(x: Double, log_p: bool) -> (r: (Double, Double))
    ensures
        r == (if x.gt(double(0)) {
            (one_probability(log_p), zero_probability(log_p))
        } else {
            (zero_probability(log_p), one_probability(log_p))
        }),
{
    if x.gt(Double::from_bits(0)) {
        (r_d__1(log_p), r_d__0(log_p))
    } else {
        (r_d__0(log_p), r_d__1(log_p))
    }
}

/// Whatever is settled on the log scale is the logarithm of what is
/// settled on the linear scale.
pub proof fn lemma_pnorm_log_linear(x: Double, mu: Double, sigma: Double, lower_tail: bool)
    ensures
        pnorm_known(x, mu, sigma, lower_tail, true).is_some() == pnorm_known(
            x,
            mu,
            sigma,
            lower_tail,
            false,
        ).is_some(),
        pnorm_known(x, mu, sigma, lower_tail, false) matches Some(p) ==> on_log_scale(
            p,
            pnorm_known(x, mu, sigma, lower_tail, true).unwrap(),
        ),
{
}

/// Where one tail is settled so is the other, and the two add up to
/// one.
pub proof fn lemma_pnorm_tails(x: Double, mu: Double, sigma: Double, log_p: bool)
    ensures
        pnorm_known(x, mu, sigma, true, log_p).is_some() == pnorm_known(
            x,
            mu,
            sigma,
            false,
            log_p,
        ).is_some(),
        pnorm_known(x, mu, sigma, true, log_p) matches Some(lower) ==> are_two_tails(
            lower,
            pnorm_known(x, mu, sigma, false, log_p).unwrap(),
            log_p,
        ),
{
}

/// The decimal ends of the ranges are the doubles nearest to them, and
/// half the machine epsilon is 2^-53 exactly.
pub proof fn lemma_thresholds()
    ensures
        is_nearest(double(QUARTILE_BITS), 2697959, 4000000),
        is_nearest(double(FAR_TAIL_BITS), 375193, 10000),
        is_nearest(double(NEAR_TAIL_BITS), 20731, 2500),
        is_exactly(double(HALF_EPSILON_BITS), 1, 0x20_0000_0000_0000),
{
    assert(is_nearest(double(QUARTILE_BITS), 2697959, 4000000)) by {
        lemma2_to64_rest();
        assert(double(QUARTILE_BITS).exponent() == 1022);
        assert(double(QUARTILE_BITS).fraction() == 0x5_956b_8737_9746);
        lemma_nearest_below(double(QUARTILE_BITS), 2697959, 4000000, 53, 0x20_0000_0000_0000);
    }
    assert(is_nearest(double(FAR_TAIL_BITS), 375193, 10000)) by {
        lemma2_to64_rest();
        assert(double(FAR_TAIL_BITS).exponent() == 1028);
        assert(double(FAR_TAIL_BITS).fraction() == 0x2_c278_6c22_680a);
        lemma_nearest_below(double(FAR_TAIL_BITS), 375193, 10000, 47, 0x8000_0000_0000);
    }
    assert(is_nearest(double(NEAR_TAIL_BITS), 20731, 2500)) by {
        lemma2_to64_rest();
        assert(double(NEAR_TAIL_BITS).exponent() == 1026);
        assert(double(NEAR_TAIL_BITS).fraction() == 0x95b5_73ea_b368);
        lemma_nearest_below(double(NEAR_TAIL_BITS), 20731, 2500, 49, 0x2_0000_0000_0000);
    }
    assert(is_exactly(double(HALF_EPSILON_BITS), 1, 0x20_0000_0000_0000)) by {
        lemma2_to64();
        lemma2_to64_rest();
        lemma_pow2_adds(64, 41);
        assert(pow2(105) == 0x200_0000_0000_0000_0000_0000_0000);
        assert(double(HALF_EPSILON_BITS).exponent() == 970);
        assert(double(HALF_EPSILON_BITS).fraction() == 0);
        lemma_nearest_below(
            double(HALF_EPSILON_BITS),
            1,
            0x20_0000_0000_0000,
            105,
            0x200_0000_0000_0000_0000_0000_0000,
        );
    }
}

} // verus!
