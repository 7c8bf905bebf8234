//! The normal density where it needs no evaluation.

use vstd::prelude::*;
use vstd::arithmetic::power2::lemma2_to64_rest;
use crate::double::{
    double,
    is_exactly,
    lemma_magnitude_order,
    lemma_nearest_below,
    Double,
    NAN_BITS,
    POS_INF_BITS,
};
use crate::dpq::{on_log_scale, r_d__0, zero_probability};

verus! {

/// Twice the square root of the largest double: a standardized argument
/// this large has a square that overflows.
pub const SQUARE_OVERFLOWS_BITS: u64 = 0x5fff_ffff_ffff_ffff;

/// The pattern of 5.
pub const FIVE_BITS: u64 = 0x4014_0000_0000_0000;

/// The standardized argument beyond which the density is below every
/// positive double: the square root of `-2 ln(2) (-1021 + 1 - 53)`,
/// about 38.57.
pub const DENSITY_VANISHES_BITS: u64 = 0x4043_48b5_981e_26f5;

/// The normal density at `x` for mean `mu` and standard deviation
/// `sigma`, where it is known without evaluation.
///
/// * A NaN argument or a negative `sigma` gives NaN.
/// * An infinite `sigma` spreads the mass out: density zero.
/// * An infinite `x` that equals `mu` gives NaN.
/// * `sigma = 0` is the point mass at `mu`: `inf` there, zero elsewhere.
pub open spec fn dnorm_known(x: Double, mu: Double, sigma: Double, give_log: bool) -> Option<
    Double,
> {
    if x.is_nan() || mu.is_nan() || sigma.is_nan() {
        Some(double(NAN_BITS))
    } else if sigma.lt(double(0)) {
        Some(double(NAN_BITS))
    } else if sigma.is_infinite() {
        Some(zero_probability(give_log))
    } else if x.is_infinite() && mu.eq(x) {
        Some(double(NAN_BITS))
    } else if sigma.is_zero() {
        Some(
            if x.eq(mu) {
                double(POS_INF_BITS)
            } else {
                zero_probability(give_log)
            },
        )
    } else {
        None
    }
}

/// The normal density where it needs no evaluation: see [`dnorm_known`].
/// `None` asks for the density at the standardized argument
/// `(x - mu) / sigma`, with `sigma` positive and finite.
pub fn dnorm4_special(x: Double, mu: Double, sigma: Double, give_log: bool) -> (r: Option<Double>)
    ensures
        r == dnorm_known(x, mu, sigma, give_log),
        x.is_nan() || mu.is_nan() || sigma.is_nan() ==> r == Some(double(NAN_BITS)),
        r.is_none() ==> double(0).lt(sigma) && sigma.is_finite(),
{
    if x.is_nan() || mu.is_nan() || sigma.is_nan() {
        return Some(Double::from_bits(NAN_BITS));
    }
    if sigma.lt(Double::from_bits(0)) {
        return Some(Double::from_bits(NAN_BITS));
    }
    if sigma.is_infinite() {
        return Some(r_d__0(give_log));
    }
    if x.is_infinite() && mu.eq(x) {
        return Some(Double::from_bits(NAN_BITS));
    }
    if sigma.is_zero() {
        return Some(
            if x.eq(mu) {
                Double::from_bits(POS_INF_BITS)
            } else {
                r_d__0(give_log)
            },
        );
    }
    proof {
        lemma_magnitude_order(sigma, double(0));
    }
    None
}

/// The density is zero at the standardized argument `z`: `z` is not
/// finite, or its square overflows, or, on the linear scale, the density
/// underflows.
pub open spec fn dnorm_vanishes(z: Double, give_log: bool) -> bool {
    ||| !z.is_finite()
    ||| z.abs().ge(double(SQUARE_OVERFLOWS_BITS))
    ||| !give_log && z.abs().ge(double(FIVE_BITS)) && z.abs().gt(double(DENSITY_VANISHES_BITS))
}

/// The density at a standardized argument where it is zero: see
/// [`dnorm_vanishes`].
pub fn dnorm_standard_special(z: Double, give_log: bool) -> (r: Option<Double>)
    ensures
        dnorm_vanishes(z, give_log) ==> r == Some(zero_probability(give_log)),
        !dnorm_vanishes(z, give_log) ==> r.is_none(),
{
    if !z.is_finite() {
        return Some(r_d__0(give_log));
    }
    let y = z.abs();
    if y.ge(Double::from_bits(SQUARE_OVERFLOWS_BITS)) {
        return Some(r_d__0(give_log));
    }
    if !give_log && y.ge(Double::from_bits(FIVE_BITS)) && y.gt(
        Double::from_bits(DENSITY_VANISHES_BITS),
    ) {
        return Some(r_d__0(give_log));
    }
    None
}

/// Whatever is settled on the log scale is the logarithm of what is
/// settled on the linear scale.
pub proof fn lemma_dnorm_log_linear(x: Double, mu: Double, sigma: Double)
    ensures
        dnorm_known(x, mu, sigma, true).is_some() == dnorm_known(x, mu, sigma, false).is_some(),
        dnorm_known(x, mu, sigma, false) matches Some(p) ==> on_log_scale(
            p,
            dnorm_known(x, mu, sigma, true).unwrap(),
        ),
{
}

/// The threshold 5 is exact.
pub proof fn lemma_thresholds()
    ensures
        is_exactly(double(FIVE_BITS), 5, 1),
{
    assert(is_exactly(double(FIVE_BITS), 5, 1)) by {
        lemma2_to64_rest();
        assert(double(FIVE_BITS).exponent() == 1025);
        assert(double(FIVE_BITS).fraction() == 0x4_0000_0000_0000);
        lemma_nearest_below(double(FIVE_BITS), 5, 1, 50, 0x4_0000_0000_0000);
    }
}

} // verus!
