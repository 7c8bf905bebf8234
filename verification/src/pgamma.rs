//! The gamma distribution function where it needs no evaluation.

use vstd::prelude::*;
use crate::double::{double, lemma_magnitude_order, Double, NAN_BITS, ONE_BITS, POS_INF_BITS};
use crate::dpq::{are_two_tails, on_log_scale, r_dt_0, r_dt_1};
use crate::pbeta::tail_of;

verus! {

/// The arguments of the gamma distribution function are outside its
/// domain, or one of them is NaN: the result is NaN.
pub open spec fn pgamma_undefined(x: Double, alph: Double, scale: Double) -> bool {
    ||| x.is_nan() || alph.is_nan() || scale.is_nan()
    ||| alph.le(double(0))
    ||| scale.le(double(0))
}

/// The rules on the arguments of the gamma distribution function with
/// shape `alph`: `Some(NaN)` where they are broken, and `None` where the
/// function is to be looked up at `x / scale`.
pub fn pgamma_special(x: Double, alph: Double, scale: Double) -> (r: Option<Double>)
    ensures
        pgamma_undefined(x, alph, scale) ==> r == Some(double(NAN_BITS)),
        !pgamma_undefined(x, alph, scale) ==> r.is_none(),
{
    if x.is_nan() || alph.is_nan() || scale.is_nan() {
        return Some(Double::from_bits(NAN_BITS));
    }
    if alph.le(Double::from_bits(0)) || scale.le(Double::from_bits(0)) {
        return Some(Double::from_bits(NAN_BITS));
    }
    None
}

/// The gamma distribution function with unit scale at `x`, where it is
/// known without evaluation.
///
/// * A NaN argument or a shape that is not positive gives NaN.
/// * At and left of zero the lower tail is 0.
/// * For an infinite shape the lower tail is 1.
pub open spec fn pgamma_raw_known(x: Double, alph: Double, lower_tail: bool, log_p: bool) -> Option<
    Double,
> {
    if x.is_nan() || alph.is_nan() {
        Some(double(NAN_BITS))
    } else if alph.le(double(0)) {
        Some(double(NAN_BITS))
    } else if x.le(double(0)) {
        Some(tail_of(false, lower_tail, log_p))
    } else if alph.eq(double(POS_INF_BITS)) {
        Some(tail_of(true, lower_tail, log_p))
    } else {
        None
    }
}

/// The gamma distribution function with unit scale where it needs no
/// evaluation: see [`pgamma_raw_known`].
pub fn pgamma_raw_special(x: Double, alph: Double, lower_tail: bool, log_p: bool) -> (r: Option<
    Double,
>)
    ensures
        r == pgamma_raw_known(x, alph, lower_tail, log_p),
        x.is_nan() || alph.is_nan() ==> r == Some(double(NAN_BITS)),
        r.is_none() ==> double(0).lt(x) && double(0).lt(alph) && alph.is_finite(),
{
    proof {
        lemma_magnitude_order(alph, double(POS_INF_BITS));
    }
    if x.is_nan() || alph.is_nan() {
        return Some(Double::from_bits(NAN_BITS));
    }
    if alph.le(Double::from_bits(0)) {
        return Some(Double::from_bits(NAN_BITS));
    }
    if x.le(Double::from_bits(0)) {
        return Some(r_dt_0(lower_tail, log_p));
    }
    if alph.eq(Double::from_bits(POS_INF_BITS)) {
        return Some(r_dt_1(lower_tail, log_p));
    }
    None
}

/// Whatever is settled on the log scale is the logarithm of what is
/// settled on the linear scale.
pub proof fn lemma_pgamma_log_linear(x: Double, alph: Double, lower_tail: bool)
    ensures
        pgamma_raw_known(x, alph, lower_tail, true).is_some() == pgamma_raw_known(
            x,
            alph,
            lower_tail,
            false,
        ).is_some(),
        pgamma_raw_known(x, alph, lower_tail, false) matches Some(p) ==> on_log_scale(
            p,
            pgamma_raw_known(x, alph, lower_tail, true).unwrap(),
        ),
{
}

/// The ways to evaluate the gamma distribution function with unit
/// scale at `x > 0` for a finite shape.
#[derive(Clone, Copy, Debug, PartialEq, Eq, Structural)]
pub enum GammaMethod {
    /// `x` below 1: the series for small `x`.
    SmallX,
    /// `x` well below the shape: the series for the lower tail of the
    /// Poisson sum.
    UpperSeries,
    /// `x` well above the shape: the series for the upper tail, or the
    /// continued fraction for a shape below 1.
    LowerSeries,
    /// `x` near the shape, both large: the asymptotic expansion.
    Asymptotic,
}

/// What the choice compares besides `x` and the shape, as the caller's
/// arithmetic rounds it.
#[derive(Clone, Copy, Debug)]
pub struct GammaTerms {
    /// `alph - 1`.
    pub alph_less_one: Double,
    /// `0.8 * (alph + 50)`.
    pub x_limit: Double,
    /// `0.8 * (x + 50)`.
    pub alph_limit: Double,
}

/// Chooses the evaluation of the gamma distribution function.
pub fn pgamma_method(x: Double, alph: Double, t: GammaTerms) -> (r: GammaMethod)
    ensures
        r == GammaMethod::SmallX <==> x.lt(double(ONE_BITS)),
        r == GammaMethod::UpperSeries <==> !x.lt(double(ONE_BITS)) && x.le(
            t.alph_less_one,
        ) && x.lt(t.x_limit),
        r == GammaMethod::LowerSeries <==> !x.lt(double(ONE_BITS)) && !(x.le(
            t.alph_less_one,
        ) && x.lt(t.x_limit)) && t.alph_less_one.lt(x) && alph.lt(t.alph_limit),
{
    if x.lt(Double::from_bits(ONE_BITS)) {
        GammaMethod::SmallX
    } else if x.le(t.alph_less_one) && x.lt(t.x_limit) {
        GammaMethod::UpperSeries
    } else if t.alph_less_one.lt(x) && alph.lt(t.alph_limit) {
        GammaMethod::LowerSeries
    } else {
        GammaMethod::Asymptotic
    }
}

/// Where one tail is settled so is the other, and the two add up to
/// one.
pub proof fn lemma_pgamma_tails(x: Double, alph: Double, log_p: bool)
    ensures
        pgamma_raw_known(x, alph, true, log_p).is_some() == pgamma_raw_known(
            x,
            alph,
            false,
            log_p,
        ).is_some(),
        pgamma_raw_known(x, alph, true, log_p) matches Some(lower) ==> are_two_tails(
            lower,
            pgamma_raw_known(x, alph, false, log_p).unwrap(),
            log_p,
        ),
{
}

} // verus!
