//! The beta distribution function where it needs no evaluation.

use vstd::prelude::*;
use vstd::arithmetic::power2::{lemma2_to64, lemma2_to64_rest, lemma_pow2_adds, pow2};
use crate::double::{
    double,
    lemma_magnitude_order,
    Double,
    HALF_BITS,
    NAN_BITS,
    ONE_BITS,
    POS_INF_BITS,
};
use crate::dpq::{
    are_two_tails,
    on_log_scale,
    one_probability,
    r_dt_0,
    r_dt_1,
    zero_probability,
    NEG_LN2_BITS,
};

verus! {

/// What the lower or the upper tail reports for a given lower-tail
/// probability of 0 or 1.
pub open spec fn tail_of(lower_is_one: bool, lower_tail: bool, log_p: bool) -> Double {
    if lower_is_one == lower_tail {
        one_probability(log_p)
    } else {
        zero_probability(log_p)
    }
}

/// The beta distribution function `P(X <= x)` for `X ~ Beta(a, b)`, or
/// its upper tail, where it is known without evaluation.
///
/// * A NaN argument or a negative parameter gives NaN.
/// * At and above `x = 1` the lower tail is 1.
/// * `a = b = 0` is the two-point distribution on {0, 1}: one half.
/// * `a = 0`, or `a` finite and `b` infinite, is the point mass at 0: the
///   lower tail is 1.
/// * `b = 0`, or `b` finite and `a` infinite, is the point mass at 1: the
///   lower tail is 0 (below 1).
/// * `a = b = inf` is the point mass at one half.
/// * At and below `x = 0` the lower tail is 0.
///
/// Otherwise `0 < x < 1` and both parameters are positive and finite:
/// `None`.
pub open spec fn pbeta_known(x: Double, a: Double, b: Double, lower_tail: bool, log_p: bool)
    -> Option<Double> {
    if x.is_nan() || a.is_nan() || b.is_nan() {
        Some(double(NAN_BITS))
    } else if a.lt(double(0)) || b.lt(double(0)) {
        Some(double(NAN_BITS))
    } else if x.ge(double(ONE_BITS)) {
        Some(tail_of(true, lower_tail, log_p))
    } else if a.is_zero() && b.is_zero() {
        Some(
            if log_p {
                double(NEG_LN2_BITS)
            } else {
                double(HALF_BITS)
            },
        )
    } else if a.is_zero() || (a.is_finite() && b.is_infinite()) {
        Some(tail_of(true, lower_tail, log_p))
    } else if b.is_zero() || (b.is_finite() && a.is_infinite()) {
        Some(tail_of(false, lower_tail, log_p))
    } else if a.is_infinite() && b.is_infinite() {
        Some(tail_of(!x.lt(double(HALF_BITS)), lower_tail, log_p))
    } else if x.le(double(0)) {
        Some(tail_of(false, lower_tail, log_p))
    } else {
        None
    }
}

/// The limit cases of the distribution function once NaN and negative
/// parameters are out of the way. The quotient `a / b` of two
/// non-negative doubles that are not both finite and positive vanishes
/// exactly when `a` is finite and `b` is infinite.
pub fn pbeta_raw_special(x: Double, a: Double, b: Double, lower_tail: bool, log_p: bool) -> (r:
    Option<Double>)
    requires
        !x.is_nan(),
        a.ge(double(0)),
        b.ge(double(0)),
    ensures
        r == pbeta_known(x, a, b, lower_tail, log_p),
{
    proof {
        lemma_magnitude_order(a, double(0));
        lemma_magnitude_order(b, double(0));
    }
    if x.ge(Double::from_bits(ONE_BITS)) {
        return Some(r_dt_1(lower_tail, log_p));
    }
    if a.is_zero() || b.is_zero() || !a.is_finite() || !b.is_finite() {
        if a.is_zero() && b.is_zero() {
            return Some(
                if log_p {
                    Double::from_bits(NEG_LN2_BITS)
                } else {
                    Double::from_bits(HALF_BITS)
                },
            );
        }
        if a.is_zero() || (a.is_finite() && b.is_infinite()) {
            return Some(r_dt_1(lower_tail, log_p));
        }
        if b.is_zero() || (b.is_finite() && a.is_infinite()) {
            return Some(r_dt_0(lower_tail, log_p));
        }
        if x.lt(Double::from_bits(HALF_BITS)) {
            return Some(r_dt_0(lower_tail, log_p));
        } else {
            return Some(r_dt_1(lower_tail, log_p));
        }
    }
    if x.le(Double::from_bits(0)) {
        return Some(r_dt_0(lower_tail, log_p));
    }
    None
}

/// The beta distribution function where it needs no evaluation: see
/// [`pbeta_known`]. `None` asks for the incomplete beta ratio at
/// `(a, b, x, 1 - x)`.
pub fn pbeta_special(x: Double, a: Double, b: Double, lower_tail: bool, log_p: bool) -> (r:
    Option<Double>)
    ensures
        r == pbeta_known(x, a, b, lower_tail, log_p),
        x.is_nan() || a.is_nan() || b.is_nan() ==> r == Some(double(NAN_BITS)),
        r.is_none() ==> double(0).lt(x) && x.lt(double(ONE_BITS)) && double(0).lt(a)
            && a.is_finite() && double(0).lt(b) && b.is_finite(),
{
    proof {
        lemma_magnitude_order(a, double(0));
        lemma_magnitude_order(b, double(0));
        lemma_magnitude_order(x, double(0));
    }
    if x.is_nan() || a.is_nan() || b.is_nan() {
        return Some(Double::from_bits(NAN_BITS));
    }
    let zero = Double::from_bits(0);
    if a.lt(zero) || b.lt(zero) {
        return Some(Double::from_bits(NAN_BITS));
    }
    pbeta_raw_special(x, a, b, lower_tail, log_p)
}

/// At `x = 0` the lower tail is 0 on the linear scale, for every
/// positive `a`, unless `b` is infinite and `a` is not: that
/// distribution is the point mass at 0 itself.
pub proof fn lemma_pbeta_at_zero(x: Double, a: Double, b: Double)
    requires
        x.is_zero(),
        double(0).lt(a),
        b.ge(double(0)),
        b.is_infinite() ==> a.is_infinite(),
    ensures
        pbeta_known(x, a, b, true, false) == Some(double(0)),
{
    lemma_magnitude_order(a, double(0));
    lemma_magnitude_order(b, double(0));
    lemma_magnitude_order(x, double(ONE_BITS));
    lemma_magnitude_order(x, double(HALF_BITS));
}

/// At `x = 1` the lower tail is 1 on the linear scale, for all
/// parameters that are not negative.
pub proof fn lemma_pbeta_at_one(x: Double, a: Double, b: Double)
    requires
        x.eq(double(ONE_BITS)),
        a.ge(double(0)),
        b.ge(double(0)),
    ensures
        pbeta_known(x, a, b, true, false) == Some(double(ONE_BITS)),
{
}

/// With `a = b = 0` the lower tail is one half everywhere inside the
/// unit interval, and at 0 too.
pub proof fn lemma_pbeta_two_point(x: Double, a: Double, b: Double)
    requires
        x.lt(double(ONE_BITS)),
        a.is_zero(),
        b.is_zero(),
    ensures
        pbeta_known(x, a, b, true, false) == Some(double(HALF_BITS)),
        double(HALF_BITS).value() * 2 == double(ONE_BITS).value(),
{
    lemma_magnitude_order(a, double(0));
    lemma_magnitude_order(b, double(0));
    lemma2_to64();
    lemma2_to64_rest();
    lemma_pow2_adds(1, 1021);
    assert(double(HALF_BITS).exponent() == 1022);
    assert(double(ONE_BITS).exponent() == 1023);
    assert(double(ONE_BITS).value() == 0x10_0000_0000_0000 * pow2(1022));
    assert(double(HALF_BITS).value() == 0x10_0000_0000_0000 * pow2(1021));
    assert(pow2(1022) == 2 * pow2(1021));
    assert(0x10_0000_0000_0000 * (2 * pow2(1021)) == 2 * (0x10_0000_0000_0000 * pow2(1021)))
        by (nonlinear_arith);
}

/// Mirror symmetry where nothing is evaluated: for finite positive
/// parameters, the lower tail at `x` under `(a, b)` and the upper tail at
/// `x1 = 1 - x` under `(b, a)` are settled on the same inputs, with the
/// same value.
pub proof fn lemma_pbeta_mirror(x: Double, x1: Double, a: Double, b: Double, log_p: bool)
    requires
        x.ge(double(0)),
        x.le(double(ONE_BITS)),
        !x1.is_nan(),
        x.value() + x1.value() == double(ONE_BITS).value(),
        double(0).lt(a),
        a.is_finite(),
        double(0).lt(b),
        b.is_finite(),
    ensures
        pbeta_known(x, a, b, true, log_p) == pbeta_known(x1, b, a, false, log_p),
{
    lemma_magnitude_order(a, double(0));
    lemma_magnitude_order(b, double(0));
    lemma_magnitude_order(a, double(POS_INF_BITS));
    lemma_magnitude_order(b, double(POS_INF_BITS));
    lemma_magnitude_order(x, double(0));
    lemma_magnitude_order(x1, double(0));
    lemma_magnitude_order(x, double(ONE_BITS));
    lemma_magnitude_order(x1, double(ONE_BITS));
}

/// Whatever is settled on the log scale is the logarithm of what is
/// settled on the linear scale, and the two scales settle the same
/// inputs.
pub proof fn lemma_pbeta_log_linear(x: Double, a: Double, b: Double, lower_tail: bool)
    ensures
        pbeta_known(x, a, b, lower_tail, true).is_some() == pbeta_known(
            x,
            a,
            b,
            lower_tail,
            false,
        ).is_some(),
        pbeta_known(x, a, b, lower_tail, false) matches Some(p) ==> on_log_scale(
            p,
            pbeta_known(x, a, b, lower_tail, true).unwrap(),
        ),
{
}

/// Where one tail is settled so is the other, and the two add up to
/// one.
pub proof fn lemma_pbeta_tails(x: Double, a: Double, b: Double, log_p: bool)
    ensures
        pbeta_known(x, a, b, true, log_p).is_some() == pbeta_known(x, a, b, false, log_p).is_some(),
        pbeta_known(x, a, b, true, log_p) matches Some(lower) ==> are_two_tails(
            lower,
            pbeta_known(x, a, b, false, log_p).unwrap(),
            log_p,
        ),
{
}

} // verus!
