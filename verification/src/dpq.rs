//! The two scales and the two tails.
//!
//! A probability is reported either as `p` or as `ln(p)`, and a
//! distribution function reports either the lower tail `P(X <= x)` or the
//! upper tail `P(X > x)`. These helpers give the certain and the
//! impossible event in each of the four conventions.

use vstd::prelude::*;
use crate::double::{
    double,
    lemma_magnitude_order,
    Double,
    HALF_BITS,
    NAN_BITS,
    NEG_INF_BITS,
    ONE_BITS,
    POS_INF_BITS,
};

verus! {

/// The pattern of `-ln 2`, the logarithm of one half.
pub const NEG_LN2_BITS: u64 = 0xbfe6_2e42_fefa_39ef;

/// The double that stands for probability zero: `0`, or `-inf` on the log
/// scale.
pub open spec fn zero_probability(log_p: bool) -> Double {
    if log_p {
        double(NEG_INF_BITS)
    } else {
        double(0)
    }
}

/// The double that stands for probability one: `1`, or `0` on the log
/// scale.
pub open spec fn one_probability(log_p: bool) -> Double {
    if log_p {
        double(0)
    } else {
        double(ONE_BITS)
    }
}

/// `logged` is the logarithm of `linear`, for the values that are known
/// exactly: NaN of NaN, `-inf` of 0, 0 of 1, `-ln 2` of one half, and
/// `inf` of `inf`.
pub open spec fn on_log_scale(linear: Double, logged: Double) -> bool {
    ||| linear.is_nan() && logged.is_nan()
    ||| linear == double(0) && logged == double(NEG_INF_BITS)
    ||| linear == double(ONE_BITS) && logged == double(0)
    ||| linear == double(HALF_BITS) && logged == double(NEG_LN2_BITS)
    ||| linear == double(POS_INF_BITS) && logged == double(POS_INF_BITS)
}

/// The two tails of one event add up to one, for the values that are
/// known exactly: one is the zero and the other the one probability,
/// or both are one half, or both are NaN.
pub open spec fn are_two_tails(lower: Double, upper: Double, log_p: bool) -> bool {
    ||| lower == zero_probability(log_p) && upper == one_probability(log_p)
    ||| lower == one_probability(log_p) && upper == zero_probability(log_p)
    ||| lower == upper && lower == (if log_p {
        double(NEG_LN2_BITS)
    } else {
        double(HALF_BITS)
    })
    ||| lower.is_nan() && upper.is_nan()
}

/// Probability zero on the chosen scale.
pub fn r_d__0(log_p: bool) -> (r: Double)
    ensures
        r == zero_probability(log_p),
{
    if log_p {
        Double::from_bits(NEG_INF_BITS)
    } else {
        Double::from_bits(0)
    }
}

/// Probability one on the chosen scale.
pub fn r_d__1(log_p: bool) -> (r: Double)
    ensures
        r == one_probability(log_p),
{
    if log_p {
        Double::from_bits(0)
    } else {
        Double::from_bits(ONE_BITS)
    }
}

/// What a distribution function reports far to the left: zero for the
/// lower tail, one for the upper tail.
pub fn r_dt_0(lower_tail: bool, log_p: bool) -> (r: Double)
    ensures
        r == (if lower_tail {
            zero_probability(log_p)
        } else {
            one_probability(log_p)
        }),
{
    if lower_tail {
        r_d__0(log_p)
    } else {
        r_d__1(log_p)
    }
}

/// What a distribution function reports far to the right: one for the
/// lower tail, zero for the upper tail.
pub fn r_dt_1(lower_tail: bool, log_p: bool) -> (r: Double)
    ensures
        r == (if lower_tail {
            one_probability(log_p)
        } else {
            zero_probability(log_p)
        }),
{
    if lower_tail {
        r_d__1(log_p)
    } else {
        r_d__0(log_p)
    }
}

/// A probability argument in the given convention lies outside its
/// range: above `0` on the log scale, outside `[0, 1]` (or NaN) on the
/// linear scale.
pub open spec fn probability_out_of_range(p: Double, log_p: bool) -> bool {
    if log_p {
        p.gt(double(0))
    } else {
        !(p.ge(double(0)) && p.le(double(ONE_BITS)))
    }
}

/// The argument `p` stands for lower-tail probability zero.
pub open spec fn is_lower_zero(p: Double, lower_tail: bool, log_p: bool) -> bool {
    if log_p {
        if lower_tail {
            p.eq(double(NEG_INF_BITS))
        } else {
            p.eq(double(0))
        }
    } else {
        if lower_tail {
            p.eq(double(0))
        } else {
            p.eq(double(ONE_BITS))
        }
    }
}

/// The argument `p` stands for lower-tail probability one.
pub open spec fn is_lower_one(p: Double, lower_tail: bool, log_p: bool) -> bool {
    is_lower_zero(p, !lower_tail, log_p)
}

/// The quantile at the ends of the probability range.
///
/// A probability outside its range gives NaN. The one that stands for
/// lower-tail probability zero gives `left`, the one that stands for
/// lower-tail probability one gives `right`. Any other probability gives
/// `None`: the quantile has to be computed.
pub fn r_q_p01_boundaries(
    p: Double,
    left: Double,
    right: Double,
    lower_tail: bool,
    log_p: bool,
) -> (r: Option<Double>)
    ensures
        probability_out_of_range(p, log_p) ==> r == Some(double(NAN_BITS)),
        !probability_out_of_range(p, log_p) && is_lower_zero(p, lower_tail, log_p) ==> r == Some(
            left,
        ),
        !probability_out_of_range(p, log_p) && is_lower_one(p, lower_tail, log_p) ==> r == Some(
            right,
        ),
        !probability_out_of_range(p, log_p) && !is_lower_zero(p, lower_tail, log_p)
            && !is_lower_one(p, lower_tail, log_p) ==> r.is_none(),
{
    let zero = Double::from_bits(0);
    proof {
        lemma_magnitude_order(p, double(0));
        lemma_magnitude_order(p, double(ONE_BITS));
        lemma_magnitude_order(p, double(NEG_INF_BITS));
        lemma_magnitude_order(double(0), double(ONE_BITS));
        lemma_magnitude_order(double(0), double(NEG_INF_BITS));
    }
    if log_p {
        if p.gt(zero) {
            return Some(Double::from_bits(NAN_BITS));
        }
        if p.eq(zero) {
            return Some(if lower_tail { right } else { left });
        }
        if p.eq(Double::from_bits(NEG_INF_BITS)) {
            return Some(if lower_tail { left } else { right });
        }
        None
    } else {
        let one = Double::from_bits(ONE_BITS);
        if !(p.ge(zero) && p.le(one)) {
            return Some(Double::from_bits(NAN_BITS));
        }
        if p.eq(zero) {
            return Some(if lower_tail { left } else { right });
        }
        if p.eq(one) {
            return Some(if lower_tail { right } else { left });
        }
        None
    }
}

} // verus!
