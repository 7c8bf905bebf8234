//! Student's t distribution function where it needs no evaluation.

use vstd::prelude::*;
use crate::double::{double, Double, NAN_BITS};
use crate::dpq::{are_two_tails, on_log_scale, r_dt_0, r_dt_1};
use crate::pbeta::tail_of;

verus! {

/// The distribution function of Student's t with `n` degrees of freedom
/// at `x`, where it is known without evaluation.
///
/// * A NaN argument or degrees of freedom that are not positive give
///   NaN.
/// * At `-inf` the lower tail is 0, at `inf` it is 1.
pub open spec fn pt_known(x: Double, n: Double, lower_tail: bool, log_p: bool) -> Option<Double> {
    if x.is_nan() || n.is_nan() {
        Some(double(NAN_BITS))
    } else if n.le(double(0)) {
        Some(double(NAN_BITS))
    } else if x.is_infinite() {
        Some(tail_of(x.gt(double(0)), lower_tail, log_p))
    } else {
        None
    }
}

/// Student's t distribution function where it needs no evaluation: see
/// [`pt_known`]. `None` leaves a finite `x` and positive degrees of
/// freedom, which may be infinite: that is the normal distribution.
pub fn pt_special(x: Double, n: Double, lower_tail: bool, log_p: bool) -> (r: Option<Double>)
    ensures
        r == pt_known(x, n, lower_tail, log_p),
        x.is_nan() || n.is_nan() ==> r == Some(double(NAN_BITS)),
        r.is_none() ==> x.is_finite() && double(0).lt(n),
{
    if x.is_nan() || n.is_nan() {
        return Some(Double::from_bits(NAN_BITS));
    }
    if n.le(Double::from_bits(0)) {
        return Some(Double::from_bits(NAN_BITS));
    }
    if x.is_infinite() {
        if x.gt(Double::from_bits(0)) {
            return Some(r_dt_1(lower_tail, log_p));
        }
        return Some(r_dt_0(lower_tail, log_p));
    }
    None
}

/// Whatever is settled on the log scale is the logarithm of what is
/// settled on the linear scale.
pub proof fn lemma_pt_log_linear(x: Double, n: Double, lower_tail: bool)
    ensures
        pt_known(x, n, lower_tail, true).is_some() == pt_known(x, n, lower_tail, false).is_some(),
        pt_known(x, n, lower_tail, false) matches Some(p) ==> on_log_scale(
            p,
            pt_known(x, n, lower_tail, true).unwrap(),
        ),
{
}

/// Where one tail is settled so is the other, and the two add up to
/// one.
pub proof fn lemma_pt_tails(x: Double, n: Double, log_p: bool)
    ensures
        pt_known(x, n, true, log_p).is_some() == pt_known(x, n, false, log_p).is_some(),
        pt_known(x, n, true, log_p) matches Some(lower) ==> are_two_tails(
            lower,
            pt_known(x, n, false, log_p).unwrap(),
            log_p,
        ),
{
}

} // verus!
