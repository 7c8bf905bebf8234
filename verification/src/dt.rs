//! Student's t density where it needs no evaluation.

use vstd::prelude::*;
use crate::double::{double, Double, NAN_BITS};
use crate::dpq::{on_log_scale, r_d__0, zero_probability};

verus! {

/// The density of Student's t with `n` degrees of freedom at `x`, where
/// it is known without evaluation.
///
/// * A NaN argument or degrees of freedom that are not positive give
///   NaN.
/// * At `-inf` and `inf` the density is zero.
pub open spec fn dt_known(x: Double, n: Double, give_log: bool) -> Option<Double> {
    if x.is_nan() || n.is_nan() {
        Some(double(NAN_BITS))
    } else if n.le(double(0)) {
        Some(double(NAN_BITS))
    } else if !x.is_finite() {
        Some(zero_probability(give_log))
    } else {
        None
    }
}

/// Student's t density where it needs no evaluation: see [`dt_known`].
pub fn dt_special(x: Double, n: Double, give_log: bool) -> (r: Option<Double>)
    ensures
        r == dt_known(x, n, give_log),
        x.is_nan() || n.is_nan() ==> r == Some(double(NAN_BITS)),
        r.is_none() ==> x.is_finite() && double(0).lt(n),
{
    if x.is_nan() || n.is_nan() {
        return Some(Double::from_bits(NAN_BITS));
    }
    if n.le(Double::from_bits(0)) {
        return Some(Double::from_bits(NAN_BITS));
    }
    if !x.is_finite() {
        return Some(r_d__0(give_log));
    }
    None
}

/// Whatever is settled on the log scale is the logarithm of what is
/// settled on the linear scale.
pub proof fn lemma_dt_log_linear(x: Double, n: Double)
    ensures
        dt_known(x, n, true).is_some() == dt_known(x, n, false).is_some(),
        dt_known(x, n, false) matches Some(p) ==> on_log_scale(p, dt_known(x, n, true).unwrap()),
{
}

} // verus!
