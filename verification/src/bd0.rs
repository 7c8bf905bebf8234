//! The deviance part `x ln(x / m) + m - x` where it needs no evaluation.

use vstd::prelude::*;
use crate::double::{double, Double, NAN_BITS, POS_INF_BITS};

verus! {

/// The deviance part is undefined: an argument is not finite, or the
/// mean `np` is zero.
pub open spec fn bd0_undefined(x: Double, np: Double) -> bool {
    !x.is_finite() || !np.is_finite() || np.is_zero()
}

/// The rule on the arguments of the deviance part: `Some(NaN)` where it
/// is undefined, `None` where it is to be evaluated.
pub fn bd0_special(x: Double, np: Double) -> (r: Option<Double>)
    ensures
        bd0_undefined(x, np) ==> r == Some(double(NAN_BITS)),
        !bd0_undefined(x, np) ==> r.is_none(),
{
    if !x.is_finite() || !np.is_finite() || np.is_zero() {
        return Some(Double::from_bits(NAN_BITS));
    }
    None
}

/// The deviance part of `x` and `m` as a pair of a high and a low part,
/// where it is known without evaluation.
///
/// * A NaN argument gives NaN in both parts.
/// * At `x = m` it is zero.
/// * At `x = 0` it is `m`.
/// * At `m = 0` it is `inf`.
pub open spec fn ebd0_known(x: Double, m: Double) -> Option<(Double, Double)> {
    if x.is_nan() || m.is_nan() {
        Some((double(NAN_BITS), double(NAN_BITS)))
    } else if x.eq(m) {
        Some((double(0), double(0)))
    } else if x.is_zero() {
        Some((m, double(0)))
    } else if m.is_zero() {
        Some((double(POS_INF_BITS), double(0)))
    } else {
        None
    }
}

/// The deviance part in two parts where it needs no evaluation: see
/// [`ebd0_known`].
pub fn ebd0_special(x: Double, m: Double) -> (r: Option<(Double, Double)>)
    ensures
        r == ebd0_known(x, m),
        r.is_none() ==> !x.is_zero() && !m.is_zero() && !x.eq(m),
{
    let zero = Double::from_bits(0);
    if x.is_nan() || m.is_nan() {
        return Some((Double::from_bits(NAN_BITS), Double::from_bits(NAN_BITS)));
    }
    if x.eq(m) {
        return Some((zero, zero));
    }
    if x.is_zero() {
        return Some((m, zero));
    }
    if m.is_zero() {
        return Some((Double::from_bits(POS_INF_BITS), zero));
    }
    None
}

} // verus!
