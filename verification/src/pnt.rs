//! The noncentral t distribution function where it needs no evaluation.

use vstd::prelude::*;
use vstd::arithmetic::power2::lemma2_to64_rest;
use crate::double::{double, is_exactly, lemma_nearest_below, Double, NAN_BITS};
use crate::dpq::{are_two_tails, on_log_scale, r_dt_0, r_dt_1};
use crate::pbeta::tail_of;
use crate::pt::{pt_known, pt_special};

verus! {

/// The pattern of 40: with a noncentrality above it the left half line
/// carries less mass than a double can tell from zero.
pub const LARGE_NCP_BITS: u64 = 0x4044_0000_0000_0000;

/// The distribution function of the noncentral t with `df` degrees of
/// freedom and noncentrality `ncp` at `t`, where it is known without
/// evaluation.
///
/// * A NaN argument or degrees of freedom that are not positive give
///   NaN.
/// * With `ncp = 0` it is Student's t: see [`pt_known`].
/// * At `-inf` the lower tail is 0, at `inf` it is 1.
/// * Left of zero with `ncp` above 40 the lower tail is 0, unless its
///   logarithm is asked for.
pub open spec fn pnt_known(t: Double, df: Double, ncp: Double, lower_tail: bool, log_p: bool)
    -> Option<Double> {
    if t.is_nan() || df.is_nan() || ncp.is_nan() {
        Some(double(NAN_BITS))
    } else if df.le(double(0)) {
        Some(double(NAN_BITS))
    } else if ncp.is_zero() {
        pt_known(t, df, lower_tail, log_p)
    } else if t.is_infinite() {
        Some(tail_of(t.gt(double(0)), lower_tail, log_p))
    } else if t.lt(double(0)) && ncp.gt(double(LARGE_NCP_BITS)) && (!log_p || !lower_tail) {
        Some(tail_of(false, lower_tail, log_p))
    } else {
        None
    }
}

/// The noncentral t distribution function where it needs no evaluation:
/// see [`pnt_known`]. `None` with `ncp = 0` asks for Student's t.
pub fn pnt_special(t: Double, df: Double, ncp: Double, lower_tail: bool, log_p: bool) -> (r:
    Option<Double>)
    ensures
        r == pnt_known(t, df, ncp, lower_tail, log_p),
        t.is_nan() || df.is_nan() || ncp.is_nan() ==> r == Some(double(NAN_BITS)),
        r.is_none() ==> t.is_finite() && double(0).lt(df),
{
    if t.is_nan() || df.is_nan() || ncp.is_nan() {
        return Some(Double::from_bits(NAN_BITS));
    }
    if df.le(Double::from_bits(0)) {
        return Some(Double::from_bits(NAN_BITS));
    }
    if ncp.is_zero() {
        return pt_special(t, df, lower_tail, log_p);
    }
    if t.is_infinite() {
        if t.gt(Double::from_bits(0)) {
            return Some(r_dt_1(lower_tail, log_p));
        }
        return Some(r_dt_0(lower_tail, log_p));
    }
    if t.lt(Double::from_bits(0)) && ncp.gt(Double::from_bits(LARGE_NCP_BITS)) && (!log_p
        || !lower_tail) {
        return Some(r_dt_0(lower_tail, log_p));
    }
    None
}

/// Whatever is settled on both scales is, on the log scale, the
/// logarithm of what it is on the linear scale. (Left of zero with a
/// large noncentrality the linear scale settles more than the log
/// scale does.)
pub proof fn lemma_pnt_log_linear(t: Double, df: Double, ncp: Double, lower_tail: bool)
    ensures
        pnt_known(t, df, ncp, lower_tail, true).is_some() ==> pnt_known(
            t,
            df,
            ncp,
            lower_tail,
            false,
        ).is_some(),
        pnt_known(t, df, ncp, lower_tail, true) matches Some(l) ==> on_log_scale(
            pnt_known(t, df, ncp, lower_tail, false).unwrap(),
            l,
        ),
{
}

/// Where the lower tail is settled so is the upper tail, and the two
/// add up to one.
pub proof fn lemma_pnt_tails(t: Double, df: Double, ncp: Double, log_p: bool)
    ensures
        pnt_known(t, df, ncp, true, log_p) matches Some(lower) ==> pnt_known(
            t,
            df,
            ncp,
            false,
            log_p,
        ).is_some() && are_two_tails(
            lower,
            pnt_known(t, df, ncp, false, log_p).unwrap(),
            log_p,
        ),
{
}

/// The threshold 40 is exact.
pub proof fn lemma_thresholds()
    ensures
        is_exactly(double(LARGE_NCP_BITS), 40, 1),
{
    assert(is_exactly(double(LARGE_NCP_BITS), 40, 1)) by {
        lemma2_to64_rest();
        assert(double(LARGE_NCP_BITS).exponent() == 1028);
        assert(double(LARGE_NCP_BITS).fraction() == 0x4_0000_0000_0000);
        lemma_nearest_below(double(LARGE_NCP_BITS), 40, 1, 47, 0x8000_0000_0000);
    }
}

} // verus!
