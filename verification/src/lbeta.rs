//! The logarithm of the beta function: its limit cases and the choice
//! of the formula.

use vstd::prelude::*;
use vstd::arithmetic::power2::lemma2_to64_rest;
use crate::double::{
    double,
    is_exactly,
    lemma_magnitude_order,
    lemma_nearest_below,
    Double,
    NAN_BITS,
    NEG_INF_BITS,
    POS_INF_BITS,
};

verus! {

/// The pattern of 10: from here on the logarithm of the gamma function
/// is taken from Stirling's formula with its correction.
pub const STIRLING_FROM_BITS: u64 = 0x4024_0000_0000_0000;

/// The pattern of 1e-306: below it the gamma function overflows and its
/// logarithm is used.
pub const GAMMA_OVERFLOWS_BITS: u64 = 0x0066_789e_3750_f791;

/// The logarithm of the beta function of `a` and `b`, where it is known
/// without evaluation.
///
/// * A NaN or a negative argument gives NaN.
/// * With an argument zero the beta function has a pole: `inf`.
/// * With an infinite argument (and the other positive) the beta
///   function is zero: `-inf`.
pub open spec fn lbeta_known(a: Double, b: Double) -> Option<Double> {
    if a.is_nan() || b.is_nan() {
        Some(double(NAN_BITS))
    } else if a.lt(double(0)) || b.lt(double(0)) {
        Some(double(NAN_BITS))
    } else if a.is_zero() || b.is_zero() {
        Some(double(POS_INF_BITS))
    } else if a.is_infinite() || b.is_infinite() {
        Some(double(NEG_INF_BITS))
    } else {
        None
    }
}

/// The lesser and the greater of two doubles that are not NaN.
pub fn ordered(a: Double, b: Double) -> (r: (Double, Double))
    requires
        !a.is_nan(),
        !b.is_nan(),
    ensures
        r.0 == a || r.0 == b,
        r.1 == a || r.1 == b,
        r.0.le(a) && r.0.le(b),
        r.1.ge(a) && r.1.ge(b),
{
    let mut p = a;
    let mut q = a;
    if b.lt(p) {
        p = b;
    }
    if b.gt(q) {
        q = b;
    }
    (p, q)
}

/// The logarithm of the beta function where it needs no evaluation: see
/// [`lbeta_known`]. `None` leaves two positive finite arguments.
pub fn lbeta_special(a: Double, b: Double) -> (r: Option<Double>)
    ensures
        r == lbeta_known(a, b),
        a.is_nan() || b.is_nan() ==> r == Some(double(NAN_BITS)),
        r.is_none() ==> double(0).lt(a) && a.is_finite() && double(0).lt(b) && b.is_finite(),
{
    if a.is_nan() || b.is_nan() {
        return Some(Double::from_bits(NAN_BITS));
    }
    let (p, q) = ordered(a, b);
    proof {
        lemma_magnitude_order(a, double(0));
        lemma_magnitude_order(b, double(0));
        lemma_magnitude_order(a, b);
        lemma_magnitude_order(a, double(POS_INF_BITS));
        lemma_magnitude_order(b, double(POS_INF_BITS));
    }
    if p.lt(Double::from_bits(0)) {
        return Some(Double::from_bits(NAN_BITS));
    }
    if p.is_zero() {
        return Some(Double::from_bits(POS_INF_BITS));
    }
    if !q.is_finite() {
        return Some(Double::from_bits(NEG_INF_BITS));
    }
    None
}

/// The formulas for the logarithm of the beta function of `p <= q`.
#[derive(Clone, Copy, Debug, PartialEq, Eq, Structural)]
pub enum BetaFormula {
    /// Both arguments are at least 10: Stirling's formula for all three
    /// gamma functions.
    BothLarge,
    /// Only `q` is at least 10: Stirling's formula for the two gamma
    /// functions that hold `q`.
    OneLarge,
    /// Both are below 10 and `p` is below 1e-306: the sum of three
    /// logarithms of the gamma function.
    Tiny,
    /// Both are below 10: the logarithm of a quotient of gamma
    /// functions.
    Small,
}

/// Chooses the formula for two positive finite arguments `p <= q`.
pub fn lbeta_formula(p: Double, q: Double) -> (r: BetaFormula)
    ensures
        r == BetaFormula::BothLarge <==> p.ge(double(STIRLING_FROM_BITS)),
        r == BetaFormula::OneLarge <==> !p.ge(double(STIRLING_FROM_BITS)) && q.ge(
            double(STIRLING_FROM_BITS),
        ),
        r == BetaFormula::Tiny <==> !p.ge(double(STIRLING_FROM_BITS)) && !q.ge(
            double(STIRLING_FROM_BITS),
        ) && p.lt(double(GAMMA_OVERFLOWS_BITS)),
{
    let ten = Double::from_bits(STIRLING_FROM_BITS);
    if p.ge(ten) {
        BetaFormula::BothLarge
    } else if q.ge(ten) {
        BetaFormula::OneLarge
    } else if p.lt(Double::from_bits(GAMMA_OVERFLOWS_BITS)) {
        BetaFormula::Tiny
    } else {
        BetaFormula::Small
    }
}

/// The threshold 10 is exact.
pub proof fn lemma_thresholds()
    ensures
        is_exactly(double(STIRLING_FROM_BITS), 10, 1),
{
    assert(is_exactly(double(STIRLING_FROM_BITS), 10, 1)) by {
        lemma2_to64_rest();
        assert(double(STIRLING_FROM_BITS).exponent() == 1026);
        assert(double(STIRLING_FROM_BITS).fraction() == 0x4_0000_0000_0000);
        lemma_nearest_below(double(STIRLING_FROM_BITS), 10, 1, 49, 0x2_0000_0000_0000);
    }
}

} // verus!
