//! The choice among the expansions of the incomplete beta ratio.
//!
//! Each series, continued fraction and asymptotic expansion is accurate
//! in its own range of `(a, b, x)` only. The choice compares the
//! parameters, a few of their products and two powers with fixed
//! thresholds. The products and powers are floating-point results: the
//! caller computes them and hands them over as doubles.

use vstd::prelude::*;
use vstd::arithmetic::div_mod::lemma_fundamental_div_mod;
use vstd::arithmetic::power2::{lemma2_to64_rest, lemma_pow2_adds, lemma_pow2_pos, pow2};
use crate::double::{double, lemma_magnitude_order, lemma_nearest_below, Double, ONE_BITS};
use crate::integral::lemma_whole_of;
use crate::toms708::{
    max,
    max_of,
    min,
    min_of,
    EPS_BITS,
    FIFTEEN_BITS,
    FIFTH_BITS,
    FORTY_BITS,
    HUNDRED_BITS,
    LAMBDA_LOG_BITS,
    NINE_TENTHS_BITS,
    SEVEN_TENTHS_BITS,
    TENTH_BITS,
    THREE_TENTHS_BITS,
    X_COMPLEMENT_BITS,
};

verus! {

/// The ways to evaluate `I_x(a, b)` for the oriented problem
/// `(a0, b0, x0, y0)`.
#[derive(Clone, Copy, Debug, PartialEq, Eq, Structural)]
pub enum Method {
    /// The power series for `b0` far below `a0`.
    Fpser,
    /// The series for the complement, for `a0` far below `b0`.
    Apser,
    /// The power series in `x0`.
    Bpser,
    /// The power series in `y0`, which gives the complement.
    BpserComplement,
    /// The asymptotic expansion for large `b0` and `a0` no more than 1,
    /// which gives the complement.
    Bgrat,
    /// Twenty terms of the finite sum that raises `b0` by 20, then the
    /// asymptotic expansion as in `Bgrat`.
    BupBgrat,
    /// The finite sum over the whole part of `b0`, then the power series
    /// or the asymptotic expansion: for both parameters above 1 and
    /// `b0` below 40.
    BupSplit,
    /// The continued fraction.
    Bfrac,
    /// The asymptotic expansion for large and nearly equal parameters.
    Basym,
}

/// What the choice compares when one parameter is no more than 1, as
/// the caller's arithmetic rounds it.
#[derive(Clone, Copy, Debug)]
pub struct SmallTerms {
    /// `eps * a0`, with `eps` the tolerance 1e-15.
    pub eps_a0: Double,
    /// `eps * b0`.
    pub eps_b0: Double,
    /// `b0 * x0`.
    pub b0_x0: Double,
    /// `(x0 * b0)` to the power `a0`.
    pub x0_b0_pow_a0: Double,
    /// `x0` to the power `a0`.
    pub x0_pow_a0: Double,
}

/// What the choice compares when both parameters are above 1, as the
/// caller's arithmetic rounds it.
#[derive(Clone, Copy, Debug)]
pub struct LargeTerms {
    /// `|(a + b) y - b|`.
    pub lambda: Double,
    /// `b0 * x0`.
    pub b0_x0: Double,
    /// `b0 * 0.03`.
    pub b0_3_percent: Double,
    /// `a0 * 0.03`.
    pub a0_3_percent: Double,
}

/// The expansion for a problem with a parameter no more than 1.
pub open spec fn small_method(a0: Double, b0: Double, x0: Double, t: SmallTerms) -> Method {
    if b0.lt(min_of(double(EPS_BITS), t.eps_a0)) {
        Method::Fpser
    } else if a0.lt(min_of(double(EPS_BITS), t.eps_b0)) && t.b0_x0.le(double(ONE_BITS)) {
        Method::Apser
    } else if max_of(a0, b0).gt(double(ONE_BITS)) {
        if b0.le(double(ONE_BITS)) {
            Method::Bpser
        } else if x0.ge(double(X_COMPLEMENT_BITS)) {
            Method::BpserComplement
        } else if x0.lt(double(TENTH_BITS)) && t.x0_b0_pow_a0.le(double(SEVEN_TENTHS_BITS)) {
            Method::Bpser
        } else if b0.gt(double(FIFTEEN_BITS)) {
            Method::Bgrat
        } else {
            Method::BupBgrat
        }
    } else {
        if a0.ge(min_of(double(FIFTH_BITS), b0)) {
            Method::Bpser
        } else if t.x0_pow_a0.le(double(NINE_TENTHS_BITS)) {
            Method::Bpser
        } else if x0.ge(double(THREE_TENTHS_BITS)) {
            Method::BpserComplement
        } else {
            Method::BupBgrat
        }
    }
}

/// The expansion for a problem with both parameters above 1.
pub open spec fn large_method(a0: Double, b0: Double, t: LargeTerms, log_p: bool) -> Method {
    if b0.lt(double(FORTY_BITS)) {
        if t.b0_x0.le(double(SEVEN_TENTHS_BITS)) || (log_p && t.lambda.gt(
            double(LAMBDA_LOG_BITS),
        )) {
            Method::Bpser
        } else {
            Method::BupSplit
        }
    } else if a0.gt(b0) {
        if b0.le(double(HUNDRED_BITS)) || t.lambda.gt(t.b0_3_percent) {
            Method::Bfrac
        } else {
            Method::Basym
        }
    } else if a0.le(double(HUNDRED_BITS)) {
        Method::Bfrac
    } else if t.lambda.gt(t.a0_3_percent) {
        Method::Bfrac
    } else {
        Method::Basym
    }
}

/// Chooses the expansion when one parameter is no more than 1.
pub fn select_small(a0: Double, b0: Double, x0: Double, t: SmallTerms) -> (r: Method)
    ensures
        r == small_method(a0, b0, x0, t),
{
    let eps = Double::from_bits(EPS_BITS);
    let one = Double::from_bits(ONE_BITS);
    if b0.lt(min(eps, t.eps_a0)) {
        return Method::Fpser;
    }
    if a0.lt(min(eps, t.eps_b0)) && t.b0_x0.le(one) {
        return Method::Apser;
    }
    if max(a0, b0).gt(one) {
        if b0.le(one) {
            return Method::Bpser;
        }
        if x0.ge(Double::from_bits(X_COMPLEMENT_BITS)) {
            return Method::BpserComplement;
        }
        if x0.lt(Double::from_bits(TENTH_BITS)) && t.x0_b0_pow_a0.le(
            Double::from_bits(SEVEN_TENTHS_BITS),
        ) {
            return Method::Bpser;
        }
        if b0.gt(Double::from_bits(FIFTEEN_BITS)) {
            return Method::Bgrat;
        }
    } else {
        if a0.ge(min(Double::from_bits(FIFTH_BITS), b0)) {
            return Method::Bpser;
        }
        if t.x0_pow_a0.le(Double::from_bits(NINE_TENTHS_BITS)) {
            return Method::Bpser;
        }
        if x0.ge(Double::from_bits(THREE_TENTHS_BITS)) {
            return Method::BpserComplement;
        }
    }
    Method::BupBgrat
}

/// Chooses the expansion when both parameters are above 1.
pub fn select_large(a0: Double, b0: Double, t: LargeTerms, log_p: bool) -> (r: Method)
    ensures
        r == large_method(a0, b0, t, log_p),
{
    let hundred = Double::from_bits(HUNDRED_BITS);
    if b0.lt(Double::from_bits(FORTY_BITS)) {
        if t.b0_x0.le(Double::from_bits(SEVEN_TENTHS_BITS)) || (log_p && t.lambda.gt(
            Double::from_bits(LAMBDA_LOG_BITS),
        )) {
            Method::Bpser
        } else {
            Method::BupSplit
        }
    } else if a0.gt(b0) {
        if b0.le(hundred) || t.lambda.gt(t.b0_3_percent) {
            Method::Bfrac
        } else {
            Method::Basym
        }
    } else if a0.le(hundred) {
        Method::Bfrac
    } else if t.lambda.gt(t.a0_3_percent) {
        Method::Bfrac
    } else {
        Method::Basym
    }
}

/// The ways to go on after the finite sum over the whole part of `b0`,
/// for both parameters above 1 and `b0` below 40.
#[derive(Clone, Copy, Debug, PartialEq, Eq, Structural)]
pub enum SplitMethod {
    /// `x0` up to 0.7: the power series for the fractional part.
    Series,
    /// `a0` up to 15: twenty more terms of the finite sum, which raise
    /// `a0` by 20, then the asymptotic expansion.
    SumAndExpansion,
    /// The asymptotic expansion at once.
    Expansion,
}

/// Chooses how to go on after the finite sum.
pub fn select_split(a0: Double, x0: Double) -> (r: SplitMethod)
    ensures
        r == SplitMethod::Series <==> x0.le(double(SEVEN_TENTHS_BITS)),
        r == SplitMethod::SumAndExpansion <==> !x0.le(double(SEVEN_TENTHS_BITS)) && a0.le(
            double(FIFTEEN_BITS),
        ),
{
    if x0.le(Double::from_bits(SEVEN_TENTHS_BITS)) {
        SplitMethod::Series
    } else if a0.le(Double::from_bits(FIFTEEN_BITS)) {
        SplitMethod::SumAndExpansion
    } else {
        SplitMethod::Expansion
    }
}

/// The whole part of a parameter `b0` between 1 and 40 that the finite
/// sum takes off: all of it, but one less where `b0` is whole, so that
/// what remains lies in `(0, 1]`.
pub fn whole_steps(b0: Double) -> (n: i32)
    requires
        double(ONE_BITS).lt(b0),
        b0.lt(double(FORTY_BITS)),
    ensures
        n == (if b0.is_integer() {
            b0.whole() - 1
        } else {
            b0.whole() as int
        }),
        1 <= n <= 39,
{
    let n: i32 = b0.to_i32();
    proof {
        let unit = pow2(1074) as int;
        let m = b0.magnitude() as int;
        lemma_pow2_pos(1074);
        lemma_magnitude_order(b0, double(0));
        lemma_whole_of(b0);
        assert(double(ONE_BITS).value() == unit && double(FORTY_BITS).value() == 40 * unit) by {
            lemma2_to64_rest();
            assert(double(ONE_BITS).exponent() == 1023);
            assert(double(FORTY_BITS).exponent() == 1028);
            assert(double(FORTY_BITS).fraction() == 0x4_0000_0000_0000);
            lemma_pow2_adds(52, 1022);
            lemma_nearest_below(double(FORTY_BITS), 40, 1, 47, 0x8000_0000_0000);
        }
        assert(unit < m && m < 40 * unit);
        lemma_fundamental_div_mod(m, unit);
        assert(1 <= m / unit && m / unit <= 39 && (m % unit == 0 ==> m / unit >= 2))
            by (nonlinear_arith)
            requires
                unit < m,
                m < 40 * unit,
                m == unit * (m / unit) + m % unit,
                0 <= m % unit,
                m % unit < unit,
        ;
    }
    if b0.is_integer() {
        n - 1
    } else {
        n
    }
}

/// With a parameter no more than 1, each expansion is chosen inside its
/// range only.
///
/// The two series for a tiny parameter are chosen only where that
/// parameter is below the tolerance. The asymptotic expansion, which
/// needs its small parameter no more than 1, gets `a0 <= 1`; it is used
/// at once only where `b0 > 15`, and after the finite sum where
/// `b0 <= 15`. The continued fraction, the large asymptotic expansion
/// and the split finite sum are never chosen.
pub proof fn lemma_small_method_ranges(a0: Double, b0: Double, x0: Double, t: SmallTerms)
    requires
        !a0.is_nan(),
        !b0.is_nan(),
        min_of(a0, b0).le(double(ONE_BITS)),
    ensures
        ({
            let m = small_method(a0, b0, x0, t);
            &&& m != Method::Bfrac && m != Method::Basym && m != Method::BupSplit
            &&& m == Method::Fpser ==> b0.lt(double(EPS_BITS))
            &&& m == Method::Apser ==> a0.lt(double(EPS_BITS)) && t.b0_x0.le(double(ONE_BITS))
            &&& m == Method::Bgrat ==> a0.le(double(ONE_BITS)) && b0.gt(double(FIFTEEN_BITS))
            &&& m == Method::BupBgrat ==> a0.le(double(ONE_BITS)) && b0.le(double(FIFTEEN_BITS))
            &&& m == Method::BpserComplement ==> x0.ge(double(X_COMPLEMENT_BITS))
        }),
{
    lemma_magnitude_order(double(EPS_BITS), t.eps_a0);
    lemma_magnitude_order(double(EPS_BITS), t.eps_b0);
    lemma_magnitude_order(double(ONE_BITS), double(FIFTEEN_BITS));
    lemma_magnitude_order(double(X_COMPLEMENT_BITS), double(THREE_TENTHS_BITS));
    lemma_magnitude_order(a0, double(ONE_BITS));
    lemma_magnitude_order(b0, double(ONE_BITS));
    lemma_magnitude_order(b0, double(FIFTEEN_BITS));
    lemma_magnitude_order(a0, b0);
}

/// With both parameters above 1, each expansion is chosen inside its
/// range only.
///
/// The power series and the split finite sum are chosen only for `b0`
/// below 40, the series only where `b0 * x0` is no more than 0.7 or, on
/// the log scale, `lambda` is above 650. The large asymptotic expansion
/// is chosen only where both parameters are above 100 and `lambda` is no
/// more than 3 percent of the lesser.
pub proof fn lemma_large_method_ranges(a0: Double, b0: Double, t: LargeTerms, log_p: bool)
    requires
        !a0.is_nan(),
        !b0.is_nan(),
    ensures
        ({
            let m = large_method(a0, b0, t, log_p);
            &&& m == Method::Bpser || m == Method::BupSplit || m == Method::Bfrac || m
                == Method::Basym
            &&& m == Method::Bpser || m == Method::BupSplit <==> b0.lt(double(FORTY_BITS))
            &&& m == Method::Bpser ==> t.b0_x0.le(double(SEVEN_TENTHS_BITS)) || (log_p
                && t.lambda.gt(double(LAMBDA_LOG_BITS)))
            &&& m == Method::Basym ==> a0.gt(double(HUNDRED_BITS)) && b0.gt(double(HUNDRED_BITS))
            &&& m == Method::Basym ==> !t.lambda.gt(
                if a0.gt(b0) {
                    t.b0_3_percent
                } else {
                    t.a0_3_percent
                },
            )
        }),
{
    lemma_magnitude_order(double(FORTY_BITS), double(HUNDRED_BITS));
    lemma_magnitude_order(a0, double(HUNDRED_BITS));
    lemma_magnitude_order(b0, double(HUNDRED_BITS));
    lemma_magnitude_order(b0, double(FORTY_BITS));
    lemma_magnitude_order(a0, b0);
}

} // verus!
