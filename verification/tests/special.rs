use rmathlib::bd0::{bd0_special, ebd0_special};
use rmathlib::chebyshev::chebyshev_eval_special;
use rmathlib::dgamma::dgamma_special;
use rmathlib::dnorm::{dnorm4_special, dnorm_standard_special};
use rmathlib::double::Double;
use rmathlib::dpois::{dpois_raw_special, dpois_special};
use rmathlib::dpq::{r_d__0, r_d__1, r_dt_0, r_dt_1, r_q_p01_boundaries};
use rmathlib::dt::dt_special;
use rmathlib::gamma::gammafn_special;
use rmathlib::lbeta::{lbeta_formula, lbeta_special, ordered, BetaFormula};
use rmathlib::lgamma::{
    gamma_sign, lgammacor_case, lgammafn_formula, lgammafn_special, CorrectionCase,
    LogGammaFormula,
};
use rmathlib::stirlerr::{stirlerr_case, StirlingCase};
use rmathlib::libc::fabs;
use rmathlib::nmath::r_finite;
use rmathlib::pbeta::{pbeta_raw_special, pbeta_special};
use rmathlib::pgamma::{pgamma_method, pgamma_raw_special, pgamma_special, GammaMethod, GammaTerms};
use rmathlib::pnorm::{
    pnorm_limit, pnorm_range, pnorm_saturated, pnorm_special, pnorm_square_counts, NormalRange,
};
use rmathlib::pnt::pnt_special;
use rmathlib::pt::pt_special;
use rmathlib::qnorm::{
    qnorm5_special, qnorm_is_central, qnorm_log_is_given, qnorm_tail_range, QuantileRange,
};

const NAN: f64 = f64::NAN;
const INF: f64 = f64::INFINITY;

fn d(x: f64) -> Double {
    Double::from_bits(x.to_bits())
}

fn f(x: Double) -> f64 {
    f64::from_bits(x.to_bits())
}

fn of(x: Option<Double>) -> Option<f64> {
    x.map(f)
}

fn is_nan(x: Option<Double>) -> bool {
    matches!(x, Some(v) if f(v).is_nan())
}

fn pbeta(x: f64, a: f64, b: f64, lower_tail: bool, log_p: bool) -> Option<f64> {
    of(pbeta_special(d(x), d(a), d(b), lower_tail, log_p))
}

#[test]
fn the_four_conventions() {
    assert_eq!(f(r_d__0(false)), 0.0);
    assert_eq!(f(r_d__0(true)), -INF);
    assert_eq!(f(r_d__1(false)), 1.0);
    assert_eq!(f(r_d__1(true)), 0.0);
    assert_eq!(f(r_dt_0(true, false)), 0.0);
    assert_eq!(f(r_dt_0(false, false)), 1.0);
    assert_eq!(f(r_dt_0(true, true)), -INF);
    assert_eq!(f(r_dt_0(false, true)), 0.0);
    assert_eq!(f(r_dt_1(true, false)), 1.0);
    assert_eq!(f(r_dt_1(false, false)), 0.0);
    assert_eq!(f(r_dt_1(true, true)), 0.0);
    assert_eq!(f(r_dt_1(false, true)), -INF);
}

#[test]
fn quantile_boundaries() {
    let q = |p: f64, lower: bool, log: bool| of(r_q_p01_boundaries(d(p), d(-7.0), d(7.0), lower, log));
    assert_eq!(q(0.0, true, false), Some(-7.0));
    assert_eq!(q(0.0, false, false), Some(7.0));
    assert_eq!(q(1.0, true, false), Some(7.0));
    assert_eq!(q(1.0, false, false), Some(-7.0));
    assert_eq!(q(0.5, true, false), None);
    assert!(is_nan(r_q_p01_boundaries(d(-0.1), d(-7.0), d(7.0), true, false)));
    assert!(is_nan(r_q_p01_boundaries(d(1.1), d(-7.0), d(7.0), true, false)));
    assert!(is_nan(r_q_p01_boundaries(d(NAN), d(-7.0), d(7.0), true, false)));
    assert_eq!(q(0.0, true, true), Some(7.0));
    assert_eq!(q(0.0, false, true), Some(-7.0));
    assert_eq!(q(-INF, true, true), Some(-7.0));
    assert_eq!(q(-INF, false, true), Some(7.0));
    assert_eq!(q(-2.3, true, true), None);
    assert!(is_nan(r_q_p01_boundaries(d(0.1), d(-7.0), d(7.0), true, true)));
}

#[test]
fn pbeta_boundary_values() {
    // lower tail at 0 is 0 for a > 0
    for a in [1e-300, 0.5, 1.0, 3.0, 1e300, INF] {
        for b in [0.0, 1e-300, 0.5, 3.0, 1e300] {
            assert_eq!(pbeta(0.0, a, b, true, false), Some(0.0), "a = {a:?}, b = {b:?}");
            assert_eq!(pbeta(-0.0, a, b, true, false), Some(0.0));
        }
    }
    assert_eq!(pbeta(0.0, INF, INF, true, false), Some(0.0));
    // the point mass at 0 itself
    assert_eq!(pbeta(0.0, 1.0, INF, true, false), Some(1.0));
    // lower tail at 1 is 1 for b > 0
    for a in [0.0, 1e-300, 0.5, 3.0, INF] {
        for b in [1e-300, 0.5, 3.0, 1e300, INF] {
            assert_eq!(pbeta(1.0, a, b, true, false), Some(1.0), "a = {a:?}, b = {b:?}");
        }
    }
    // a = b = 0 gives one half inside
    for x in [1e-300, 0.25, 0.5, 0.75, 0.999] {
        assert_eq!(pbeta(x, 0.0, 0.0, true, false), Some(0.5));
        assert_eq!(pbeta(x, 0.0, 0.0, false, false), Some(0.5));
        assert_eq!(pbeta(x, 0.0, 0.0, true, true), Some(-std::f64::consts::LN_2));
    }
}

#[test]
fn pbeta_point_masses() {
    assert_eq!(pbeta(0.0, 0.0, 3.0, true, false), Some(1.0));
    assert_eq!(pbeta(1.0, 0.1, 0.0, true, false), Some(1.0));
    assert_eq!(pbeta(1.1, 3.0, 0.0, true, false), Some(1.0));
    assert_eq!(pbeta(0.0, 0.0, 0.0, true, false), Some(0.5));
    assert_eq!(pbeta(1.0, 0.0, 0.0, true, false), Some(1.0));
    assert_eq!(pbeta(0.9, 0.0, 1.0, false, false), Some(0.0));
    assert_eq!(pbeta(1.1, 0.0, 1.0, false, false), Some(0.0));
    assert_eq!(pbeta(0.1, 0.0, 1.0, false, false), Some(0.0));
    assert_eq!(pbeta(0.0, 0.0, 0.2, false, false), Some(0.0));
    assert_eq!(pbeta(0.3, 2.0, 0.0, true, false), Some(0.0));
    assert_eq!(pbeta(0.3, INF, 2.0, true, false), Some(0.0));
    assert_eq!(pbeta(0.3, 2.0, INF, true, false), Some(1.0));
    assert_eq!(pbeta(0.3, INF, INF, true, false), Some(0.0));
    assert_eq!(pbeta(0.5, INF, INF, true, false), Some(1.0));
    assert_eq!(pbeta(0.7, INF, INF, false, false), Some(0.0));
    assert_eq!(pbeta(-3.0, 2.0, 3.0, true, false), Some(0.0));
    assert_eq!(pbeta(-3.0, 2.0, 3.0, false, false), Some(1.0));
}

#[test]
fn pbeta_errors_and_evaluation() {
    assert!(pbeta(NAN, 1.0, 1.0, false, false).unwrap().is_nan());
    assert!(pbeta(0.5, NAN, 1.0, false, false).unwrap().is_nan());
    assert!(pbeta(0.5, 1.0, NAN, false, false).unwrap().is_nan());
    assert!(pbeta(0.0, -1.0, 1.0, false, false).unwrap().is_nan());
    assert!(pbeta(0.5, 1.0, -1.0, false, false).unwrap().is_nan());
    assert_eq!(pbeta(0.9, 0.1, 0.1, false, false), None);
    assert_eq!(pbeta(0.01, 0.01, 0.01, true, false), None);
    assert_eq!(pbeta(256.0 / 1024.0, 3.0, 2200.0, false, true), None);
    assert_eq!(of(pbeta_raw_special(d(0.5), d(2.0), d(3.0), true, false)), None);
    assert_eq!(of(pbeta_raw_special(d(2.0), d(2.0), d(3.0), true, false)), Some(1.0));
}

#[test]
fn pbeta_upper_log_tail_at_one_is_minus_infinity() {
    assert_eq!(pbeta(1024.0 / 1024.0, 3.0, 2200.0, false, true), Some(-INF));
    assert!(pbeta(1.0, 3.0, 2200.0, false, true).unwrap().is_infinite());
}

#[test]
fn pbeta_mirror_at_the_ends() {
    for (a, b) in [(0.8, 2.0), (2.0, 0.8), (3.0, 2200.0)] {
        for log_p in [false, true] {
            assert_eq!(pbeta(0.0, a, b, true, log_p), pbeta(1.0, b, a, false, log_p));
            assert_eq!(pbeta(1.0, a, b, true, log_p), pbeta(0.0, b, a, false, log_p));
            assert_eq!(pbeta(0.25, a, b, true, log_p), pbeta(0.75, b, a, false, log_p));
        }
    }
}

#[test]
fn settled_log_values_are_logarithms() {
    for x in [-1.0, 0.0, 0.3, 0.5, 1.0, 2.0] {
        for a in [0.0, 2.0, INF] {
            for b in [0.0, 3.0, INF] {
                for lower in [false, true] {
                    let linear = pbeta(x, a, b, lower, false);
                    let logged = pbeta(x, a, b, lower, true);
                    assert_eq!(linear.is_some(), logged.is_some());
                    if let (Some(p), Some(l)) = (linear, logged) {
                        assert_eq!(l.exp(), p, "x = {x:?}, a = {a:?}, b = {b:?}");
                    }
                }
            }
        }
    }
}

#[test]
fn nan_in_gives_nan_out() {
    assert!(is_nan(dnorm4_special(d(NAN), d(0.0), d(1.0), false)));
    assert!(is_nan(dnorm4_special(d(0.0), d(NAN), d(1.0), false)));
    assert!(is_nan(dnorm4_special(d(0.0), d(0.0), d(NAN), true)));
    assert!(is_nan(pnorm_special(d(NAN), d(0.0), d(1.0), true, false)));
    assert!(is_nan(pnorm_special(d(0.0), d(NAN), d(1.0), true, false)));
    assert!(is_nan(pnorm_special(d(0.0), d(0.0), d(NAN), true, false)));
    assert!(is_nan(qnorm5_special(d(NAN), d(0.0), d(1.0), true, false)));
    assert!(is_nan(qnorm5_special(d(0.5), d(NAN), d(1.0), true, false)));
    assert!(is_nan(qnorm5_special(d(0.5), d(0.0), d(NAN), true, false)));
    assert!(is_nan(dpois_special(d(NAN), d(1.0), false)));
    assert!(is_nan(dpois_special(d(1.0), d(NAN), false)));
    assert!(is_nan(dgamma_special(d(NAN), d(1.0), d(1.0), false)));
    assert!(is_nan(dgamma_special(d(1.0), d(NAN), d(1.0), false)));
    assert!(is_nan(dgamma_special(d(1.0), d(1.0), d(NAN), false)));
    assert!(is_nan(pgamma_special(d(NAN), d(1.0), d(1.0))));
    assert!(is_nan(pgamma_special(d(1.0), d(NAN), d(1.0))));
    assert!(is_nan(pgamma_special(d(1.0), d(1.0), d(NAN))));
    assert!(is_nan(pgamma_raw_special(d(NAN), d(1.0), true, false)));
    assert!(is_nan(pgamma_raw_special(d(1.0), d(NAN), true, false)));
    assert!(is_nan(pt_special(d(NAN), d(1.0), true, false)));
    assert!(is_nan(pt_special(d(1.0), d(NAN), true, false)));
    assert!(is_nan(dt_special(d(NAN), d(1.0), false)));
    assert!(is_nan(dt_special(d(1.0), d(NAN), false)));
    assert!(is_nan(pnt_special(d(NAN), d(1.0), d(1.0), true, false)));
    assert!(is_nan(pnt_special(d(1.0), d(NAN), d(1.0), true, false)));
    assert!(is_nan(pnt_special(d(1.0), d(1.0), d(NAN), true, false)));
    assert!(is_nan(lbeta_special(d(NAN), d(1.0))));
    assert!(is_nan(lbeta_special(d(1.0), d(NAN))));
    assert!(is_nan(gammafn_special(d(NAN))));
    assert!(is_nan(lgammafn_special(d(NAN))));
    assert!(is_nan(bd0_special(d(NAN), d(1.0))));
    assert!(is_nan(bd0_special(d(1.0), d(NAN))));
    let (hi, lo) = ebd0_special(d(NAN), d(1.0)).unwrap();
    assert!(f(hi).is_nan() && f(lo).is_nan());
    let (hi, lo) = ebd0_special(d(1.0), d(NAN)).unwrap();
    assert!(f(hi).is_nan() && f(lo).is_nan());
    assert!(is_nan(chebyshev_eval_special(d(NAN), 0)));
}

#[test]
fn normal_density_limits() {
    let dn = |x: f64, mu: f64, sigma: f64, log: bool| of(dnorm4_special(d(x), d(mu), d(sigma), log));
    assert!(dn(0.0, 0.0, -1.0, false).unwrap().is_nan());
    assert_eq!(dn(0.0, 0.0, INF, false), Some(0.0));
    assert_eq!(dn(0.0, 0.0, INF, true), Some(-INF));
    assert!(dn(INF, INF, 1.0, false).unwrap().is_nan());
    assert!(dn(-INF, -INF, 1.0, false).unwrap().is_nan());
    assert_eq!(dn(1.0, 1.0, 0.0, false), Some(INF));
    assert_eq!(dn(1.0, 2.0, 0.0, false), Some(0.0));
    assert_eq!(dn(1.0, 2.0, 0.0, true), Some(-INF));
    assert_eq!(dn(0.0, 0.0, 1.0, false), None);
    assert_eq!(dn(INF, 0.0, 1.0, false), None);
    let ds = |z: f64, log: bool| of(dnorm_standard_special(d(z), log));
    assert_eq!(ds(INF, false), Some(0.0));
    assert_eq!(ds(-INF, true), Some(-INF));
    assert_eq!(ds(2.0 * f64::MAX.sqrt(), true), Some(-INF));
    assert_eq!(ds(1e154, true), None);
    assert_eq!(ds(38.6, false), Some(0.0));
    assert_eq!(ds(-38.6, false), Some(0.0));
    assert_eq!(ds(38.5, false), None);
    assert_eq!(ds(38.6, true), None);
    assert_eq!(ds(1.0, false), None);
}

#[test]
fn normal_distribution_limits() {
    let pn = |x: f64, mu: f64, sigma: f64, lower: bool, log: bool| {
        of(pnorm_special(d(x), d(mu), d(sigma), lower, log))
    };
    assert!(pn(INF, INF, 1.0, true, false).unwrap().is_nan());
    assert!(pn(0.0, 0.0, -1.0, true, false).unwrap().is_nan());
    assert_eq!(pn(0.0, 1.0, 0.0, true, false), Some(0.0));
    assert_eq!(pn(1.0, 1.0, 0.0, true, false), Some(1.0));
    assert_eq!(pn(2.0, 1.0, 0.0, false, false), Some(0.0));
    assert_eq!(pn(0.0, 1.0, 0.0, false, true), Some(0.0));
    assert_eq!(pn(0.0, 0.0, 1.0, true, false), None);
    assert_eq!(pn(123.0, 0.2, 0.34, false, true), None);
    assert_eq!(f(pnorm_limit(d(-INF), d(0.0), true, false)), 0.0);
    assert_eq!(f(pnorm_limit(d(INF), d(0.0), true, false)), 1.0);
    assert_eq!(f(pnorm_limit(d(INF), d(0.0), false, true)), -INF);
}

fn range_by_floats(x: f64, lower: bool, upper: bool, log_p: bool) -> NormalRange {
    let y = x.abs();
    if y <= 0.67448975 {
        NormalRange::Central
    } else if y < 5.656_854_249_492_381 {
        NormalRange::Middle
    } else if log_p && y < 1e170
        || lower && -37.5193 < x && x < 8.2924
        || upper && -8.2924 < x && x < 37.5193
    {
        NormalRange::Tail
    } else {
        NormalRange::Saturated
    }
}

#[test]
fn normal_ranges_match_the_floats() {
    for x in [
        0.0, 1e-17, 0.6, 0.67448975, 0.6745, 3.0, 5.656, 5.657, 8.29, 8.2924, 8.3, 37.5, 37.5193,
        37.52, 1e100, 1e169, 1e170, 1e171, INF,
    ] {
        for sign in [1.0, -1.0] {
            for i_tail in [0, 1, 2] {
                for log_p in [false, true] {
                    let x = sign * x;
                    assert_eq!(
                        pnorm_range(d(x), i_tail, log_p),
                        range_by_floats(x, i_tail != 1, i_tail != 0, log_p),
                        "x = {x:?}, i_tail = {i_tail}, log_p = {log_p}"
                    );
                }
            }
        }
    }
    assert!(!pnorm_square_counts(d(0.0)));
    assert!(!pnorm_square_counts(d(f64::EPSILON * 0.5)));
    assert!(pnorm_square_counts(d(-f64::EPSILON)));
    let (cum, ccum) = pnorm_saturated(d(40.0), false);
    assert_eq!((f(cum), f(ccum)), (1.0, 0.0));
    let (cum, ccum) = pnorm_saturated(d(-40.0), false);
    assert_eq!((f(cum), f(ccum)), (0.0, 1.0));
    let (cum, ccum) = pnorm_saturated(d(-40.0), true);
    assert_eq!((f(cum), f(ccum)), (-INF, 0.0));
}

#[test]
fn normal_quantile_limits() {
    let qn = |p: f64, mu: f64, sigma: f64, lower: bool, log: bool| {
        of(qnorm5_special(d(p), d(mu), d(sigma), lower, log))
    };
    assert_eq!(qn(0.0, 0.5, 1.0, true, false), Some(-INF));
    assert_eq!(qn(1.0, 0.5, 1.0, true, false), Some(INF));
    assert_eq!(qn(0.0, 0.5, 1.0, false, false), Some(INF));
    assert_eq!(qn(-INF, 0.5, 1.0, true, true), Some(-INF));
    assert_eq!(qn(0.0, 0.5, 1.0, true, true), Some(INF));
    assert!(qn(1.5, 0.5, 1.0, true, false).unwrap().is_nan());
    assert!(qn(0.5, 0.5, 1.0, true, true).unwrap().is_nan());
    assert!(qn(0.4, 0.5, -1.0, true, false).unwrap().is_nan());
    assert_eq!(qn(0.4, 0.5, 0.0, true, false), Some(0.5));
    assert_eq!(qn(0.4, 0.5, 1.0, true, false), None);
    assert_eq!(qn(-2.3, 0.5, 1.0, false, true), None);
    assert!(qnorm_is_central(d(0.425)));
    assert!(qnorm_is_central(d(-0.425)));
    assert!(!qnorm_is_central(d(0.43)));
    assert!(qnorm_log_is_given(d(-0.45), true, true));
    assert!(!qnorm_log_is_given(d(-0.45), false, true));
    assert!(qnorm_log_is_given(d(0.45), false, true));
    assert!(!qnorm_log_is_given(d(0.45), false, false));
    assert_eq!(qnorm_tail_range(d(5.0)), QuantileRange::Intermediate);
    assert_eq!(qnorm_tail_range(d(5.1)), QuantileRange::Extreme);
    assert_eq!(qnorm_tail_range(d(815.9)), QuantileRange::Extreme);
    assert_eq!(qnorm_tail_range(d(816.0)), QuantileRange::Asymptotic);
}

#[test]
fn poisson_limits() {
    let dp = |x: f64, l: f64, log: bool| of(dpois_special(d(x), d(l), log));
    assert!(dp(-1.0, -1.0, false).unwrap().is_nan());
    assert!(dp(1.0, -1.0, false).unwrap().is_nan());
    assert_eq!(dp(-1.0, 1.0, false), Some(0.0));
    assert_eq!(dp(-1.0, 1.0, true), Some(-INF));
    assert_eq!(dp(INF, 1.0, false), Some(0.0));
    assert_eq!(dp(1.0, 1.0, false), None);
    assert_eq!(dp(1.0, 1.0, true), None);
    let dr = |x: f64, l: f64, log: bool| of(dpois_raw_special(d(x), d(l), log));
    assert_eq!(dr(0.0, 0.0, false), Some(1.0));
    assert_eq!(dr(0.0, 0.0, true), Some(0.0));
    assert_eq!(dr(2.0, 0.0, false), Some(0.0));
    assert_eq!(dr(2.0, INF, false), Some(0.0));
    assert_eq!(dr(-2.0, 3.0, false), Some(0.0));
    assert_eq!(dr(2.0, 3.0, false), None);
}

#[test]
fn gamma_density_limits() {
    let dg = |x: f64, shape: f64, scale: f64, log: bool| {
        of(dgamma_special(d(x), d(shape), d(scale), log))
    };
    assert_eq!(dg(0.0, 0.0, 1.0, false), Some(INF));
    assert!(dg(0.0, -1.0, 1.0, false).unwrap().is_nan());
    assert!(dg(0.0, 1.0, 0.0, false).unwrap().is_nan());
    assert!(dg(0.0, 1.0, -1.0, false).unwrap().is_nan());
    assert_eq!(dg(-1.0, 1.0, 1.0, false), Some(0.0));
    assert_eq!(dg(-1.0, 1.0, 1.0, true), Some(-INF));
    assert_eq!(dg(1.0, 0.0, 1.0, false), Some(0.0));
    assert_eq!(dg(0.0, 0.5, 1.0, false), Some(INF));
    assert_eq!(dg(0.0, 1.5, 1.0, false), Some(0.0));
    assert_eq!(dg(0.0, 1.0, 2.0, false), None);
    assert_eq!(dg(0.12, 0.34, 0.56, true), None);
}

#[test]
fn gamma_distribution_limits() {
    assert!(is_nan(pgamma_special(d(0.0), d(-1.0), d(1.0))));
    assert!(is_nan(pgamma_special(d(0.0), d(1.0), d(-1.0))));
    assert!(is_nan(pgamma_special(d(0.0), d(-1.0), d(-1.0))));
    assert!(is_nan(pgamma_special(d(0.0), d(0.0), d(1.0))));
    assert!(pgamma_special(d(0.1), d(0.1), d(1.0)).is_none());
    let pr = |x: f64, alph: f64, lower: bool, log: bool| {
        of(pgamma_raw_special(d(x), d(alph), lower, log))
    };
    assert!(pr(1.0, 0.0, true, false).unwrap().is_nan());
    assert_eq!(pr(0.0, 1.0, true, false), Some(0.0));
    assert_eq!(pr(0.0, 1.0, false, false), Some(1.0));
    assert_eq!(pr(0.0, 1.0, true, true), Some(-INF));
    assert_eq!(pr(-1.0, 1.0, true, false), Some(0.0));
    assert_eq!(pr(-1.0, 1.0, false, false), Some(1.0));
    assert_eq!(pr(1.0, INF, true, false), Some(1.0));
    assert_eq!(pr(1.0, INF, false, true), Some(-INF));
    assert_eq!(pr(0.65 / 0.34, 0.2, false, false), None);
}

fn gamma_method_by_floats(x: f64, alph: f64) -> GammaMethod {
    if x < 1.0 {
        GammaMethod::SmallX
    } else if x <= alph - 1.0 && x < 0.8 * (alph + 50.0) {
        GammaMethod::UpperSeries
    } else if alph - 1.0 < x && alph < 0.8 * (x + 50.0) {
        GammaMethod::LowerSeries
    } else {
        GammaMethod::Asymptotic
    }
}

#[test]
fn gamma_methods_match_the_floats() {
    for x in [1e-10, 0.99, 1.0, 2.0, 10.0, 100.0, 199.0, 200.0, 201.0, 240.0, 1e5, 1e10] {
        for alph in [1e-10, 0.5, 1.0, 2.0, 3.0, 11.0, 100.0, 200.0, 201.0, 290.0, 1e5, 1e10] {
            let t = GammaTerms {
                alph_less_one: d(alph - 1.0),
                x_limit: d(0.8 * (alph + 50.0)),
                alph_limit: d(0.8 * (x + 50.0)),
            };
            assert_eq!(
                pgamma_method(d(x), d(alph), t),
                gamma_method_by_floats(x, alph),
                "x = {x:?}, alph = {alph:?}"
            );
        }
    }
}

#[test]
fn student_limits() {
    let pt = |x: f64, n: f64, lower: bool, log: bool| of(pt_special(d(x), d(n), lower, log));
    assert!(pt(0.1, 0.0, true, false).unwrap().is_nan());
    assert!(pt(0.1, -1.0, true, false).unwrap().is_nan());
    assert_eq!(pt(-INF, 3.0, true, false), Some(0.0));
    assert_eq!(pt(INF, 3.0, true, false), Some(1.0));
    assert_eq!(pt(INF, 3.0, false, false), Some(0.0));
    assert_eq!(pt(-INF, 3.0, false, true), Some(0.0));
    assert_eq!(pt(0.1, 1.0, false, false), None);
    assert_eq!(pt(0.1, INF, false, false), None);
    let dt = |x: f64, n: f64, log: bool| of(dt_special(d(x), d(n), log));
    assert!(dt(0.1, 0.0, false).unwrap().is_nan());
    assert_eq!(dt(INF, 3.0, false), Some(0.0));
    assert_eq!(dt(-INF, 3.0, true), Some(-INF));
    assert_eq!(dt(0.1, 3.0, true), None);
    let pnt = |t: f64, df: f64, ncp: f64, lower: bool, log: bool| {
        of(pnt_special(d(t), d(df), d(ncp), lower, log))
    };
    assert!(pnt(0.1, 0.0, 1.0, true, false).unwrap().is_nan());
    assert_eq!(pnt(INF, 3.0, 0.0, true, false), Some(1.0));
    assert_eq!(pnt(0.5, 3.0, 0.0, true, false), None);
    assert_eq!(pnt(-INF, 3.0, 1.0, true, false), Some(0.0));
    assert_eq!(pnt(INF, 3.0, 1.0, true, false), Some(1.0));
    assert_eq!(pnt(-1.0, 3.0, 41.0, true, false), Some(0.0));
    assert_eq!(pnt(-1.0, 3.0, 41.0, false, true), Some(0.0));
    assert_eq!(pnt(-1.0, 3.0, 41.0, true, true), None);
    assert_eq!(pnt(-1.0, 3.0, 40.0, true, false), None);
    assert_eq!(pnt(1.0, 3.0, 41.0, true, false), None);
}

#[test]
fn log_beta_limits() {
    let lb = |a: f64, b: f64| of(lbeta_special(d(a), d(b)));
    assert_eq!(lb(0.0, 0.0), Some(INF));
    assert_eq!(lb(10.0, 0.0), Some(INF));
    assert_eq!(lb(0.0, 10.0), Some(INF));
    assert!(lb(-100.0, 0.0).unwrap().is_nan());
    assert!(lb(0.0, -100.0).unwrap().is_nan());
    assert!(lb(100.0, -100.0).unwrap().is_nan());
    assert_eq!(lb(1.0, INF), Some(-INF));
    assert_eq!(lb(INF, INF), Some(-INF));
    assert_eq!(lb(1.0, 1.0), None);
    assert_eq!(lb(100.0, 1.0), None);
    let (p, q) = ordered(d(3.0), d(2.0));
    assert_eq!((f(p), f(q)), (2.0, 3.0));
    let (p, q) = ordered(d(2.0), d(3.0));
    assert_eq!((f(p), f(q)), (2.0, 3.0));
    assert_eq!(lbeta_formula(d(10.0), d(10.0)), BetaFormula::BothLarge);
    assert_eq!(lbeta_formula(d(100.0), d(100.0)), BetaFormula::BothLarge);
    assert_eq!(lbeta_formula(d(1.0), d(100.0)), BetaFormula::OneLarge);
    assert_eq!(lbeta_formula(d(1.0), d(1.0)), BetaFormula::Small);
    assert_eq!(lbeta_formula(d(1e-307), d(1.0)), BetaFormula::Tiny);
    assert_eq!(lbeta_formula(d(1e-306), d(1.0)), BetaFormula::Small);
}

#[test]
fn gamma_function_limits() {
    let g = |x: f64| of(gammafn_special(d(x)));
    assert!(g(-1.0).unwrap().is_nan());
    assert!(g(0.0).unwrap().is_nan());
    assert!(g(-0.0).unwrap().is_nan());
    assert!(g(-170.0).unwrap().is_nan());
    assert!(g(-1e300).unwrap().is_nan());
    assert!(g(-INF).unwrap().is_nan());
    assert_eq!(g(0.1), None);
    assert_eq!(g(1.0), None);
    assert_eq!(g(-0.5), None);
    assert_eq!(g(171.0), None);
    assert_eq!(g(171.7), Some(INF));
    assert_eq!(g(INF), Some(INF));
    assert_eq!(g(-170.5), None);
    assert_eq!(g(-170.6), Some(0.0));
    assert_eq!(g(-1000.5), Some(0.0));
}

fn sign_by_floats(x: f64) -> i32 {
    if x < 0.0 && ((-x).floor() % 2.0) == 0.0 {
        -1
    } else {
        1
    }
}

#[test]
fn log_gamma_limits_and_sign() {
    let lg = |x: f64| of(lgammafn_special(d(x)));
    assert_eq!(lg(0.0), Some(INF));
    assert_eq!(lg(-1.0), Some(INF));
    assert_eq!(lg(-1e300), Some(INF));
    assert_eq!(lg(1.0), None);
    assert_eq!(lg(-1.5), None);
    assert_eq!(lg(2.5327372760800758e+305), None);
    assert_eq!(lg(2.6e305), Some(INF));
    assert_eq!(lg(INF), Some(INF));
    assert_eq!(lg(-INF), Some(INF));
    for x in [
        -INF, -1e300, -4.5, -4.0, -3.5, -3.0, -2.5, -2.0, -1.5, -1.0, -0.5, -1e-300, -0.0, 0.0,
        0.5, 1.0, 2.5, INF, NAN,
    ] {
        assert_eq!(gamma_sign(d(x)), sign_by_floats(x), "x = {x:?}");
    }
    assert_eq!(gamma_sign(d(-0.5)), -1);
    assert_eq!(gamma_sign(d(-1.5)), 1);
    assert_eq!(gamma_sign(d(-2.5)), -1);
    assert_eq!(gamma_sign(d(0.0)), 1);
    assert_eq!(gamma_sign(d(1.0)), 1);
    assert_eq!(lgammafn_formula(d(1e-307)), LogGammaFormula::Reciprocal);
    assert_eq!(lgammafn_formula(d(-1e-307)), LogGammaFormula::Reciprocal);
    assert_eq!(lgammafn_formula(d(1e-306)), LogGammaFormula::Direct);
    assert_eq!(lgammafn_formula(d(-10.0)), LogGammaFormula::Direct);
    assert_eq!(lgammafn_formula(d(10.5)), LogGammaFormula::Corrected);
    assert_eq!(lgammafn_formula(d(4934720.0)), LogGammaFormula::Corrected);
    assert_eq!(lgammafn_formula(d(4934721.0)), LogGammaFormula::Stirling);
    assert_eq!(lgammafn_formula(d(1e17)), LogGammaFormula::Stirling);
    assert_eq!(lgammafn_formula(d(1.1e17)), LogGammaFormula::Leading);
    assert_eq!(lgammafn_formula(d(-10.5)), LogGammaFormula::Reflection);
}

#[test]
fn deviance_limits() {
    assert!(is_nan(bd0_special(d(INF), d(1.0))));
    assert!(is_nan(bd0_special(d(1.0), d(INF))));
    assert!(is_nan(bd0_special(d(1.0), d(0.0))));
    assert!(bd0_special(d(9.0), d(8.9)).is_none());
    assert!(bd0_special(d(5.0), d(1.0)).is_none());
    let e = |x: f64, m: f64| ebd0_special(d(x), d(m)).map(|(hi, lo)| (f(hi), f(lo)));
    assert_eq!(e(1.0, 1.0), Some((0.0, 0.0)));
    assert_eq!(e(0.0, 1.0), Some((1.0, 0.0)));
    assert_eq!(e(1.0, 0.0), Some((INF, 0.0)));
    assert_eq!(e(0.0, 0.0), Some((0.0, 0.0)));
    assert_eq!(e(3.0, 0.5), None);
    assert_eq!(e(10.2, 5.45), None);
}

#[test]
fn chebyshev_rules() {
    assert!(is_nan(chebyshev_eval_special(d(0.6), 0)));
    assert!(is_nan(chebyshev_eval_special(d(0.6), 1001)));
    assert!(is_nan(chebyshev_eval_special(d(1.2), 2)));
    assert!(is_nan(chebyshev_eval_special(d(-1.2), 2)));
    assert!(chebyshev_eval_special(d(0.6), 2).is_none());
    assert!(chebyshev_eval_special(d(1.1), 1000).is_none());
    assert!(chebyshev_eval_special(d(-1.1), 1).is_none());
}

#[test]
fn finite_and_absolute_value() {
    assert!(r_finite(d(0.0)));
    assert!(r_finite(d(f64::MAX)));
    assert!(!r_finite(d(INF)));
    assert!(!r_finite(d(-INF)));
    assert!(!r_finite(d(NAN)));
    assert_eq!(f(fabs(d(-2.5))), 2.5);
    assert_eq!(f(fabs(d(2.5))), 2.5);
    assert_eq!(fabs(d(-0.0)).to_bits(), 0);
    assert_eq!(f(fabs(d(-INF))), INF);
    assert!(f(fabs(d(NAN))).is_nan());
}

#[test]
fn stirling_error_cases() {
    for i in 0..=30 {
        let n = i as f64 / 2.0;
        assert_eq!(stirlerr_case(d(n)), StirlingCase::Tabulated { index: i as usize }, "n = {n:?}");
    }
    assert_eq!(stirlerr_case(d(-0.0)), StirlingCase::Tabulated { index: 0 });
    assert_eq!(stirlerr_case(d(1.0)), StirlingCase::Tabulated { index: 2 });
    assert_eq!(stirlerr_case(d(2.0)), StirlingCase::Tabulated { index: 4 });
    assert_eq!(stirlerr_case(d(0.25)), StirlingCase::ByLogGamma);
    assert_eq!(stirlerr_case(d(14.9)), StirlingCase::ByLogGamma);
    assert_eq!(stirlerr_case(d(1e-320)), StirlingCase::ByLogGamma);
    assert_eq!(stirlerr_case(d(-1.0)), StirlingCase::ByLogGamma);
    assert_eq!(stirlerr_case(d(15.5)), StirlingCase::Series { terms: 5 });
    assert_eq!(stirlerr_case(d(25.0)), StirlingCase::Series { terms: 5 });
    assert_eq!(stirlerr_case(d(35.0)), StirlingCase::Series { terms: 5 });
    assert_eq!(stirlerr_case(d(50.0)), StirlingCase::Series { terms: 4 });
    assert_eq!(stirlerr_case(d(80.0)), StirlingCase::Series { terms: 4 });
    assert_eq!(stirlerr_case(d(81.0)), StirlingCase::Series { terms: 3 });
    assert_eq!(stirlerr_case(d(500.0)), StirlingCase::Series { terms: 3 });
    assert_eq!(stirlerr_case(d(501.0)), StirlingCase::Series { terms: 2 });
    assert_eq!(stirlerr_case(d(INF)), StirlingCase::Series { terms: 2 });
}

#[test]
fn stirling_correction_cases() {
    assert_eq!(lgammacor_case(d(-1.0)), CorrectionCase::Undefined);
    assert_eq!(lgammacor_case(d(0.0)), CorrectionCase::Undefined);
    assert_eq!(lgammacor_case(d(NAN)), CorrectionCase::Undefined);
    assert_eq!(lgammacor_case(d(10.0)), CorrectionCase::Series);
    assert_eq!(lgammacor_case(d(20.0)), CorrectionCase::Series);
    assert_eq!(lgammacor_case(d(94906265.62425156)), CorrectionCase::Leading);
    assert_eq!(lgammacor_case(d(94906265.62425156 + 1.0)), CorrectionCase::Leading);
    assert_eq!(lgammacor_case(d(3.745194030963158e306 + 1.0)), CorrectionCase::Leading);
}
