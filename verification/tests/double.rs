use rmathlib::double::Double;

fn d(x: f64) -> Double {
    Double::from_bits(x.to_bits())
}

fn samples() -> Vec<f64> {
    vec![
        0.0,
        -0.0,
        f64::from_bits(1),
        -f64::from_bits(1),
        f64::MIN_POSITIVE,
        -f64::MIN_POSITIVE,
        f64::from_bits(0x000f_ffff_ffff_ffff),
        1e-300,
        0.1,
        0.5,
        -0.5,
        0.7,
        1.0,
        -1.0,
        1.0 + f64::EPSILON,
        1.0 - f64::EPSILON / 2.0,
        2.0,
        3.5,
        -3.5,
        1e100,
        -1e100,
        f64::MAX,
        f64::MIN,
        f64::INFINITY,
        f64::NEG_INFINITY,
        f64::NAN,
        -f64::NAN,
        f64::from_bits(0x7ff0_0000_0000_0001),
    ]
}

#[test]
fn classification_matches_the_hardware() {
    for x in samples() {
        assert_eq!(d(x).is_nan(), x.is_nan(), "is_nan({x:?})");
        assert_eq!(d(x).is_finite(), x.is_finite(), "is_finite({x:?})");
        assert_eq!(d(x).is_infinite(), x.is_infinite(), "is_infinite({x:?})");
        assert_eq!(d(x).is_zero(), x == 0.0, "is_zero({x:?})");
        assert_eq!(d(x).is_sign_negative(), x.is_sign_negative(), "sign({x:?})");
        assert_eq!(d(x).abs().to_bits(), x.abs().to_bits(), "abs({x:?})");
        assert_eq!(d(x).neg().to_bits(), (-x).to_bits(), "neg({x:?})");
    }
}

#[test]
fn comparisons_match_the_hardware() {
    for x in samples() {
        for y in samples() {
            assert_eq!(d(x).lt(d(y)), x < y, "{x:?} < {y:?}");
            assert_eq!(d(x).le(d(y)), x <= y, "{x:?} <= {y:?}");
            assert_eq!(d(x).gt(d(y)), x > y, "{x:?} > {y:?}");
            assert_eq!(d(x).ge(d(y)), x >= y, "{x:?} >= {y:?}");
            assert_eq!(d(x).eq(d(y)), x == y, "{x:?} == {y:?}");
        }
    }
}

#[test]
fn zero_has_two_signs_and_one_value() {
    assert!(d(0.0).eq(d(-0.0)));
    assert!(!d(-0.0).lt(d(0.0)));
    assert!(d(-0.0).le(d(0.0)));
    assert_ne!(d(0.0).to_bits(), d(-0.0).to_bits());
}

#[test]
fn nan_is_unordered() {
    let n = d(f64::NAN);
    assert!(!n.eq(n));
    assert!(!n.lt(n));
    assert!(!n.le(n));
    assert!(!n.ge(d(0.0)));
}
