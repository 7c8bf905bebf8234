use rmathlib::double::Double;

fn d(x: f64) -> Double {
    Double::from_bits(x.to_bits())
}

fn samples() -> Vec<f64> {
    let mut v = vec![
        0.0,
        -0.0,
        f64::from_bits(1),
        f64::MIN_POSITIVE,
        0.25,
        0.5,
        0.999_999_999_999_999_9,
        1.0,
        1.5,
        2.0,
        2.5,
        3.0,
        7.999,
        8.0,
        1e15,
        4503599627370495.5,
        4503599627370496.0,
        4503599627370497.0,
        9007199254740992.0,
        9007199254740994.0,
        2147483646.5,
        2147483647.0,
        2147483647.5,
        2147483648.0,
        2147483649.0,
        1e10,
        1e300,
        f64::MAX,
        f64::INFINITY,
        f64::NAN,
    ];
    let mut state: u64 = 12345;
    for _ in 0..5000 {
        state = state.wrapping_mul(6364136223846793005).wrapping_add(1442695040888963407);
        v.push(f64::from_bits(state));
        let small = ((state >> 20) % 100_000) as f64 / 8.0;
        v.push(small);
    }
    let negated: Vec<f64> = v.iter().map(|x| -x).collect();
    v.extend(negated);
    v
}

#[test]
fn is_integer_matches_truncation() {
    for x in samples() {
        let expected = x.is_finite() && x == x.trunc();
        assert_eq!(d(x).is_integer(), expected, "is_integer({x:?})");
    }
}

#[test]
fn to_i32_matches_the_cast() {
    for x in samples() {
        assert_eq!(d(x).to_i32(), x as i32, "to_i32({x:?})");
    }
}

#[test]
fn to_i32_at_the_ends_of_the_range() {
    assert_eq!(d(2147483647.0).to_i32(), i32::MAX);
    assert_eq!(d(2147483648.0).to_i32(), i32::MAX);
    assert_eq!(d(-2147483648.0).to_i32(), i32::MIN);
    assert_eq!(d(-2147483649.0).to_i32(), i32::MIN);
    assert_eq!(d(-2147483647.5).to_i32(), -2147483647);
    assert_eq!(d(f64::INFINITY).to_i32(), i32::MAX);
    assert_eq!(d(f64::NEG_INFINITY).to_i32(), i32::MIN);
    assert_eq!(d(f64::NAN).to_i32(), 0);
    assert_eq!(d(-0.9).to_i32(), 0);
    assert_eq!(d(39.999).to_i32(), 39);
}

#[test]
fn whole_is_even_matches_the_floor() {
    for x in samples() {
        if !x.is_finite() {
            continue;
        }
        let expected = x.abs().floor() % 2.0 == 0.0;
        assert_eq!(d(x).whole_is_even(), expected, "whole_is_even({x:?})");
    }
}

#[test]
fn round_matches_the_hardware() {
    for x in samples() {
        let got = d(x).round().to_bits();
        if x.is_nan() {
            assert_eq!(got, x.to_bits());
        } else {
            assert_eq!(got, x.round().to_bits(), "round({x:?})");
        }
    }
}

#[test]
fn round_takes_halves_away_from_zero() {
    let r = |x: f64| f64::from_bits(d(x).round().to_bits());
    assert_eq!(r(0.5), 1.0);
    assert_eq!(r(-0.5), -1.0);
    assert_eq!(r(1.5), 2.0);
    assert_eq!(r(2.5), 3.0);
    assert_eq!(r(-2.5), -3.0);
    assert_eq!(r(0.49999999999999994), 0.0);
    assert_eq!(r(0.3), 0.0);
    assert_eq!(r(-0.3).to_bits(), (-0.0f64).to_bits());
    assert_eq!(r(4503599627370495.5), 4503599627370496.0);
    assert_eq!(r(2251799813685247.75), 2251799813685248.0);
    assert_eq!(r(1e300), 1e300);
    assert_eq!(r(f64::INFINITY), f64::INFINITY);
    assert_eq!(rmathlib::nmath::r_forceint(d(7.5)).to_bits(), 8.0f64.to_bits());
}
