use rmathlib::double::Double;
use rmathlib::toms708::bratio_special;

fn d(x: f64) -> Double {
    Double::from_bits(x.to_bits())
}

fn status(a: f64, b: f64, x: f64, y: f64) -> Option<i32> {
    bratio_special(d(a), d(b), d(x), d(y), false).map(|r| r.ierr)
}

/// The test on `x + y` as it is written in floating point.
fn float_sum_is_one(x: f64, y: f64) -> bool {
    let z = x + y - 0.5 - 0.5;
    !(z.abs() > f64::EPSILON * 3.0)
}

fn step(x: f64, ulps: i64) -> f64 {
    f64::from_bits((x.to_bits() as i64 + ulps) as u64)
}

#[test]
fn sum_rule_matches_floating_point_near_the_edges() {
    let mut state: u64 = 0x9e37_79b9_7f4a_7c15;
    let mut checked = 0;
    for round in 0..20000 {
        state = state.wrapping_mul(6364136223846793005).wrapping_add(1442695040888963407);
        let mut x = (state >> 11) as f64 / (1u64 << 53) as f64;
        if round % 7 == 0 {
            x = x * 1e-12;
        }
        if round % 11 == 0 {
            x = 1.0 - x * 1e-14;
        }
        let base = 0.5 - x + 0.5;
        for k in -40i64..=40 {
            for scale in [1i64, 3, 1 << 20] {
                let y = if base == 0.0 && k < 0 { continue } else { step(base, k * scale) };
                if !(0.0..=1.0).contains(&y) || !(0.0..=1.0).contains(&x) {
                    continue;
                }
                let got = status(2.0, 3.0, x, y);
                let rejected = got == Some(5);
                assert_eq!(rejected, !float_sum_is_one(x, y), "x = {x:?}, y = {y:?}");
                checked += 1;
            }
        }
    }
    assert!(checked > 1_000_000);
}

#[test]
fn sum_rule_at_the_exact_thresholds() {
    // 1 - 13 * 2^-54 is the least sum that passes, 1 + 14 * 2^-54 the least that fails above
    let ulp = f64::EPSILON / 4.0; // 2^-54
    let x = 0.5;
    for k in -20i64..=20 {
        let y = 0.5 + k as f64 * ulp;
        assert_eq!(status(2.0, 3.0, x, y) == Some(5), !float_sum_is_one(x, y), "k = {k}");
        assert_eq!(status(2.0, 3.0, x, y) == Some(5), !(-13..14).contains(&k), "k = {k}");
    }
}

/// The rules on the arguments as they are written in floating point,
/// with the two halves on the linear scale; `None` where the ratio has
/// to be evaluated.
fn settled_by_floats(a: f64, b: f64, x: f64, y: f64) -> Option<(f64, f64, i32)> {
    if x.is_nan() || y.is_nan() || a.is_nan() || b.is_nan() {
        return Some((0.0, 0.0, 9));
    }
    if a < 0.0 || b < 0.0 {
        return Some((0.0, 0.0, 1));
    }
    if a == 0.0 && b == 0.0 {
        return Some((0.0, 0.0, 2));
    }
    if x < 0.0 || x > 1.0 {
        return Some((0.0, 0.0, 3));
    }
    if y < 0.0 || y > 1.0 {
        return Some((0.0, 0.0, 4));
    }
    if !float_sum_is_one(x, y) {
        return Some((0.0, 0.0, 5));
    }
    if x == 0.0 {
        if a == 0.0 {
            return Some((0.0, 0.0, 6));
        }
        return Some((0.0, 1.0, 0));
    }
    if y == 0.0 {
        if b == 0.0 {
            return Some((0.0, 0.0, 7));
        }
        return Some((1.0, 0.0, 0));
    }
    if a == 0.0 {
        return Some((1.0, 0.0, 0));
    }
    if b == 0.0 {
        return Some((0.0, 1.0, 0));
    }
    None
}

#[test]
fn any_four_doubles_get_the_status_of_the_first_broken_rule() {
    let special = [
        0.0,
        -0.0,
        1.0,
        -1.0,
        0.5,
        0.25,
        0.75,
        1e-300,
        1.0 - f64::EPSILON,
        1.0 + f64::EPSILON,
        f64::MIN_POSITIVE,
        f64::MAX,
        f64::INFINITY,
        f64::NEG_INFINITY,
        f64::NAN,
        2.0,
    ];
    let mut state: u64 = 0x1234_5678_9abc_def0;
    let mut next = || {
        state = state.wrapping_mul(6364136223846793005).wrapping_add(1442695040888963407);
        state
    };
    let mut seen = [0u32; 10];
    let mut evaluated = 0u32;
    for _ in 0..200_000 {
        let mut v = [0.0f64; 4];
        for slot in v.iter_mut() {
            let r = next();
            *slot = match (r >> 61) % 4 {
                0 => f64::from_bits(next()),
                1 => special[(r >> 32) as usize % special.len()],
                _ => (next() >> 11) as f64 / (1u64 << 53) as f64,
            };
        }
        let (a, b, x) = (v[0], v[1], v[2]);
        let y = if (next() >> 63) == 0 { v[3] } else { 0.5 - x + 0.5 };
        let got = bratio_special(d(a), d(b), d(x), d(y), false)
            .map(|r| (f64::from_bits(r.w.to_bits()), f64::from_bits(r.w1.to_bits()), r.ierr));
        let want = settled_by_floats(a, b, x, y);
        assert_eq!(got, want, "a = {a:?}, b = {b:?}, x = {x:?}, y = {y:?}");
        match got {
            Some((_, _, ierr)) => seen[ierr as usize] += 1,
            None => evaluated += 1,
        }
    }
    for code in [0, 1, 2, 3, 4, 5, 6, 7, 9] {
        assert!(seen[code] > 0, "no case with status {code}");
    }
    assert!(evaluated > 0);
}
