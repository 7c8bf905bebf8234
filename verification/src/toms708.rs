//! The incomplete beta ratio: what is decided before any series is summed.
//!
//! The evaluation of `I_x(a, b)` starts with the rules on its arguments,
//! which give the status code, then settles the cases with a known
//! answer, and only then picks one of the expansions. All of that is
//! exact, and is here.

use vstd::prelude::*;
use vstd::arithmetic::div_mod::lemma_fundamental_div_mod;
use vstd::arithmetic::power2::{
    lemma2_to64,
    lemma2_to64_rest,
    lemma_pow2_adds,
    lemma_pow2_pos,
    lemma_pow2_strictly_increases,
    pow2,
};
use vstd::bits::lemma_u64_shr_is_div;
use crate::double::{
    double,
    is_exactly,
    is_nearest,
    lemma_magnitude_order,
    lemma_nearest_below,
    Double,
    HALF_BITS,
    HIDDEN_BIT,
    NAN_BITS,
    ONE_BITS,
    POS_INF_BITS,
};
use crate::dpq::{on_log_scale, one_probability, r_d__0, r_d__1, zero_probability};

verus! {

/// `x` lies in the closed interval from 0 to 1.
pub open spec fn in_unit_interval(x: Double) -> bool {
    x.ge(double(0)) && x.le(double(ONE_BITS))
}

/// The sum `x + y`, rounded to the nearest double with ties to even,
/// differs from 1 by at most three times the machine epsilon 2^-52.
///
/// The doubles within that distance of 1 run from `1 - 6 * 2^-53` to
/// `1 + 3 * 2^-52`, so the exact sum has to lie between the midpoints
/// that round to these two: at least `1 - 13 * 2^-54` and less than
/// `1 + 14 * 2^-54`.
pub open spec fn sum_near_one(x: Double, y: Double) -> bool {
    (pow2(54) - 13) * pow2(1020) <= x.value() + y.value() < (pow2(54) + 14) * pow2(1020)
}

/// A sum that is near one is not zero.
proof fn lemma_sum_near_one_is_positive(x: Double, y: Double)
    ensures
        sum_near_one(x, y) ==> x.value() + y.value() > 0,
{
    lemma2_to64_rest();
    lemma_pow2_pos(1020);
    assert((pow2(54) - 13) * pow2(1020) > 0) by (nonlinear_arith)
        requires
            pow2(54) - 13 > 0,
            pow2(1020) > 0,
    ;
}

/// A double with a nonzero exponent field `e` and significand `m` is
/// `m * 2^(e - 1)` units: here are the whole multiples of 2^1020 units
/// in it, for `e` below 1021 and `q` the quotient of `m` by 2^(1021 - e).
proof fn lemma_units_below_quarter(m: int, e: nat, q: int)
    requires
        0x10_0000_0000_0000 <= m < 0x20_0000_0000_0000,
        1 <= e < 1021,
        q == m / (pow2((1021 - e) as nat) as int),
    ensures
        q * pow2(1020) <= m * pow2((e - 1) as nat) < (q + 1) * pow2(1020),
        0 <= q < 0x10_0000_0000_0000,
        1021 - e >= 53 ==> q == 0,
{
    let s = (1021 - e) as nat;
    let step = pow2(s) as int;
    let low = pow2((e - 1) as nat) as int;
    let unit = pow2(1020) as int;
    let r = m % step;
    lemma2_to64();
    lemma2_to64_rest();
    lemma_pow2_pos(s);
    lemma_pow2_pos((e - 1) as nat);
    lemma_pow2_strictly_increases(0, s);
    lemma_pow2_adds(s, (e - 1) as nat);
    assert(step * low == unit);
    lemma_fundamental_div_mod(m, step);
    assert(q * step <= m && m < (q + 1) * step && 0 <= q && 2 * q <= m) by (nonlinear_arith)
        requires
            m == step * q + r,
            0 <= r,
            r < step,
            step >= 2,
            m >= 0,
    ;
    assert(q * unit <= m * low && m * low < (q + 1) * unit) by (nonlinear_arith)
        requires
            q * step <= m,
            m < (q + 1) * step,
            low > 0,
            step * low == unit,
    ;
    if s >= 53 {
        if s > 53 {
            lemma_pow2_strictly_increases(53, s);
        }
        assert(q == 0) by (nonlinear_arith)
            requires
                q * step <= m,
                m < 0x20_0000_0000_0000,
                step >= 0x20_0000_0000_0000,
                q >= 0,
        ;
    }
}

/// The units of a double with exponent field from 1021 to 1023 and
/// significand `m`: `k m` for `k` = 1, 2, 4.
proof fn lemma_units_from_quarter(m: int, e: nat, k: int)
    requires
        1021 <= e <= 1023,
        k == (if e == 1021 {
            1int
        } else if e == 1022 {
            2int
        } else {
            4int
        }),
        m >= 0,
    ensures
        m * pow2((e - 1) as nat) == (k * m) * pow2(1020),
        (k * m) * pow2(1020) < (k * m + 1) * pow2(1020),
{
    let unit = pow2(1020) as int;
    lemma2_to64();
    lemma_pow2_pos(1020);
    lemma_pow2_adds(1, 1020);
    lemma_pow2_adds(2, 1020);
    assert(pow2((e - 1) as nat) == k * unit);
    assert(m * (k * unit) == (k * m) * unit && (k * m) * unit < (k * m + 1) * unit)
        by (nonlinear_arith)
        requires
            unit > 0,
    ;
}

/// A subnormal double is less than one unit.
proof fn lemma_subnormal_below_unit(f: int)
    requires
        0 <= f < 0x10_0000_0000_0000,
    ensures
        0 * pow2(1020) <= f < (0 + 1) * pow2(1020),
{
    lemma2_to64_rest();
    lemma_pow2_strictly_increases(52, 1020);
    assert(0 * pow2(1020) == 0 && (0 + 1) * pow2(1020) == pow2(1020)) by (nonlinear_arith);
}

/// The whole multiples of 2^-54 in a double between 0 and 1.
fn units_of_2_pow_minus_54(d: Double) -> (u: u64)
    requires
        in_unit_interval(d),
    ensures
        u * pow2(1020) <= d.magnitude() < (u + 1) * pow2(1020),
        d.exponent() >= 1021 ==> u * pow2(1020) == d.magnitude(),
        d.exponent() < 1021 ==> u < 0x10_0000_0000_0000,
        u <= 0x40_0000_0000_0000,
{
    let a: u64 = d.abs().to_bits();
    let e: u64 = a / HIDDEN_BIT;
    let f: u64 = a % HIDDEN_BIT;
    let m: u64 = HIDDEN_BIT + f;
    proof {
        lemma_magnitude_order(d, double(ONE_BITS));
        lemma_magnitude_order(d, double(0));
        assert(a <= ONE_BITS);
        assert(e == d.exponent() && f == d.fraction());
        assert(e != 0 ==> d.magnitude() == m * pow2((e - 1) as nat));
        assert(e == 0 ==> d.magnitude() == f);
    }
    if e >= 1021 {
        let k: u64 = if e == 1021 {
            1
        } else if e == 1022 {
            2
        } else {
            4
        };
        proof {
            lemma_units_from_quarter(m as int, e as nat, k as int);
        }
        k * m
    } else if e == 0 {
        proof {
            lemma_subnormal_below_unit(f as int);
        }
        0
    } else {
        let s: u64 = 1021 - e;
        if s >= 53 {
            proof {
                lemma_units_below_quarter(m as int, e as nat, m as int / (pow2(s as nat) as int));
            }
            0
        } else {
            let u: u64 = m >> s;
            proof {
                lemma_u64_shr_is_div(m, s);
                lemma_units_below_quarter(m as int, e as nat, u as int);
            }
            u
        }
    }
}

/// Two amounts known to the unit, one of them exactly unless both are
/// below 2^52 units: their sum lies between two whole bounds exactly
/// when the sum of their units does.
proof fn lemma_sum_by_units(vx: int, vy: int, ux: int, uy: int, unit: int, exact: bool)
    requires
        unit > 0,
        ux * unit <= vx < (ux + 1) * unit,
        uy * unit <= vy < (uy + 1) * unit,
        exact ==> vx == ux * unit || vy == uy * unit,
        !exact ==> 0 <= ux < 0x10_0000_0000_0000 && 0 <= uy < 0x10_0000_0000_0000,
    ensures
        0x3f_ffff_ffff_fff3 <= ux + uy < 0x40_0000_0000_000e <==> 0x3f_ffff_ffff_fff3 * unit <= vx
            + vy < 0x40_0000_0000_000e * unit,
{
    let s = ux + uy;
    let total = vx + vy;
    assert(s * unit == ux * unit + uy * unit && (s + 1) * unit == ux * unit + uy * unit + unit && (
    s + 2) * unit == ux * unit + uy * unit + 2 * unit) by (nonlinear_arith)
        requires
            s == ux + uy,
    ;
    assert((ux + 1) * unit == ux * unit + unit && (uy + 1) * unit == uy * unit + unit)
        by (nonlinear_arith);
    assert(s * unit <= total < (s + 2) * unit);
    if exact {
        assert(total < (s + 1) * unit);
        if s >= 0x3f_ffff_ffff_fff3 {
            assert(0x3f_ffff_ffff_fff3 * unit <= s * unit) by (nonlinear_arith)
                requires
                    0x3f_ffff_ffff_fff3 <= s,
                    unit > 0,
            ;
        } else {
            assert((s + 1) * unit <= 0x3f_ffff_ffff_fff3 * unit) by (nonlinear_arith)
                requires
                    s + 1 <= 0x3f_ffff_ffff_fff3,
                    unit > 0,
            ;
        }
        if s < 0x40_0000_0000_000e {
            assert((s + 1) * unit <= 0x40_0000_0000_000e * unit) by (nonlinear_arith)
                requires
                    s + 1 <= 0x40_0000_0000_000e,
                    unit > 0,
            ;
        } else {
            assert(0x40_0000_0000_000e * unit <= s * unit) by (nonlinear_arith)
                requires
                    0x40_0000_0000_000e <= s,
                    unit > 0,
            ;
        }
    } else {
        // both are below a quarter: the sum is below a half
        assert((s + 2) * unit <= 0x3f_ffff_ffff_fff3 * unit) by (nonlinear_arith)
            requires
                s + 2 <= 0x3f_ffff_ffff_fff3,
                unit > 0,
        ;
    }
}

/// Whether `x + y` is 1 as far as doubles can tell: see [`sum_near_one`].
pub fn sum_is_one(x: Double, y: Double) -> (r: bool)
    requires
        in_unit_interval(x),
        in_unit_interval(y),
    ensures
        r == sum_near_one(x, y),
{
    let ux: u64 = units_of_2_pow_minus_54(x);
    let uy: u64 = units_of_2_pow_minus_54(y);
    let s: u64 = ux + uy;
    proof {
        lemma_pow2_pos(1020);
        lemma_magnitude_order(x, double(0));
        lemma_magnitude_order(y, double(0));
        assert(x.value() == x.magnitude());
        assert(y.value() == y.magnitude());
        assert(pow2(54) == 0x40_0000_0000_0000) by {
            lemma2_to64_rest();
        }
        lemma_sum_by_units(
            x.value(),
            y.value(),
            ux as int,
            uy as int,
            pow2(1020) as int,
            x.exponent() >= 1021 || y.exponent() >= 1021,
        );
    }
    0x3f_ffff_ffff_fff3 <= s && s < 0x40_0000_0000_000e
}

/// `s`, a positive double below the largest, is `t` units of 2^-1074
/// rounded to the nearest double, ties to the even pattern: `t` is no
/// farther from `s` than the midpoints to its two neighbours, and lies
/// on a midpoint only if the pattern of `s` is even.
pub open spec fn is_rounded_to_even(t: int, s: Double) -> bool {
    let below = double((s.bits - 1) as u64);
    &&& 0 < s.bits < POS_INF_BITS - 1
    &&& 2 * (t - s.value()) <= s.ulp()
    &&& 2 * (s.value() - t) <= below.ulp()
    &&& (2 * (t - s.value()) == s.ulp() || 2 * (s.value() - t) == below.ulp()) ==> s.bits % 2 == 0
}

/// `s` differs from 1 by at most three times the machine epsilon 2^-52.
pub open spec fn within_three_epsilon(s: Double) -> bool {
    &&& !s.is_nan()
    &&& -3 * pow2(1022) <= s.value() - pow2(1074) <= 3 * pow2(1022)
}

/// The doubles next to 1: the one `j` patterns after it is
/// `1 + j 2^-52` for `j >= 0` and `1 + j 2^-53` for `j < 0`, here in
/// units of `2^1020`, with the distance to the next one.
proof fn lemma_next_to_one(j: int)
    requires
        -8 <= j <= 5,
    ensures
        ({
            let d = double((ONE_BITS + j) as u64);
            let unit = pow2(1020);
            &&& d.is_finite()
            &&& !d.sign()
            &&& j >= 0 ==> d.value() == 0x40_0000_0000_0000 * unit + 4 * j * unit && d.ulp() == 4
                * unit
            &&& j < 0 ==> d.value() == 0x40_0000_0000_0000 * unit + 2 * j * unit && d.ulp() == 2
                * unit
        }),
{
    let d = double((ONE_BITS + j) as u64);
    let unit = pow2(1020) as int;
    lemma2_to64();
    lemma_pow2_adds(1, 1020);
    lemma_pow2_adds(2, 1020);
    if j >= 0 {
        assert(d.exponent() == 1023 && d.fraction() == j);
        assert(pow2(1022) == 4 * unit);
        assert((HIDDEN_BIT + j) * (4 * unit) == 0x40_0000_0000_0000 * unit + 4 * j * unit)
            by (nonlinear_arith);
    } else {
        assert(d.exponent() == 1022 && d.fraction() == HIDDEN_BIT + j);
        assert(pow2(1021) == 2 * unit);
        assert((HIDDEN_BIT + (HIDDEN_BIT + j)) * (2 * unit) == 0x40_0000_0000_0000 * unit + 2 * j
            * unit) by (nonlinear_arith);
    }
}

/// The rule on the sum says what it is meant to say: the exact sum
/// `x + y` passes exactly if, rounded to the nearest double with ties to
/// even, it differs from 1 by at most three times the machine epsilon.
pub proof fn lemma_sum_near_one_is_rounded_sum(x: Double, y: Double)
    ensures
        sum_near_one(x, y) <==> exists|s: Double|
            is_rounded_to_even(x.value() + y.value(), s) && within_three_epsilon(s),
{
    let t = x.value() + y.value();
    let unit = pow2(1020) as int;
    let one = 0x40_0000_0000_0000 * unit;
    lemma_pow2_pos(1020);
    assert(pow2(54) == 0x40_0000_0000_0000) by {
        lemma2_to64_rest();
    }
    assert(pow2(1074) == one && pow2(1022) == 4 * unit) by {
        lemma2_to64();
        lemma2_to64_rest();
        lemma_pow2_adds(54, 1020);
        lemma_pow2_adds(2, 1020);
    }
    assert((pow2(54) - 13) * pow2(1020) == one - 13 * unit && (pow2(54) + 14) * pow2(1020) == one
        + 14 * unit) by (nonlinear_arith)
        requires
            pow2(54) == 0x40_0000_0000_0000,
            one == 0x40_0000_0000_0000 * unit,
            unit == pow2(1020),
    ;
    if sum_near_one(x, y) {
        // the double that the sum rounds to, by the midpoints between the doubles next to 1
        if t <= one - 11 * unit {
            let s = double((ONE_BITS - 6) as u64);
            lemma_next_to_one(-6);
            lemma_next_to_one(-7);
            assert(s.bits == 0x3fef_ffff_ffff_fffa);
            assert(double((s.bits - 1) as u64) == double((ONE_BITS - 7) as u64));
            assert(s.value() == one - 12 * unit && s.ulp() == 2 * unit);
            assert(double((s.bits - 1) as u64).ulp() == 2 * unit);
            assert(is_rounded_to_even(t, s));
            assert(within_three_epsilon(s));
        } else if t < one - 9 * unit {
            let s = double((ONE_BITS - 5) as u64);
            lemma_next_to_one(-5);
            lemma_next_to_one(-6);
            assert(s.bits == 0x3fef_ffff_ffff_fffb);
            assert(double((s.bits - 1) as u64) == double((ONE_BITS - 6) as u64));
            assert(s.value() == one - 10 * unit && s.ulp() == 2 * unit);
            assert(double((s.bits - 1) as u64).ulp() == 2 * unit);
            assert(is_rounded_to_even(t, s));
            assert(within_three_epsilon(s));
        } else if t <= one - 7 * unit {
            let s = double((ONE_BITS - 4) as u64);
            lemma_next_to_one(-4);
            lemma_next_to_one(-5);
            assert(s.bits == 0x3fef_ffff_ffff_fffc);
            assert(double((s.bits - 1) as u64) == double((ONE_BITS - 5) as u64));
            assert(s.value() == one - 8 * unit && s.ulp() == 2 * unit);
            assert(double((s.bits - 1) as u64).ulp() == 2 * unit);
            assert(is_rounded_to_even(t, s));
            assert(within_three_epsilon(s));
        } else if t < one - 5 * unit {
            let s = double((ONE_BITS - 3) as u64);
            lemma_next_to_one(-3);
            lemma_next_to_one(-4);
            assert(s.bits == 0x3fef_ffff_ffff_fffd);
            assert(double((s.bits - 1) as u64) == double((ONE_BITS - 4) as u64));
            assert(s.value() == one - 6 * unit && s.ulp() == 2 * unit);
            assert(double((s.bits - 1) as u64).ulp() == 2 * unit);
            assert(is_rounded_to_even(t, s));
            assert(within_three_epsilon(s));
        } else if t <= one - 3 * unit {
            let s = double((ONE_BITS - 2) as u64);
            lemma_next_to_one(-2);
            lemma_next_to_one(-3);
            assert(s.bits == 0x3fef_ffff_ffff_fffe);
            assert(double((s.bits - 1) as u64) == double((ONE_BITS - 3) as u64));
            assert(s.value() == one - 4 * unit && s.ulp() == 2 * unit);
            assert(double((s.bits - 1) as u64).ulp() == 2 * unit);
            assert(is_rounded_to_even(t, s));
            assert(within_three_epsilon(s));
        } else if t < one - unit {
            let s = double((ONE_BITS - 1) as u64);
            lemma_next_to_one(-1);
            lemma_next_to_one(-2);
            assert(s.bits == 0x3fef_ffff_ffff_ffff);
            assert(double((s.bits - 1) as u64) == double((ONE_BITS - 2) as u64));
            assert(s.value() == one - 2 * unit && s.ulp() == 2 * unit);
            assert(double((s.bits - 1) as u64).ulp() == 2 * unit);
            assert(is_rounded_to_even(t, s));
            assert(within_three_epsilon(s));
        } else if t <= one + 2 * unit {
            let s = double(ONE_BITS);
            lemma_next_to_one(0);
            lemma_next_to_one(-1);
            assert(s.bits == 0x3ff0_0000_0000_0000);
            assert(double((s.bits - 1) as u64) == double((ONE_BITS - 1) as u64));
            assert(s.value() == one && s.ulp() == 4 * unit);
            assert(double((s.bits - 1) as u64).ulp() == 2 * unit);
            assert(is_rounded_to_even(t, s));
            assert(within_three_epsilon(s));
        } else if t < one + 6 * unit {
            let s = double((ONE_BITS + 1) as u64);
            lemma_next_to_one(1);
            lemma_next_to_one(0);
            assert(s.bits == 0x3ff0_0000_0000_0001);
            assert(double((s.bits - 1) as u64) == double(ONE_BITS));
            assert(s.value() == one + 4 * unit && s.ulp() == 4 * unit);
            assert(double((s.bits - 1) as u64).ulp() == 4 * unit);
            assert(is_rounded_to_even(t, s));
            assert(within_three_epsilon(s));
        } else if t <= one + 10 * unit {
            let s = double((ONE_BITS + 2) as u64);
            lemma_next_to_one(2);
            lemma_next_to_one(1);
            assert(s.bits == 0x3ff0_0000_0000_0002);
            assert(double((s.bits - 1) as u64) == double((ONE_BITS + 1) as u64));
            assert(s.value() == one + 8 * unit && s.ulp() == 4 * unit);
            assert(double((s.bits - 1) as u64).ulp() == 4 * unit);
            assert(is_rounded_to_even(t, s));
            assert(within_three_epsilon(s));
        } else {
            let s = double((ONE_BITS + 3) as u64);
            lemma_next_to_one(3);
            lemma_next_to_one(2);
            assert(s.bits == 0x3ff0_0000_0000_0003);
            assert(double((s.bits - 1) as u64) == double((ONE_BITS + 2) as u64));
            assert(s.value() == one + 12 * unit && s.ulp() == 4 * unit);
            assert(double((s.bits - 1) as u64).ulp() == 4 * unit);
            assert(is_rounded_to_even(t, s));
            assert(within_three_epsilon(s));
        }
    }
    if exists|s: Double| is_rounded_to_even(t, s) && within_three_epsilon(s) {
        let s = choose|s: Double| is_rounded_to_even(t, s) && within_three_epsilon(s);
        // within three epsilon of 1 there are ten doubles
        lemma_next_to_one(-7);
        lemma_next_to_one(4);
        lemma_magnitude_order(s, double((ONE_BITS - 7) as u64));
        lemma_magnitude_order(s, double((ONE_BITS + 4) as u64));
        lemma_magnitude_order(s, double(0));
        assert(!s.sign());
        assert(ONE_BITS - 6 <= s.bits <= ONE_BITS + 3);
        let j = s.bits - ONE_BITS;
        if j == -6 {
            lemma_next_to_one(-6);
            lemma_next_to_one(-7);
            assert(s.bits == 0x3fef_ffff_ffff_fffa);
            assert(double((s.bits - 1) as u64) == double((ONE_BITS - 7) as u64));
            assert(s.value() == one - 12 * unit && s.ulp() == 2 * unit);
            assert(double((s.bits - 1) as u64).ulp() == 2 * unit);
            assert(one - 13 * unit <= t < one + 14 * unit);
        } else if j == -5 {
            lemma_next_to_one(-5);
            lemma_next_to_one(-6);
            assert(s.bits == 0x3fef_ffff_ffff_fffb);
            assert(double((s.bits - 1) as u64) == double((ONE_BITS - 6) as u64));
            assert(s.value() == one - 10 * unit && s.ulp() == 2 * unit);
            assert(double((s.bits - 1) as u64).ulp() == 2 * unit);
            assert(one - 13 * unit <= t < one + 14 * unit);
        } else if j == -4 {
            lemma_next_to_one(-4);
            lemma_next_to_one(-5);
            assert(s.bits == 0x3fef_ffff_ffff_fffc);
            assert(double((s.bits - 1) as u64) == double((ONE_BITS - 5) as u64));
            assert(s.value() == one - 8 * unit && s.ulp() == 2 * unit);
            assert(double((s.bits - 1) as u64).ulp() == 2 * unit);
            assert(one - 13 * unit <= t < one + 14 * unit);
        } else if j == -3 {
            lemma_next_to_one(-3);
            lemma_next_to_one(-4);
            assert(s.bits == 0x3fef_ffff_ffff_fffd);
            assert(double((s.bits - 1) as u64) == double((ONE_BITS - 4) as u64));
            assert(s.value() == one - 6 * unit && s.ulp() == 2 * unit);
            assert(double((s.bits - 1) as u64).ulp() == 2 * unit);
            assert(one - 13 * unit <= t < one + 14 * unit);
        } else if j == -2 {
            lemma_next_to_one(-2);
            lemma_next_to_one(-3);
            assert(s.bits == 0x3fef_ffff_ffff_fffe);
            assert(double((s.bits - 1) as u64) == double((ONE_BITS - 3) as u64));
            assert(s.value() == one - 4 * unit && s.ulp() == 2 * unit);
            assert(double((s.bits - 1) as u64).ulp() == 2 * unit);
            assert(one - 13 * unit <= t < one + 14 * unit);
        } else if j == -1 {
            lemma_next_to_one(-1);
            lemma_next_to_one(-2);
            assert(s.bits == 0x3fef_ffff_ffff_ffff);
            assert(double((s.bits - 1) as u64) == double((ONE_BITS - 2) as u64));
            assert(s.value() == one - 2 * unit && s.ulp() == 2 * unit);
            assert(double((s.bits - 1) as u64).ulp() == 2 * unit);
            assert(one - 13 * unit <= t < one + 14 * unit);
        } else if j == 0 {
            lemma_next_to_one(0);
            lemma_next_to_one(-1);
            assert(s.bits == 0x3ff0_0000_0000_0000);
            assert(double((s.bits - 1) as u64) == double((ONE_BITS - 1) as u64));
            assert(s.value() == one && s.ulp() == 4 * unit);
            assert(double((s.bits - 1) as u64).ulp() == 2 * unit);
            assert(one - 13 * unit <= t < one + 14 * unit);
        } else if j == 1 {
            lemma_next_to_one(1);
            lemma_next_to_one(0);
            assert(s.bits == 0x3ff0_0000_0000_0001);
            assert(double((s.bits - 1) as u64) == double(ONE_BITS));
            assert(s.value() == one + 4 * unit && s.ulp() == 4 * unit);
            assert(double((s.bits - 1) as u64).ulp() == 4 * unit);
            assert(one - 13 * unit <= t < one + 14 * unit);
        } else if j == 2 {
            lemma_next_to_one(2);
            lemma_next_to_one(1);
            assert(s.bits == 0x3ff0_0000_0000_0002);
            assert(double((s.bits - 1) as u64) == double((ONE_BITS + 1) as u64));
            assert(s.value() == one + 8 * unit && s.ulp() == 4 * unit);
            assert(double((s.bits - 1) as u64).ulp() == 4 * unit);
            assert(one - 13 * unit <= t < one + 14 * unit);
        } else {
            lemma_next_to_one(3);
            lemma_next_to_one(2);
            assert(s.bits == 0x3ff0_0000_0000_0003);
            assert(double((s.bits - 1) as u64) == double((ONE_BITS + 2) as u64));
            assert(s.value() == one + 12 * unit && s.ulp() == 4 * unit);
            assert(double((s.bits - 1) as u64).ulp() == 4 * unit);
            assert(one - 13 * unit <= t < one + 14 * unit);
        }
    }
}

/// The result of the incomplete beta ratio: `w` for `I_x(a, b)`, `w1` for
/// its complement `1 - I_x(a, b)`, both on the scale that was asked for,
/// and the status code.
#[derive(Clone, Copy, Debug)]
pub struct Ratio {
    pub w: Double,
    pub w1: Double,
    pub ierr: i32,
}

/// The rule on the arguments that is broken first, or 0 when none is.
///
/// * 9: one of the four is NaN
/// * 1: `a` or `b` is negative
/// * 2: `a` and `b` are both zero
/// * 3: `x` is outside `[0, 1]`
/// * 4: `y` is outside `[0, 1]`
/// * 5: `x + y` is not 1 (see [`sum_near_one`])
/// * 6: `x` and `a` are both zero
/// * 7: `y` and `b` are both zero
pub open spec fn input_status(a: Double, b: Double, x: Double, y: Double) -> int {
    if x.is_nan() || y.is_nan() || a.is_nan() || b.is_nan() {
        9
    } else if a.lt(double(0)) || b.lt(double(0)) {
        1
    } else if a.is_zero() && b.is_zero() {
        2
    } else if !in_unit_interval(x) {
        3
    } else if !in_unit_interval(y) {
        4
    } else if !sum_near_one(x, y) {
        5
    } else if x.is_zero() && a.is_zero() {
        6
    } else if y.is_zero() && b.is_zero() {
        7
    } else {
        0
    }
}

/// What is known of `I_x(a, b)` without computing anything.
///
/// With a broken rule both halves are the zero probability and the
/// status names the rule. With valid arguments the ratio is 0 at `x = 0`
/// and where `b = 0` puts all mass at 1; it is 1 at `y = 0` and where
/// `a = 0` puts all mass at 0. Otherwise it has to be evaluated.
pub open spec fn settled_ratio(a: Double, b: Double, x: Double, y: Double, log_p: bool) -> Option<
    Ratio,
> {
    let status = input_status(a, b, x, y);
    if status != 0 {
        Some(
            Ratio { w: zero_probability(log_p), w1: zero_probability(log_p), ierr: status as i32 },
        )
    } else if x.is_zero() || (!y.is_zero() && !a.is_zero() && b.is_zero()) {
        Some(Ratio { w: zero_probability(log_p), w1: one_probability(log_p), ierr: 0 })
    } else if y.is_zero() || a.is_zero() {
        Some(Ratio { w: one_probability(log_p), w1: zero_probability(log_p), ierr: 0 })
    } else {
        None
    }
}

/// The two halves are the impossible and the certain event, in either
/// order: they add up to one exactly.
pub open spec fn complementary(r: Ratio, log_p: bool) -> bool {
    ||| r.w == zero_probability(log_p) && r.w1 == one_probability(log_p)
    ||| r.w == one_probability(log_p) && r.w1 == zero_probability(log_p)
}

/// Checks the arguments of the incomplete beta ratio and settles the
/// cases that need no evaluation.
///
/// `None` means that the arguments are valid and all four are positive:
/// the ratio has to be evaluated.
pub fn bratio_special(a: Double, b: Double, x: Double, y: Double, log_p: bool) -> (r: Option<
    Ratio,
>)
    ensures
        r == settled_ratio(a, b, x, y, log_p),
        r matches Some(p) ==> p.ierr == input_status(a, b, x, y),
        r matches Some(p) ==> (p.ierr == 0 ==> complementary(p, log_p)),
        r.is_none() ==> input_status(a, b, x, y) == 0 && double(0).lt(x) && double(0).lt(y)
            && double(0).lt(a) && double(0).lt(b),
{
    let zero = Double::from_bits(0);
    let one = Double::from_bits(ONE_BITS);
    let none = r_d__0(log_p);
    let all = r_d__1(log_p);
    proof {
        lemma_magnitude_order(a, zero);
        lemma_magnitude_order(b, zero);
        lemma_magnitude_order(x, zero);
        lemma_magnitude_order(y, zero);
        lemma_magnitude_order(x, one);
        lemma_magnitude_order(y, one);
        lemma_sum_near_one_is_positive(x, y);
    }
    if x.is_nan() || y.is_nan() || a.is_nan() || b.is_nan() {
        return Some(Ratio { w: none, w1: none, ierr: 9 });
    }
    if a.lt(zero) || b.lt(zero) {
        return Some(Ratio { w: none, w1: none, ierr: 1 });
    }
    if a.is_zero() && b.is_zero() {
        return Some(Ratio { w: none, w1: none, ierr: 2 });
    }
    if x.lt(zero) || x.gt(one) {
        return Some(Ratio { w: none, w1: none, ierr: 3 });
    }
    if y.lt(zero) || y.gt(one) {
        return Some(Ratio { w: none, w1: none, ierr: 4 });
    }
    if !sum_is_one(x, y) {
        return Some(Ratio { w: none, w1: none, ierr: 5 });
    }
    if x.is_zero() {
        if a.is_zero() {
            return Some(Ratio { w: none, w1: none, ierr: 6 });
        }
        return Some(Ratio { w: none, w1: all, ierr: 0 });
    }
    if y.is_zero() {
        if b.is_zero() {
            return Some(Ratio { w: none, w1: none, ierr: 7 });
        }
        return Some(Ratio { w: all, w1: none, ierr: 0 });
    }
    if a.is_zero() {
        return Some(Ratio { w: all, w1: none, ierr: 0 });
    }
    if b.is_zero() {
        return Some(Ratio { w: none, w1: all, ierr: 0 });
    }
    None
}

/// Both scales settle the same arguments with the same status, and each
/// half on the log scale is the logarithm of that half on the linear
/// scale.
pub proof fn lemma_settled_ratio_log_linear(a: Double, b: Double, x: Double, y: Double)
    ensures
        settled_ratio(a, b, x, y, true).is_some() == settled_ratio(a, b, x, y, false).is_some(),
        settled_ratio(a, b, x, y, false) matches Some(p) ==> ({
            let l = settled_ratio(a, b, x, y, true).unwrap();
            &&& l.ierr == p.ierr
            &&& on_log_scale(p.w, l.w)
            &&& on_log_scale(p.w1, l.w1)
        }),
{
}

/// Two halves that add up to one still do after they have changed
/// places.
pub proof fn lemma_swap_keeps_complement(r: Ratio, log_p: bool)
    requires
        complementary(r, log_p),
    ensures
        complementary(Ratio { w: r.w1, w1: r.w, ierr: r.ierr }, log_p),
{
}

/// The lesser of two doubles, by `<`: `b` unless `a < b`, so `b` when
/// either is NaN.
pub open spec fn min_of(a: Double, b: Double) -> Double {
    if a.lt(b) {
        a
    } else {
        b
    }
}

/// The greater of two doubles, by `>`: `b` unless `a > b`, so `b` when
/// either is NaN.
pub open spec fn max_of(a: Double, b: Double) -> Double {
    if a.gt(b) {
        a
    } else {
        b
    }
}

/// The lesser of two doubles: see [`min_of`].
pub fn min(a: Double, b: Double) -> (r: Double)
    ensures
        r == min_of(a, b),
{
    if a.lt(b) {
        a
    } else {
        b
    }
}

/// The greater of two doubles: see [`max_of`].
pub fn max(a: Double, b: Double) -> (r: Double)
    ensures
        r == max_of(a, b),
{
    if a.gt(b) {
        a
    } else {
        b
    }
}

/// The greater of two doubles, or NaN when either is NaN.
pub fn fmax2(x: Double, y: Double) -> (r: Double)
    ensures
        x.is_nan() || y.is_nan() ==> r == double(NAN_BITS),
        !x.is_nan() && !y.is_nan() ==> r == (if x.lt(y) {
            y
        } else {
            x
        }),
{
    if x.is_nan() || y.is_nan() {
        Double::from_bits(NAN_BITS)
    } else if x.lt(y) {
        y
    } else {
        x
    }
}

/// Puts the two halves of a result back in the caller's order: they
/// change places when the mirrored problem was solved.
pub fn l_end(w: Double, w1: Double, do_swap: bool) -> (r: (Double, Double))
    ensures
        r == (if do_swap {
            (w1, w)
        } else {
            (w, w1)
        }),
{
    if do_swap {
        (w1, w)
    } else {
        (w, w1)
    }
}

/// The status after the expansion for large `a` and small `b`: its own
/// code `k`, from 1 to 4, is reported as `10 + k`, and 0 leaves the
/// status as it was.
pub fn bgrat_status(ierr: i32, ierr1: i32) -> (r: i32)
    requires
        0 <= ierr1 <= 4,
    ensures
        r == (if ierr1 != 0 {
            10 + ierr1
        } else {
            ierr as int
        }),
{
    if ierr1 != 0 {
        10 + ierr1
    } else {
        ierr
    }
}

/// A complement computed directly came out as zero or as a positive
/// subnormal: it has underflowed, and is to be computed again on the log
/// scale.
pub open spec fn underflowed(w1: Double) -> bool {
    !w1.is_nan() && (w1.is_zero() || (!w1.sign() && w1.exponent() == 0))
}

/// Whether a complement computed directly has underflowed.
pub fn has_underflowed(w1: Double) -> (r: bool)
    ensures
        r == underflowed(w1),
        r == (w1.eq(double(0)) || (double(0).lt(w1) && w1.lt(double(HIDDEN_BIT)))),
{
    proof {
        lemma_magnitude_order(w1, double(0));
        lemma_magnitude_order(w1, double(HIDDEN_BIT));
    }
    w1.is_zero() || (!w1.is_sign_negative() && w1.to_bits() < HIDDEN_BIT)
}

/// The tolerance of the expansions, 1e-15.
pub const EPS_BITS: u64 = 0x3cd2_03af_9ee7_5616;

/// A thousandth of the tolerance, as the product `1e-15 * 0.001` rounds.
pub const NEGLIGIBLE_BITS: u64 = 0x3c32_725d_d1d2_43ac;

/// The pattern of 0.1.
pub const TENTH_BITS: u64 = 0x3fb9_9999_9999_999a;

/// The pattern of 0.2.
pub const FIFTH_BITS: u64 = 0x3fc9_9999_9999_999a;

/// The pattern of 0.29.
pub const X_COMPLEMENT_BITS: u64 = 0x3fd2_8f5c_28f5_c28f;

/// The pattern of 0.3.
pub const THREE_TENTHS_BITS: u64 = 0x3fd3_3333_3333_3333;

/// The pattern of 0.7.
pub const SEVEN_TENTHS_BITS: u64 = 0x3fe6_6666_6666_6666;

/// The pattern of 0.9.
pub const NINE_TENTHS_BITS: u64 = 0x3fec_cccc_cccc_cccd;

/// The pattern of 15.
pub const FIFTEEN_BITS: u64 = 0x402e_0000_0000_0000;

/// The pattern of 40.
pub const FORTY_BITS: u64 = 0x4044_0000_0000_0000;

/// The pattern of 100.
pub const HUNDRED_BITS: u64 = 0x4059_0000_0000_0000;

/// The pattern of 650.
pub const LAMBDA_LOG_BITS: u64 = 0x4084_5000_0000_0000;

/// The three ranges of the parameters.
#[derive(Clone, Copy, Debug, PartialEq, Eq, Structural)]
pub enum Regime {
    /// Both parameters are below a thousandth of the tolerance: the
    /// ratio is `b / (a + b)` whatever `x` is.
    Negligible,
    /// One parameter at least is no more than 1.
    Small,
    /// Both parameters are above 1.
    Large,
}

/// The range that the parameters fall in.
pub open spec fn regime_of(a: Double, b: Double) -> Regime {
    if (if a.lt(b) {
        b
    } else {
        a
    }).lt(double(NEGLIGIBLE_BITS)) {
        Regime::Negligible
    } else if min_of(a, b).le(double(ONE_BITS)) {
        Regime::Small
    } else {
        Regime::Large
    }
}

/// The range that the parameters fall in.
pub fn regime(a: Double, b: Double) -> (r: Regime)
    ensures
        r == regime_of(a, b),
        !a.is_nan() && !b.is_nan() ==> (r == Regime::Negligible <==> a.lt(double(NEGLIGIBLE_BITS))
            && b.lt(double(NEGLIGIBLE_BITS))),
        !a.is_nan() && !b.is_nan() ==> (r == Regime::Large <==> a.gt(double(ONE_BITS)) && b.gt(
            double(ONE_BITS),
        )),
{
    proof {
        lemma_magnitude_order(double(NEGLIGIBLE_BITS), double(ONE_BITS));
    }
    let greater = if a.lt(b) {
        b
    } else {
        a
    };
    if greater.lt(Double::from_bits(NEGLIGIBLE_BITS)) {
        Regime::Negligible
    } else if min(a, b).le(Double::from_bits(ONE_BITS)) {
        Regime::Small
    } else {
        Regime::Large
    }
}

/// The problem as it is solved: `(a0, b0, x0, y0)` is `(a, b, x, y)`, or
/// `(b, a, y, x)` when the mirrored problem is solved in its place.
#[derive(Clone, Copy, Debug)]
pub struct Oriented {
    pub a0: Double,
    pub b0: Double,
    pub x0: Double,
    pub y0: Double,
    pub do_swap: bool,
}

/// The problem, mirrored or not.
pub open spec fn oriented(a: Double, b: Double, x: Double, y: Double, do_swap: bool) -> Oriented {
    if do_swap {
        Oriented { a0: b, b0: a, x0: y, y0: x, do_swap }
    } else {
        Oriented { a0: a, b0: b, x0: x, y0: y, do_swap }
    }
}

/// With a parameter no more than 1 the problem is mirrored when `x` is
/// above one half, so that the lesser of `x` and `y` is the argument.
pub fn orient_small(a: Double, b: Double, x: Double, y: Double) -> (r: Oriented)
    ensures
        r == oriented(a, b, x, y, x.gt(double(HALF_BITS))),
        !x.is_nan() ==> r.x0.le(double(HALF_BITS)) || r.y0.gt(double(HALF_BITS)),
{
    if x.gt(Double::from_bits(HALF_BITS)) {
        Oriented { a0: b, b0: a, x0: y, y0: x, do_swap: true }
    } else {
        Oriented { a0: a, b0: b, x0: x, y0: y, do_swap: false }
    }
}

/// With both parameters above 1 the problem is mirrored when
/// `lambda = (a + b) y - b`, which the caller has computed, is negative;
/// the second result is its absolute value.
pub fn orient_large(a: Double, b: Double, x: Double, y: Double, lambda: Double) -> (r: (
    Oriented,
    Double,
))
    ensures
        r.0 == oriented(a, b, x, y, lambda.lt(double(0))),
        r.1 == (if lambda.lt(double(0)) {
            lambda.neg()
        } else {
            lambda
        }),
        !lambda.is_nan() ==> r.1.ge(double(0)),
{
    proof {
        lemma_magnitude_order(lambda, double(0));
        lemma_magnitude_order(lambda.neg(), double(0));
    }
    if lambda.lt(Double::from_bits(0)) {
        (Oriented { a0: b, b0: a, x0: y, y0: x, do_swap: true }, lambda.neg())
    } else {
        (Oriented { a0: a, b0: b, x0: x, y0: y, do_swap: false }, lambda)
    }
}

/// Each threshold of the choice is the double nearest to the decimal
/// number that it stands for, and the whole numbers are exact.
pub proof fn lemma_thresholds()
    ensures
        is_nearest(double(EPS_BITS), 1, 1000000000000000),
        is_nearest(double(NEGLIGIBLE_BITS), 1, 1000000000000000000),
        is_nearest(double(TENTH_BITS), 1, 10),
        is_nearest(double(FIFTH_BITS), 1, 5),
        is_nearest(double(X_COMPLEMENT_BITS), 29, 100),
        is_nearest(double(THREE_TENTHS_BITS), 3, 10),
        is_nearest(double(SEVEN_TENTHS_BITS), 7, 10),
        is_nearest(double(NINE_TENTHS_BITS), 9, 10),
        is_exactly(double(FIFTEEN_BITS), 15, 1),
        is_exactly(double(FORTY_BITS), 40, 1),
        is_exactly(double(HUNDRED_BITS), 100, 1),
        is_exactly(double(LAMBDA_LOG_BITS), 650, 1),
{
    assert(is_nearest(double(EPS_BITS), 1, 1000000000000000)) by {
        lemma2_to64();
        lemma2_to64_rest();
        lemma_pow2_adds(64, 38);
        assert(pow2(102) == 0x40_0000_0000_0000_0000_0000_0000);
        assert(double(EPS_BITS).exponent() == 973);
        assert(double(EPS_BITS).fraction() == 0x2_03af_9ee7_5616);
        lemma_nearest_below(
            double(EPS_BITS),
            1,
            1000000000000000,
            102,
            0x40_0000_0000_0000_0000_0000_0000,
        );
    }
    assert(is_nearest(double(NEGLIGIBLE_BITS), 1, 1000000000000000000)) by {
        lemma2_to64();
        lemma2_to64_rest();
        lemma_pow2_adds(64, 48);
        assert(pow2(112) == 0x1_0000_0000_0000_0000_0000_0000_0000);
        assert(double(NEGLIGIBLE_BITS).exponent() == 963);
        assert(double(NEGLIGIBLE_BITS).fraction() == 0x2_725d_d1d2_43ac);
        lemma_nearest_below(
            double(NEGLIGIBLE_BITS),
            1,
            1000000000000000000,
            112,
            0x1_0000_0000_0000_0000_0000_0000_0000,
        );
    }
    assert(is_nearest(double(TENTH_BITS), 1, 10)) by {
        lemma2_to64_rest();
        assert(double(TENTH_BITS).exponent() == 1019);
        assert(double(TENTH_BITS).fraction() == 0x9_9999_9999_999a);
        lemma_nearest_below(double(TENTH_BITS), 1, 10, 56, 0x100_0000_0000_0000);
    }
    assert(is_nearest(double(FIFTH_BITS), 1, 5)) by {
        lemma2_to64_rest();
        assert(double(FIFTH_BITS).exponent() == 1020);
        assert(double(FIFTH_BITS).fraction() == 0x9_9999_9999_999a);
        lemma_nearest_below(double(FIFTH_BITS), 1, 5, 55, 0x80_0000_0000_0000);
    }
    assert(is_nearest(double(X_COMPLEMENT_BITS), 29, 100)) by {
        lemma2_to64_rest();
        assert(double(X_COMPLEMENT_BITS).exponent() == 1021);
        assert(double(X_COMPLEMENT_BITS).fraction() == 0x2_8f5c_28f5_c28f);
        lemma_nearest_below(double(X_COMPLEMENT_BITS), 29, 100, 54, 0x40_0000_0000_0000);
    }
    assert(is_nearest(double(THREE_TENTHS_BITS), 3, 10)) by {
        lemma2_to64_rest();
        assert(double(THREE_TENTHS_BITS).exponent() == 1021);
        assert(double(THREE_TENTHS_BITS).fraction() == 0x3_3333_3333_3333);
        lemma_nearest_below(double(THREE_TENTHS_BITS), 3, 10, 54, 0x40_0000_0000_0000);
    }
    assert(is_nearest(double(SEVEN_TENTHS_BITS), 7, 10)) by {
        lemma2_to64_rest();
        assert(double(SEVEN_TENTHS_BITS).exponent() == 1022);
        assert(double(SEVEN_TENTHS_BITS).fraction() == 0x6_6666_6666_6666);
        lemma_nearest_below(double(SEVEN_TENTHS_BITS), 7, 10, 53, 0x20_0000_0000_0000);
    }
    assert(is_nearest(double(NINE_TENTHS_BITS), 9, 10)) by {
        lemma2_to64_rest();
        assert(double(NINE_TENTHS_BITS).exponent() == 1022);
        assert(double(NINE_TENTHS_BITS).fraction() == 0xc_cccc_cccc_cccd);
        lemma_nearest_below(double(NINE_TENTHS_BITS), 9, 10, 53, 0x20_0000_0000_0000);
    }
    assert(is_exactly(double(FIFTEEN_BITS), 15, 1)) by {
        lemma2_to64_rest();
        assert(double(FIFTEEN_BITS).exponent() == 1026);
        assert(double(FIFTEEN_BITS).fraction() == 0xe_0000_0000_0000);
        lemma_nearest_below(double(FIFTEEN_BITS), 15, 1, 49, 0x2_0000_0000_0000);
    }
    assert(is_exactly(double(FORTY_BITS), 40, 1)) by {
        lemma2_to64_rest();
        assert(double(FORTY_BITS).exponent() == 1028);
        assert(double(FORTY_BITS).fraction() == 0x4_0000_0000_0000);
        lemma_nearest_below(double(FORTY_BITS), 40, 1, 47, 0x8000_0000_0000);
    }
    assert(is_exactly(double(HUNDRED_BITS), 100, 1)) by {
        lemma2_to64_rest();
        assert(double(HUNDRED_BITS).exponent() == 1029);
        assert(double(HUNDRED_BITS).fraction() == 0x9_0000_0000_0000);
        lemma_nearest_below(double(HUNDRED_BITS), 100, 1, 46, 0x4000_0000_0000);
    }
    assert(is_exactly(double(LAMBDA_LOG_BITS), 650, 1)) by {
        lemma2_to64_rest();
        assert(double(LAMBDA_LOG_BITS).exponent() == 1032);
        assert(double(LAMBDA_LOG_BITS).fraction() == 0x4_5000_0000_0000);
        lemma_nearest_below(double(LAMBDA_LOG_BITS), 650, 1, 43, 0x800_0000_0000);
    }
}

} // verus!
