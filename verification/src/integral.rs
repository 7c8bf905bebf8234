//! Whole numbers in doubles.
//!
//! A finite double with exponent field `e` and significand `m` is
//! `m * 2^(e - 1075)`. From `e = 1075` on it is a whole number; below
//! `e = 1023` it is less than 1; in between, its whole part is `m`
//! without its lowest `1075 - e` bits, which hold what comes after the
//! binary point.

use vstd::prelude::*;
use vstd::arithmetic::div_mod::{
    lemma_basic_div,
    lemma_div_by_multiple,
    lemma_div_multiples_vanish_quotient,
    lemma_fundamental_div_mod,
    lemma_mod_multiples_basic,
    lemma_small_mod,
    lemma_truncate_middle,
};
use vstd::arithmetic::power2::{
    lemma2_to64,
    lemma2_to64_rest,
    lemma_pow2_adds,
    lemma_pow2_pos,
    lemma_pow2_strictly_increases,
    pow2,
};
use vstd::bits::{lemma_u64_shl_is_mul, lemma_u64_shr_is_div};
use crate::double::{Double, HIDDEN_BIT, POS_INF_BITS};

verus! {

/// The exponent field of 1.
pub const EXPONENT_OF_ONE: u64 = 1023;

/// The least exponent field of a double without bits after the binary
/// point.
pub const EXPONENT_OF_WHOLE: u64 = 1075;

impl Double {
    /// The whole part of the absolute value: the magnitude in units of
    /// 2^-1074, divided by 2^1074.
    pub open spec fn whole(self) -> nat {
        self.magnitude() / pow2(1074)
    }

    /// The double is finite and a whole number.
    pub open spec fn spec_is_integer(self) -> bool {
        self.is_finite() && self.magnitude() % pow2(1074) == 0
    }

    /// The value cut off towards zero and brought into the range of
    /// `i32`; 0 for NaN.
    pub open spec fn truncated(self) -> int {
        if self.is_nan() {
            0
        } else if self.sign() {
            if self.whole() >= 0x8000_0000 {
                -0x8000_0000
            } else {
                -(self.whole() as int)
            }
        } else {
            if self.whole() >= 0x7fff_ffff {
                0x7fff_ffff
            } else {
                self.whole() as int
            }
        }
    }

    /// Whether the double is finite and a whole number.
    #[verifier::when_used_as_spec(spec_is_integer)]
    pub fn is_integer(self) -> (r: bool)
        ensures
            r == self.spec_is_integer(),
    {
        let a: u64 = self.abs().to_bits();
        if a >= POS_INF_BITS {
            return false;
        }
        let e: u64 = a / HIDDEN_BIT;
        let f: u64 = a % HIDDEN_BIT;
        let m: u64 = HIDDEN_BIT + f;
        proof {
            lemma_pow2_pos(1074);
            lemma_whole_of(self);
        }
        if a == 0 {
            proof {
                lemma_small_mod(0, pow2(1074));
            }
            true
        } else if e < EXPONENT_OF_ONE {
            false
        } else if e >= EXPONENT_OF_WHOLE {
            true
        } else {
            let k: u64 = EXPONENT_OF_WHOLE - e;
            let q: u64 = m >> k;
            proof {
                lemma2_to64_rest();
                lemma_pow2_pos(k as nat);
                lemma_pow2_strictly_increases(k as nat, 53);
                lemma_u64_shr_is_div(m, k);
                lemma_fundamental_div_mod(m as int, pow2(k as nat) as int);
                assert(q * pow2(k as nat) <= m) by (nonlinear_arith)
                    requires
                        m == pow2(k as nat) * q + (m as int % pow2(k as nat) as int),
                        0 <= (m as int % pow2(k as nat) as int),
                ;
                lemma_u64_shl_is_mul(q, k);
            }
            (q << k) == m
        }
    }

    /// Whether the whole part of the absolute value is even.
    pub fn whole_is_even(self) -> (r: bool)
        requires
            self.is_finite(),
        ensures
            r == (self.whole() % 2 == 0),
    {
        let a: u64 = self.abs().to_bits();
        let e: u64 = a / HIDDEN_BIT;
        let f: u64 = a % HIDDEN_BIT;
        let m: u64 = HIDDEN_BIT + f;
        proof {
            lemma_whole_of(self);
        }
        if e < EXPONENT_OF_ONE {
            true
        } else if e > EXPONENT_OF_WHOLE {
            true
        } else {
            let k: u64 = EXPONENT_OF_WHOLE - e;
            proof {
                lemma_u64_shr_is_div(m, k);
                lemma2_to64();
            }
            (m >> k) % 2 == 0
        }
    }

    /// The value as an `i32`: cut off towards zero, brought into range,
    /// and 0 for NaN.
    pub fn to_i32(self) -> (r: i32)
        ensures
            r == self.truncated(),
    {
        if self.is_nan() {
            return 0;
        }
        let a: u64 = self.abs().to_bits();
        let e: u64 = a / HIDDEN_BIT;
        let f: u64 = a % HIDDEN_BIT;
        let m: u64 = HIDDEN_BIT + f;
        proof {
            lemma_whole_of(self);
            lemma2_to64();
            lemma2_to64_rest();
        }
        if e < EXPONENT_OF_ONE {
            0
        } else if e >= EXPONENT_OF_ONE + 31 {
            if self.is_sign_negative() {
                i32::MIN
            } else {
                i32::MAX
            }
        } else {
            let k: u64 = EXPONENT_OF_WHOLE - e;
            let q: u64 = m >> k;
            proof {
                // 22 <= k, so q < 2^53 / 2^22 = 2^31
                lemma_u64_shr_is_div(m, k);
                lemma_pow2_pos(k as nat);
                if k > 22 {
                    lemma_pow2_strictly_increases(22, k as nat);
                }
                lemma_fundamental_div_mod(m as int, pow2(k as nat) as int);
                assert(q < 0x8000_0000) by (nonlinear_arith)
                    requires
                        m == pow2(k as nat) * q + (m as int % pow2(k as nat) as int),
                        0 <= (m as int % pow2(k as nat) as int),
                        pow2(k as nat) >= 0x40_0000,
                        m < 0x20_0000_0000_0000,
                ;
            }
            if self.is_sign_negative() {
                -(q as i32)
            } else {
                q as i32
            }
        }
    }
}

/// The whole part of a double that is not NaN, and whether anything
/// remains, by its exponent field `e` and its significand `m`, the
/// fraction field with the hidden bit.
pub proof fn lemma_whole_of(d: Double)
    requires
        !d.is_nan(),
    ensures
        ({
            let e = d.exponent();
            let m = (HIDDEN_BIT + d.fraction()) as int;
            &&& e < 1023 ==> d.whole() == 0 && (d.spec_is_integer() <==> d.is_zero())
            &&& 1023 <= e <= 1075 ==> d.whole() == m / (pow2((1075 - e) as nat) as int) && (
            d.spec_is_integer() <==> m % (pow2((1075 - e) as nat) as int) == 0)
            &&& 1075 <= e ==> d.whole() == m * pow2((e - 1075) as nat) && d.magnitude() % pow2(1074)
                == 0
            &&& 1076 <= e ==> d.whole() % 2 == 0
            &&& 1023 + 31 <= e ==> d.whole() >= 0x8000_0000
        }),
{
    let e = d.exponent();
    let m = (HIDDEN_BIT + d.fraction()) as int;
    let unit = pow2(1074) as int;
    lemma2_to64();
    lemma2_to64_rest();
    lemma_pow2_pos(1074);
    if e == 0 {
        lemma_pow2_strictly_increases(52, 1074);
        lemma_basic_div(d.magnitude() as int, unit);
        lemma_small_mod(d.magnitude(), pow2(1074));
    } else {
        let low = pow2((e - 1) as nat) as int;
        lemma_pow2_pos((e - 1) as nat);
        assert(d.magnitude() == m * low);
        if e < 1023 {
            // m * 2^(e-1) < 2^53 * 2^(e-1) = 2^(52+e) <= 2^1074
            lemma_pow2_adds(53, (e - 1) as nat);
            assert(m * low < pow2(53) * low) by (nonlinear_arith)
                requires
                    m < pow2(53),
                    low > 0,
            ;
            if 52 + e < 1074 {
                lemma_pow2_strictly_increases(52 + e, 1074);
            }
            assert(m * low > 0) by (nonlinear_arith)
                requires
                    m > 0,
                    low > 0,
            ;
            lemma_basic_div(d.magnitude() as int, unit);
            lemma_small_mod(d.magnitude(), pow2(1074));
        }
        if 1023 <= e <= 1075 {
            let k = (1075 - e) as nat;
            let step = pow2(k) as int;
            lemma_pow2_pos(k);
            lemma_pow2_adds((e - 1) as nat, k);
            assert(low * step == unit);
            lemma_div_multiples_vanish_quotient(low, m, step);
            lemma_truncate_middle(m, low, step);
            assert(m * low == low * m) by (nonlinear_arith);
            assert(low * (m % step) == 0 <==> m % step == 0) by (nonlinear_arith)
                requires
                    low > 0,
            ;
        }
        if 1075 <= e {
            let k = (e - 1075) as nat;
            let high = pow2(k) as int;
            lemma_pow2_pos(k);
            lemma_pow2_adds(k, 1074);
            assert(low == high * unit);
            assert(m * low == (m * high) * unit) by (nonlinear_arith)
                requires
                    low == high * unit,
            ;
            assert(m * high >= 0) by (nonlinear_arith)
                requires
                    m >= 0,
                    high > 0,
            ;
            lemma_div_by_multiple(m * high, unit);
            lemma_mod_multiples_basic(m * high, unit);
            if 1076 <= e {
                lemma_pow2_adds(1, (k - 1) as nat);
                let half = pow2((k - 1) as nat) as int;
                assert(m * high == (m * half) * 2) by (nonlinear_arith)
                    requires
                        high == 2 * half,
                ;
                lemma_mod_multiples_basic(m * half, 2);
            }
        }
        if 1023 + 31 <= e {
            // at least 2^52 * 2^(e-1) >= 2^52 * 2^1053 = 2^31 * 2^1074
            lemma_pow2_adds(31, 1074);
            lemma_pow2_adds(52, 1053);
            if e - 1 > 1053 {
                lemma_pow2_strictly_increases(1053, (e - 1) as nat);
            }
            assert(m * low >= 0x8000_0000 * unit) by (nonlinear_arith)
                requires
                    m >= pow2(52),
                    low >= pow2(1053),
                    pow2(52) * pow2(1053) == pow2(31) * unit,
                    pow2(31) == 0x8000_0000,
                    pow2(52) > 0,
                    pow2(1053) > 0,
            ;
            lemma_fundamental_div_mod(m * low, unit);
            assert((m * low) / unit >= 0x8000_0000) by (nonlinear_arith)
                requires
                    m * low >= 0x8000_0000 * unit,
                    m * low == unit * ((m * low) / unit) + (m * low) % unit,
                    (m * low) % unit < unit,
                    unit > 0,
            ;
        }
    }
}

/// `r` is `x` rounded to the nearest whole number, halves away from
/// zero: `r` is whole, has the sign of `x`, differs from `x` by at most
/// one half, and is the larger in magnitude where it differs by just
/// one half.
pub open spec fn is_rounded(x: Double, r: Double) -> bool {
    &&& r.spec_is_integer()
    &&& r.sign() == x.sign()
    &&& 2 * (r.magnitude() - x.magnitude()) <= pow2(1074)
    &&& 2 * (x.magnitude() - r.magnitude()) < pow2(1074)
}

/// The magnitude of a finite whole double is its whole part times
/// 2^1074.
pub proof fn lemma_integer_magnitude(d: Double)
    requires
        d.spec_is_integer(),
    ensures
        d.magnitude() == d.whole() * pow2(1074),
{
    let unit = pow2(1074) as int;
    let w = d.magnitude() as int / unit;
    lemma_pow2_pos(1074);
    lemma_fundamental_div_mod(d.magnitude() as int, unit);
    assert(unit * w == w * unit) by (nonlinear_arith);
}

/// Rounding a significand `m` at its bit `k`: with quotient `q0` and
/// remainder `rem` of `m` by `2^k`, the whole number `q` is `q0`, or
/// `q0 + 1` where the remainder is at least `2^(k - 1)`; in units of
/// `low = 2^(1074 - k)` the distance from `m low` to `q 2^1074` is at
/// most half of 2^1074.
proof fn lemma_round_distance(m: int, k: nat, q0: int, rem: int, q: int, low: int)
    requires
        1 <= k <= 52,
        low > 0,
        pow2(k) * low == pow2(1074),
        m == q0 * pow2(k) + rem,
        0 <= rem < pow2(k),
        q == (if 2 * rem >= pow2(k) {
            q0 + 1
        } else {
            q0
        }),
    ensures
        2 * (q * pow2(1074) - m * low) <= pow2(1074),
        2 * (m * low - q * pow2(1074)) < pow2(1074),
{
    let step = pow2(k) as int;
    let unit = pow2(1074) as int;
    assert(m * low == q0 * unit + rem * low) by (nonlinear_arith)
        requires
            m == q0 * step + rem,
            step * low == unit,
    ;
    assert((q0 + 1) * unit == q0 * unit + unit) by (nonlinear_arith);
    if 2 * rem >= step {
        assert(2 * (rem * low) >= unit) by (nonlinear_arith)
            requires
                2 * rem >= step,
                step * low == unit,
                low > 0,
        ;
    } else {
        assert(2 * (rem * low) < unit) by (nonlinear_arith)
            requires
                2 * rem < step,
                step * low == unit,
                low > 0,
        ;
    }
    assert(rem * low >= 0 && rem * low < unit) by (nonlinear_arith)
        requires
            0 <= rem < step,
            step * low == unit,
            low > 0,
    ;
}

/// The double of the whole number `q` written with `k` zero bits after
/// it at the exponent field `e = 1075 - k`, where `q` has 53 - k bits,
/// or is 2^(53 - k): its magnitude is `q 2^1074`.
proof fn lemma_whole_bits(r: Double, e: nat, k: nat, q: int)
    requires
        1 <= k <= 52,
        e + k == 1075,
        pow2((52 - k) as nat) <= q <= pow2((53 - k) as nat),
        r.abs_bits() == (e - 1) * HIDDEN_BIT + q * pow2(k),
    ensures
        r.is_finite(),
        r.magnitude() == q * pow2(1074),
        r.spec_is_integer(),
{
    let step = pow2(k) as int;
    let unit = pow2(1074) as int;
    lemma2_to64();
    lemma2_to64_rest();
    lemma_pow2_pos(k);
    lemma_pow2_pos(1074);
    lemma_pow2_adds((52 - k) as nat, k);
    lemma_pow2_adds((53 - k) as nat, k);
    assert(HIDDEN_BIT <= q * step <= 2 * HIDDEN_BIT) by (nonlinear_arith)
        requires
            pow2((52 - k) as nat) <= q <= pow2((53 - k) as nat),
            pow2((52 - k) as nat) * step == HIDDEN_BIT,
            pow2((53 - k) as nat) * step == 2 * HIDDEN_BIT,
            step > 0,
    ;
    let a = r.abs_bits() as int;
    if q * step == 2 * HIDDEN_BIT {
        // the carry: one exponent up, with an empty fraction
        assert(a == (e + 1) * HIDDEN_BIT);
        assert(r.exponent() == e + 1 && r.fraction() == 0) by {
            lemma_fundamental_div_mod_converse_at(a, (e + 1) as int, 0);
        }
        lemma_pow2_adds(53, (e - 1) as nat);
        lemma_pow2_adds(1, (e - 1) as nat);
        lemma_pow2_adds(k, (e - 1) as nat);
        lemma_pow2_adds((53 - k) as nat, k);
        lemma_pow2_pos((e - 1) as nat);
        assert(r.magnitude() == HIDDEN_BIT * pow2(e));
        assert(HIDDEN_BIT * pow2(e) == q * unit) by (nonlinear_arith)
            requires
                pow2(e) == 2 * pow2((e - 1) as nat),
                q * step == 2 * HIDDEN_BIT,
                step * pow2((e - 1) as nat) == unit,
        ;
    } else {
        let f = q * step - HIDDEN_BIT;
        assert(a == e * HIDDEN_BIT + f);
        assert(r.exponent() == e && r.fraction() == f) by {
            lemma_fundamental_div_mod_converse_at(a, e as int, f);
        }
        lemma_pow2_adds(k, (e - 1) as nat);
        assert(r.magnitude() == (q * step) * pow2((e - 1) as nat));
        assert((q * step) * pow2((e - 1) as nat) == q * unit) by (nonlinear_arith)
            requires
                step * pow2((e - 1) as nat) == unit,
        ;
    }
    assert(q * unit >= 0) by (nonlinear_arith)
        requires
            q >= 0,
            unit > 0,
    ;
    lemma_mod_multiples_basic(q, unit);
}

/// A number `e 2^52 + f` with `0 <= f < 2^52` has quotient `e` and
/// remainder `f` by 2^52.
proof fn lemma_fundamental_div_mod_converse_at(a: int, e: int, f: int)
    requires
        a == e * HIDDEN_BIT + f,
        0 <= f < HIDDEN_BIT,
    ensures
        a / (HIDDEN_BIT as int) == e,
        a % (HIDDEN_BIT as int) == f,
{
    vstd::arithmetic::div_mod::lemma_fundamental_div_mod_converse(a, HIDDEN_BIT as int, e, f);
}

impl Double {
    /// The nearest whole number, halves away from zero; NaN and the
    /// infinities stay as they are.
    pub fn round(self) -> (r: Double)
        ensures
            !self.is_finite() ==> r == self,
            self.is_finite() ==> is_rounded(self, r),
    {
        let a: u64 = self.abs().to_bits();
        let e: u64 = a / HIDDEN_BIT;
        let f: u64 = a % HIDDEN_BIT;
        let m: u64 = HIDDEN_BIT + f;
        let sign: u64 = self.to_bits() - a;
        if e >= EXPONENT_OF_WHOLE {
            proof {
                lemma_pow2_pos(1074);
                if self.is_finite() {
                    lemma_whole_of(self);
                }
            }
            return self;
        }
        proof {
            lemma_whole_of(self);
            lemma_pow2_pos(1074);
            lemma2_to64();
            lemma2_to64_rest();
        }
        if e < EXPONENT_OF_ONE - 1 {
            // below one half
            let r = Double { bits: sign };
            proof {
                assert(r.abs_bits() == 0);
                assert(r.magnitude() == 0);
                lemma_small_mod(0, pow2(1074));
                lemma_below_half(self);
            }
            return r;
        }
        if e == EXPONENT_OF_ONE - 1 {
            // from one half up to one
            let r = Double { bits: sign + EXPONENT_OF_ONE * HIDDEN_BIT };
            proof {
                assert(r.abs_bits() == 1023 * HIDDEN_BIT);
                assert(r.exponent() == 1023 && r.fraction() == 0);
                lemma_pow2_adds(52, 1022);
                lemma_pow2_adds(52, 1021);
                lemma_pow2_adds(1, 1073);
                lemma_pow2_adds(1, 1021);
                assert(r.magnitude() == pow2(1074));
                lemma_mod_multiples_basic(1, pow2(1074) as int);
                let low = pow2(1021) as int;
                assert(self.magnitude() == m * low);
                assert(m * low >= pow2(1073) && m * low < pow2(1074)) by (nonlinear_arith)
                    requires
                        HIDDEN_BIT <= m < 2 * HIDDEN_BIT,
                        HIDDEN_BIT * low == pow2(1073),
                        pow2(1074) == 2 * pow2(1073),
                        low > 0,
                ;
            }
            return r;
        }
        let k: u64 = EXPONENT_OF_WHOLE - e;
        let q0: u64 = m >> k;
        proof {
            lemma_pow2_pos(k as nat);
            lemma_pow2_strictly_increases(k as nat, 53);
            lemma_u64_shr_is_div(m, k);
            lemma_fundamental_div_mod(m as int, pow2(k as nat) as int);
            assert(q0 * pow2(k as nat) <= m) by (nonlinear_arith)
                requires
                    m == pow2(k as nat) * q0 + (m as int % pow2(k as nat) as int),
                    0 <= (m as int % pow2(k as nat) as int),
            ;
            lemma_u64_shl_is_mul(q0, k);
            lemma_u64_shl_is_mul(1, (k - 1) as u64);
            lemma_pow2_adds(1, (k - 1) as nat);
        }
        let rem: u64 = m - (q0 << k);
        let half: u64 = 1u64 << (k - 1);
        let q: u64 = if rem >= half {
            q0 + 1
        } else {
            q0
        };
        proof {
            let step = pow2(k as nat) as int;
            assert(rem == m as int % step);
            assert(m == q0 * step + rem);
            // q0 has 53 - k bits
            lemma_pow2_adds((52 - k) as nat, k as nat);
            lemma_pow2_adds((53 - k) as nat, k as nat);
            assert(pow2((52 - k) as nat) <= q0 < pow2((53 - k) as nat)) by (nonlinear_arith)
                requires
                    m == q0 * step + rem,
                    0 <= rem < step,
                    HIDDEN_BIT <= m < 2 * HIDDEN_BIT,
                    pow2((52 - k) as nat) * step == HIDDEN_BIT,
                    pow2((53 - k) as nat) * step == 2 * HIDDEN_BIT,
            ;
            assert(q * step <= 2 * HIDDEN_BIT) by (nonlinear_arith)
                requires
                    q <= pow2((53 - k) as nat),
                    pow2((53 - k) as nat) * step == 2 * HIDDEN_BIT,
                    step > 0,
            ;
            lemma_u64_shl_is_mul(q, k);
        }
        let r = Double { bits: sign + (e - 1) * HIDDEN_BIT + (q << k) };
        proof {
            let low = pow2((e - 1) as nat) as int;
            lemma_pow2_pos((e - 1) as nat);
            lemma_pow2_adds(k as nat, (e - 1) as nat);
            assert(r.abs_bits() == (e - 1) * HIDDEN_BIT + q * pow2(k as nat));
            lemma_whole_bits(r, e as nat, k as nat, q as int);
            assert(self.magnitude() == m * low);
            lemma_round_distance(m as int, k as nat, q0 as int, rem as int, q as int, low);
        }
        r
    }
}

/// A double with exponent field below 1022 is less than one half.
proof fn lemma_below_half(d: Double)
    requires
        d.exponent() < 1022,
    ensures
        2 * d.magnitude() < pow2(1074),
{
    let e = d.exponent();
    lemma2_to64_rest();
    lemma_pow2_adds(1, 1073);
    lemma2_to64();
    if e == 0 {
        lemma_pow2_strictly_increases(52, 1073);
    } else {
        let low = pow2((e - 1) as nat) as int;
        lemma_pow2_pos((e - 1) as nat);
        lemma_pow2_adds(53, (e - 1) as nat);
        assert((HIDDEN_BIT + d.fraction()) * low < pow2(53) * low) by (nonlinear_arith)
            requires
                HIDDEN_BIT + d.fraction() < pow2(53),
                low > 0,
        ;
        if 52 + e < 1073 {
            lemma_pow2_strictly_increases(52 + e, 1073);
        }
    }
}

} // verus!
