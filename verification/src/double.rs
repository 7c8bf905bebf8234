//! Doubles as bit patterns.
//!
//! A [`Double`] is an IEEE-754 binary64 number held as its 64 bits: one
//! sign bit, eleven exponent bits and fifty-two fraction bits. Every
//! finite double is a whole multiple of 2^-1074, so its value is modelled
//! by that multiple, an `int`; the two infinities sit at 2^2098 and its
//! negative, beyond every finite value. Classification and comparison
//! are integer arithmetic on the bits, proved against this model.

use vstd::prelude::*;
use vstd::arithmetic::mul::{lemma_mul_inequality, lemma_mul_strict_inequality};
use vstd::arithmetic::power2::{
    lemma2_to64_rest,
    lemma_pow2_adds,
    lemma_pow2_pos,
    lemma_pow2_strictly_increases,
    pow2,
};

verus! {

/// The sign bit of a binary64 pattern.
pub const SIGN_BIT: u64 = 0x8000_0000_0000_0000;

/// Two to the 52: the weight of the exponent field, and the hidden bit of
/// a normal significand.
pub const HIDDEN_BIT: u64 = 0x0010_0000_0000_0000;

/// The pattern of positive infinity; every larger magnitude is a NaN.
pub const POS_INF_BITS: u64 = 0x7ff0_0000_0000_0000;

/// The pattern of negative infinity.
pub const NEG_INF_BITS: u64 = 0xfff0_0000_0000_0000;

/// The pattern of the default quiet NaN.
pub const NAN_BITS: u64 = 0x7ff8_0000_0000_0000;

/// The pattern of 1.
pub const ONE_BITS: u64 = 0x3ff0_0000_0000_0000;

/// The pattern of 0.5.
pub const HALF_BITS: u64 = 0x3fe0_0000_0000_0000;

/// A binary64 number, as its bits.
#[derive(Clone, Copy, Debug)]
pub struct Double {
    pub bits: u64,
}

/// The double with the given bits.
pub open spec fn double(bits: u64) -> Double {
    Double { bits }
}

impl Double {
    /// The bits without the sign.
    pub open spec fn abs_bits(self) -> u64 {
        if self.bits >= SIGN_BIT {
            (self.bits - SIGN_BIT) as u64
        } else {
            self.bits
        }
    }

    /// The sign bit is set (true of -0 too).
    pub open spec fn sign(self) -> bool {
        self.bits >= SIGN_BIT
    }

    /// The exponent field.
    pub open spec fn exponent(self) -> nat {
        (self.abs_bits() / HIDDEN_BIT) as nat
    }

    /// The fraction field.
    pub open spec fn fraction(self) -> nat {
        (self.abs_bits() % HIDDEN_BIT) as nat
    }

    /// The absolute value in units of 2^-1074.
    pub open spec fn magnitude(self) -> nat {
        if self.exponent() == 0 {
            self.fraction()
        } else {
            ((HIDDEN_BIT + self.fraction()) * pow2((self.exponent() - 1) as nat)) as nat
        }
    }

    /// The value in units of 2^-1074. It is meant for doubles that are
    /// not NaN; an infinity counts as 2^2098 or its negative.
    pub open spec fn value(self) -> int {
        if self.sign() {
            -(self.magnitude() as int)
        } else {
            self.magnitude() as int
        }
    }

    /// Not a number: an exponent field of all ones with a fraction.
    pub open spec fn spec_is_nan(self) -> bool {
        self.abs_bits() > POS_INF_BITS
    }

    /// An infinity: an exponent field of all ones without a fraction.
    pub open spec fn spec_is_infinite(self) -> bool {
        self.abs_bits() == POS_INF_BITS
    }

    /// Neither an infinity nor NaN.
    pub open spec fn spec_is_finite(self) -> bool {
        self.abs_bits() < POS_INF_BITS
    }

    /// Zero, of either sign.
    pub open spec fn spec_is_zero(self) -> bool {
        self.abs_bits() == 0
    }

    /// IEEE `<`: false when either side is NaN.
    pub open spec fn spec_lt(self, other: Double) -> bool {
        !self.spec_is_nan() && !other.spec_is_nan() && self.value() < other.value()
    }

    /// IEEE `<=`: false when either side is NaN.
    pub open spec fn spec_le(self, other: Double) -> bool {
        !self.spec_is_nan() && !other.spec_is_nan() && self.value() <= other.value()
    }

    /// IEEE `>`: false when either side is NaN.
    pub open spec fn spec_gt(self, other: Double) -> bool {
        other.spec_lt(self)
    }

    /// IEEE `>=`: false when either side is NaN.
    pub open spec fn spec_ge(self, other: Double) -> bool {
        other.spec_le(self)
    }

    /// IEEE `==`: false when either side is NaN, true of -0 and +0.
    pub open spec fn spec_eq(self, other: Double) -> bool {
        !self.spec_is_nan() && !other.spec_is_nan() && self.value() == other.value()
    }

    /// The same number with the sign bit cleared.
    pub open spec fn spec_abs(self) -> Double {
        Double { bits: self.abs_bits() }
    }

    /// The same number with the sign bit flipped.
    pub open spec fn spec_neg(self) -> Double {
        Double {
            bits: if self.bits >= SIGN_BIT {
                (self.bits - SIGN_BIT) as u64
            } else {
                (self.bits + SIGN_BIT) as u64
            },
        }
    }

    /// The double with the given bits.
    pub fn from_bits(bits: u64) -> (r: Double)
        ensures
            r == double(bits),
    {
        Double { bits }
    }

    /// The bits of this double.
    pub fn to_bits(self) -> (r: u64)
        ensures
            r == self.bits,
    {
        self.bits
    }

    fn magnitude_bits(self) -> (r: u64)
        ensures
            r == self.abs_bits(),
    {
        if self.bits >= SIGN_BIT {
            self.bits - SIGN_BIT
        } else {
            self.bits
        }
    }

    /// The sign bit is set.
    #[verifier::when_used_as_spec(sign)]
    pub fn is_sign_negative(self) -> (r: bool)
        ensures
            r == self.sign(),
    {
        self.bits >= SIGN_BIT
    }

    /// Not a number.
    #[verifier::when_used_as_spec(spec_is_nan)]
    pub fn is_nan(self) -> (r: bool)
        ensures
            r == self.spec_is_nan(),
    {
        self.magnitude_bits() > POS_INF_BITS
    }

    /// Positive or negative infinity.
    #[verifier::when_used_as_spec(spec_is_infinite)]
    pub fn is_infinite(self) -> (r: bool)
        ensures
            r == self.spec_is_infinite(),
    {
        self.magnitude_bits() == POS_INF_BITS
    }

    /// Neither infinite nor NaN.
    #[verifier::when_used_as_spec(spec_is_finite)]
    pub fn is_finite(self) -> (r: bool)
        ensures
            r == self.spec_is_finite(),
    {
        self.magnitude_bits() < POS_INF_BITS
    }

    /// Positive or negative zero.
    #[verifier::when_used_as_spec(spec_is_zero)]
    pub fn is_zero(self) -> (r: bool)
        ensures
            r == self.spec_is_zero(),
    {
        self.magnitude_bits() == 0
    }

    /// The absolute value: the sign bit cleared, of a NaN too.
    #[verifier::when_used_as_spec(spec_abs)]
    pub fn abs(self) -> (r: Double)
        ensures
            r == self.spec_abs(),
    {
        Double { bits: self.magnitude_bits() }
    }

    /// The negation: the sign bit flipped, of a NaN too.
    #[verifier::when_used_as_spec(spec_neg)]
    pub fn neg(self) -> (r: Double)
        ensures
            r == self.spec_neg(),
    {
        if self.bits >= SIGN_BIT {
            Double { bits: self.bits - SIGN_BIT }
        } else {
            Double { bits: self.bits + SIGN_BIT }
        }
    }

    /// IEEE `<`.
    #[verifier::when_used_as_spec(spec_lt)]
    pub fn lt(self, other: Double) -> (r: bool)
        ensures
            r == self.spec_lt(other),
    {
        if self.is_nan() || other.is_nan() {
            return false;
        }
        let a: u64 = self.magnitude_bits();
        let b: u64 = other.magnitude_bits();
        proof {
            lemma_magnitude_order(self, other);
        }
        if self.is_sign_negative() {
            if other.is_sign_negative() {
                b < a
            } else {
                a != 0 || b != 0
            }
        } else {
            if other.is_sign_negative() {
                false
            } else {
                a < b
            }
        }
    }

    /// IEEE `<=`.
    #[verifier::when_used_as_spec(spec_le)]
    pub fn le(self, other: Double) -> (r: bool)
        ensures
            r == self.spec_le(other),
    {
        if self.is_nan() || other.is_nan() {
            return false;
        }
        !other.lt(self)
    }

    /// IEEE `>`.
    #[verifier::when_used_as_spec(spec_gt)]
    pub fn gt(self, other: Double) -> (r: bool)
        ensures
            r == self.spec_gt(other),
    {
        other.lt(self)
    }

    /// IEEE `>=`.
    #[verifier::when_used_as_spec(spec_ge)]
    pub fn ge(self, other: Double) -> (r: bool)
        ensures
            r == self.spec_ge(other),
    {
        other.le(self)
    }

    /// IEEE `==`.
    #[verifier::when_used_as_spec(spec_eq)]
    pub fn eq(self, other: Double) -> (r: bool)
        ensures
            r == self.spec_eq(other),
    {
        if self.is_nan() || other.is_nan() {
            return false;
        }
        !self.lt(other) && !other.lt(self)
    }
}

/// Among bit patterns without their sign, a larger pattern is a larger
/// magnitude.
pub proof fn lemma_magnitude_increases(a: Double, b: Double)
    requires
        a.abs_bits() < b.abs_bits(),
    ensures
        a.magnitude() < b.magnitude(),
{
    let ea = a.exponent();
    let eb = b.exponent();
    let fa = a.fraction();
    let fb = b.fraction();
    lemma2_to64_rest();
    if ea == eb {
        if ea != 0 {
            let p = pow2((ea - 1) as nat);
            lemma_pow2_pos((ea - 1) as nat);
            lemma_mul_strict_inequality(HIDDEN_BIT + fa, HIDDEN_BIT + fb, p as int);
        }
    } else {
        assert(ea < eb);
        // a is below 2^(52 + ea), and b is at least 2^(51 + eb)
        assert(a.magnitude() < pow2(52 + ea)) by {
            if ea != 0 {
                let p = pow2((ea - 1) as nat);
                lemma_pow2_pos((ea - 1) as nat);
                lemma_mul_strict_inequality(HIDDEN_BIT + fa, 2 * HIDDEN_BIT, p as int);
                lemma_pow2_adds(53, (ea - 1) as nat);
            }
        }
        assert(b.magnitude() >= pow2(51 + eb)) by {
            let p = pow2((eb - 1) as nat);
            lemma_pow2_pos((eb - 1) as nat);
            lemma_mul_inequality(HIDDEN_BIT as int, HIDDEN_BIT + fb, p as int);
            lemma_pow2_adds(52, (eb - 1) as nat);
        }
        if 52 + ea < 51 + eb {
            lemma_pow2_strictly_increases(52 + ea, 51 + eb);
        }
    }
}

/// The order of two doubles' magnitudes is the order of their bits
/// without the sign, and only the zeros have magnitude zero.
pub proof fn lemma_magnitude_order(a: Double, b: Double)
    ensures
        a.abs_bits() < b.abs_bits() <==> a.magnitude() < b.magnitude(),
        a.abs_bits() == b.abs_bits() <==> a.magnitude() == b.magnitude(),
        a.abs_bits() == 0 <==> a.magnitude() == 0,
{
    if a.abs_bits() < b.abs_bits() {
        lemma_magnitude_increases(a, b);
    }
    if b.abs_bits() < a.abs_bits() {
        lemma_magnitude_increases(b, a);
    }
    if a.abs_bits() != 0 {
        lemma_magnitude_increases(double(0), a);
    }
}

/// Two doubles that are not NaN are in exactly one of the three orders,
/// and the orders are those of their values.
pub proof fn lemma_trichotomy(a: Double, b: Double)
    requires
        !a.is_nan(),
        !b.is_nan(),
    ensures
        a.lt(b) || a.eq(b) || a.gt(b),
        !(a.lt(b) && a.eq(b)),
        !(a.lt(b) && a.gt(b)),
        !(a.eq(b) && a.gt(b)),
        a.le(b) <==> a.lt(b) || a.eq(b),
        a.ge(b) <==> a.gt(b) || a.eq(b),
        a.eq(b) <==> a.bits == b.bits || (a.is_zero() && b.is_zero()),
{
    lemma_magnitude_order(a, b);
    lemma_magnitude_order(b, a);
}

/// The order is transitive.
pub proof fn lemma_order_is_transitive(a: Double, b: Double, c: Double)
    ensures
        a.lt(b) && b.lt(c) ==> a.lt(c),
        a.le(b) && b.le(c) ==> a.le(c),
        a.lt(b) && b.le(c) ==> a.lt(c),
        a.le(b) && b.lt(c) ==> a.lt(c),
{
}

/// Negation mirrors the order, and the absolute value is the value
/// without its sign.
pub proof fn lemma_neg_abs(a: Double, b: Double)
    ensures
        a.neg().value() == -a.value(),
        a.neg().is_nan() == a.is_nan(),
        a.abs().value() == a.magnitude(),
        a.abs().is_nan() == a.is_nan(),
        a.lt(b) <==> b.neg().lt(a.neg()),
{
    lemma_magnitude_order(a, a.neg());
    lemma_magnitude_order(b, b.neg());
    lemma_magnitude_order(a, a.abs());
}

/// The values of zero, one half, one and the infinities, in units of
/// 2^-1074; every finite double lies strictly between the infinities.
pub proof fn lemma_landmarks(d: Double)
    ensures
        double(0).value() == 0,
        double(SIGN_BIT).value() == 0,
        double(HALF_BITS).value() == pow2(1073),
        double(ONE_BITS).value() == pow2(1074),
        double(POS_INF_BITS).value() == pow2(2098),
        double(NEG_INF_BITS).value() == -pow2(2098),
        d.is_finite() ==> -pow2(2098) < d.value() < pow2(2098),
        double(NAN_BITS).is_nan(),
{
    lemma2_to64_rest();
    assert(double(HALF_BITS).exponent() == 1022);
    assert(double(ONE_BITS).exponent() == 1023);
    assert(double(POS_INF_BITS).exponent() == 2047);
    assert(double(NEG_INF_BITS).exponent() == 2047);
    assert(double(NEG_INF_BITS).abs_bits() == POS_INF_BITS);
    lemma_pow2_adds(52, 1021);
    lemma_pow2_adds(52, 1022);
    lemma_pow2_adds(52, 2046);
    lemma_magnitude_order(d, double(POS_INF_BITS));
}

impl Double {
    /// The distance from a finite double to the next one of larger
    /// magnitude, in units of 2^-1074.
    pub open spec fn ulp(self) -> nat {
        if self.exponent() == 0 {
            1
        } else {
            pow2((self.exponent() - 1) as nat)
        }
    }
}

/// `d` is a finite double no farther from the fraction `num / den` than
/// half the distance to its neighbour: a double nearest to that number.
pub open spec fn is_nearest(d: Double, num: int, den: int) -> bool {
    &&& d.is_finite()
    &&& den > 0
    &&& -(den * d.ulp()) <= 2 * (den * d.value() - num * pow2(1074)) <= den * d.ulp()
}

/// `d` is a finite double and the fraction `num / den` exactly.
pub open spec fn is_exactly(d: Double, num: int, den: int) -> bool {
    &&& d.is_finite()
    &&& den > 0
    &&& den * d.value() == num * pow2(1074)
}

/// The significand of a double with its sign: the fraction field with
/// the hidden bit, negative for a negative double.
pub open spec fn signed_significand(d: Double) -> int {
    if d.sign() {
        -(HIDDEN_BIT + d.fraction())
    } else {
        HIDDEN_BIT + d.fraction()
    }
}

/// A normal double below 2^53 in magnitude, with exponent field
/// `1075 - k`, is its significand divided by `2^k`; so it is nearest to
/// `num / den` if its significand is nearest to `2^k num / den`.
pub proof fn lemma_nearest_below(d: Double, num: int, den: int, k: nat, scale: int)
    requires
        d.exponent() >= 1,
        d.exponent() + k == 1075,
        scale == pow2(k),
        den > 0,
        -den <= 2 * (den * signed_significand(d) - num * scale) <= den,
    ensures
        is_nearest(d, num, den),
        den * signed_significand(d) == num * scale ==> is_exactly(d, num, den),
{
    let low = pow2((d.exponent() - 1) as nat) as int;
    let m = signed_significand(d);
    lemma_pow2_pos((d.exponent() - 1) as nat);
    lemma_pow2_adds(k, (d.exponent() - 1) as nat);
    assert((HIDDEN_BIT + d.fraction()) * low >= 0) by (nonlinear_arith)
        requires
            low > 0,
    ;
    assert(d.magnitude() == (HIDDEN_BIT + d.fraction()) * low);
    assert(d.value() == m * low) by (nonlinear_arith)
        requires
            d.value() == (if d.sign() {
                -((HIDDEN_BIT + d.fraction()) * low)
            } else {
                (HIDDEN_BIT + d.fraction()) * low
            }),
            m == (if d.sign() {
                -(HIDDEN_BIT + d.fraction())
            } else {
                HIDDEN_BIT + d.fraction()
            }),
    ;
    assert(den * (m * low) - num * (scale * low) == (den * m - num * scale) * low)
        by (nonlinear_arith);
    assert(-(den * low) <= 2 * ((den * m - num * scale) * low) <= den * low) by (nonlinear_arith)
        requires
            -den <= 2 * (den * m - num * scale) <= den,
            low > 0,
    ;
    if den * m == num * scale {
        assert((den * m - num * scale) * low == 0) by (nonlinear_arith)
            requires
                den * m == num * scale,
        ;
    }
}

/// A finite double of magnitude 2^52 or more, with exponent field
/// `1075 + j`, is its significand times `2^j`; so it is nearest to
/// `num / den` if that product is within `2^j / 2` of it.
pub proof fn lemma_nearest_above(d: Double, num: int, den: int, j: nat, scale: int)
    requires
        d.is_finite(),
        d.exponent() == 1075 + j,
        scale == pow2(j),
        den > 0,
        -(den * scale) <= 2 * (den * signed_significand(d) * scale - num) <= den * scale,
    ensures
        is_nearest(d, num, den),
        den * signed_significand(d) * scale == num ==> is_exactly(d, num, den),
{
    let unit = pow2(1074) as int;
    let low = pow2((d.exponent() - 1) as nat) as int;
    let m = signed_significand(d);
    lemma_pow2_pos(1074);
    lemma_pow2_pos((d.exponent() - 1) as nat);
    lemma_pow2_adds(j, 1074);
    assert(low == scale * unit);
    assert((HIDDEN_BIT + d.fraction()) * low >= 0) by (nonlinear_arith)
        requires
            low > 0,
    ;
    assert(d.magnitude() == (HIDDEN_BIT + d.fraction()) * low);
    assert(d.value() == m * low) by (nonlinear_arith)
        requires
            d.value() == (if d.sign() {
                -((HIDDEN_BIT + d.fraction()) * low)
            } else {
                (HIDDEN_BIT + d.fraction()) * low
            }),
            m == (if d.sign() {
                -(HIDDEN_BIT + d.fraction())
            } else {
                HIDDEN_BIT + d.fraction()
            }),
    ;
    assert(den * (m * (scale * unit)) - num * unit == (den * m * scale - num) * unit)
        by (nonlinear_arith);
    assert(-(den * (scale * unit)) <= 2 * ((den * m * scale - num) * unit) <= den * (scale
        * unit)) by (nonlinear_arith)
        requires
            -(den * scale) <= 2 * (den * m * scale - num) <= den * scale,
            unit > 0,
    ;
    if den * m * scale == num {
        assert((den * m * scale - num) * unit == 0) by (nonlinear_arith)
            requires
                den * m * scale == num,
        ;
    }
}

} // verus!
