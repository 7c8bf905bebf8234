//! Floating-point machine constants.

use vstd::prelude::*;
use vstd::arithmetic::power2::{lemma2_to64, lemma2_to64_rest, lemma_pow2_adds, pow2};
use crate::double::{double, lemma_magnitude_order, Double, HIDDEN_BIT};
use crate::i1mach::machine_integer;

verus! {

/// The pattern of the largest finite double.
pub const MAX_BITS: u64 = 0x7fef_ffff_ffff_ffff;

/// The pattern of 2^-53, half the machine epsilon.
pub const HALF_EPSILON_BITS: u64 = 0x3ca0_0000_0000_0000;

/// The pattern of 2^-52, the machine epsilon.
pub const EPSILON_BITS: u64 = 0x3cb0_0000_0000_0000;

/// The pattern of the double nearest the decimal logarithm of 2.
pub const LOG10_2_BITS: u64 = 0x3fd3_4413_509f_79ff;

/// The table of floating-point machine constants, by index: the least
/// positive normal double, the largest finite double, the least and the
/// greatest relative spacing, and the decimal logarithm of the base.
/// Any other index gives 0.
pub open spec fn machine_double(i: int) -> Double {
    if i == 1 {
        double(HIDDEN_BIT)
    } else if i == 2 {
        double(MAX_BITS)
    } else if i == 3 {
        double(HALF_EPSILON_BITS)
    } else if i == 4 {
        double(EPSILON_BITS)
    } else if i == 5 {
        double(LOG10_2_BITS)
    } else {
        double(0)
    }
}

/// Floating-point machine constant number `i`.
pub fn d1mach(i: i32) -> (r: Double)
    ensures
        r == machine_double(i as int),
{
    match i {
        1 => Double::from_bits(HIDDEN_BIT),
        2 => Double::from_bits(MAX_BITS),
        3 => Double::from_bits(HALF_EPSILON_BITS),
        4 => Double::from_bits(EPSILON_BITS),
        5 => Double::from_bits(LOG10_2_BITS),
        _ => Double::from_bits(0),
    }
}

/// The first four constants follow from the integer constants of double
/// precision: with `t` digits and exponents from `emin` to `emax`, they
/// are `2^(emin - 1)`, `2^emax (1 - 2^-t)`, `2^-t` and `2^(1 - t)`. The
/// values are in units of 2^-1074. No finite double is larger than the
/// second.
pub proof fn lemma_machine_constants(d: Double)
    ensures
        machine_double(1).value() == pow2((1074 + machine_integer(15) - 1) as nat),
        machine_double(2).value() == pow2((1074 + machine_integer(16)) as nat) - pow2(
            (1074 + machine_integer(16) - machine_integer(14)) as nat,
        ),
        machine_double(3).value() == pow2((1074 - machine_integer(14)) as nat),
        machine_double(4).value() == pow2((1074 + 1 - machine_integer(14)) as nat),
        d.is_finite() ==> d.magnitude() <= machine_double(2).magnitude(),
{
    lemma2_to64();
    lemma2_to64_rest();
    assert(double(HIDDEN_BIT).exponent() == 1 && double(HIDDEN_BIT).fraction() == 0);
    assert(double(HIDDEN_BIT).value() == HIDDEN_BIT * pow2(0));
    assert(double(MAX_BITS).exponent() == 2046);
    assert(double(MAX_BITS).fraction() == 0xf_ffff_ffff_ffff);
    lemma_pow2_adds(53, 2045);
    assert(double(MAX_BITS).value() == (pow2(53) - 1) * pow2(2045));
    assert((pow2(53) - 1) * pow2(2045) == pow2(53) * pow2(2045) - pow2(2045)) by (nonlinear_arith);
    assert(double(HALF_EPSILON_BITS).exponent() == 970);
    lemma_pow2_adds(52, 969);
    assert(double(EPSILON_BITS).exponent() == 971);
    lemma_pow2_adds(52, 970);
    lemma_magnitude_order(d, double(MAX_BITS));
}

} // verus!
