//! Integer machine constants.

use vstd::prelude::*;

verus! {

/// The table of integer machine constants, by index.
///
/// 1 to 4 are the unit numbers of standard input, output, punch and error;
/// 5 to 9 describe the integer type (bits, characters, base, digits,
/// largest value); 10 is the floating-point base; 11 to 13 describe
/// single precision and 14 to 16 double precision (digits of the
/// significand, least and greatest exponent). Any other index gives 0.
pub open spec fn machine_integer(i: int) -> int {
    if i == 1 {
        5
    } else if i == 2 {
        6
    } else if i == 3 || i == 4 {
        0
    } else if i == 5 {
        32
    } else if i == 6 {
        4
    } else if i == 7 {
        2
    } else if i == 8 {
        31
    } else if i == 9 {
        0x7fff_ffff
    } else if i == 10 {
        2
    } else if i == 11 {
        24
    } else if i == 12 {
        -125
    } else if i == 13 {
        128
    } else if i == 14 {
        53
    } else if i == 15 {
        -1021
    } else if i == 16 {
        1024
    } else {
        0
    }
}

/// Integer machine constant number `i`.
pub fn i1mach(i: i32) -> (r: i32)
    ensures
        r == machine_integer(i as int),
{
    match i {
        1 => 5,
        2 => 6,
        3 => 0,
        4 => 0,
        5 => 32,
        6 => 4,
        7 => 2,
        8 => 31,
        9 => i32::MAX,
        10 => 2,
        11 => 24,
        12 => -125,
        13 => 128,
        14 => 53,
        15 => -1021,
        16 => 1024,
        _ => 0,
    }
}

} // verus!
