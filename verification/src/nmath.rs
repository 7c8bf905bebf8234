//! Tests on doubles that the routines share.

use vstd::prelude::*;
use crate::double::Double;
use crate::integral::is_rounded;

verus! {

/// `x` is neither infinite nor NaN.
pub fn r_finite(x: Double) -> (r: bool)
    ensures
        r == x.is_finite(),
{
    x.is_finite()
}

/// `x` rounded to the nearest whole number, halves away from zero; NaN
/// and the infinities stay as they are.
pub fn r_forceint(x: Double) -> (r: Double)
    ensures
        !x.is_finite() ==> r == x,
        x.is_finite() ==> is_rounded(x, r),
{
    x.round()
}

} // verus!
