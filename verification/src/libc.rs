//! The absolute value.

use vstd::prelude::*;
use crate::double::{lemma_magnitude_order, Double};

verus! {

/// The absolute value of `x`: the same magnitude, without the sign.
pub fn fabs(x: Double) -> (r: Double)
    ensures
        r == x.abs(),
        r.magnitude() == x.magnitude(),
        !r.sign(),
        r.is_nan() == x.is_nan(),
        !x.is_nan() ==> r.value() >= 0 && (r.value() == x.value() || r.value() == -x.value()),
{
    proof {
        lemma_magnitude_order(x, x.abs());
    }
    x.abs()
}

} // verus!
