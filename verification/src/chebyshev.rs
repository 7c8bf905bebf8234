//! The rules on the arguments of a Chebyshev series.

use vstd::prelude::*;
use vstd::arithmetic::power2::lemma2_to64_rest;
use crate::double::{double, is_nearest, lemma_nearest_below, Double, NAN_BITS};

verus! {

/// The pattern of 1.1.
pub const SERIES_RANGE_BITS: u64 = 0x3ff1_9999_9999_999a;

/// A series of `n` terms cannot be evaluated at `x`: `n` is outside 1
/// to 1000, or `x` is outside `[-1.1, 1.1]`.
pub open spec fn chebyshev_undefined(x: Double, n: int) -> bool {
    ||| n < 1
    ||| n > 1000
    ||| x.lt(double(SERIES_RANGE_BITS).neg())
    ||| x.gt(double(SERIES_RANGE_BITS))
}

/// The rules on the arguments of the evaluation of a Chebyshev series:
/// `Some(NaN)` where they are broken, `None` where the series is to be
/// summed.
pub fn chebyshev_eval_special(x: Double, n: i32) -> (r: Option<Double>)
    ensures
        chebyshev_undefined(x, n as int) ==> r == Some(double(NAN_BITS)),
        !chebyshev_undefined(x, n as int) ==> r.is_none(),
{
    if n < 1 || n > 1000 {
        return Some(Double::from_bits(NAN_BITS));
    }
    let limit = Double::from_bits(SERIES_RANGE_BITS);
    if x.lt(limit.neg()) || x.gt(limit) {
        return Some(Double::from_bits(NAN_BITS));
    }
    None
}

/// The end of the range is the double nearest to 1.1.
pub proof fn lemma_thresholds()
    ensures
        is_nearest(double(SERIES_RANGE_BITS), 11, 10),
{
    assert(is_nearest(double(SERIES_RANGE_BITS), 11, 10)) by {
        lemma2_to64_rest();
        assert(double(SERIES_RANGE_BITS).exponent() == 1023);
        assert(double(SERIES_RANGE_BITS).fraction() == 0x1_9999_9999_999a);
        lemma_nearest_below(double(SERIES_RANGE_BITS), 11, 10, 52, 0x10_0000_0000_0000);
    }
}

} // verus!
