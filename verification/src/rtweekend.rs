//! Small helpers shared by the whole renderer.
use crate::scalar::Scalar;
use rand::rngs::StdRng;
use rand::Rng;
use vstd::prelude::*;

verus! {

/// The seedable generator of the `rand` crate. Its state is opaque here.
#[verifier::external_type_specification]
#[verifier::external_body]
pub struct ExStdRng(StdRng);

/// Draws an integer with `Rng::gen_range` on the half-open range
/// `start..end`. The call panics on an empty range, so the range must hold a
/// value; the value drawn lies in the range. Nothing else is known of it.
#[verifier::external_body]
pub fn random(rng: &mut StdRng, start: i32, end: i32) -> (r: i32)
    requires
        start < end,
    ensures
        start <= r < end,
{
    rng.gen_range(start..end)
}

/// What `clamp` returns: `min` where `x` is below it, else `max` where `x`
/// is above it, else `x` itself (a NaN is neither below nor above).
pub open spec fn clamped(x: Scalar, min: Scalar, max: Scalar) -> Scalar {
    if x.less(min) {
        min
    } else if max.less(x) {
        max
    } else {
        x
    }
}

/// Brings `x` into the interval from `min` to `max`.
pub fn clamp(x: Scalar, min: Scalar, max: Scalar) -> (r: Scalar)
    ensures
        r == clamped(x, min, max),
{
    if x.lt(min) {
        min
    } else if x.gt(max) {
        max
    } else {
        x
    }
}

/// A clamped number lies in the interval, and a number already inside is
/// left as it is.
pub proof fn lemma_clamped_in_interval(x: Scalar, min: Scalar, max: Scalar)
    requires
        !x.nan(),
        min.less_eq(max),
    ensures
        min.less_eq(clamped(x, min, max)),
        clamped(x, min, max).less_eq(max),
        min.less_eq(x) && x.less_eq(max) ==> clamped(x, min, max) == x,
{
}

} // verus!
