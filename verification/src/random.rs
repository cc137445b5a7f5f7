use vstd::prelude::*;
use rand::Rng;
use rand::rngs::StdRng;

verus! {

/// The standard generator of the `rand` crate. A draw is a computation on the
/// state of the generator alone: it reads no clock and no operating system,
/// and it does not fail. Nothing is known of that state here, so every draw
/// may give any value that the drawing function allows.
#[verifier::external_type_specification]
#[verifier::external_body]
pub struct ExStdRng(rand::rngs::StdRng);

/// Draws a number with `rand::Rng::random_range` on the half-open range
/// `low..high`. That function panics on an empty range, which the
/// precondition rules out. Assumed, not proved: the number lies in the range.
#[verifier::external_body]
pub(crate) fn random_in_range(rng: &mut StdRng, low: usize, high: usize) -> (r: usize)
    requires
        low < high,
    ensures
        low <= r < high,
{
    rng.random_range(low..high)
}

/// Draws a truth value with `rand::Rng::random_ratio`, which is true with a
/// chance of `numerator` in `denominator`. That function panics on a zero
/// denominator and on a chance above one, which the precondition rules out.
/// Assumed, not proved: a chance of one always gives true, and a chance of
/// zero always gives false.
#[verifier::external_body]
pub(crate) fn random_ratio(rng: &mut StdRng, numerator: u32, denominator: u32) -> (hit: bool)
    requires
        0 < denominator,
        numerator <= denominator,
    ensures
        numerator == denominator ==> hit,
        numerator == 0 ==> !hit,
{
    rng.random_ratio(numerator, denominator)
}

} // verus!
