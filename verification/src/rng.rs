//! The random choices the game makes. Every function here draws from the
//! thread-local generator of the `rand` crate; callers learn only the range
//! that the drawn value lies in.
use vstd::prelude::*;

verus! {

/// Draws a value with `rand::random_range(0..n)`.
/// Claimed of `rand::random_range`: the value lies in `0..n` (it panics on an
/// empty range, which `n > 0` rules out). Which value comes out is not stated:
/// it depends on the generator's state.
#[verifier::external_body]
pub(crate) fn random_below(n: usize) -> (r: usize)
    requires
        n > 0,
    ensures
        r < n,
{
    rand::random_range(0..n)
}

/// Draws a boolean with `rand::random_ratio(numerator, denominator)`.
/// Claimed of `rand::random_ratio`: it is `true` with probability
/// `numerator / denominator`, always `true` when the two are equal and always
/// `false` when the numerator is 0 (it panics when the denominator is 0 or
/// smaller than the numerator, which `requires` rules out). Any other outcome
/// depends on the generator's state and is not stated.
#[verifier::external_body]
pub(crate) fn random_ratio(numerator: u32, denominator: u32) -> (r: bool)
    requires
        0 < denominator,
        numerator <= denominator,
    ensures
        numerator == 0 ==> !r,
        numerator == denominator ==> r,
{
    rand::random_ratio(numerator, denominator)
}

} // verus!
