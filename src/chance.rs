use vstd::prelude::*;
use rand::Rng;

verus! {

/// Relies on `rand::Rng::gen_ratio` on the thread-local generator: `true`
/// with probability `numerator / denominator`; it panics when
/// `denominator` is zero or below `numerator`, always returns `true` when the
/// two are equal and always `false` when `numerator` is zero.
#[verifier::external_body]
pub(crate) fn chance(numerator: u32, denominator: u32) -> (r: bool)
    requires
        0 < denominator,
        numerator <= denominator,
    ensures
        numerator == denominator ==> r,
        numerator == 0 ==> !r,
{
    rand::thread_rng().gen_ratio(numerator, denominator)
}

/// Relies on `rand::Rng::gen_range` over `0..=max` on the thread-local
/// generator: a value drawn from the closed range, which is never empty.
#[verifier::external_body]
pub(crate) fn pick_up_to(max: usize) -> (r: usize)
    ensures
        r <= max,
{
    rand::thread_rng().gen_range(0..=max)
}

} // verus!
