//! The seeded random source shared by generation, perception and combat.

use vstd::prelude::*;

verus! {

#[verifier::external_type_specification]
#[verifier::external_body]
pub struct ExRandomNumberGenerator(rltk::RandomNumberGenerator);

/// `RandomNumberGenerator::roll_dice`: the sum of `n` draws, each from one to
/// `die`. Nothing is drawn and the sum is zero when `n` is not positive.
/// Which sum comes back depends on the generator's state, so only its bounds
/// are stated.
#[verifier::external_body]
pub(crate) fn roll_dice(rng: &mut rltk::RandomNumberGenerator, n: i32, die: i32) -> (r: i32)
    requires
        n <= 0 || (1 <= die < i32::MAX && n * die <= i32::MAX),
    ensures
        n <= 0 ==> r == 0,
        n >= 1 ==> n <= r <= n * die,
{
    rng.roll_dice(n, die)
}

/// `RandomNumberGenerator::range` on `i32`: a draw that is at least `min` and
/// below `max`. Which value comes back depends on the generator's state, so
/// only its bounds are stated.
#[verifier::external_body]
pub(crate) fn range(rng: &mut rltk::RandomNumberGenerator, min: i32, max: i32) -> (r: i32)
    requires
        min < max,
    ensures
        min <= r < max,
{
    rng.range(min, max)
}

} // verus!
