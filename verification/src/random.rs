use vstd::prelude::*;

use bracket_lib::prelude::RandomNumberGenerator;

verus! {

#[verifier::external_type_specification]
#[verifier::external_body]
pub struct ExRandomNumberGenerator(RandomNumberGenerator);

/// Calls `RandomNumberGenerator::new`, which seeds a generator from the operating system's
/// entropy (or the clock). Nothing is claimed of the generator it returns.
#[verifier::external_body]
pub(crate) fn new_rng() -> (rng: RandomNumberGenerator) {
    RandomNumberGenerator::new()
}

/// Calls `RandomNumberGenerator::range`, which draws from the half-open range `min..max`
/// (it hands the range to `rand`'s `gen_range`, which panics on an empty range). Claimed:
/// the result lies in `min..max`; which value comes out is left open.
#[verifier::external_body]
pub(crate) fn rng_range(rng: &mut RandomNumberGenerator, min: i32, max: i32) -> (r: i32)
    requires
        min < max,
    ensures
        min <= r < max,
{
    rng.range(min, max)
}

/// Calls `RandomNumberGenerator::roll_dice`, which sums `n` draws from `1..die_type + 1`.
/// Claimed: the sum lies between `n` and `n * die_type`; which value comes out is left open.
/// The arguments are held where neither a draw's range nor the sum can overflow.
#[verifier::external_body]
pub(crate) fn roll_dice(rng: &mut RandomNumberGenerator, n: i32, die_type: i32) -> (r: i32)
    requires
        0 <= n,
        1 <= die_type < i32::MAX,
        n * die_type <= i32::MAX,
    ensures
        n <= r <= n * die_type,
{
    rng.roll_dice(n, die_type)
}

} // verus!
