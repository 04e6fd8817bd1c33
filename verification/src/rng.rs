//! The source of randomness for dungeon generation and spawning: trusted
//! declarations over the terminal library's xorshift random number generator.

use vstd::prelude::*;

verus! {

#[verifier::external_type_specification]
#[verifier::external_body]
pub struct ExRandomNumberGenerator(rltk::RandomNumberGenerator);

/// Relies on rltk's `RandomNumberGenerator::seeded`: builds a generator from
/// a fixed seed.  Nothing is promised of the values it will produce.
#[verifier::external_body]
pub fn rng_seeded(seed: u64) -> rltk::RandomNumberGenerator {
    rltk::RandomNumberGenerator::seeded(seed)
}

/// Relies on rltk's `RandomNumberGenerator::range`: returns a value that is
/// at least `min` and strictly below `max`; requires a non-empty range, on
/// which the underlying uniform sampler would panic.
#[verifier::external_body]
pub fn rng_range(rng: &mut rltk::RandomNumberGenerator, min: i32, max: i32) -> (r: i32)
    requires
        min < max,
    ensures
        min <= r < max,
{
    rng.range(min, max)
}

/// Relies on rltk's `RandomNumberGenerator::roll_dice`: the sum of `n` dice
/// rolls, each between 1 and `die_type` inclusive.
#[verifier::external_body]
pub fn rng_roll_dice(rng: &mut rltk::RandomNumberGenerator, n: i32, die_type: i32) -> (r: i32)
    requires
        1 <= n <= 1000,
        1 <= die_type <= 1000,
    ensures
        n <= r <= n * die_type,
{
    rng.roll_dice(n, die_type)
}

} // verus!
