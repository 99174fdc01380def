//! The uniform-integer source a solve consumes: a seedable xorshift
//! generator, reached through trusted wrappers. Nothing is promised of a
//! drawn value beyond its range; the solver states what holds whatever
//! comes back.

use vstd::prelude::*;

verus! {

#[verifier::external_type_specification]
#[verifier::external_body]
pub struct ExXorShiftRng(rand_xorshift::XorShiftRng);

/// Relies on rand_xorshift's `SeedableRng::seed_from_u64`: builds a
/// generator from a 64-bit seed. Nothing about its state is promised.
#[verifier::external_body]
pub fn rng_from_u64_seed(seed: u64) -> rand_xorshift::XorShiftRng {
    <rand_xorshift::XorShiftRng as rand::SeedableRng>::seed_from_u64(seed)
}

/// Relies on rand_core's `Rng::next_u32`: draws one uniform 32-bit value.
#[verifier::external_body]
pub fn rng_next_u32(rng: &mut rand_xorshift::XorShiftRng) -> u32 {
    rand::Rng::next_u32(rng)
}

/// Relies on rand's `RngExt::random_range` over `0..bound`: the documentation
/// promises a uniform value within the (nonempty) range.
#[verifier::external_body]
pub fn rng_below(rng: &mut rand_xorshift::XorShiftRng, bound: u32) -> (r: u32)
    requires
        bound >= 1,
    ensures
        r < bound,
{
    rand::RngExt::random_range(rng, 0..bound)
}

} // verus!
