//! The pseudo-random source of a simulation and the draws made from it.
use vstd::prelude::*;
use rand::Rng;
use rand::SeedableRng;

verus! {

/// The seedable generator that drives every random draw of a run.
#[verifier::external_type_specification]
#[verifier::external_body]
pub struct ExStdRng(rand::rngs::StdRng);

/// Relies on `rand::SeedableRng::seed_from_u64` for `StdRng`: a generator
/// whose stream is fixed by the seed.
#[verifier::external_body]
pub(crate) fn seeded(seed: u64) -> (r: rand::rngs::StdRng) {
    rand::rngs::StdRng::seed_from_u64(seed)
}

/// Relies on `rand_distr::Uniform::new(0, bound)` and its `sample`: an integer
/// in `[0, bound)`; `Uniform::new` panics on an empty range.
#[verifier::external_body]
pub(crate) fn draw_below(rng: &mut rand::rngs::StdRng, bound: usize) -> (r: usize)
    requires
        bound > 0,
    ensures
        r < bound,
{
    rng.sample(rand_distr::Uniform::new(0, bound))
}

/// Relies on `rand::Rng::gen_ratio`: `true` with probability
/// `numerator / denominator`, always `false` for a zero numerator and always
/// `true` when the numerator equals the denominator; it panics on a zero
/// denominator or a numerator above it.
#[verifier::external_body]
pub(crate) fn draw_ratio(rng: &mut rand::rngs::StdRng, numerator: u32, denominator: u32) -> (r: bool)
    requires
        0 < denominator,
        numerator <= denominator,
    ensures
        numerator == 0 ==> !r,
        numerator == denominator ==> r,
{
    rng.gen_ratio(numerator, denominator)
}

} // verus!
