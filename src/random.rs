use vstd::prelude::*;
use rand::Rng;
use rand::rngs::StdRng;

verus! {

/// The random source handed to every randomized step.
#[verifier::external_type_specification]
#[verifier::external_body]
pub struct ExStdRng(StdRng);

/// Relies on rand's `Rng::random_range` on an inclusive range: the value lies
/// in `lo..=hi` (it panics only on an empty range, excluded here).
#[verifier::external_body]
pub(crate) fn random_in(rng: &mut StdRng, lo: i32, hi: i32) -> (r: i32)
    requires
        lo <= hi,
    ensures
        lo <= r <= hi,
{
    rng.random_range(lo..=hi)
}

/// A roll in `0..CHANCE_SCALE`, which succeeds with probability `chance / CHANCE_SCALE`
/// when compared with `roll < chance`.
pub fn roll(rng: &mut StdRng) -> (r: i32)
    ensures
        0 <= r < crate::constants::CHANCE_SCALE,
{
    random_in(rng, 0, crate::constants::CHANCE_SCALE - 1)
}

} // verus!
