use vstd::prelude::*;

verus! {

/// The ChaCha20-based deterministic random generator of rand_chacha, passed
/// into sharding calls as an explicit dependency so runs are reproducible.
#[verifier::external_type_specification]
#[verifier::external_body]
pub struct ExChaCha20Rng(rand_chacha::ChaCha20Rng);

/// Relies on rand_chacha's `ChaCha20Rng` (`SeedableRng::seed_from_u64`): a
/// generator built from the given seed. Nothing is promised of its stream.
#[verifier::external_body]
pub fn rng_from_seed(seed: u64) -> (r: rand_chacha::ChaCha20Rng) {
    <rand_chacha::ChaCha20Rng as rand_chacha::rand_core::SeedableRng>::seed_from_u64(seed)
}

/// Relies on rand_chacha's `ChaCha20Rng` (`RngCore::next_u64`): the
/// generator's next 64-bit output. Nothing is promised of the value.
#[verifier::external_body]
pub fn rng_next_u64(rng: &mut rand_chacha::ChaCha20Rng) -> (r: u64) {
    rand_chacha::rand_core::RngCore::next_u64(rng)
}

/// Draws a value below `bound` by reduction; every outcome lies below the
/// bound, whatever the generator returned.
pub fn draw_below(rng: &mut rand_chacha::ChaCha20Rng, bound: u64) -> (r: u64)
    requires
        bound >= 1,
    ensures
        r < bound,
{
    let v = rng_next_u64(rng);
    v % bound
}

} // verus!
