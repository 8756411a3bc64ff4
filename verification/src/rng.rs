//! The randomness source: a seeded ChaCha20 generator.

use rand::Rng;
use vstd::prelude::*;

verus! {

/// The ChaCha20 generator, carried opaquely.
#[verifier::external_type_specification]
#[verifier::external_body]
pub struct ExChaCha20Rng(rand_chacha::ChaCha20Rng);

/// `rand::Rng::gen_range(0..n)`: an integer below `n` (an empty range
/// panics, hence `n > 0`). Which integer is drawn is left open.
#[verifier::external_body]
pub(crate) fn sample_below(rng: &mut rand_chacha::ChaCha20Rng, n: u64) -> (r: u64)
    requires
        n > 0,
    ensures
        r < n,
{
    rng.gen_range(0..n)
}

} // verus!
