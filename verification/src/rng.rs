//! The source of randomness that the flows draw from.
//!
//! The library takes a `ChaCha20Rng`: a caller seeds it from the operating
//! system in production and from a fixed seed in tests. Nothing is known of a
//! draw but its length, so every function that draws states what holds
//! whatever came back.

use vstd::prelude::*;

verus! {

/// `rand_chacha::ChaCha20Rng`: the generator's state, which the library
/// hands on to each draw and never looks inside.
#[verifier::external_type_specification]
#[verifier::external_body]
pub struct ExChaCha20Rng(rand_chacha::ChaCha20Rng);

/// Draws `N` bytes from the generator.
///
/// Calls `rand_core::RngCore::fill_bytes` on a zeroed buffer of `N` bytes.
/// The contract claims nothing of the bytes: they depend on the generator's
/// state, which Verus does not see.
#[verifier::external_body]
pub(crate) fn random_bytes<const N: usize>(rng: &mut rand_chacha::ChaCha20Rng) -> (out: [u8; N]) {
    let mut out = [0u8; N];
    rand_core::RngCore::fill_bytes(rng, &mut out);
    out
}

} // verus!
