//! Ed25519 signatures with detached 64-byte signatures.
//!
//! A signing key is its 32-byte seed, from which `ed25519-dalek` expands the
//! key pair whenever one is needed.

use vstd::prelude::*;
use crate::types::UpspaError;

verus! {

/// Length of an Ed25519 verifying key in bytes.
pub const ED25519_PK_LEN: usize = 32;

/// Length of an Ed25519 signature in bytes.
pub const ED25519_SIG_LEN: usize = 64;

/// The verifying key that belongs to the signing key with the given seed.
pub uninterp spec fn ed25519_public_key(seed: Seq<u8>) -> Seq<u8>;

/// The signature of `msg` under the signing key with the given seed.
pub uninterp spec fn ed25519_signature(seed: Seq<u8>, msg: Seq<u8>) -> Seq<u8>;

/// Whether `sig` is accepted as a signature of `msg` under the verifying key
/// `pk`; a key that does not parse accepts nothing.
pub uninterp spec fn ed25519_verifies(pk: Seq<u8>, msg: Seq<u8>, sig: Seq<u8>) -> bool;

/// An Ed25519 signing key, held as its 32-byte seed.
#[derive(Clone, Debug)]
pub struct SigningKey {
    pub seed: [u8; 32],
}

impl View for SigningKey {
    type V = Seq<u8>;

    open spec fn view(&self) -> Seq<u8> {
        self.seed@
    }
}

/// Draws the seed of a fresh signing key.
///
/// Calls `SigningKey::generate` of `ed25519-dalek`, which fills 32 bytes
/// from the generator, and returns the key's bytes. Nothing is claimed of
/// them.
#[verifier::external_body]
pub(crate) fn generate_seed(rng: &mut rand_chacha::ChaCha20Rng) -> (seed: [u8; 32]) {
    ed25519_dalek::SigningKey::generate(rng).to_bytes()
}

/// The verifying key of a seed.
///
/// Calls `SigningKey::from_bytes` and `verifying_key` of `ed25519-dalek`.
/// The contract names the key: it depends on the seed alone.
#[verifier::external_body]
pub(crate) fn public_key_of(seed: &[u8; 32]) -> (pk: [u8; 32])
    ensures
        pk@ == ed25519_public_key(seed@),
{
    ed25519_dalek::SigningKey::from_bytes(seed).verifying_key().to_bytes()
}

/// Signs a message with the key of a seed.
///
/// Calls `SigningKey::from_bytes` and `Signer::sign` of `ed25519-dalek`.
/// Ed25519 signing is deterministic, so the contract names the signature;
/// it adds that the signature verifies under the seed's verifying key.
#[verifier::external_body]
pub(crate) fn sign_with_seed(seed: &[u8; 32], msg: &[u8]) -> (sig: [u8; 64])
    ensures
        sig@ == ed25519_signature(seed@, msg@),
        ed25519_verifies(ed25519_public_key(seed@), msg@, sig@),
{
    let key = ed25519_dalek::SigningKey::from_bytes(seed);
    ed25519_dalek::Signer::sign(&key, msg).to_bytes()
}

/// Checks a signature against a verifying key given by its bytes.
///
/// Calls `VerifyingKey::from_bytes` and `Verifier::verify` of
/// `ed25519-dalek`. The contract names the outcome; it is `false` both where
/// the key does not parse and where the signature is rejected.
#[verifier::external_body]
pub(crate) fn verify_with_key(pk: &[u8; 32], msg: &[u8], sig: &[u8; 64]) -> (ok: bool)
    ensures
        ok == ed25519_verifies(pk@, msg@, sig@),
{
    match ed25519_dalek::VerifyingKey::from_bytes(pk) {
        Ok(key) => ed25519_dalek::Verifier::verify(
            &key,
            msg,
            &ed25519_dalek::Signature::from_bytes(sig),
        ).is_ok(),
        Err(_) => false,
    }
}

impl SigningKey {
    /// The seed of the key.
    pub fn to_bytes(&self) -> (seed: [u8; 32])
        ensures
            seed@ == self@,
    {
        self.seed
    }

    /// The bytes of the verifying key that belongs to this key.
    pub fn verifying_key(&self) -> (pk: [u8; ED25519_PK_LEN])
        ensures
            pk@ == ed25519_public_key(self@),
    {
        public_key_of(&self.seed)
    }
}

/// Signs `msg`; the signature verifies under the key's verifying key.
pub fn sign_detached(signing_key: &SigningKey, msg: &[u8]) -> (sig: [u8; ED25519_SIG_LEN])
    ensures
        sig@ == ed25519_signature(signing_key@, msg@),
        ed25519_verifies(ed25519_public_key(signing_key@), msg@, sig@),
{
    sign_with_seed(&signing_key.seed, msg)
}

/// Checks `sig_bytes` as a signature of `msg` under the given verifying key.
/// A key that does not parse and a signature that does not verify give the
/// same error.
pub fn verify_detached(
    verifying_key_bytes: &[u8; ED25519_PK_LEN],
    msg: &[u8],
    sig_bytes: &[u8; ED25519_SIG_LEN],
) -> (res: Result<(), UpspaError>)
    ensures
        res is Ok <==> ed25519_verifies(verifying_key_bytes@, msg@, sig_bytes@),
        res matches Err(e) ==> e == UpspaError::Signature,
{
    if verify_with_key(verifying_key_bytes, msg, sig_bytes) {
        Ok(())
    } else {
        Err(UpspaError::Signature)
    }
}

/// The signing key with the given seed.
pub fn signing_key_from_bytes(bytes: &[u8; 32]) -> (key: SigningKey)
    ensures
        key@ == bytes@,
{
    SigningKey { seed: *bytes }
}

} // verus!
