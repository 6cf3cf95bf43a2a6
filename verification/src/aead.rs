//! XChaCha20-Poly1305 with a detached tag.
//!
//! Encryption draws a fresh 24-byte nonce and returns it with the
//! ciphertext and the 16-byte tag. Decryption gives the plaintext back, or
//! fails without saying why.

use vstd::prelude::*;
use crate::rng::random_bytes;
use crate::types::{CtBlob, UpspaError, NONCE_LEN};

verus! {

/// `aead::Error`, as `chacha20poly1305` hands it on: a failed decryption,
/// with nothing inside to tell the reason.
#[verifier::external_type_specification]
#[verifier::external_body]
pub struct ExAeadError(chacha20poly1305::aead::Error);

/// The error of a failed decryption.
pub type AeadError = chacha20poly1305::aead::Error;

/// Ciphertext and tag of XChaCha20-Poly1305 for a key, a nonce, associated
/// data and a plaintext.
pub uninterp spec fn xchacha20poly1305_seal(
    key: Seq<u8>,
    nonce: Seq<u8>,
    aad: Seq<u8>,
    plaintext: Seq<u8>,
) -> (Seq<u8>, Seq<u8>);

/// The plaintext that XChaCha20-Poly1305 decrypts a ciphertext and tag to
/// under a key, a nonce and associated data, or `None` where it refuses.
pub uninterp spec fn xchacha20poly1305_open(
    key: Seq<u8>,
    nonce: Seq<u8>,
    aad: Seq<u8>,
    ciphertext: Seq<u8>,
    tag: Seq<u8>,
) -> Option<Seq<u8>>;

/// The longest plaintext that the cipher takes: one byte less than
/// 2^32 - 1 blocks of 64 bytes.
pub open spec fn max_plaintext_len() -> nat {
    274877906879
}

/// Encrypts `plaintext` under a key, a nonce and associated data.
///
/// Calls `AeadInPlace::encrypt_in_place_detached` of
/// `chacha20poly1305::XChaCha20Poly1305`. The contract names ciphertext and
/// tag, which depend on the four arguments alone, and says that decryption
/// under the same key, nonce and associated data gives the plaintext back.
/// It leaves out the plaintexts that the cipher refuses as too long.
#[verifier::external_body]
pub(crate) fn seal<const PT_LEN: usize>(
    key: &[u8; 32],
    nonce: &[u8; 24],
    aad: &[u8],
    plaintext: &[u8; PT_LEN],
) -> (out: ([u8; PT_LEN], [u8; 16]))
    requires
        PT_LEN <= max_plaintext_len(),
    ensures
        (out.0@, out.1@) == xchacha20poly1305_seal(key@, nonce@, aad@, plaintext@),
        xchacha20poly1305_open(key@, nonce@, aad@, out.0@, out.1@) == Some(plaintext@),
{
    let cipher = <chacha20poly1305::XChaCha20Poly1305 as chacha20poly1305::KeyInit>::new(key.into());
    let mut ct = *plaintext;
    let tag = chacha20poly1305::AeadInPlace::encrypt_in_place_detached(
        &cipher,
        nonce.into(),
        aad,
        &mut ct,
    ).unwrap();
    (ct, tag.into())
}

/// Decrypts a ciphertext with its tag under a key, a nonce and associated
/// data.
///
/// Calls `AeadInPlace::decrypt_in_place_detached` of
/// `chacha20poly1305::XChaCha20Poly1305`. The contract names the plaintext
/// and says that the call fails exactly where the cipher refuses.
#[verifier::external_body]
pub(crate) fn open<const PT_LEN: usize>(
    key: &[u8; 32],
    nonce: &[u8; 24],
    aad: &[u8],
    ciphertext: &[u8; PT_LEN],
    tag: &[u8; 16],
) -> (res: Result<[u8; PT_LEN], AeadError>)
    ensures
        match res {
            Ok(pt) => xchacha20poly1305_open(key@, nonce@, aad@, ciphertext@, tag@) == Some(pt@),
            Err(_) => xchacha20poly1305_open(key@, nonce@, aad@, ciphertext@, tag@) is None,
        },
{
    let cipher = <chacha20poly1305::XChaCha20Poly1305 as chacha20poly1305::KeyInit>::new(key.into());
    let mut pt = *ciphertext;
    chacha20poly1305::AeadInPlace::decrypt_in_place_detached(
        &cipher,
        nonce.into(),
        aad,
        &mut pt,
        tag.into(),
    )?;
    Ok(pt)
}

impl From<AeadError> for UpspaError {
    fn from(e: AeadError) -> (out: Self) {
        UpspaError::Aead
    }
}

impl vstd::std_specs::convert::FromSpecImpl<AeadError> for UpspaError {
    open spec fn obeys_from_spec() -> bool {
        true
    }

    open spec fn from_spec(e: AeadError) -> Self {
        UpspaError::Aead
    }
}

impl<const PT_LEN: usize> CtBlob<PT_LEN> {
    /// What the blob decrypts to under `key` and `aad`, or `None` where
    /// decryption fails.
    pub open spec fn opened(self, key: Seq<u8>, aad: Seq<u8>) -> Option<Seq<u8>> {
        xchacha20poly1305_open(key, self.nonce@, aad, self.ct@, self.tag@)
    }

    /// Whether the blob is what encrypting `plaintext` under `key`, `aad` and
    /// the blob's own nonce gives. Such a blob decrypts to `plaintext`.
    pub open spec fn seals(self, key: Seq<u8>, aad: Seq<u8>, plaintext: Seq<u8>) -> bool {
        &&& (self.ct@, self.tag@) == xchacha20poly1305_seal(key, self.nonce@, aad, plaintext)
        &&& self.opened(key, aad) == Some(plaintext)
    }
}

/// Encrypts `plaintext` under `key` and `aad` with the given nonce.
pub fn xchacha_encrypt_with_nonce<const PT_LEN: usize>(
    key: &[u8; 32],
    aad: &[u8],
    plaintext: &[u8; PT_LEN],
    nonce: [u8; NONCE_LEN],
) -> (blob: CtBlob<PT_LEN>)
    requires
        PT_LEN <= max_plaintext_len(),
    ensures
        blob.nonce == nonce,
        blob.seals(key@, aad@, plaintext@),
{
    let (ct, tag) = seal::<PT_LEN>(key, &nonce, aad, plaintext);
    CtBlob { nonce, ct, tag }
}

/// Encrypts `plaintext` under `key` and `aad` with a nonce drawn from `rng`.
///
/// Whatever nonce is drawn, the blob decrypts to `plaintext` under the same
/// key and associated data.
pub fn xchacha_encrypt_detached<const PT_LEN: usize>(
    key: &[u8; 32],
    aad: &[u8],
    plaintext: &[u8; PT_LEN],
    rng: &mut rand_chacha::ChaCha20Rng,
) -> (blob: CtBlob<PT_LEN>)
    requires
        PT_LEN <= max_plaintext_len(),
    ensures
        blob.seals(key@, aad@, plaintext@),
{
    let nonce = random_bytes::<NONCE_LEN>(rng);
    xchacha_encrypt_with_nonce(key, aad, plaintext, nonce)
}

/// Decrypts `blob` under `key` and `aad`.
pub fn xchacha_decrypt_detached<const PT_LEN: usize>(
    key: &[u8; 32],
    aad: &[u8],
    blob: &CtBlob<PT_LEN>,
) -> (res: Result<[u8; PT_LEN], AeadError>)
    ensures
        match res {
            Ok(pt) => blob.opened(key@, aad@) == Some(pt@),
            Err(_) => blob.opened(key@, aad@) is None,
        },
{
    open::<PT_LEN>(key, &blob.nonce, aad, &blob.ct, &blob.tag)
}

} // verus!
