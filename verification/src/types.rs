//! Cipher blobs, their wire and text forms, and the error type.

use vstd::prelude::*;
use crate::bytes::{append_bytes, array_from_slice, subarray};

verus! {

/// Number of bytes in an XChaCha20 nonce.
pub const NONCE_LEN: usize = 24;

/// Number of bytes in a Poly1305 authentication tag.
pub const TAG_LEN: usize = 16;

/// `base64::DecodeError`: why a text was rejected. The library carries it
/// in [`UpspaError::Base64`] and never looks inside.
#[verifier::external_type_specification]
#[verifier::external_body]
pub struct ExDecodeError(base64::DecodeError);

/// `Clone` for `base64::DecodeError`, which the derived `Clone` of
/// [`UpspaError`] calls. Nothing is claimed of the copy.
pub assume_specification[ <base64::DecodeError as Clone>::clone ](
    e: &base64::DecodeError,
) -> (out: base64::DecodeError)
;

/// The text that `base64`'s `URL_SAFE_NO_PAD` engine encodes `bytes` to:
/// base64 with the URL-safe alphabet and no padding.
pub uninterp spec fn base64url_encoding(bytes: Seq<u8>) -> Seq<char>;

/// What `base64`'s `URL_SAFE_NO_PAD` engine decodes `text` to, or `None`
/// where it rejects the text.
pub uninterp spec fn base64url_decoding(text: Seq<char>) -> Option<Seq<u8>>;

/// A ciphertext with detached tag: `nonce ‖ ct ‖ tag` on the wire.
#[derive(Clone, Debug, PartialEq, Eq)]
pub struct CtBlob<const PT_LEN: usize> {
    pub nonce: [u8; NONCE_LEN],
    pub ct: [u8; PT_LEN],
    pub tag: [u8; TAG_LEN],
}

/// A cipher blob with each part as base64url text without padding.
#[derive(Clone, Debug, PartialEq, Eq)]
pub struct CtBlobB64 {
    pub nonce: String,
    pub ct: String,
    pub tag: String,
}

/// Why a byte string is no cipher blob.
#[derive(Clone, Debug, PartialEq, Eq)]
pub enum CtBlobParseError {
    InvalidLength { expected: usize, got: usize },
}

/// The errors of the library.
#[derive(Clone, Debug)]
pub enum UpspaError {
    /// A byte string has the wrong length.
    InvalidLength { expected: usize, got: usize },
    /// A text is not base64url without padding.
    Base64(base64::DecodeError),
    /// 32 bytes that encode no Ristretto point.
    InvalidRistrettoPoint,
    /// 32 bytes that are no canonical scalar.
    InvalidScalar,
    /// Decryption failed; the reason is not told apart.
    Aead,
    /// A signature or a verifying key was rejected.
    Signature,
}

impl From<base64::DecodeError> for UpspaError {
    fn from(e: base64::DecodeError) -> (out: Self) {
        UpspaError::Base64(e)
    }
}

impl vstd::std_specs::convert::FromSpecImpl<base64::DecodeError> for UpspaError {
    open spec fn obeys_from_spec() -> bool {
        true
    }

    open spec fn from_spec(e: base64::DecodeError) -> Self {
        UpspaError::Base64(e)
    }
}

/// Encodes `bytes` as base64url without padding.
///
/// Calls `Engine::encode` of `base64::engine::general_purpose::URL_SAFE_NO_PAD`.
/// The contract names the text that comes back and leaves out the inputs so
/// long that the engine's size computation overflows, on which it panics.
#[verifier::external_body]
pub fn b64_encode(bytes: &[u8]) -> (out: String)
    requires
        bytes@.len() / 3 * 4 + 3 <= usize::MAX,
    ensures
        out@ == base64url_encoding(bytes@),
{
    base64::Engine::encode(&base64::engine::general_purpose::URL_SAFE_NO_PAD, bytes)
}

/// Decodes base64url text without padding.
///
/// Calls `Engine::decode` of `base64::engine::general_purpose::URL_SAFE_NO_PAD`.
/// The contract names the bytes that come back, and says that the call fails
/// exactly where the engine rejects the text.
#[verifier::external_body]
pub fn b64_decode(s: &str) -> (res: Result<Vec<u8>, base64::DecodeError>)
    ensures
        match res {
            Ok(v) => base64url_decoding(s@) == Some(v@),
            Err(_) => base64url_decoding(s@) is None,
        },
{
    base64::Engine::decode(&base64::engine::general_purpose::URL_SAFE_NO_PAD, s)
}

/// Whether `text` decodes to exactly `n` bytes.
pub open spec fn decodes_exactly(text: Seq<char>, n: nat) -> bool {
    base64url_decoding(text) matches Some(v) && v.len() == n
}

/// The error that a text earns which does not decode to exactly `n` bytes:
/// `Base64` where the text is rejected, `InvalidLength` with both lengths
/// where it decodes to another number of bytes.
pub open spec fn is_decode_error(text: Seq<char>, n: nat, e: UpspaError) -> bool {
    match base64url_decoding(text) {
        None => e is Base64,
        Some(v) => v.len() != n && e == (UpspaError::InvalidLength {
            expected: n as usize,
            got: v.len() as usize,
        }),
    }
}

/// What [`b64_decode_array`] owes for a text and a length `n`.
pub open spec fn decodes_to_array(text: Seq<char>, n: nat, res: Result<Seq<u8>, UpspaError>) -> bool {
    match res {
        Ok(v) => decodes_exactly(text, n) && base64url_decoding(text) == Some(v),
        Err(e) => !decodes_exactly(text, n) && is_decode_error(text, n, e),
    }
}

/// The sequence view of a decoding result.
pub open spec fn array_result<const N: usize>(res: Result<[u8; N], UpspaError>) -> Result<
    Seq<u8>,
    UpspaError,
> {
    match res {
        Ok(a) => Ok(a@),
        Err(e) => Err(e),
    }
}

/// Decodes base64url text that must hold exactly `N` bytes.
pub fn b64_decode_array<const N: usize>(s: &str) -> (res: Result<[u8; N], UpspaError>)
    ensures
        decodes_to_array(s@, N as nat, array_result(res)),
{
    match b64_decode(s) {
        Err(e) => Err(UpspaError::from(e)),
        Ok(v) => {
            if v.len() != N {
                return Err(UpspaError::InvalidLength { expected: N, got: v.len() });
            }
            Ok(array_from_slice::<N>(v.as_slice()))
        },
    }
}

impl<const PT_LEN: usize> CtBlob<PT_LEN> {
    /// The bytes of the blob on the wire: nonce, ciphertext, tag.
    pub open spec fn wire(self) -> Seq<u8> {
        self.nonce@ + self.ct@ + self.tag@
    }

    /// The wire form determines the blob: two blobs with the same bytes on
    /// the wire are the same blob.
    pub proof fn lemma_wire_determines_blob(self, other: Self)
        requires
            self.wire() == other.wire(),
        ensures
            self == other,
    {
        let w = self.wire();
        let v = other.wire();
        assert(self.nonce@ =~= w.subrange(0, NONCE_LEN as int));
        assert(other.nonce@ =~= v.subrange(0, NONCE_LEN as int));
        assert(self.ct@ =~= w.subrange(NONCE_LEN as int, NONCE_LEN + PT_LEN));
        assert(other.ct@ =~= v.subrange(NONCE_LEN as int, NONCE_LEN + PT_LEN));
        assert(self.tag@ =~= w.subrange(NONCE_LEN + PT_LEN, NONCE_LEN + PT_LEN + TAG_LEN));
        assert(other.tag@ =~= v.subrange(NONCE_LEN + PT_LEN, NONCE_LEN + PT_LEN + TAG_LEN));
        assert(self.nonce =~= other.nonce);
        assert(self.ct =~= other.ct);
        assert(self.tag =~= other.tag);
    }

    /// Length of the wire form: 24 + `PT_LEN` + 16.
    pub open spec fn spec_wire_len() -> nat {
        (NONCE_LEN + PT_LEN + TAG_LEN) as nat
    }

    /// Length of the wire form in bytes.
    pub fn wire_len() -> (n: usize)
        requires
            Self::spec_wire_len() <= usize::MAX,
        ensures
            n == Self::spec_wire_len(),
    {
        NONCE_LEN + PT_LEN + TAG_LEN
    }

    /// Serialises the blob as `nonce ‖ ct ‖ tag`.
    pub fn to_vec(&self) -> (v: Vec<u8>)
        ensures
            v@ == self.wire(),
            v@.len() == Self::spec_wire_len(),
    {
        let mut v = Vec::new();
        append_bytes(&mut v, self.nonce.as_slice());
        append_bytes(&mut v, self.ct.as_slice());
        append_bytes(&mut v, self.tag.as_slice());
        v
    }

    /// Parses `nonce ‖ ct ‖ tag`; any other length than the wire length is
    /// rejected.
    pub fn from_slice(input: &[u8]) -> (res: Result<Self, CtBlobParseError>)
        requires
            Self::spec_wire_len() <= usize::MAX,
        ensures
            match res {
                Ok(blob) => blob.wire() == input@,
                Err(e) => input@.len() != Self::spec_wire_len() && e == (
                CtBlobParseError::InvalidLength {
                    expected: Self::spec_wire_len() as usize,
                    got: input@.len() as usize,
                }),
            },
            res is Ok <==> input@.len() == Self::spec_wire_len(),
    {
        let wire_len = Self::wire_len();
        if input.len() != wire_len {
            return Err(CtBlobParseError::InvalidLength { expected: wire_len, got: input.len() });
        }
        let nonce = subarray::<NONCE_LEN>(input, 0);
        let ct = subarray::<PT_LEN>(input, NONCE_LEN);
        let tag = subarray::<TAG_LEN>(input, NONCE_LEN + PT_LEN);
        let blob = CtBlob { nonce, ct, tag };
        assert(blob.wire() =~= input@);
        Ok(blob)
    }

    /// The text form that [`CtBlob::to_b64`] gives.
    pub open spec fn spec_b64(self, text: CtBlobB64) -> bool {
        &&& text.nonce@ == base64url_encoding(self.nonce@)
        &&& text.ct@ == base64url_encoding(self.ct@)
        &&& text.tag@ == base64url_encoding(self.tag@)
    }

    /// Encodes each part as base64url without padding.
    pub fn to_b64(&self) -> (text: CtBlobB64)
        requires
            PT_LEN / 3 * 4 + 3 <= usize::MAX,
        ensures
            self.spec_b64(text),
    {
        CtBlobB64 {
            nonce: b64_encode(self.nonce.as_slice()),
            ct: b64_encode(self.ct.as_slice()),
            tag: b64_encode(self.tag.as_slice()),
        }
    }

    /// What [`CtBlob::from_b64`] owes: the three parts are decoded in the
    /// order nonce, ciphertext, tag, and the first that fails decides the
    /// error.
    pub open spec fn spec_from_b64(b64: CtBlobB64, res: Result<Self, UpspaError>) -> bool {
        if !decodes_exactly(b64.nonce@, NONCE_LEN as nat) {
            res matches Err(e) && is_decode_error(b64.nonce@, NONCE_LEN as nat, e)
        } else if !decodes_exactly(b64.ct@, PT_LEN as nat) {
            res matches Err(e) && is_decode_error(b64.ct@, PT_LEN as nat, e)
        } else if !decodes_exactly(b64.tag@, TAG_LEN as nat) {
            res matches Err(e) && is_decode_error(b64.tag@, TAG_LEN as nat, e)
        } else {
            res matches Ok(blob) && base64url_decoding(b64.nonce@) == Some(blob.nonce@)
                && base64url_decoding(b64.ct@) == Some(blob.ct@) && base64url_decoding(b64.tag@)
                == Some(blob.tag@)
        }
    }

    /// Decodes the three parts of a text form.
    pub fn from_b64(b64: &CtBlobB64) -> (res: Result<Self, UpspaError>)
        ensures
            Self::spec_from_b64(*b64, res),
    {
        let nonce = match b64_decode_array::<NONCE_LEN>(b64.nonce.as_str()) {
            Ok(a) => a,
            Err(e) => { return Err(e); },
        };
        let ct = match b64_decode_array::<PT_LEN>(b64.ct.as_str()) {
            Ok(a) => a,
            Err(e) => { return Err(e); },
        };
        let tag = match b64_decode_array::<TAG_LEN>(b64.tag.as_str()) {
            Ok(a) => a,
            Err(e) => { return Err(e); },
        };
        Ok(CtBlob { nonce, ct, tag })
    }
}

} // verus!
