//! Points of the Ristretto255 group.
//!
//! A [`Point`] holds the canonical 32-byte encoding of a group element. The
//! group law is `curve25519-dalek`'s: what an operation returns is a function
//! of the encodings and values that go in, and the contracts give each such
//! function a name.

use vstd::prelude::*;
use crate::scalar::Scalar;

verus! {

/// Whether 32 bytes are the canonical encoding of a Ristretto point.
pub uninterp spec fn ristretto_decodes(bytes: Seq<u8>) -> bool;

/// The encoding of the point that 64 uniform bytes are mapped to.
pub uninterp spec fn ristretto_from_uniform(wide: Seq<u8>) -> Seq<u8>;

/// The encoding of `scalar` times the point that `point` encodes.
pub uninterp spec fn ristretto_mul(point: Seq<u8>, scalar: nat) -> Seq<u8>;

/// The encoding of the sum of the points that `a` and `b` encode.
pub uninterp spec fn ristretto_add(a: Seq<u8>, b: Seq<u8>) -> Seq<u8>;

/// The encoding of the neutral element: 32 zero bytes.
pub open spec fn identity_encoding() -> Seq<u8> {
    Seq::new(32, |i: int| 0u8)
}

/// An element of the Ristretto255 group, held as its canonical encoding.
///
/// The bytes are private and always decode, so that decompressing them with
/// `curve25519-dalek` cannot fail.
#[derive(Clone, Copy, Debug, PartialEq, Eq)]
pub struct Point {
    bytes: [u8; 32],
}

impl Point {
    /// The bytes of a point always decode.
    #[verifier::type_invariant]
    pub closed spec fn valid(self) -> bool {
        ristretto_decodes(self.bytes@)
    }

    /// The 32 bytes that encode the point.
    pub closed spec fn encoding(self) -> Seq<u8> {
        self.bytes@
    }

    /// Reads a point from its 32-byte encoding.
    ///
    /// Calls `CompressedRistretto::decompress` of `curve25519-dalek`, which
    /// accepts exactly the canonical encodings, and keeps the bytes.
    #[verifier::external_body]
    pub(crate) fn decode(bytes: &[u8; 32]) -> (res: Option<Point>)
        ensures
            res is Some <==> ristretto_decodes(bytes@),
            res matches Some(p) ==> p.encoding() == bytes@,
    {
        match curve25519_dalek::ristretto::CompressedRistretto(*bytes).decompress() {
            Some(_) => Some(Point { bytes: *bytes }),
            None => None,
        }
    }

    /// Maps 64 uniform bytes to a point.
    ///
    /// Calls `RistrettoPoint::from_uniform_bytes` of `curve25519-dalek` and
    /// compresses the result.
    #[verifier::external_body]
    pub(crate) fn from_uniform_bytes(wide: &[u8; 64]) -> (p: Point)
        ensures
            p.encoding() == ristretto_from_uniform(wide@),
    {
        let p = curve25519_dalek::ristretto::RistrettoPoint::from_uniform_bytes(wide);
        Point { bytes: p.compress().to_bytes() }
    }

    /// The neutral element.
    ///
    /// Calls `RistrettoPoint::identity` of `curve25519-dalek` and compresses
    /// it. The encoding of the neutral element is 32 zero bytes, which the
    /// same crate gives as `CompressedRistretto::identity`.
    #[verifier::external_body]
    pub(crate) fn identity() -> (p: Point)
        ensures
            p.encoding() == identity_encoding(),
    {
        let p = <curve25519_dalek::ristretto::RistrettoPoint as curve25519_dalek::traits::Identity>::identity();
        Point { bytes: p.compress().to_bytes() }
    }

    /// Multiplies the point by a scalar.
    ///
    /// Calls `*` of a `curve25519-dalek` point and scalar and compresses the
    /// result.
    #[verifier::external_body]
    pub(crate) fn mul(&self, scalar: &Scalar) -> (p: Point)
        ensures
            p.encoding() == ristretto_mul(self.encoding(), scalar.value()),
    {
        let point = curve25519_dalek::ristretto::CompressedRistretto(self.bytes).decompress().unwrap();
        let s = curve25519_dalek::scalar::Scalar::from_canonical_bytes(scalar.to_bytes()).unwrap();
        Point { bytes: (point * s).compress().to_bytes() }
    }

    /// Adds two points.
    ///
    /// Calls `+` of two `curve25519-dalek` points and compresses the result.
    #[verifier::external_body]
    pub(crate) fn add(&self, other: &Point) -> (p: Point)
        ensures
            p.encoding() == ristretto_add(self.encoding(), other.encoding()),
    {
        let a = curve25519_dalek::ristretto::CompressedRistretto(self.bytes).decompress().unwrap();
        let b = curve25519_dalek::ristretto::CompressedRistretto(other.bytes).decompress().unwrap();
        Point { bytes: (a + b).compress().to_bytes() }
    }

    /// The 32 bytes that encode the point.
    pub fn to_bytes(&self) -> (out: [u8; 32])
        ensures
            out@ == self.encoding(),
            ristretto_decodes(out@),
    {
        proof {
            use_type_invariant(self);
        }
        self.bytes
    }
}

} // verus!
