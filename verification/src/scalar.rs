//! Scalars of the Ristretto255 group: the integers modulo the group order.
//!
//! A [`Scalar`] holds the canonical 32-byte little-endian encoding of a
//! residue; its value is the number that those bytes spell. The arithmetic is
//! `curve25519-dalek`'s, and the contracts state it over the values.

use vstd::prelude::*;

verus! {

/// The order of the Ristretto255 group,
/// 2^252 + 27742317777372353535851937790883648493.
pub open spec fn group_order() -> nat {
    7237005577332262213973186563042994240857116359379907606001950938285454250989nat
}

/// The number that `bytes` spell in little-endian order.
pub open spec fn le_value(bytes: Seq<u8>) -> nat
    decreases bytes.len(),
{
    if bytes.len() == 0 {
        0
    } else {
        bytes[0] as nat + 256 * le_value(bytes.skip(1))
    }
}

/// Bytes spell zero exactly when every one of them is zero.
pub proof fn lemma_le_value_zero(bytes: Seq<u8>)
    ensures
        le_value(bytes) == 0 <==> forall|i: int| 0 <= i < bytes.len() ==> bytes[i] == 0,
    decreases bytes.len(),
{
    if bytes.len() > 0 {
        let rest = bytes.skip(1);
        lemma_le_value_zero(rest);
        if le_value(bytes) == 0 {
            assert forall|i: int| 0 <= i < bytes.len() implies bytes[i] == 0 by {
                if i > 0 {
                    assert(rest[i - 1] == bytes[i]);
                }
            }
        }
        if forall|i: int| 0 <= i < bytes.len() ==> bytes[i] == 0 {
            assert forall|i: int| 0 <= i < rest.len() implies rest[i] == 0 by {
                assert(rest[i] == bytes[i + 1]);
            }
        }
    }
}

/// An integer modulo the group order, held as its canonical encoding.
///
/// The bytes are private and always canonical, so that handing them to
/// `curve25519-dalek` as a canonical scalar cannot fail.
#[derive(Clone, Copy, Debug, PartialEq, Eq)]
pub struct Scalar {
    bytes: [u8; 32],
}

impl Scalar {
    /// The bytes of a scalar always spell a number below the group order.
    #[verifier::type_invariant]
    pub closed spec fn canonical(self) -> bool {
        le_value(self.bytes@) < group_order()
    }

    /// The 32 bytes that encode the scalar.
    pub closed spec fn encoding(self) -> Seq<u8> {
        self.bytes@
    }

    /// The residue: a number below the group order.
    pub open spec fn value(self) -> nat {
        le_value(self.encoding())
    }

    /// What the type's invariant says of a scalar's value.
    pub proof fn lemma_canonical(self)
        requires
            self.canonical(),
        ensures
            self.value() < group_order(),
            self.encoding().len() == 32,
    {
    }

    /// Reads a scalar from 32 bytes that spell a number below the group
    /// order.
    ///
    /// Calls `Scalar::from_canonical_bytes` of `curve25519-dalek`, which
    /// accepts exactly the encodings of numbers below the group order and
    /// keeps the bytes as they are.
    #[verifier::external_body]
    pub(crate) fn decode(bytes: &[u8; 32]) -> (res: Option<Scalar>)
        ensures
            res is Some <==> le_value(bytes@) < group_order(),
            res matches Some(s) ==> s.encoding() == bytes@,
    {
        let parsed: Option<curve25519_dalek::scalar::Scalar> =
            curve25519_dalek::scalar::Scalar::from_canonical_bytes(*bytes).into();
        match parsed {
            Some(_) => Some(Scalar { bytes: *bytes }),
            None => None,
        }
    }

    /// Reduces 64 little-endian bytes modulo the group order.
    ///
    /// Calls `Scalar::from_bytes_mod_order_wide` of `curve25519-dalek`, which
    /// reads the bytes as a 512-bit number and reduces it.
    #[verifier::external_body]
    pub(crate) fn from_wide(wide: &[u8; 64]) -> (s: Scalar)
        ensures
            s.value() == le_value(wide@) % group_order(),
    {
        Scalar { bytes: curve25519_dalek::scalar::Scalar::from_bytes_mod_order_wide(wide).to_bytes() }
    }

    /// The scalar of a small number.
    ///
    /// Calls `Scalar::from(u64)` of `curve25519-dalek`. Every `u64` is below
    /// the group order, so the value is the number itself.
    #[verifier::external_body]
    pub(crate) fn from_u64(x: u64) -> (s: Scalar)
        ensures
            s.value() == x,
    {
        Scalar { bytes: curve25519_dalek::scalar::Scalar::from(x).to_bytes() }
    }

    /// Addition modulo the group order.
    ///
    /// Calls `+` on two `curve25519-dalek` scalars.
    #[verifier::external_body]
    pub(crate) fn add(&self, other: &Scalar) -> (s: Scalar)
        ensures
            s.value() == (self.value() + other.value()) % group_order(),
    {
        let a = curve25519_dalek::scalar::Scalar::from_canonical_bytes(self.bytes).unwrap();
        let b = curve25519_dalek::scalar::Scalar::from_canonical_bytes(other.bytes).unwrap();
        Scalar { bytes: (a + b).to_bytes() }
    }

    /// Subtraction modulo the group order.
    ///
    /// Calls `-` on two `curve25519-dalek` scalars. The result is the
    /// residue of the difference, a number from zero up to the order.
    #[verifier::external_body]
    pub(crate) fn sub(&self, other: &Scalar) -> (s: Scalar)
        ensures
            s.value() == (self.value() - other.value()) % (group_order() as int),
    {
        let a = curve25519_dalek::scalar::Scalar::from_canonical_bytes(self.bytes).unwrap();
        let b = curve25519_dalek::scalar::Scalar::from_canonical_bytes(other.bytes).unwrap();
        Scalar { bytes: (a - b).to_bytes() }
    }

    /// Multiplication modulo the group order.
    ///
    /// Calls `*` on two `curve25519-dalek` scalars.
    #[verifier::external_body]
    pub(crate) fn mul(&self, other: &Scalar) -> (s: Scalar)
        ensures
            s.value() == (self.value() * other.value()) % group_order(),
    {
        let a = curve25519_dalek::scalar::Scalar::from_canonical_bytes(self.bytes).unwrap();
        let b = curve25519_dalek::scalar::Scalar::from_canonical_bytes(other.bytes).unwrap();
        Scalar { bytes: (a * b).to_bytes() }
    }

    /// The multiplicative inverse of a nonzero scalar modulo the group
    /// order.
    ///
    /// Calls `Scalar::invert` of `curve25519-dalek`, whose documentation
    /// promises the inverse of a nonzero scalar and asks never to hand it
    /// zero.
    #[verifier::external_body]
    pub(crate) fn invert(&self) -> (s: Scalar)
        requires
            self.value() != 0,
        ensures
            (self.value() * s.value()) % group_order() == 1,
    {
        let a = curve25519_dalek::scalar::Scalar::from_canonical_bytes(self.bytes).unwrap();
        Scalar { bytes: a.invert().to_bytes() }
    }

    /// The 32 bytes that encode the scalar.
    pub fn to_bytes(&self) -> (out: [u8; 32])
        ensures
            out@ == self.encoding(),
            le_value(out@) < group_order(),
    {
        proof {
            use_type_invariant(self);
        }
        self.bytes
    }

    /// Whether the scalar is zero.
    pub fn is_zero(&self) -> (zero: bool)
        ensures
            zero == (self.value() == 0),
    {
        let mut i: usize = 0;
        while i < 32
            invariant
                i <= 32,
                forall|k: int| 0 <= k < i ==> self.bytes@[k] == 0,
            decreases 32 - i,
        {
            if self.bytes[i] != 0 {
                proof {
                    lemma_le_value_zero(self.bytes@);
                }
                return false;
            }
            i += 1;
        }
        proof {
            lemma_le_value_zero(self.bytes@);
        }
        true
    }
}

} // verus!
