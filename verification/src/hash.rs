//! BLAKE3 with the library's domain-separation prefixes.
//!
//! Each hash of the protocol is BLAKE3 over a fixed ASCII prefix followed by
//! its arguments. The prefixes are part of the protocol and appear here
//! letter for letter.

use vstd::prelude::*;
use vstd::string::StringSliceAdditionalSpecFns;
use vstd::bytes::{spec_u32_to_le_bytes, u32_to_le_bytes};
use crate::bytes::append_bytes;
use crate::point::{ristretto_from_uniform, Point};

verus! {

/// The 32-byte BLAKE3 hash of `input`.
pub uninterp spec fn blake3_hash(input: Seq<u8>) -> Seq<u8>;

/// The first 64 bytes of BLAKE3's extendable output for `input`.
pub uninterp spec fn blake3_xof64(input: Seq<u8>) -> Seq<u8>;

/// Hashes `input` with BLAKE3.
///
/// Feeds `input` to a fresh `blake3::Hasher` and calls `finalize`. The
/// contract names the digest: it depends on the input alone.
#[verifier::external_body]
pub(crate) fn blake3_digest(input: &[u8]) -> (out: [u8; 32])
    ensures
        out@ == blake3_hash(input@),
{
    let mut hasher = blake3::Hasher::new();
    hasher.update(input);
    *hasher.finalize().as_bytes()
}

/// Draws 64 bytes of BLAKE3's extendable output for `input`.
///
/// Feeds `input` to a fresh `blake3::Hasher`, calls `finalize_xof` and fills
/// 64 bytes from the reader. The contract names those bytes: they depend on
/// the input alone.
#[verifier::external_body]
pub(crate) fn blake3_expand64(input: &[u8]) -> (out: [u8; 64])
    ensures
        out@ == blake3_xof64(input@),
{
    let mut hasher = blake3::Hasher::new();
    hasher.update(input);
    let mut out = [0u8; 64];
    hasher.finalize_xof().fill(&mut out);
    out
}

/// What is hashed to map a message to a point.
pub open spec fn hash_to_point_input(msg: Seq<u8>) -> Seq<u8> {
    "uptspa/hash_to_point".spec_bytes() + msg
}

/// The encoding of the point that `msg` is hashed to.
pub open spec fn hash_to_point_spec(msg: Seq<u8>) -> Seq<u8> {
    ristretto_from_uniform(blake3_xof64(hash_to_point_input(msg)))
}

/// What is hashed to finalise an OPRF output `y`, given by its encoding.
pub open spec fn oprf_finalize_input(password: Seq<u8>, y: Seq<u8>) -> Seq<u8> {
    "uptspa/oprf_finalize".spec_bytes() + password + y
}

/// The state key that a password and an OPRF output give.
pub open spec fn oprf_finalize_spec(password: Seq<u8>, y: Seq<u8>) -> Seq<u8> {
    blake3_hash(oprf_finalize_input(password, y))
}

/// What is hashed for the index under which provider `i` files a login
/// service's record.
pub open spec fn suid_input(rsp: Seq<u8>, lsj: Seq<u8>, i: u32) -> Seq<u8> {
    "uptspa/suid".spec_bytes() + rsp + lsj + spec_u32_to_le_bytes(i)
}

/// The index under which provider `i` files the record of login service `lsj`.
pub open spec fn suid_spec(rsp: Seq<u8>, lsj: Seq<u8>, i: u32) -> Seq<u8> {
    blake3_hash(suid_input(rsp, lsj, i))
}

/// What is hashed for the tag that a login service stores.
pub open spec fn vinfo_input(rlsj: Seq<u8>, lsj: Seq<u8>) -> Seq<u8> {
    "uptspa/vinfo".spec_bytes() + rlsj + lsj
}

/// The tag that login service `lsj` stores for the secret `rlsj`.
pub open spec fn vinfo_spec(rlsj: Seq<u8>, lsj: Seq<u8>) -> Seq<u8> {
    blake3_hash(vinfo_input(rlsj, lsj))
}

/// Maps a message to a Ristretto point: 64 bytes of extendable output over
/// the prefixed message, then the map from uniform bytes.
pub fn hash_to_point(msg: &[u8]) -> (p: Point)
    ensures
        p.encoding() == hash_to_point_spec(msg@),
{
    let mut input = Vec::new();
    append_bytes(&mut input, "uptspa/hash_to_point".as_bytes());
    append_bytes(&mut input, msg);
    let wide = blake3_expand64(input.as_slice());
    Point::from_uniform_bytes(&wide)
}

/// Derives the 32-byte state key from the password and the OPRF output.
pub fn oprf_finalize(password: &[u8], y: &Point) -> (key: [u8; 32])
    ensures
        key@ == oprf_finalize_spec(password@, y.encoding()),
{
    let y_bytes = y.to_bytes();
    let mut input = Vec::new();
    append_bytes(&mut input, "uptspa/oprf_finalize".as_bytes());
    append_bytes(&mut input, password);
    append_bytes(&mut input, y_bytes.as_slice());
    blake3_digest(input.as_slice())
}

/// Derives the index under which provider `i` files the record of `lsj`.
pub fn hash_suid(rsp: &[u8; 32], lsj: &[u8], i: u32) -> (suid: [u8; 32])
    ensures
        suid@ == suid_spec(rsp@, lsj@, i),
{
    let index = u32_to_le_bytes(i);
    let mut input = Vec::new();
    append_bytes(&mut input, "uptspa/suid".as_bytes());
    append_bytes(&mut input, rsp.as_slice());
    append_bytes(&mut input, lsj);
    append_bytes(&mut input, index.as_slice());
    blake3_digest(input.as_slice())
}

/// Derives the tag that login service `lsj` stores for the secret `rlsj`.
pub fn hash_vinfo(rlsj: &[u8; 32], lsj: &[u8]) -> (vinfo: [u8; 32])
    ensures
        vinfo@ == vinfo_spec(rlsj@, lsj@),
{
    let mut input = Vec::new();
    append_bytes(&mut input, "uptspa/vinfo".as_bytes());
    append_bytes(&mut input, rlsj.as_slice());
    append_bytes(&mut input, lsj);
    blake3_digest(input.as_slice())
}

} // verus!
