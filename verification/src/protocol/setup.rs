//! Initial setup.
//!
//! The client draws the long-term secrets (the provider randomness `Rsp`,
//! the signing seed, the key `K0`), shares a fresh master scalar among the
//! providers, and encrypts the secrets under the state key that the password
//! and the master scalar give. The master scalar is not kept.

use vstd::prelude::*;
use crate::aead::xchacha_encrypt_with_nonce;
use crate::bytes::{append_bytes, array_from_slice};
use crate::hash::{hash_to_point, oprf_finalize};
use crate::protocol::{cipherid_aad, cipherid_aad_spec, cipherid_plaintext, CipherId, CIPHERID_PT_LEN};
use crate::rng::random_bytes;
use crate::scalar::{le_value, Scalar};
use crate::shamir::{scalar_values, share_value};
use crate::sign::{ed25519_public_key, generate_seed, public_key_of};
use crate::toprf::{is_secret_polynomial, random_polynomial, state_key_spec, toprf_shares};
use crate::types::{CtBlob, NONCE_LEN};

verus! {

/// What provider `sp_id` stores for the user.
#[derive(Clone, Debug)]
pub struct SetupSpPayload {
    pub sp_id: u32,
    pub uid: Vec<u8>,
    pub sig_pk: [u8; 32],
    pub cid: CipherId,
    pub k_i: [u8; 32],
}

/// What the client learns from setup.
#[derive(Clone, Debug)]
pub struct SetupOutput {
    pub sig_pk: [u8; 32],
    pub cid: CipherId,
    pub shares: Vec<(u32, [u8; 32])>,
}

/// Whether `shares` lists, for each provider from 1 to `nsp` in order, the
/// provider's id with the canonical encoding of the polynomial's value at
/// the id.
pub open spec fn is_encoded_share_list(shares: Seq<(u32, [u8; 32])>, coeffs: Seq<nat>, nsp: nat) -> bool {
    &&& shares.len() == nsp
    &&& forall|i: int|
        0 <= i < nsp ==> (#[trigger] shares[i]).0 == i + 1 && le_value(shares[i].1@) == share_value(
            coeffs,
            i + 1,
        )
}

/// Whether `out` and `payloads` set the user up with the given secrets:
/// the verifying key belongs to the seed `ssk`; the `CipherId`, made with
/// `nonce`, seals seed, `Rsp` and `K0` under the state key of the password
/// and the polynomial's constant term; the shares are the polynomial's
/// values; and each provider's payload repeats key and blob beside its own
/// share.
pub open spec fn is_setup(
    out: SetupOutput,
    payloads: Seq<SetupSpPayload>,
    uid: Seq<u8>,
    password: Seq<u8>,
    nsp: nat,
    coeffs: Seq<nat>,
    ssk: Seq<u8>,
    rsp: Seq<u8>,
    k0: Seq<u8>,
    nonce: Seq<u8>,
) -> bool {
    &&& out.sig_pk@ == ed25519_public_key(ssk)
    &&& out.cid.nonce@ == nonce
    &&& out.cid.seals(
        state_key_spec(password, coeffs[0]),
        cipherid_aad_spec(uid),
        cipherid_plaintext(ssk, rsp, k0),
    )
    &&& is_encoded_share_list(out.shares@, coeffs, nsp)
    &&& payloads.len() == nsp
    &&& forall|i: int|
        0 <= i < nsp ==> {
            let p = #[trigger] payloads[i];
            &&& p.sp_id == i + 1
            &&& p.uid@ == uid
            &&& p.sig_pk == out.sig_pk
            &&& p.cid == out.cid
            &&& p.k_i == out.shares@[i].1
        }
}

/// Builds the output of setup from the secrets that were drawn: the
/// coefficients of the sharing polynomial, the signing seed, `Rsp`, `K0`
/// and the nonce.
pub fn client_setup_with(
    uid: &[u8],
    password: &[u8],
    nsp: usize,
    coeffs: &Vec<Scalar>,
    ssk: [u8; 32],
    rsp: [u8; 32],
    k0: [u8; 32],
    nonce: [u8; NONCE_LEN],
) -> (out: (SetupOutput, Vec<SetupSpPayload>))
    requires
        1 <= coeffs@.len() <= nsp <= u32::MAX,
    ensures
        is_setup(
            out.0,
            out.1@,
            uid@,
            password@,
            nsp as nat,
            scalar_values(coeffs@),
            ssk@,
            rsp@,
            k0@,
            nonce@,
        ),
{
    let ghost cs = scalar_values(coeffs@);
    let shares = toprf_shares(coeffs, nsp);
    let sig_pk = public_key_of(&ssk);
    let p = hash_to_point(password);
    let y = p.mul(&coeffs[0]);
    let state_key = oprf_finalize(password, &y);
    assert(state_key@ == state_key_spec(password@, cs[0]));

    let mut pt_bytes = Vec::new();
    append_bytes(&mut pt_bytes, ssk.as_slice());
    append_bytes(&mut pt_bytes, rsp.as_slice());
    append_bytes(&mut pt_bytes, k0.as_slice());
    let pt = array_from_slice::<CIPHERID_PT_LEN>(pt_bytes.as_slice());
    let aad = cipherid_aad(uid);
    let cid = xchacha_encrypt_with_nonce(&state_key, aad.as_slice(), &pt, nonce);

    let mut shares_bytes: Vec<(u32, [u8; 32])> = Vec::new();
    let mut payloads: Vec<SetupSpPayload> = Vec::new();
    let mut i: usize = 0;
    while i < nsp
        invariant
            i <= nsp,
            shares@.len() == nsp,
            crate::toprf::is_share_list(shares@, cs, nsp as nat),
            is_encoded_share_list(shares_bytes@, cs, i as nat),
            payloads@.len() == i,
            forall|j: int|
                0 <= j < i ==> {
                    let p = #[trigger] payloads@[j];
                    &&& p.sp_id == j + 1
                    &&& p.uid@ == uid@
                    &&& p.sig_pk == sig_pk
                    &&& p.cid == cid
                    &&& p.k_i == shares_bytes@[j].1
                },
        decreases nsp - i,
    {
        let id = shares[i].0;
        let k_i = shares[i].1.to_bytes();
        let mut uid_copy = Vec::new();
        append_bytes(&mut uid_copy, uid);
        shares_bytes.push((id, k_i));
        payloads.push(
            SetupSpPayload {
                sp_id: id,
                uid: uid_copy,
                sig_pk,
                cid: CtBlob { nonce: cid.nonce, ct: cid.ct, tag: cid.tag },
                k_i,
            },
        );
        i += 1;
    }
    (SetupOutput { sig_pk, cid, shares: shares_bytes }, payloads)
}

/// What [`client_setup`] owes: the output sets the user up with some
/// sharing polynomial of threshold `tsp` and some 32-byte secrets, sealed
/// with some nonce.
pub open spec fn is_setup_result(
    out: SetupOutput,
    payloads: Seq<SetupSpPayload>,
    uid: Seq<u8>,
    password: Seq<u8>,
    nsp: nat,
    tsp: nat,
) -> bool {
    exists|coeffs: Seq<nat>, ssk: Seq<u8>, rsp: Seq<u8>, k0: Seq<u8>, nonce: Seq<u8>|
        is_secret_polynomial(coeffs, tsp) && ssk.len() == 32 && rsp.len() == 32 && k0.len() == 32
            && nonce.len() == 24 && #[trigger] is_setup(
            out,
            payloads,
            uid,
            password,
            nsp,
            coeffs,
            ssk,
            rsp,
            k0,
            nonce,
        )
}

/// Sets a user up with `nsp` providers of which any `tsp` suffice: draws
/// the secrets and builds the output for the client and the payload for
/// each provider.
pub fn client_setup(
    uid: &[u8],
    password: &[u8],
    nsp: usize,
    tsp: usize,
    rng: &mut rand_chacha::ChaCha20Rng,
) -> (out: (SetupOutput, Vec<SetupSpPayload>))
    requires
        1 <= tsp <= nsp <= u32::MAX,
    ensures
        is_setup_result(out.0, out.1@, uid@, password@, nsp as nat, tsp as nat),
{
    let rsp = random_bytes::<32>(rng);
    let coeffs = random_polynomial(tsp, rng);
    let ssk = generate_seed(rng);
    let k0 = random_bytes::<32>(rng);
    let nonce = random_bytes::<NONCE_LEN>(rng);
    let out = client_setup_with(uid, password, nsp, &coeffs, ssk, rsp, k0, nonce);
    proof {
        assert(ssk@.len() == 32 && rsp@.len() == 32 && k0@.len() == 32 && nonce@.len() == 24);
        assert(is_setup(
            out.0,
            out.1@,
            uid@,
            password@,
            nsp as nat,
            scalar_values(coeffs@),
            ssk@,
            rsp@,
            k0@,
            nonce@,
        ));
    }
    out
}

} // verus!
