//! Change of password.
//!
//! The client opens its `CipherId` with the old state key, shares a fresh
//! master scalar, and seals the same plaintext under the state key of the
//! new password. Each provider gets its new share with the new blob, signed
//! with the key that the blob has held since setup.

use vstd::prelude::*;
use vstd::bytes::{spec_u32_to_le_bytes, spec_u64_to_le_bytes, u32_to_le_bytes, u64_to_le_bytes};
use crate::aead::xchacha_encrypt_with_nonce;
use crate::bytes::{append_bytes, array_from_slice};
use crate::hash::{hash_to_point, oprf_finalize};
use crate::protocol::{
    cipherid_aad, cipherid_aad_spec, cipherid_plaintext, decrypt_cid, CidPlaintext, CipherId,
};
use crate::protocol::setup::{is_setup, SetupOutput, SetupSpPayload};
use crate::rng::random_bytes;
use crate::scalar::{le_value, Scalar};
use crate::shamir::{scalar_values, share_value};
use crate::sign::{ed25519_public_key, ed25519_signature, ed25519_verifies, sign_detached};
use crate::toprf::{is_secret_polynomial, random_polynomial, state_key_spec, toprf_shares};
use crate::types::{b64_encode, base64url_encoding, CtBlob, UpspaError, NONCE_LEN};

verus! {

/// Length of the message that is signed for each provider.
pub const PWD_UPDATE_SIG_MSG_LEN: usize = 24 + 96 + 16 + 32 + 8 + 4;

/// What provider `sp_id` gets on a change of password.
#[derive(Clone, Debug)]
pub struct PasswordUpdateSpMessage {
    pub uid_b64: String,
    pub sp_id: u32,
    pub timestamp: u64,
    pub sig: [u8; 64],
    pub k_i_new: [u8; 32],
    pub cid_new: CipherId,
}

/// All messages of one change of password.
#[derive(Clone, Debug)]
pub struct PasswordUpdateOutput {
    pub cid_new: CipherId,
    pub per_sp: Vec<PasswordUpdateSpMessage>,
}

/// The 180 bytes that are signed for a provider: the new blob's nonce,
/// ciphertext and tag, the provider's new share, the timestamp as eight and
/// the provider's id as four little-endian bytes.
pub open spec fn pwd_update_sig_msg(cid_new: CipherId, k_i_new: Seq<u8>, timestamp: u64, sp_id: u32) -> Seq<
    u8,
> {
    cid_new.nonce@ + cid_new.ct@ + cid_new.tag@ + k_i_new + spec_u64_to_le_bytes(timestamp)
        + spec_u32_to_le_bytes(sp_id)
}

/// Lays out the message that is signed for a provider.
pub fn pwd_update_sig_message(cid_new: &CipherId, k_i_new: &[u8; 32], timestamp: u64, sp_id: u32) -> (msg:
    [u8; PWD_UPDATE_SIG_MSG_LEN])
    ensures
        msg@ == pwd_update_sig_msg(*cid_new, k_i_new@, timestamp, sp_id),
{
    let ts = u64_to_le_bytes(timestamp);
    let id = u32_to_le_bytes(sp_id);
    let mut v = Vec::new();
    append_bytes(&mut v, cid_new.nonce.as_slice());
    append_bytes(&mut v, cid_new.ct.as_slice());
    append_bytes(&mut v, cid_new.tag.as_slice());
    append_bytes(&mut v, k_i_new.as_slice());
    append_bytes(&mut v, ts.as_slice());
    append_bytes(&mut v, id.as_slice());
    array_from_slice::<PWD_UPDATE_SIG_MSG_LEN>(v.as_slice())
}

/// Whether `m` is the message for the `i`-th provider: it carries the
/// provider's id and new share, the user id as text, the timestamp and the
/// new blob, and the signature of the 180-byte layout under the seed `ssk`,
/// which verifies under the seed's verifying key.
pub open spec fn is_password_update_message(
    m: PasswordUpdateSpMessage,
    i: int,
    cid_new: CipherId,
    uid: Seq<u8>,
    ssk: Seq<u8>,
    timestamp: u64,
    coeffs: Seq<nat>,
) -> bool {
    let msg = pwd_update_sig_msg(cid_new, m.k_i_new@, timestamp, m.sp_id);
    &&& m.sp_id == i + 1
    &&& m.uid_b64@ == base64url_encoding(uid)
    &&& m.timestamp == timestamp
    &&& m.cid_new == cid_new
    &&& le_value(m.k_i_new@) == share_value(coeffs, i + 1)
    &&& m.sig@ == ed25519_signature(ssk, msg)
    &&& ed25519_verifies(ed25519_public_key(ssk), msg, m.sig@)
}

/// Whether `out` moves the plaintext `pt` of the old `CipherId` to the new
/// password: the new blob, made with `nonce`, seals the same plaintext under
/// the state key of the new password and the polynomial's constant term,
/// and every provider from 1 to `nsp` gets its message, signed with the seed
/// that the plaintext starts with.
pub open spec fn is_password_update(
    out: PasswordUpdateOutput,
    uid: Seq<u8>,
    pt: Seq<u8>,
    nsp: nat,
    new_password: Seq<u8>,
    timestamp: u64,
    coeffs: Seq<nat>,
    nonce: Seq<u8>,
) -> bool {
    &&& out.cid_new.nonce@ == nonce
    &&& out.cid_new.seals(state_key_spec(new_password, coeffs[0]), cipherid_aad_spec(uid), pt)
    &&& out.per_sp@.len() == nsp
    &&& forall|i: int|
        0 <= i < nsp ==> is_password_update_message(
            #[trigger] out.per_sp@[i],
            i,
            out.cid_new,
            uid,
            pt.subrange(0, 32),
            timestamp,
            coeffs,
        )
}

/// Builds the output of a change of password from the opened `CipherId`,
/// the coefficients of the new sharing polynomial and the nonce.
pub fn client_password_update_with(
    uid: &[u8],
    cid_pt: &CidPlaintext,
    nsp: usize,
    new_password: &[u8],
    timestamp: u64,
    coeffs: &Vec<Scalar>,
    nonce: [u8; NONCE_LEN],
) -> (out: PasswordUpdateOutput)
    requires
        cid_pt.wf(),
        1 <= coeffs@.len() <= nsp <= u32::MAX,
        uid@.len() / 3 * 4 + 3 <= usize::MAX,
    ensures
        is_password_update(
            out,
            uid@,
            cid_pt.spec_bytes(),
            nsp as nat,
            new_password@,
            timestamp,
            scalar_values(coeffs@),
            nonce@,
        ),
{
    let ghost cs = scalar_values(coeffs@);
    let ghost pt = cid_pt.spec_bytes();
    let ghost ssk = pt.subrange(0, 32);
    assert(ssk =~= cid_pt.signing_key@);
    let shares = toprf_shares(coeffs, nsp);
    let pt_bytes = cid_pt.to_bytes();
    let p = hash_to_point(new_password);
    let y = p.mul(&coeffs[0]);
    let new_state_key = oprf_finalize(new_password, &y);
    assert(new_state_key@ == state_key_spec(new_password@, cs[0]));
    let aad = cipherid_aad(uid);
    let cid_new = xchacha_encrypt_with_nonce(&new_state_key, aad.as_slice(), &pt_bytes, nonce);
    let uid_b64 = b64_encode(uid);

    let mut per_sp: Vec<PasswordUpdateSpMessage> = Vec::new();
    let mut i: usize = 0;
    while i < nsp
        invariant
            i <= nsp,
            crate::toprf::is_share_list(shares@, cs, nsp as nat),
            uid_b64@ == base64url_encoding(uid@),
            ssk == cid_pt.signing_key@,
            per_sp@.len() == i,
            forall|j: int|
                0 <= j < i ==> is_password_update_message(
                    #[trigger] per_sp@[j],
                    j,
                    cid_new,
                    uid@,
                    ssk,
                    timestamp,
                    cs,
                ),
        decreases nsp - i,
    {
        let sp_id = shares[i].0;
        let k_i_new = shares[i].1.to_bytes();
        let msg = pwd_update_sig_message(&cid_new, &k_i_new, timestamp, sp_id);
        let sig = sign_detached(&cid_pt.signing_key, msg.as_slice());
        per_sp.push(
            PasswordUpdateSpMessage {
                uid_b64: uid_b64.clone(),
                sp_id,
                timestamp,
                sig,
                k_i_new,
                cid_new: CtBlob { nonce: cid_new.nonce, ct: cid_new.ct, tag: cid_new.tag },
            },
        );
        i += 1;
    }
    PasswordUpdateOutput { cid_new, per_sp }
}

/// What [`client_password_update`] owes. Where the old `CipherId` does not
/// decrypt under the old state key the error is `Aead`. Otherwise the output
/// moves the plaintext to the new password with some sharing polynomial of
/// threshold `tsp` and some nonce.
pub open spec fn is_password_update_result(
    uid: Seq<u8>,
    old_state_key: Seq<u8>,
    cid_old: CipherId,
    nsp: nat,
    tsp: nat,
    new_password: Seq<u8>,
    timestamp: u64,
    res: Result<PasswordUpdateOutput, UpspaError>,
) -> bool {
    match cid_old.opened(old_state_key, cipherid_aad_spec(uid)) {
        None => res matches Err(e) && e == UpspaError::Aead,
        Some(pt) => res is Ok && exists|coeffs: Seq<nat>, nonce: Seq<u8>|
            is_secret_polynomial(coeffs, tsp) && nonce.len() == 24 && #[trigger] is_password_update(
                res.unwrap(),
                uid,
                pt,
                nsp,
                new_password,
                timestamp,
                coeffs,
                nonce,
            ),
    }
}

/// Changes the password: opens the old `CipherId`, draws a new sharing
/// polynomial and a nonce, and builds the new blob with the signed message
/// for each provider.
pub fn client_password_update(
    uid: &[u8],
    old_password_state_key: &[u8; 32],
    cid_old: &CipherId,
    nsp: usize,
    tsp: usize,
    new_password: &[u8],
    timestamp: u64,
    rng: &mut rand_chacha::ChaCha20Rng,
) -> (res: Result<PasswordUpdateOutput, UpspaError>)
    requires
        1 <= tsp <= nsp <= u32::MAX,
        uid@.len() / 3 * 4 + 3 <= usize::MAX,
    ensures
        is_password_update_result(
            uid@,
            old_password_state_key@,
            *cid_old,
            nsp as nat,
            tsp as nat,
            new_password@,
            timestamp,
            res,
        ),
{
    let cid_pt = match decrypt_cid(uid, old_password_state_key, cid_old) {
        Ok(pt) => pt,
        Err(e) => { return Err(e); },
    };
    let coeffs = random_polynomial(tsp, rng);
    let nonce = random_bytes::<NONCE_LEN>(rng);
    let out = client_password_update_with(
        uid,
        &cid_pt,
        nsp,
        new_password,
        timestamp,
        &coeffs,
        nonce,
    );
    let res = Ok(out);
    proof {
        assert(nonce@.len() == 24);
        assert(is_password_update(
            res.unwrap(),
            uid@,
            cid_pt.spec_bytes(),
            nsp as nat,
            new_password@,
            timestamp,
            scalar_values(coeffs@),
            nonce@,
        ));
    }
    res
}

/// The signed message is 180 bytes long.
pub proof fn lemma_sig_msg_len(cid_new: CipherId, k_i_new: Seq<u8>, timestamp: u64, sp_id: u32)
    requires
        k_i_new.len() == 32,
    ensures
        pwd_update_sig_msg(cid_new, k_i_new, timestamp, sp_id).len() == PWD_UPDATE_SIG_MSG_LEN,
{
    vstd::bytes::lemma_auto_spec_u64_to_from_le_bytes();
    vstd::bytes::lemma_auto_spec_u32_to_from_le_bytes();
}

/// A change of password keeps the plaintext. The new `CipherId` decrypts
/// under the new state key to what the old one decrypts to under the old
/// state key.
pub proof fn lemma_password_update_keeps_plaintext(
    out: PasswordUpdateOutput,
    uid: Seq<u8>,
    old_state_key: Seq<u8>,
    cid_old: CipherId,
    nsp: nat,
    new_password: Seq<u8>,
    timestamp: u64,
    coeffs: Seq<nat>,
    nonce: Seq<u8>,
)
    requires
        cid_old.opened(old_state_key, cipherid_aad_spec(uid)) is Some,
        is_password_update(
            out,
            uid,
            cid_old.opened(old_state_key, cipherid_aad_spec(uid)).unwrap(),
            nsp,
            new_password,
            timestamp,
            coeffs,
            nonce,
        ),
    ensures
        out.cid_new.opened(state_key_spec(new_password, coeffs[0]), cipherid_aad_spec(uid))
            == cid_old.opened(old_state_key, cipherid_aad_spec(uid)),
{
}

/// The signatures of a change of password verify under the key from setup.
/// Where the change of password starts from the secrets that a setup
/// sealed, every provider's signature over its 180-byte message verifies
/// under the verifying key that the setup gave out.
pub proof fn lemma_password_update_signatures_verify(
    setup_out: SetupOutput,
    payloads: Seq<SetupSpPayload>,
    uid: Seq<u8>,
    password: Seq<u8>,
    setup_nsp: nat,
    setup_coeffs: Seq<nat>,
    ssk: Seq<u8>,
    rsp: Seq<u8>,
    k0: Seq<u8>,
    setup_nonce: Seq<u8>,
    out: PasswordUpdateOutput,
    nsp: nat,
    new_password: Seq<u8>,
    timestamp: u64,
    coeffs: Seq<nat>,
    nonce: Seq<u8>,
    i: int,
)
    requires
        is_setup(
            setup_out,
            payloads,
            uid,
            password,
            setup_nsp,
            setup_coeffs,
            ssk,
            rsp,
            k0,
            setup_nonce,
        ),
        ssk.len() == 32,
        is_password_update(
            out,
            uid,
            cipherid_plaintext(ssk, rsp, k0),
            nsp,
            new_password,
            timestamp,
            coeffs,
            nonce,
        ),
        0 <= i < nsp,
    ensures
        ed25519_verifies(
            setup_out.sig_pk@,
            pwd_update_sig_msg(
                out.cid_new,
                out.per_sp@[i].k_i_new@,
                timestamp,
                out.per_sp@[i].sp_id,
            ),
            out.per_sp@[i].sig@,
        ),
{
    assert(cipherid_plaintext(ssk, rsp, k0).subrange(0, 32) =~= ssk);
    assert(is_password_update_message(
        out.per_sp@[i],
        i,
        out.cid_new,
        uid,
        ssk,
        timestamp,
        coeffs,
    ));
}

} // verus!
