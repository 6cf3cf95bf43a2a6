//! Rotation of a login service's secret.
//!
//! The prepare step is that of authentication. The finish step finds the
//! latest record as authentication does, draws a fresh secret, and seals it
//! with the counter raised by one.

use vstd::prelude::*;
use crate::aead::xchacha_encrypt_with_nonce;
use crate::hash::{hash_vinfo, vinfo_spec};
use crate::protocol::authenticate::{
    is_auth_result, is_prepared, lemma_auth_of_one_record, AuthResult,
};
use crate::protocol::{
    all_open, ciphersp_aad, ciphersp_aad_spec, ciphersp_plaintext, ciphersp_pt_bytes, ctr_at,
    decrypt_cid, is_latest_max, latest_record, rlsj_at, suid_list, CipherId, CipherSp,
    CipherSpPlaintext,
};
use crate::rng::random_bytes;
use crate::types::{UpspaError, NONCE_LEN};

verus! {

/// What the client asks the providers for: `K0` for later, and each
/// provider's id with its index.
#[derive(Clone, Debug)]
pub struct SecretUpdateQueries {
    pub k0: [u8; 32],
    pub per_sp: Vec<(u32, [u8; 32])>,
}

/// What a secret update hands out: the old tag to prove the right to
/// update, the new tag for the login service, and the new blob for the
/// providers.
#[derive(Clone, Debug)]
pub struct SecretUpdateOutput {
    pub vinfo_prime: [u8; 32],
    pub vinfo_new: [u8; 32],
    pub cj_new: CipherSp,
    pub old_ctr: u64,
    pub new_ctr: u64,
}

/// The key and list of a [`SecretUpdateQueries`] result.
pub open spec fn secret_update_queries_view(res: Result<SecretUpdateQueries, UpspaError>) -> Result<
    ([u8; 32], Seq<(u32, [u8; 32])>),
    UpspaError,
> {
    match res {
        Ok(q) => Ok((q.k0, q.per_sp@)),
        Err(e) => Err(e),
    }
}

/// Decrypts the `CipherId` and derives the index of `lsj` at each of the
/// `nsp` providers.
pub fn client_secret_update_prepare(
    uid: &[u8],
    lsj: &[u8],
    password_state_key: &[u8; 32],
    cid: &CipherId,
    nsp: usize,
) -> (res: Result<SecretUpdateQueries, UpspaError>)
    requires
        nsp <= u32::MAX,
    ensures
        is_prepared(
            uid@,
            lsj@,
            password_state_key@,
            *cid,
            nsp as nat,
            secret_update_queries_view(res),
        ),
{
    let cid_pt = match decrypt_cid(uid, password_state_key, cid) {
        Ok(pt) => pt,
        Err(e) => { return Err(e); },
    };
    let ghost pt = cid_pt.spec_bytes();
    assert(cid_pt.rsp@ =~= pt.subrange(32, 64));
    assert(cid_pt.k0@ =~= pt.subrange(64, 96));
    let per_sp = suid_list(&cid_pt.rsp, lsj, nsp);
    Ok(SecretUpdateQueries { k0: cid_pt.k0, per_sp })
}

/// The counter after `ctr`: one more, and zero after the greatest `u64`.
pub open spec fn next_ctr(ctr: u64) -> u64 {
    if ctr == u64::MAX {
        0
    } else {
        (ctr + 1) as u64
    }
}

/// Whether `out` replaces the record (`old_rlsj`, `old_ctr`) of login
/// service `lsj` by the secret `new_rlsj`: it carries the tags of both
/// secrets, both counters, and a blob made with `nonce` that seals the new
/// secret with the new counter under `K0`.
pub open spec fn is_secret_update(
    out: SecretUpdateOutput,
    uid: Seq<u8>,
    lsj: Seq<u8>,
    k0: Seq<u8>,
    old_rlsj: Seq<u8>,
    old_ctr: u64,
    new_rlsj: Seq<u8>,
    nonce: Seq<u8>,
) -> bool {
    &&& out.vinfo_prime@ == vinfo_spec(old_rlsj, lsj)
    &&& out.old_ctr == old_ctr
    &&& out.new_ctr == next_ctr(old_ctr)
    &&& out.vinfo_new@ == vinfo_spec(new_rlsj, lsj)
    &&& out.cj_new.nonce@ == nonce
    &&& out.cj_new.seals(k0, ciphersp_aad_spec(uid), ciphersp_plaintext(new_rlsj, out.new_ctr))
}

/// Builds the output of a secret update from the latest record, the fresh
/// secret and the nonce.
pub fn client_secret_update_with(
    uid: &[u8],
    lsj: &[u8],
    k0: &[u8; 32],
    old: &CipherSpPlaintext,
    new_rlsj: [u8; 32],
    nonce: [u8; NONCE_LEN],
) -> (out: SecretUpdateOutput)
    ensures
        is_secret_update(out, uid@, lsj@, k0@, old.rlsj@, old.ctr, new_rlsj@, nonce@),
{
    let vinfo_prime = hash_vinfo(&old.rlsj, lsj);
    let new_ctr = old.ctr.wrapping_add(1);
    let pt = ciphersp_pt_bytes(&new_rlsj, new_ctr);
    let aad = ciphersp_aad(uid);
    let cj_new = xchacha_encrypt_with_nonce(k0, aad.as_slice(), &pt, nonce);
    let vinfo_new = hash_vinfo(&new_rlsj, lsj);
    SecretUpdateOutput { vinfo_prime, vinfo_new, cj_new, old_ctr: old.ctr, new_ctr }
}

/// What [`client_secret_update_finish`] owes. No blob at all is a length
/// error and a blob that does not decrypt is fatal. Otherwise the output
/// replaces the record of the last blob with the greatest counter by some
/// 32-byte secret, sealed with some nonce.
pub open spec fn is_secret_update_result(
    uid: Seq<u8>,
    lsj: Seq<u8>,
    k0: Seq<u8>,
    cjs: Seq<CipherSp>,
    res: Result<SecretUpdateOutput, UpspaError>,
) -> bool {
    if cjs.len() == 0 {
        res matches Err(e) && e == (UpspaError::InvalidLength { expected: 1, got: 0 })
    } else if !all_open(uid, k0, cjs) {
        res matches Err(e) && e == UpspaError::Aead
    } else {
        res is Ok && exists|b: int, new_rlsj: Seq<u8>, nonce: Seq<u8>|
            is_latest_max(uid, k0, cjs, b) && new_rlsj.len() == 32 && nonce.len() == 24
                && #[trigger] is_secret_update(
                res.unwrap(),
                uid,
                lsj,
                k0,
                rlsj_at(uid, k0, cjs, b),
                ctr_at(uid, k0, cjs, b),
                new_rlsj,
                nonce,
            )
    }
}

/// Rotates the secret of login service `lsj`: finds the latest record among
/// the providers' blobs, draws a fresh secret and a nonce, and builds the
/// output.
pub fn client_secret_update_finish(
    uid: &[u8],
    lsj: &[u8],
    k0: &[u8; 32],
    cjs: &[CipherSp],
    rng: &mut rand_chacha::ChaCha20Rng,
) -> (res: Result<SecretUpdateOutput, UpspaError>)
    ensures
        is_secret_update_result(uid@, lsj@, k0@, cjs@, res),
{
    let old = match latest_record(uid, k0, cjs) {
        Ok(rec) => rec,
        Err(e) => { return Err(e); },
    };
    let new_rlsj = random_bytes::<32>(rng);
    let nonce = random_bytes::<NONCE_LEN>(rng);
    let out = client_secret_update_with(uid, lsj, k0, &old, new_rlsj, nonce);
    let res = Ok(out);
    proof {
        assert(new_rlsj@.len() == 32 && nonce@.len() == 24);
        let b = choose|b: int| #[trigger]
            is_latest_max(uid@, k0@, cjs@, b) && old.ctr == ctr_at(uid@, k0@, cjs@, b) && old.rlsj@
                == rlsj_at(uid@, k0@, cjs@, b);
        assert(is_secret_update(
            res.unwrap(),
            uid@,
            lsj@,
            k0@,
            rlsj_at(uid@, k0@, cjs@, b),
            ctr_at(uid@, k0@, cjs@, b),
            new_rlsj@,
            nonce@,
        ));
    }
    res
}

/// A secret update raises the counter by one, short of the greatest `u64`.
pub proof fn lemma_secret_update_raises_counter(
    out: SecretUpdateOutput,
    uid: Seq<u8>,
    lsj: Seq<u8>,
    k0: Seq<u8>,
    old_rlsj: Seq<u8>,
    old_ctr: u64,
    new_rlsj: Seq<u8>,
    nonce: Seq<u8>,
)
    requires
        is_secret_update(out, uid, lsj, k0, old_rlsj, old_ctr, new_rlsj, nonce),
        old_ctr < u64::MAX,
    ensures
        out.old_ctr == old_ctr,
        out.new_ctr == old_ctr + 1,
{
}

/// Authentication after a secret update. Where every blob that the
/// providers hand back is the new blob of a secret update, the client's
/// answer carries the new tag and the new counter.
pub proof fn lemma_auth_matches_secret_update(
    out: SecretUpdateOutput,
    uid: Seq<u8>,
    lsj: Seq<u8>,
    k0: Seq<u8>,
    old_rlsj: Seq<u8>,
    old_ctr: u64,
    new_rlsj: Seq<u8>,
    nonce: Seq<u8>,
    cjs: Seq<CipherSp>,
    res: Result<AuthResult, UpspaError>,
)
    requires
        is_secret_update(out, uid, lsj, k0, old_rlsj, old_ctr, new_rlsj, nonce),
        new_rlsj.len() == 32,
        cjs.len() >= 1,
        forall|j: int| 0 <= j < cjs.len() ==> #[trigger] cjs[j] == out.cj_new,
        is_auth_result(uid, lsj, k0, cjs, res),
    ensures
        res is Ok,
        res.unwrap().vinfo_prime@ == out.vinfo_new@,
        res.unwrap().best_ctr == out.new_ctr,
{
    lemma_auth_of_one_record(uid, lsj, k0, cjs, new_rlsj, out.new_ctr, res);
}

} // verus!
