//! Authentication against a login service.
//!
//! The client first decrypts its `CipherId` and derives, for every provider,
//! the index under which the provider files the login service's record. The
//! providers hand their blobs back; the client decrypts them, keeps the one
//! with the greatest counter and recomputes the tag that the login service
//! stores.

use vstd::prelude::*;
use crate::hash::{hash_vinfo, vinfo_spec};
use crate::protocol::register::{is_registration, RegistrationOutput};
use crate::protocol::{
    all_open, cipherid_aad_spec, ciphersp_aad_spec, ciphersp_plaintext, ctr_at, decrypt_cid,
    is_latest_max, is_suid_list, latest_record, lemma_ciphersp_layout, opened_cj, rlsj_at,
    suid_list, CipherId, CipherSp,
};
use crate::types::UpspaError;

verus! {

/// What the client asks the providers for: `K0` for later, and each
/// provider's id with its index.
#[derive(Clone, Debug)]
pub struct AuthQueries {
    pub k0: [u8; 32],
    pub per_sp: Vec<(u32, [u8; 32])>,
}

/// What the client sends to the login service.
#[derive(Clone, Debug)]
pub struct AuthResult {
    pub vinfo_prime: [u8; 32],
    pub best_ctr: u64,
}

/// What both prepare steps owe for the key and the list they return: where
/// the `CipherId` does not decrypt the error is `Aead`; otherwise the key is
/// `K0` and the list is derived from `Rsp`, both read from the plaintext.
pub open spec fn is_prepared(
    uid: Seq<u8>,
    lsj: Seq<u8>,
    state_key: Seq<u8>,
    cid: CipherId,
    nsp: nat,
    res: Result<([u8; 32], Seq<(u32, [u8; 32])>), UpspaError>,
) -> bool {
    match cid.opened(state_key, cipherid_aad_spec(uid)) {
        None => res matches Err(e) && e == UpspaError::Aead,
        Some(pt) => res matches Ok(q) && q.0@ == pt.subrange(64, 96) && is_suid_list(
            q.1,
            pt.subrange(32, 64),
            lsj,
            nsp,
        ),
    }
}

/// The key and list of an [`AuthQueries`] result.
pub open spec fn auth_queries_view(res: Result<AuthQueries, UpspaError>) -> Result<
    ([u8; 32], Seq<(u32, [u8; 32])>),
    UpspaError,
> {
    match res {
        Ok(q) => Ok((q.k0, q.per_sp@)),
        Err(e) => Err(e),
    }
}

/// Decrypts the `CipherId` and derives the index of `lsj` at each of the
/// `nsp` providers.
pub fn client_auth_prepare(
    uid: &[u8],
    lsj: &[u8],
    password_state_key: &[u8; 32],
    cid: &CipherId,
    nsp: usize,
) -> (res: Result<AuthQueries, UpspaError>)
    requires
        nsp <= u32::MAX,
    ensures
        is_prepared(uid@, lsj@, password_state_key@, *cid, nsp as nat, auth_queries_view(res)),
{
    let cid_pt = match decrypt_cid(uid, password_state_key, cid) {
        Ok(pt) => pt,
        Err(e) => { return Err(e); },
    };
    let ghost pt = cid_pt.spec_bytes();
    assert(cid_pt.rsp@ =~= pt.subrange(32, 64));
    assert(cid_pt.k0@ =~= pt.subrange(64, 96));
    let per_sp = suid_list(&cid_pt.rsp, lsj, nsp);
    Ok(AuthQueries { k0: cid_pt.k0, per_sp })
}

/// What [`client_auth_finish`] owes. No blob at all is a length error and
/// a blob that does not decrypt is fatal. Otherwise the answer carries the
/// greatest counter among the blobs and the tag of the secret that the last
/// blob with that counter holds.
pub open spec fn is_auth_result(
    uid: Seq<u8>,
    lsj: Seq<u8>,
    k0: Seq<u8>,
    cjs: Seq<CipherSp>,
    res: Result<AuthResult, UpspaError>,
) -> bool {
    if cjs.len() == 0 {
        res matches Err(e) && e == (UpspaError::InvalidLength { expected: 1, got: 0 })
    } else if !all_open(uid, k0, cjs) {
        res matches Err(e) && e == UpspaError::Aead
    } else {
        res matches Ok(r) && exists|b: int| #[trigger]
            is_latest_max(uid, k0, cjs, b) && r.best_ctr == ctr_at(uid, k0, cjs, b)
                && r.vinfo_prime@ == vinfo_spec(rlsj_at(uid, k0, cjs, b), lsj)
    }
}

/// Decrypts the providers' blobs under `K0` and recomputes the login
/// service's tag from the record with the greatest counter.
pub fn client_auth_finish(uid: &[u8], lsj: &[u8], k0: &[u8; 32], cjs: &[CipherSp]) -> (res: Result<
    AuthResult,
    UpspaError,
>)
    ensures
        is_auth_result(uid@, lsj@, k0@, cjs@, res),
{
    let rec = match latest_record(uid, k0, cjs) {
        Ok(rec) => rec,
        Err(e) => { return Err(e); },
    };
    let vinfo_prime = hash_vinfo(&rec.rlsj, lsj);
    Ok(AuthResult { vinfo_prime, best_ctr: rec.ctr })
}

/// A blob that seals a record under `K0` opens to that record.
pub proof fn lemma_sealed_record_opens(
    uid: Seq<u8>,
    k0: Seq<u8>,
    cjs: Seq<CipherSp>,
    j: int,
    rlsj: Seq<u8>,
    ctr: u64,
)
    requires
        0 <= j < cjs.len(),
        rlsj.len() == 32,
        cjs[j].seals(k0, ciphersp_aad_spec(uid), ciphersp_plaintext(rlsj, ctr)),
    ensures
        opened_cj(uid, k0, cjs, j) is Some,
        ctr_at(uid, k0, cjs, j) == ctr,
        rlsj_at(uid, k0, cjs, j) == rlsj,
{
    lemma_ciphersp_layout(rlsj, ctr);
}

/// Authentication against blobs that all seal one record answers with that
/// record: its counter, and the tag of its secret.
pub proof fn lemma_auth_of_one_record(
    uid: Seq<u8>,
    lsj: Seq<u8>,
    k0: Seq<u8>,
    cjs: Seq<CipherSp>,
    rlsj: Seq<u8>,
    ctr: u64,
    res: Result<AuthResult, UpspaError>,
)
    requires
        cjs.len() >= 1,
        rlsj.len() == 32,
        forall|j: int|
            0 <= j < cjs.len() ==> (#[trigger] cjs[j]).seals(
                k0,
                ciphersp_aad_spec(uid),
                ciphersp_plaintext(rlsj, ctr),
            ),
        is_auth_result(uid, lsj, k0, cjs, res),
    ensures
        res is Ok,
        res.unwrap().best_ctr == ctr,
        res.unwrap().vinfo_prime@ == vinfo_spec(rlsj, lsj),
{
    assert forall|j: int| 0 <= j < cjs.len() implies (#[trigger] opened_cj(uid, k0, cjs, j)) is Some
        && ctr_at(uid, k0, cjs, j) == ctr && rlsj_at(uid, k0, cjs, j) == rlsj by {
        assert(cjs[j].seals(k0, ciphersp_aad_spec(uid), ciphersp_plaintext(rlsj, ctr)));
        lemma_sealed_record_opens(uid, k0, cjs, j, rlsj, ctr);
    }
    assert(all_open(uid, k0, cjs));
    let b = choose|b: int| #[trigger]
        is_latest_max(uid, k0, cjs, b) && res.unwrap().best_ctr == ctr_at(uid, k0, cjs, b)
            && res.unwrap().vinfo_prime@ == vinfo_spec(rlsj_at(uid, k0, cjs, b), lsj);
    assert(opened_cj(uid, k0, cjs, b) is Some);
}

/// Authentication matches registration. Where every blob that the
/// providers hand back is one that a registration gave them, the client's
/// answer carries the tag that the registration gave the login service, with
/// counter zero.
pub proof fn lemma_auth_matches_register(
    reg: RegistrationOutput,
    uid: Seq<u8>,
    lsj: Seq<u8>,
    rsp: Seq<u8>,
    k0: Seq<u8>,
    nsp: nat,
    rlsj: Seq<u8>,
    nonce: Seq<u8>,
    cjs: Seq<CipherSp>,
    res: Result<AuthResult, UpspaError>,
)
    requires
        is_registration(reg, uid, lsj, rsp, k0, nsp, rlsj, nonce),
        rlsj.len() == 32,
        cjs.len() >= 1,
        forall|j: int|
            0 <= j < cjs.len() ==> exists|i: int|
                0 <= i < nsp && #[trigger] cjs[j] == (#[trigger] reg.per_sp@[i]).cj,
        is_auth_result(uid, lsj, k0, cjs, res),
    ensures
        res is Ok,
        res.unwrap().vinfo_prime@ == reg.to_ls.vinfo@,
        res.unwrap().best_ctr == 0,
{
    assert forall|j: int| 0 <= j < cjs.len() implies (#[trigger] cjs[j]).seals(
        k0,
        ciphersp_aad_spec(uid),
        ciphersp_plaintext(rlsj, 0),
    ) by {
        let i = choose|i: int| 0 <= i < nsp && #[trigger] cjs[j] == (#[trigger] reg.per_sp@[i]).cj;
        assert(reg.per_sp@[i].cj.seals(k0, ciphersp_aad_spec(uid), ciphersp_plaintext(rlsj, 0)));
    }
    lemma_auth_of_one_record(uid, lsj, k0, cjs, rlsj, 0, res);
}

} // verus!
