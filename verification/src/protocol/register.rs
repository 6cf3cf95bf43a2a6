//! Registration with a login service.
//!
//! The client draws a fresh secret for the login service, encrypts it with
//! counter zero under `K0`, and hands the same blob to every provider under
//! that provider's own index. The login service gets the tag of the secret.

use vstd::prelude::*;
use crate::aead::xchacha_encrypt_with_nonce;
use crate::bytes::append_bytes;
use crate::hash::{hash_suid, hash_vinfo, suid_spec, vinfo_spec};
use crate::protocol::{
    cipherid_aad_spec, ciphersp_aad, ciphersp_aad_spec, ciphersp_plaintext, ciphersp_pt_bytes,
    decrypt_cid, CipherId, CipherSp,
};
use crate::rng::random_bytes;
use crate::types::{CtBlob, UpspaError, NONCE_LEN};

verus! {

/// What provider `sp_id` stores for the login service.
#[derive(Clone, Debug)]
pub struct RegistrationSpMessage {
    pub sp_id: u32,
    pub suid: [u8; 32],
    pub cj: CipherSp,
}

/// What the login service stores for the user.
#[derive(Clone, Debug)]
pub struct RegistrationLsMessage {
    pub uid: Vec<u8>,
    pub vinfo: [u8; 32],
}

/// All messages of one registration.
#[derive(Clone, Debug)]
pub struct RegistrationOutput {
    pub per_sp: Vec<RegistrationSpMessage>,
    pub to_ls: RegistrationLsMessage,
}

/// Whether `out` registers the secret `rlsj` of login service `lsj` for the
/// user: one blob, made with `nonce`, seals the secret with counter zero
/// under `K0`; every provider from 1 to `nsp` gets that blob under its own
/// index; the login service gets the tag of the secret.
pub open spec fn is_registration(
    out: RegistrationOutput,
    uid: Seq<u8>,
    lsj: Seq<u8>,
    rsp: Seq<u8>,
    k0: Seq<u8>,
    nsp: nat,
    rlsj: Seq<u8>,
    nonce: Seq<u8>,
) -> bool {
    &&& out.to_ls.uid@ == uid
    &&& out.to_ls.vinfo@ == vinfo_spec(rlsj, lsj)
    &&& out.per_sp@.len() == nsp
    &&& forall|i: int|
        0 <= i < nsp ==> {
            let m = #[trigger] out.per_sp@[i];
            &&& m.sp_id == i + 1
            &&& m.suid@ == suid_spec(rsp, lsj, (i + 1) as u32)
            &&& m.cj.nonce@ == nonce
            &&& m.cj.seals(k0, ciphersp_aad_spec(uid), ciphersp_plaintext(rlsj, 0))
        }
}

/// Builds the messages of a registration from `Rsp`, `K0`, the fresh secret
/// and the nonce.
pub fn client_register_with(
    uid: &[u8],
    lsj: &[u8],
    rsp: &[u8; 32],
    k0: &[u8; 32],
    nsp: usize,
    rlsj: [u8; 32],
    nonce: [u8; NONCE_LEN],
) -> (out: RegistrationOutput)
    requires
        nsp <= u32::MAX,
    ensures
        is_registration(out, uid@, lsj@, rsp@, k0@, nsp as nat, rlsj@, nonce@),
{
    let pt = ciphersp_pt_bytes(&rlsj, 0);
    let aad = ciphersp_aad(uid);
    let cj = xchacha_encrypt_with_nonce(k0, aad.as_slice(), &pt, nonce);
    let vinfo = hash_vinfo(&rlsj, lsj);
    let mut per_sp: Vec<RegistrationSpMessage> = Vec::new();
    let mut i: usize = 0;
    while i < nsp
        invariant
            i <= nsp <= u32::MAX,
            cj.nonce == nonce,
            cj.seals(k0@, ciphersp_aad_spec(uid@), ciphersp_plaintext(rlsj@, 0)),
            per_sp@.len() == i,
            forall|j: int|
                0 <= j < i ==> {
                    let m = #[trigger] per_sp@[j];
                    &&& m.sp_id == j + 1
                    &&& m.suid@ == suid_spec(rsp@, lsj@, (j + 1) as u32)
                    &&& m.cj.nonce@ == nonce@
                    &&& m.cj.seals(k0@, ciphersp_aad_spec(uid@), ciphersp_plaintext(rlsj@, 0))
                },
        decreases nsp - i,
    {
        let sp_id: u32 = (i + 1) as u32;
        let suid = hash_suid(rsp, lsj, sp_id);
        per_sp.push(
            RegistrationSpMessage {
                sp_id,
                suid,
                cj: CtBlob { nonce: cj.nonce, ct: cj.ct, tag: cj.tag },
            },
        );
        i += 1;
    }
    let mut uid_copy = Vec::new();
    append_bytes(&mut uid_copy, uid);
    RegistrationOutput { per_sp, to_ls: RegistrationLsMessage { uid: uid_copy, vinfo } }
}

/// What [`client_register`] owes. Where the `CipherId` does not decrypt the
/// error is `Aead`. Otherwise the output registers some 32-byte secret, with
/// some nonce, under the `Rsp` and `K0` that the `CipherId` holds.
pub open spec fn is_register_result(
    uid: Seq<u8>,
    lsj: Seq<u8>,
    state_key: Seq<u8>,
    cid: CipherId,
    nsp: nat,
    res: Result<RegistrationOutput, UpspaError>,
) -> bool {
    match cid.opened(state_key, cipherid_aad_spec(uid)) {
        None => res matches Err(e) && e == UpspaError::Aead,
        Some(pt) => res is Ok && exists|rlsj: Seq<u8>, nonce: Seq<u8>|
            rlsj.len() == 32 && nonce.len() == 24 && #[trigger] is_registration(
                res.unwrap(),
                uid,
                lsj,
                pt.subrange(32, 64),
                pt.subrange(64, 96),
                nsp,
                rlsj,
                nonce,
            ),
    }
}

/// Registers the user with login service `lsj`: decrypts the `CipherId`,
/// draws the login service's secret and a nonce, and builds the messages.
pub fn client_register(
    uid: &[u8],
    lsj: &[u8],
    password_state_key: &[u8; 32],
    cid: &CipherId,
    nsp: usize,
    rng: &mut rand_chacha::ChaCha20Rng,
) -> (res: Result<RegistrationOutput, UpspaError>)
    requires
        nsp <= u32::MAX,
    ensures
        is_register_result(uid@, lsj@, password_state_key@, *cid, nsp as nat, res),
{
    let cid_pt = match decrypt_cid(uid, password_state_key, cid) {
        Ok(pt) => pt,
        Err(e) => { return Err(e); },
    };
    let ghost pt = cid_pt.spec_bytes();
    assert(cid_pt.rsp@ =~= pt.subrange(32, 64));
    assert(cid_pt.k0@ =~= pt.subrange(64, 96));
    let rlsj = random_bytes::<32>(rng);
    let nonce = random_bytes::<NONCE_LEN>(rng);
    let out = client_register_with(uid, lsj, &cid_pt.rsp, &cid_pt.k0, nsp, rlsj, nonce);
    let res = Ok(out);
    proof {
        assert(rlsj@.len() == 32 && nonce@.len() == 24);
        assert(is_registration(
            res.unwrap(),
            uid@,
            lsj@,
            pt.subrange(32, 64),
            pt.subrange(64, 96),
            nsp as nat,
            rlsj@,
            nonce@,
        ));
    }
    res
}

} // verus!
