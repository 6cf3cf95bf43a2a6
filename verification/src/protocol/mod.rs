//! The protocol's two ciphertext shapes and the five client flows.
//!
//! `CipherId` carries the signing seed, the provider randomness `Rsp` and the
//! key `K0`; it is encrypted under the state key. `CipherSp` carries a login
//! service's secret and its counter; it is encrypted under `K0`. Each is
//! bound to the user and to its own context by the associated data.

use vstd::prelude::*;
use vstd::string::StringSliceAdditionalSpecFns;
use vstd::bytes::{spec_u64_from_le_bytes, spec_u64_to_le_bytes, u64_from_le_bytes, u64_to_le_bytes};
use crate::aead::xchacha_decrypt_detached;
use crate::hash::{hash_suid, suid_spec};
use crate::bytes::{append_bytes, array_from_slice, subarray};
use crate::sign::SigningKey;
use crate::types::{CtBlob, UpspaError};

pub mod authenticate;
pub mod password_update;
pub mod register;
pub mod secret_update;
pub mod setup;

verus! {

/// Length of the plaintext of a `CipherId`.
pub const CIPHERID_PT_LEN: usize = 96;

/// Length of the plaintext of a `CipherSp`.
pub const CIPHERSP_PT_LEN: usize = 40;

/// The blob that carries signing seed, `Rsp` and `K0`.
pub type CipherId = CtBlob<CIPHERID_PT_LEN>;

/// The blob that carries a login service's secret and counter.
pub type CipherSp = CtBlob<CIPHERSP_PT_LEN>;

/// Associated data of a `CipherId`: the user id, then `|cipherid`.
pub open spec fn cipherid_aad_spec(uid: Seq<u8>) -> Seq<u8> {
    uid + "|cipherid".spec_bytes()
}

/// Associated data of a `CipherSp`: the user id, then `|ciphersp`.
pub open spec fn ciphersp_aad_spec(uid: Seq<u8>) -> Seq<u8> {
    uid + "|ciphersp".spec_bytes()
}

/// Plaintext of a `CipherId`: signing seed, `Rsp`, `K0`, 32 bytes each.
pub open spec fn cipherid_plaintext(ssk: Seq<u8>, rsp: Seq<u8>, k0: Seq<u8>) -> Seq<u8> {
    ssk + rsp + k0
}

/// Plaintext of a `CipherSp`: the 32-byte secret, then the counter as eight
/// little-endian bytes.
pub open spec fn ciphersp_plaintext(rlsj: Seq<u8>, ctr: u64) -> Seq<u8> {
    rlsj + spec_u64_to_le_bytes(ctr)
}

/// The two contexts never give the same associated data for one user: the
/// eighth byte after the user id is `i` in one and `s` in the other.
pub proof fn lemma_contexts_differ(uid: Seq<u8>)
    ensures
        cipherid_aad_spec(uid) != ciphersp_aad_spec(uid),
        cipherid_aad_spec(uid).len() == uid.len() + 9,
        ciphersp_aad_spec(uid).len() == uid.len() + 9,
{
    reveal_strlit("|cipherid");
    reveal_strlit("|ciphersp");
    vstd::string::is_ascii_spec_bytes("|cipherid");
    vstd::string::is_ascii_spec_bytes("|ciphersp");
    let a = "|cipherid".spec_bytes();
    let b = "|ciphersp".spec_bytes();
    assert(a.len() == 9 && b.len() == 9);
    assert(a[7] == 105u8);
    assert(b[7] == 115u8);
    let k = uid.len() as int + 7;
    assert(cipherid_aad_spec(uid)[k] == a[7]);
    assert(ciphersp_aad_spec(uid)[k] == b[7]);
}

/// Associated data for encrypting and decrypting a `CipherId`.
pub fn cipherid_aad(uid: &[u8]) -> (aad: Vec<u8>)
    ensures
        aad@ == cipherid_aad_spec(uid@),
{
    let mut aad = Vec::new();
    append_bytes(&mut aad, uid);
    append_bytes(&mut aad, "|cipherid".as_bytes());
    aad
}

/// Associated data for encrypting and decrypting a `CipherSp`.
pub fn ciphersp_aad(uid: &[u8]) -> (aad: Vec<u8>)
    ensures
        aad@ == ciphersp_aad_spec(uid@),
{
    let mut aad = Vec::new();
    append_bytes(&mut aad, uid);
    append_bytes(&mut aad, "|ciphersp".as_bytes());
    aad
}

/// What a `CipherId` holds.
#[derive(Clone, Debug)]
pub struct CidPlaintext {
    pub ssk_bytes: [u8; 32],
    pub signing_key: SigningKey,
    pub rsp: [u8; 32],
    pub k0: [u8; 32],
}

impl CidPlaintext {
    /// The 96 bytes that the fields spell: seed, `Rsp`, `K0`.
    pub open spec fn spec_bytes(self) -> Seq<u8> {
        cipherid_plaintext(self.ssk_bytes@, self.rsp@, self.k0@)
    }

    /// Whether the signing key is the one of the seed held beside it.
    pub open spec fn wf(self) -> bool {
        self.signing_key@ == self.ssk_bytes@
    }

    /// Lays the fields out as the plaintext of a `CipherId`.
    pub fn to_bytes(&self) -> (pt: [u8; CIPHERID_PT_LEN])
        ensures
            pt@ == self.spec_bytes(),
    {
        let mut v = Vec::new();
        append_bytes(&mut v, self.ssk_bytes.as_slice());
        append_bytes(&mut v, self.rsp.as_slice());
        append_bytes(&mut v, self.k0.as_slice());
        array_from_slice::<CIPHERID_PT_LEN>(v.as_slice())
    }
}

/// Splits the plaintext of a `CipherId` into its three fields.
pub fn parse_cipherid_pt(pt: &[u8; CIPHERID_PT_LEN]) -> (out: CidPlaintext)
    ensures
        out.wf(),
        out.spec_bytes() == pt@,
        out.ssk_bytes@ == pt@.subrange(0, 32),
        out.rsp@ == pt@.subrange(32, 64),
        out.k0@ == pt@.subrange(64, 96),
{
    let ssk_bytes = subarray::<32>(pt.as_slice(), 0);
    let rsp = subarray::<32>(pt.as_slice(), 32);
    let k0 = subarray::<32>(pt.as_slice(), 64);
    let signing_key = SigningKey { seed: ssk_bytes };
    let out = CidPlaintext { ssk_bytes, signing_key, rsp, k0 };
    assert(out.spec_bytes() =~= pt@);
    out
}

/// Decrypts a `CipherId` under the state key; any failure is `Aead`.
pub fn decrypt_cid(uid: &[u8], state_key: &[u8; 32], cid: &CipherId) -> (res: Result<
    CidPlaintext,
    UpspaError,
>)
    ensures
        match cid.opened(state_key@, cipherid_aad_spec(uid@)) {
            Some(pt) => res matches Ok(out) && out.wf() && out.spec_bytes() == pt,
            None => res matches Err(e) && e == UpspaError::Aead,
        },
{
    let aad = cipherid_aad(uid);
    match xchacha_decrypt_detached(state_key, aad.as_slice(), cid) {
        Ok(pt) => Ok(parse_cipherid_pt(&pt)),
        Err(e) => Err(UpspaError::from(e)),
    }
}

/// What a `CipherSp` holds.
#[derive(Clone, Debug, PartialEq, Eq)]
pub struct CipherSpPlaintext {
    pub rlsj: [u8; 32],
    pub ctr: u64,
}

impl CipherSpPlaintext {
    /// The 40 bytes that the fields spell.
    pub open spec fn spec_bytes(self) -> Seq<u8> {
        ciphersp_plaintext(self.rlsj@, self.ctr)
    }
}

/// The secret in the plaintext of a `CipherSp`: its first 32 bytes.
pub open spec fn ciphersp_rlsj(pt: Seq<u8>) -> Seq<u8> {
    pt.subrange(0, 32)
}

/// The counter in the plaintext of a `CipherSp`: its last eight bytes, read
/// in little-endian order.
pub open spec fn ciphersp_ctr(pt: Seq<u8>) -> u64 {
    spec_u64_from_le_bytes(pt.subrange(32, 40))
}

/// A plaintext laid out from a secret and a counter reads back as both.
pub proof fn lemma_ciphersp_layout(rlsj: Seq<u8>, ctr: u64)
    requires
        rlsj.len() == 32,
    ensures
        ciphersp_plaintext(rlsj, ctr).len() == 40,
        ciphersp_rlsj(ciphersp_plaintext(rlsj, ctr)) == rlsj,
        ciphersp_ctr(ciphersp_plaintext(rlsj, ctr)) == ctr,
{
    vstd::bytes::lemma_auto_spec_u64_to_from_le_bytes();
    let pt = ciphersp_plaintext(rlsj, ctr);
    assert(pt.subrange(0, 32) =~= rlsj);
    assert(pt.subrange(32, 40) =~= spec_u64_to_le_bytes(ctr));
}

/// Splits the plaintext of a `CipherSp` into secret and counter.
pub fn parse_ciphersp_pt(pt: &[u8; CIPHERSP_PT_LEN]) -> (out: CipherSpPlaintext)
    ensures
        out.rlsj@ == ciphersp_rlsj(pt@),
        out.ctr == ciphersp_ctr(pt@),
        out.spec_bytes() == pt@,
{
    let rlsj = subarray::<32>(pt.as_slice(), 0);
    let ctr_bytes = subarray::<8>(pt.as_slice(), 32);
    let ctr = u64_from_le_bytes(ctr_bytes.as_slice());
    let out = CipherSpPlaintext { rlsj, ctr };
    proof {
        vstd::bytes::lemma_auto_spec_u64_to_from_le_bytes();
        assert(spec_u64_to_le_bytes(ctr) == pt@.subrange(32, 40));
        assert(out.spec_bytes() =~= pt@);
    }
    out
}

/// Decrypts a `CipherSp` under `K0`; any failure is `Aead`.
pub fn decrypt_cj(uid: &[u8], k0: &[u8; 32], cj: &CipherSp) -> (res: Result<
    CipherSpPlaintext,
    UpspaError,
>)
    ensures
        match cj.opened(k0@, ciphersp_aad_spec(uid@)) {
            Some(pt) => res matches Ok(out) && out.rlsj@ == ciphersp_rlsj(pt) && out.ctr
                == ciphersp_ctr(pt) && out.spec_bytes() == pt,
            None => res matches Err(e) && e == UpspaError::Aead,
        },
{
    let aad = ciphersp_aad(uid);
    match xchacha_decrypt_detached(k0, aad.as_slice(), cj) {
        Ok(pt) => Ok(parse_ciphersp_pt(&pt)),
        Err(e) => Err(UpspaError::from(e)),
    }
}

/// Lays a secret and a counter out as the plaintext of a `CipherSp`.
pub fn ciphersp_pt_bytes(rlsj: &[u8; 32], ctr: u64) -> (pt: [u8; CIPHERSP_PT_LEN])
    ensures
        pt@ == ciphersp_plaintext(rlsj@, ctr),
{
    let ctr_bytes = u64_to_le_bytes(ctr);
    let mut v = Vec::new();
    append_bytes(&mut v, rlsj.as_slice());
    append_bytes(&mut v, ctr_bytes.as_slice());
    array_from_slice::<CIPHERSP_PT_LEN>(v.as_slice())
}

/// Whether `per_sp` lists, for each provider from 1 to `nsp` in order, the
/// provider's id with the index under which it files the record of `lsj`.
pub open spec fn is_suid_list(
    per_sp: Seq<(u32, [u8; 32])>,
    rsp: Seq<u8>,
    lsj: Seq<u8>,
    nsp: nat,
) -> bool {
    &&& per_sp.len() == nsp
    &&& forall|i: int|
        0 <= i < nsp ==> (#[trigger] per_sp[i]).0 == i + 1 && per_sp[i].1@ == suid_spec(
            rsp,
            lsj,
            (i + 1) as u32,
        )
}

/// Derives the index of `lsj` at each provider from 1 to `nsp`.
pub fn suid_list(rsp: &[u8; 32], lsj: &[u8], nsp: usize) -> (per_sp: Vec<(u32, [u8; 32])>)
    requires
        nsp <= u32::MAX,
    ensures
        is_suid_list(per_sp@, rsp@, lsj@, nsp as nat),
{
    let mut per_sp: Vec<(u32, [u8; 32])> = Vec::new();
    let mut i: usize = 0;
    while i < nsp
        invariant
            i <= nsp <= u32::MAX,
            is_suid_list(per_sp@, rsp@, lsj@, i as nat),
        decreases nsp - i,
    {
        let id: u32 = (i + 1) as u32;
        let suid = hash_suid(rsp, lsj, id);
        per_sp.push((id, suid));
        i += 1;
    }
    per_sp
}

/// What the `j`-th blob decrypts to under `K0` and the user's `CipherSp`
/// context.
pub open spec fn opened_cj(uid: Seq<u8>, k0: Seq<u8>, cjs: Seq<CipherSp>, j: int) -> Option<
    Seq<u8>,
> {
    cjs[j].opened(k0, ciphersp_aad_spec(uid))
}

/// Whether every blob decrypts.
pub open spec fn all_open(uid: Seq<u8>, k0: Seq<u8>, cjs: Seq<CipherSp>) -> bool {
    forall|j: int| 0 <= j < cjs.len() ==> (#[trigger] opened_cj(uid, k0, cjs, j)) is Some
}

/// The counter in the `j`-th blob.
pub open spec fn ctr_at(uid: Seq<u8>, k0: Seq<u8>, cjs: Seq<CipherSp>, j: int) -> u64 {
    ciphersp_ctr(opened_cj(uid, k0, cjs, j).unwrap())
}

/// The secret in the `j`-th blob.
pub open spec fn rlsj_at(uid: Seq<u8>, k0: Seq<u8>, cjs: Seq<CipherSp>, j: int) -> Seq<u8> {
    ciphersp_rlsj(opened_cj(uid, k0, cjs, j).unwrap())
}

/// Whether blob `b` carries the greatest counter and is the last to do so.
pub open spec fn is_latest_max(uid: Seq<u8>, k0: Seq<u8>, cjs: Seq<CipherSp>, b: int) -> bool {
    &&& 0 <= b < cjs.len()
    &&& forall|j: int| 0 <= j < cjs.len() ==> #[trigger] ctr_at(uid, k0, cjs, j) <= ctr_at(uid, k0, cjs, b)
    &&& forall|j: int| b < j < cjs.len() ==> #[trigger] ctr_at(uid, k0, cjs, j) < ctr_at(uid, k0, cjs, b)
}

/// Only one blob carries the greatest counter last.
pub proof fn lemma_latest_max_unique(uid: Seq<u8>, k0: Seq<u8>, cjs: Seq<CipherSp>, a: int, b: int)
    requires
        is_latest_max(uid, k0, cjs, a),
        is_latest_max(uid, k0, cjs, b),
    ensures
        a == b,
{
    if a < b {
        assert(ctr_at(uid, k0, cjs, b) < ctr_at(uid, k0, cjs, a));
        assert(ctr_at(uid, k0, cjs, a) <= ctr_at(uid, k0, cjs, b));
    }
    if b < a {
        assert(ctr_at(uid, k0, cjs, a) < ctr_at(uid, k0, cjs, b));
        assert(ctr_at(uid, k0, cjs, b) <= ctr_at(uid, k0, cjs, a));
    }
}

/// What [`latest_record`] owes: no blob at all is a length error, a blob
/// that does not decrypt is fatal, and otherwise the record comes from the
/// blob that carries the greatest counter last.
pub open spec fn is_latest_record(
    uid: Seq<u8>,
    k0: Seq<u8>,
    cjs: Seq<CipherSp>,
    res: Result<CipherSpPlaintext, UpspaError>,
) -> bool {
    if cjs.len() == 0 {
        res matches Err(e) && e == (UpspaError::InvalidLength { expected: 1, got: 0 })
    } else if !all_open(uid, k0, cjs) {
        res matches Err(e) && e == UpspaError::Aead
    } else {
        res matches Ok(rec) && exists|b: int| #[trigger]
            is_latest_max(uid, k0, cjs, b) && rec.ctr == ctr_at(uid, k0, cjs, b) && rec.rlsj@
                == rlsj_at(uid, k0, cjs, b)
    }
}

/// Decrypts every blob and keeps the record with the greatest counter; of
/// equal counters the later blob wins.
pub fn latest_record(uid: &[u8], k0: &[u8; 32], cjs: &[CipherSp]) -> (res: Result<
    CipherSpPlaintext,
    UpspaError,
>)
    ensures
        is_latest_record(uid@, k0@, cjs@, res),
{
    if cjs.len() == 0 {
        return Err(UpspaError::InvalidLength { expected: 1, got: 0 });
    }
    let mut best = CipherSpPlaintext { rlsj: [0u8; 32], ctr: 0 };
    let ghost mut b: int = 0;
    let mut i: usize = 0;
    while i < cjs.len()
        invariant
            i <= cjs@.len(),
            forall|j: int| 0 <= j < i ==> (#[trigger] opened_cj(uid@, k0@, cjs@, j)) is Some,
            i == 0 ==> best.ctr == 0,
            i > 0 ==> {
                &&& 0 <= b < i
                &&& best.ctr == ctr_at(uid@, k0@, cjs@, b)
                &&& best.rlsj@ == rlsj_at(uid@, k0@, cjs@, b)
                &&& forall|j: int| 0 <= j < i ==> #[trigger] ctr_at(uid@, k0@, cjs@, j) <= best.ctr
                &&& forall|j: int| b < j < i ==> #[trigger] ctr_at(uid@, k0@, cjs@, j) < best.ctr
            },
        decreases cjs@.len() - i,
    {
        match decrypt_cj(uid, k0, &cjs[i]) {
            Err(e) => {
                assert(opened_cj(uid@, k0@, cjs@, i as int) is None);
                return Err(e);
            },
            Ok(pt) => {
                assert(opened_cj(uid@, k0@, cjs@, i as int) is Some);
                assert(pt.ctr == ctr_at(uid@, k0@, cjs@, i as int));
                if pt.ctr >= best.ctr {
                    best = pt;
                    proof {
                        b = i as int;
                    }
                }
            },
        }
        i += 1;
    }
    assert(is_latest_max(uid@, k0@, cjs@, b));
    Ok(best)
}

} // verus!
