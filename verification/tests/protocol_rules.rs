use rand_chacha::ChaCha20Rng;
use rand_core::SeedableRng;

use upspa_core::aead::{xchacha_decrypt_detached, xchacha_encrypt_with_nonce};
use upspa_core::hash::{hash_suid, hash_to_point, hash_vinfo, oprf_finalize};
use upspa_core::protocol::authenticate::{client_auth_finish, client_auth_prepare};
use upspa_core::protocol::password_update::{
    client_password_update, client_password_update_with, pwd_update_sig_message,
    PWD_UPDATE_SIG_MSG_LEN,
};
use upspa_core::protocol::register::{client_register, client_register_with};
use upspa_core::protocol::secret_update::{
    client_secret_update_finish, client_secret_update_prepare, client_secret_update_with,
};
use upspa_core::protocol::setup::{client_setup, client_setup_with, SetupOutput};
use upspa_core::protocol::{
    cipherid_aad, ciphersp_aad, ciphersp_pt_bytes, decrypt_cid, decrypt_cj, latest_record,
    parse_cipherid_pt, parse_ciphersp_pt, suid_list, CidPlaintext, CipherId, CipherSp,
    CipherSpPlaintext, CIPHERID_PT_LEN, CIPHERSP_PT_LEN,
};
use upspa_core::scalar::Scalar;
use upspa_core::sign::{signing_key_from_bytes, verify_detached};
use upspa_core::toprf::{
    scalar_from_canonical_bytes, toprf_server_eval, ToprfClient, ToprfPartial,
};
use upspa_core::types::{b64_encode, CtBlob, UpspaError};

const UID: &[u8] = b"user123";
const LSJ: &[u8] = b"LS1";

fn small(x: u64) -> Scalar {
    let mut bytes = [0u8; 32];
    bytes[..8].copy_from_slice(&x.to_le_bytes());
    scalar_from_canonical_bytes(&bytes).unwrap()
}

fn state_key_via_oprf(
    password: &[u8],
    shares: &[(u32, [u8; 32])],
    take: usize,
    rng: &mut ChaCha20Rng,
) -> [u8; 32] {
    let (state, blinded) = ToprfClient::begin(password, rng);
    let partials: Vec<ToprfPartial> = shares
        .iter()
        .take(take)
        .map(|(id, k)| ToprfPartial { id: *id, y: toprf_server_eval(&blinded, k).unwrap() })
        .collect();
    ToprfClient::finish(password, &state, &partials).unwrap()
}

fn sealed_record(k0: &[u8; 32], rlsj: [u8; 32], ctr: u64, nonce_byte: u8) -> CipherSp {
    let pt = ciphersp_pt_bytes(&rlsj, ctr);
    xchacha_encrypt_with_nonce(k0, &ciphersp_aad(UID), &pt, [nonce_byte; 24])
}

fn set_up(seed: u8, nsp: usize, tsp: usize) -> (SetupOutput, [u8; 32], ChaCha20Rng) {
    let mut rng = ChaCha20Rng::from_seed([seed; 32]);
    let (out, _payloads) = client_setup(UID, b"benchmark password", nsp, tsp, &mut rng);
    let key = state_key_via_oprf(b"benchmark password", &out.shares, tsp, &mut rng);
    (out, key, rng)
}

#[test]
fn associated_data_is_user_id_then_context() {
    assert_eq!(cipherid_aad(UID), b"user123|cipherid".to_vec());
    assert_eq!(ciphersp_aad(UID), b"user123|ciphersp".to_vec());
    assert_eq!(cipherid_aad(b""), b"|cipherid".to_vec());
    assert_eq!(ciphersp_aad(b""), b"|ciphersp".to_vec());
    assert_ne!(cipherid_aad(UID), ciphersp_aad(UID));
}

#[test]
fn cipherid_plaintext_is_seed_rsp_k0() {
    let mut pt = [0u8; CIPHERID_PT_LEN];
    for (i, b) in pt.iter_mut().enumerate() {
        *b = i as u8;
    }
    let parsed = parse_cipherid_pt(&pt);
    assert_eq!(parsed.ssk_bytes[0], 0);
    assert_eq!(parsed.ssk_bytes[31], 31);
    assert_eq!(parsed.rsp[0], 32);
    assert_eq!(parsed.rsp[31], 63);
    assert_eq!(parsed.k0[0], 64);
    assert_eq!(parsed.k0[31], 95);
    assert_eq!(parsed.signing_key.to_bytes(), parsed.ssk_bytes);
    assert_eq!(parsed.to_bytes(), pt);

    let built = CidPlaintext {
        ssk_bytes: [1; 32],
        signing_key: signing_key_from_bytes(&[1; 32]),
        rsp: [2; 32],
        k0: [3; 32],
    };
    let bytes = built.to_bytes();
    assert_eq!(&bytes[..32], &[1u8; 32]);
    assert_eq!(&bytes[32..64], &[2u8; 32]);
    assert_eq!(&bytes[64..], &[3u8; 32]);
}

#[test]
fn ciphersp_plaintext_is_secret_then_little_endian_counter() {
    let pt = ciphersp_pt_bytes(&[9u8; 32], 0x0102_0304_0506_0708);
    assert_eq!(pt.len(), CIPHERSP_PT_LEN);
    assert_eq!(&pt[..32], &[9u8; 32]);
    assert_eq!(&pt[32..], &[8, 7, 6, 5, 4, 3, 2, 1]);

    let mut raw = [0u8; CIPHERSP_PT_LEN];
    raw[0] = 0xaa;
    raw[31] = 0xbb;
    raw[33] = 1;
    let parsed = parse_ciphersp_pt(&raw);
    assert_eq!(parsed.rlsj[0], 0xaa);
    assert_eq!(parsed.rlsj[31], 0xbb);
    assert_eq!(parsed.ctr, 256);
    raw[32..].copy_from_slice(&[0xff; 8]);
    assert_eq!(parse_ciphersp_pt(&raw).ctr, u64::MAX);
    assert_eq!(parse_ciphersp_pt(&pt), CipherSpPlaintext { rlsj: [9u8; 32], ctr: 0x0102_0304_0506_0708 });
}

#[test]
fn suid_list_runs_over_the_providers_from_one() {
    let rsp = [4u8; 32];
    let list = suid_list(&rsp, LSJ, 3);
    assert_eq!(list.len(), 3);
    for (i, (id, suid)) in list.iter().enumerate() {
        assert_eq!(*id as usize, i + 1);
        assert_eq!(*suid, hash_suid(&rsp, LSJ, *id));
    }
    assert_ne!(list[0].1, list[1].1);
    assert!(suid_list(&rsp, LSJ, 0).is_empty());
}

#[test]
fn setup_seals_the_secrets_under_the_state_key() {
    let coeffs = vec![small(5), small(7)];
    let (out, payloads) =
        client_setup_with(UID, b"pw", 3, &coeffs, [1; 32], [2; 32], [3; 32], [4; 24]);

    assert_eq!(out.sig_pk, signing_key_from_bytes(&[1; 32]).verifying_key());
    assert_eq!(out.cid.nonce, [4; 24]);
    assert_eq!(out.shares.len(), 3);
    for (i, expected) in [12u64, 19, 26].iter().enumerate() {
        assert_eq!(out.shares[i].0 as usize, i + 1);
        assert_eq!(out.shares[i].1, small(*expected).to_bytes());
    }

    // The state key is the hash of the password with its point times the
    // master scalar: here five times the point.
    let p = curve25519_dalek::ristretto::CompressedRistretto(hash_to_point(b"pw").to_bytes())
        .decompress()
        .unwrap();
    let y = (p * curve25519_dalek::scalar::Scalar::from(5u64)).compress().to_bytes();
    let state_key = oprf_finalize(b"pw", &upspa_core::toprf::point_from_bytes(&y).unwrap());
    let pt = xchacha_decrypt_detached(&state_key, &cipherid_aad(UID), &out.cid).unwrap();
    assert_eq!(&pt[..32], &[1u8; 32]);
    assert_eq!(&pt[32..64], &[2u8; 32]);
    assert_eq!(&pt[64..], &[3u8; 32]);

    assert_eq!(payloads.len(), 3);
    for (i, p) in payloads.iter().enumerate() {
        assert_eq!(p.sp_id as usize, i + 1);
        assert_eq!(p.uid, UID.to_vec());
        assert_eq!(p.sig_pk, out.sig_pk);
        assert_eq!(p.cid, out.cid);
        assert_eq!(p.k_i, out.shares[i].1);
    }
}

#[test]
fn setup_draws_rsp_polynomial_seed_k0_and_nonce_in_turn() {
    let mut rng = ChaCha20Rng::from_seed([21u8; 32]);
    let (out, payloads) = client_setup(UID, b"pw", 4, 2, &mut rng);
    assert_eq!(out.shares.len(), 4);
    assert_eq!(payloads.len(), 4);

    let mut again = ChaCha20Rng::from_seed([21u8; 32]);
    let mut rsp = [0u8; 32];
    rand_core::RngCore::fill_bytes(&mut again, &mut rsp);
    let coeffs = upspa_core::toprf::random_polynomial(2, &mut again);
    let mut ssk = [0u8; 32];
    rand_core::RngCore::fill_bytes(&mut again, &mut ssk);
    let mut k0 = [0u8; 32];
    rand_core::RngCore::fill_bytes(&mut again, &mut k0);
    let mut nonce = [0u8; 24];
    rand_core::RngCore::fill_bytes(&mut again, &mut nonce);
    let (expected, _) = client_setup_with(UID, b"pw", 4, &coeffs, ssk, rsp, k0, nonce);
    assert_eq!(out.sig_pk, expected.sig_pk);
    assert_eq!(out.cid, expected.cid);
    assert_eq!(out.shares, expected.shares);
}

#[test]
fn registration_hands_one_blob_to_every_provider() {
    let (setup_out, state_key, mut rng) = set_up(31, 5, 3);
    let cid_pt = decrypt_cid(UID, &state_key, &setup_out.cid).unwrap();
    let reg = client_register(UID, LSJ, &state_key, &setup_out.cid, 5, &mut rng).unwrap();

    assert_eq!(reg.per_sp.len(), 5);
    assert_eq!(reg.to_ls.uid, UID.to_vec());
    for (i, m) in reg.per_sp.iter().enumerate() {
        assert_eq!(m.sp_id as usize, i + 1);
        assert_eq!(m.suid, hash_suid(&cid_pt.rsp, LSJ, m.sp_id));
        assert_eq!(m.cj, reg.per_sp[0].cj);
    }
    let record = decrypt_cj(UID, &cid_pt.k0, &reg.per_sp[0].cj).unwrap();
    assert_eq!(record.ctr, 0);
    assert_eq!(reg.to_ls.vinfo, hash_vinfo(&record.rlsj, LSJ));
}

#[test]
fn registration_from_given_randomness() {
    let reg = client_register_with(UID, LSJ, &[2; 32], &[3; 32], 2, [7; 32], [8; 24]);
    assert_eq!(reg.per_sp.len(), 2);
    assert_eq!(reg.to_ls.vinfo, hash_vinfo(&[7; 32], LSJ));
    assert_eq!(reg.per_sp[1].suid, hash_suid(&[2; 32], LSJ, 2));
    assert_eq!(reg.per_sp[0].cj.nonce, [8; 24]);
    assert_eq!(
        decrypt_cj(UID, &[3; 32], &reg.per_sp[1].cj).unwrap(),
        CipherSpPlaintext { rlsj: [7; 32], ctr: 0 }
    );
    let none = client_register_with(UID, LSJ, &[2; 32], &[3; 32], 0, [7; 32], [8; 24]);
    assert!(none.per_sp.is_empty());
    assert_eq!(none.to_ls.vinfo, reg.to_ls.vinfo);
}

#[test]
fn a_wrong_state_key_is_an_aead_error_everywhere() {
    let (setup_out, state_key, mut rng) = set_up(32, 3, 2);
    let mut wrong = state_key;
    wrong[0] ^= 1;
    assert!(matches!(decrypt_cid(UID, &wrong, &setup_out.cid), Err(UpspaError::Aead)));
    assert!(matches!(
        client_register(UID, LSJ, &wrong, &setup_out.cid, 3, &mut rng),
        Err(UpspaError::Aead)
    ));
    assert!(matches!(
        client_auth_prepare(UID, LSJ, &wrong, &setup_out.cid, 3),
        Err(UpspaError::Aead)
    ));
    assert!(matches!(
        client_secret_update_prepare(UID, LSJ, &wrong, &setup_out.cid, 3),
        Err(UpspaError::Aead)
    ));
    assert!(matches!(
        client_password_update(UID, &wrong, &setup_out.cid, 3, 2, b"new", 1, &mut rng),
        Err(UpspaError::Aead)
    ));
    assert!(matches!(
        decrypt_cid(b"user124", &state_key, &setup_out.cid),
        Err(UpspaError::Aead)
    ));
}

#[test]
fn the_two_contexts_do_not_open_each_others_blobs() {
    let key = [5u8; 32];
    let record = ciphersp_pt_bytes(&[6; 32], 3);
    let under_cipherid: CipherSp = xchacha_encrypt_with_nonce(&key, &cipherid_aad(UID), &record, [1; 24]);
    assert!(matches!(decrypt_cj(UID, &key, &under_cipherid), Err(UpspaError::Aead)));
    let under_ciphersp: CipherSp = xchacha_encrypt_with_nonce(&key, &ciphersp_aad(UID), &record, [1; 24]);
    assert_eq!(decrypt_cj(UID, &key, &under_ciphersp).unwrap().ctr, 3);

    let secrets = [7u8; CIPHERID_PT_LEN];
    let wrong: CipherId = xchacha_encrypt_with_nonce(&key, &ciphersp_aad(UID), &secrets, [2; 24]);
    assert!(matches!(decrypt_cid(UID, &key, &wrong), Err(UpspaError::Aead)));
    let right: CipherId = xchacha_encrypt_with_nonce(&key, &cipherid_aad(UID), &secrets, [2; 24]);
    assert_eq!(decrypt_cid(UID, &key, &right).unwrap().to_bytes(), secrets);

    for aad in [&b"user123|cipheri"[..], b"user123|cipheridx", b"user123cipherid", b"user123|cipherie"] {
        let near: CipherId = xchacha_encrypt_with_nonce(&key, aad, &secrets, [2; 24]);
        assert!(matches!(decrypt_cid(UID, &key, &near), Err(UpspaError::Aead)));
    }
}

#[test]
fn prepare_steps_give_k0_and_every_providers_index() {
    let (setup_out, state_key, _rng) = set_up(33, 4, 2);
    let cid_pt = decrypt_cid(UID, &state_key, &setup_out.cid).unwrap();
    let auth = client_auth_prepare(UID, LSJ, &state_key, &setup_out.cid, 4).unwrap();
    let update = client_secret_update_prepare(UID, LSJ, &state_key, &setup_out.cid, 4).unwrap();
    assert_eq!(auth.k0, cid_pt.k0);
    assert_eq!(update.k0, cid_pt.k0);
    assert_eq!(auth.per_sp, suid_list(&cid_pt.rsp, LSJ, 4));
    assert_eq!(update.per_sp, auth.per_sp);
    assert_eq!(auth.per_sp[3].0, 4);
    let other = client_auth_prepare(UID, b"LS2", &state_key, &setup_out.cid, 4).unwrap();
    assert_ne!(other.per_sp[0].1, auth.per_sp[0].1);
}

#[test]
fn authentication_keeps_the_greatest_counter() {
    let k0 = [3u8; 32];
    let cjs = vec![
        sealed_record(&k0, [1; 32], 4, 1),
        sealed_record(&k0, [2; 32], 9, 2),
        sealed_record(&k0, [3; 32], 7, 3),
    ];
    let res = client_auth_finish(UID, LSJ, &k0, &cjs).unwrap();
    assert_eq!(res.best_ctr, 9);
    assert_eq!(res.vinfo_prime, hash_vinfo(&[2; 32], LSJ));
    assert_eq!(latest_record(UID, &k0, &cjs).unwrap(), CipherSpPlaintext { rlsj: [2; 32], ctr: 9 });
}

#[test]
fn of_equal_counters_the_later_blob_wins() {
    let k0 = [3u8; 32];
    let cjs = vec![
        sealed_record(&k0, [1; 32], 5, 1),
        sealed_record(&k0, [2; 32], 5, 2),
        sealed_record(&k0, [3; 32], 2, 3),
    ];
    let res = client_auth_finish(UID, LSJ, &k0, &cjs).unwrap();
    assert_eq!(res.best_ctr, 5);
    assert_eq!(res.vinfo_prime, hash_vinfo(&[2; 32], LSJ));

    let zeros = vec![sealed_record(&k0, [1; 32], 0, 1), sealed_record(&k0, [2; 32], 0, 2)];
    let res = client_auth_finish(UID, LSJ, &k0, &zeros).unwrap();
    assert_eq!(res.best_ctr, 0);
    assert_eq!(res.vinfo_prime, hash_vinfo(&[2; 32], LSJ));
}

#[test]
fn authentication_fails_on_no_blob_and_on_any_bad_blob() {
    let k0 = [3u8; 32];
    match client_auth_finish(UID, LSJ, &k0, &[]) {
        Err(UpspaError::InvalidLength { expected, got }) => assert_eq!((expected, got), (1, 0)),
        other => panic!("unexpected result: {:?}", other),
    }
    let good = sealed_record(&k0, [1; 32], 4, 1);
    let mut bad = sealed_record(&k0, [2; 32], 9, 2);
    bad.tag[3] ^= 0x10;
    for cjs in [vec![bad.clone()], vec![good.clone(), bad.clone()], vec![bad.clone(), good.clone()]] {
        assert!(matches!(client_auth_finish(UID, LSJ, &k0, &cjs), Err(UpspaError::Aead)));
        assert!(matches!(latest_record(UID, &k0, &cjs), Err(UpspaError::Aead)));
    }
    assert!(matches!(client_auth_finish(UID, LSJ, &[4u8; 32], &[good.clone()]), Err(UpspaError::Aead)));
    assert!(matches!(client_auth_finish(b"user124", LSJ, &k0, &[good]), Err(UpspaError::Aead)));
}

#[test]
fn authentication_matches_registration() {
    let (setup_out, state_key, mut rng) = set_up(34, 5, 3);
    let reg = client_register(UID, LSJ, &state_key, &setup_out.cid, 5, &mut rng).unwrap();
    let q = client_auth_prepare(UID, LSJ, &state_key, &setup_out.cid, 5).unwrap();
    for take in 1..=5 {
        let cjs: Vec<CipherSp> = reg.per_sp.iter().rev().take(take).map(|m| m.cj.clone()).collect();
        let res = client_auth_finish(UID, LSJ, &q.k0, &cjs).unwrap();
        assert_eq!(res.vinfo_prime, reg.to_ls.vinfo);
        assert_eq!(res.best_ctr, 0);
    }
}

#[test]
fn secret_update_raises_the_counter_by_one() {
    let k0 = [3u8; 32];
    let mut rng = ChaCha20Rng::from_seed([35u8; 32]);
    let cjs = vec![sealed_record(&k0, [1; 32], 41, 1), sealed_record(&k0, [2; 32], 17, 2)];
    let out = client_secret_update_finish(UID, LSJ, &k0, &cjs, &mut rng).unwrap();
    assert_eq!(out.old_ctr, 41);
    assert_eq!(out.new_ctr, 42);
    assert_eq!(out.vinfo_prime, hash_vinfo(&[1; 32], LSJ));
    let record = decrypt_cj(UID, &k0, &out.cj_new).unwrap();
    assert_eq!(record.ctr, 42);
    assert_eq!(out.vinfo_new, hash_vinfo(&record.rlsj, LSJ));
    assert_ne!(out.vinfo_new, out.vinfo_prime);

    let res = client_auth_finish(UID, LSJ, &k0, &vec![out.cj_new.clone(); 3]).unwrap();
    assert_eq!(res.vinfo_prime, out.vinfo_new);
    assert_eq!(res.best_ctr, 42);

    // Old and new blobs together: the new one carries the greater counter.
    let mixed = vec![out.cj_new.clone(), cjs[0].clone(), cjs[1].clone()];
    let res = client_auth_finish(UID, LSJ, &k0, &mixed).unwrap();
    assert_eq!(res.vinfo_prime, out.vinfo_new);
}

#[test]
fn secret_update_from_given_randomness() {
    let k0 = [3u8; 32];
    let old = CipherSpPlaintext { rlsj: [1; 32], ctr: 6 };
    let out = client_secret_update_with(UID, LSJ, &k0, &old, [9; 32], [8; 24]);
    assert_eq!(out.old_ctr, 6);
    assert_eq!(out.new_ctr, 7);
    assert_eq!(out.vinfo_prime, hash_vinfo(&[1; 32], LSJ));
    assert_eq!(out.vinfo_new, hash_vinfo(&[9; 32], LSJ));
    assert_eq!(out.cj_new.nonce, [8; 24]);
    assert_eq!(out.cj_new, sealed_record(&k0, [9; 32], 7, 8));
}

#[test]
fn the_counter_wraps_after_the_greatest_value() {
    let k0 = [3u8; 32];
    let old = CipherSpPlaintext { rlsj: [1; 32], ctr: u64::MAX };
    let out = client_secret_update_with(UID, LSJ, &k0, &old, [9; 32], [8; 24]);
    assert_eq!(out.old_ctr, u64::MAX);
    assert_eq!(out.new_ctr, 0);
    assert_eq!(decrypt_cj(UID, &k0, &out.cj_new).unwrap().ctr, 0);
}

#[test]
fn secret_update_fails_as_authentication_does() {
    let k0 = [3u8; 32];
    let mut rng = ChaCha20Rng::from_seed([36u8; 32]);
    match client_secret_update_finish(UID, LSJ, &k0, &[], &mut rng) {
        Err(UpspaError::InvalidLength { expected, got }) => assert_eq!((expected, got), (1, 0)),
        other => panic!("unexpected result: {:?}", other.map(|o| o.new_ctr)),
    }
    let good = sealed_record(&k0, [1; 32], 4, 1);
    let mut bad = good.clone();
    bad.ct[0] ^= 1;
    assert!(matches!(
        client_secret_update_finish(UID, LSJ, &k0, &[good, bad], &mut rng),
        Err(UpspaError::Aead)
    ));
}

#[test]
fn signed_message_is_blob_share_timestamp_and_id() {
    let cid = CtBlob { nonce: [1u8; 24], ct: [2u8; 96], tag: [3u8; 16] };
    let msg = pwd_update_sig_message(&cid, &[4u8; 32], 0x0102_0304_0506_0708, 0x0a0b_0c0d);
    assert_eq!(PWD_UPDATE_SIG_MSG_LEN, 180);
    assert_eq!(msg.len(), 180);
    assert_eq!(&msg[..24], &[1u8; 24]);
    assert_eq!(&msg[24..120], &[2u8; 96]);
    assert_eq!(&msg[120..136], &[3u8; 16]);
    assert_eq!(&msg[136..168], &[4u8; 32]);
    assert_eq!(&msg[168..176], &[8, 7, 6, 5, 4, 3, 2, 1]);
    assert_eq!(&msg[176..], &[0x0d, 0x0c, 0x0b, 0x0a]);
}

#[test]
fn password_update_from_given_randomness() {
    let cid_pt = CidPlaintext {
        ssk_bytes: [1; 32],
        signing_key: signing_key_from_bytes(&[1; 32]),
        rsp: [2; 32],
        k0: [3; 32],
    };
    let coeffs = vec![small(5), small(7)];
    let out = client_password_update_with(UID, &cid_pt, 3, b"new pw", 99, &coeffs, [6; 24]);
    let pk = cid_pt.signing_key.verifying_key();

    assert_eq!(out.cid_new.nonce, [6; 24]);
    assert_eq!(out.per_sp.len(), 3);
    for (i, m) in out.per_sp.iter().enumerate() {
        assert_eq!(m.sp_id as usize, i + 1);
        assert_eq!(m.uid_b64, b64_encode(UID));
        assert_eq!(m.uid_b64, "dXNlcjEyMw");
        assert_eq!(m.timestamp, 99);
        assert_eq!(m.cid_new, out.cid_new);
        assert_eq!(m.k_i_new, small(5 + 7 * (i as u64 + 1)).to_bytes());
        let msg = pwd_update_sig_message(&out.cid_new, &m.k_i_new, 99, m.sp_id);
        assert!(verify_detached(&pk, &msg, &m.sig).is_ok());
        let other = pwd_update_sig_message(&out.cid_new, &m.k_i_new, 100, m.sp_id);
        assert!(verify_detached(&pk, &other, &m.sig).is_err());
    }

    let p = curve25519_dalek::ristretto::CompressedRistretto(hash_to_point(b"new pw").to_bytes())
        .decompress()
        .unwrap();
    let y = (p * curve25519_dalek::scalar::Scalar::from(5u64)).compress().to_bytes();
    let new_key = oprf_finalize(b"new pw", &upspa_core::toprf::point_from_bytes(&y).unwrap());
    assert_eq!(decrypt_cid(UID, &new_key, &out.cid_new).unwrap().to_bytes(), cid_pt.to_bytes());
}

#[test]
fn password_update_keeps_the_plaintext_and_signs_for_the_old_key() {
    let (setup_out, state_key, mut rng) = set_up(37, 5, 3);
    let old_pt = decrypt_cid(UID, &state_key, &setup_out.cid).unwrap().to_bytes();
    let out =
        client_password_update(UID, &state_key, &setup_out.cid, 5, 3, b"new password", 1_700_000_000, &mut rng)
            .unwrap();
    assert_eq!(out.per_sp.len(), 5);
    assert_ne!(out.cid_new, setup_out.cid);

    for m in out.per_sp.iter() {
        let msg = pwd_update_sig_message(&out.cid_new, &m.k_i_new, 1_700_000_000, m.sp_id);
        assert!(verify_detached(&setup_out.sig_pk, &msg, &m.sig).is_ok());
        assert_eq!(m.timestamp, 1_700_000_000);
    }

    let new_shares: Vec<(u32, [u8; 32])> = out.per_sp.iter().map(|m| (m.sp_id, m.k_i_new)).collect();
    let new_key = state_key_via_oprf(b"new password", &new_shares, 3, &mut rng);
    assert_ne!(new_key, state_key);
    assert_eq!(decrypt_cid(UID, &new_key, &out.cid_new).unwrap().to_bytes(), old_pt);
    assert!(matches!(decrypt_cid(UID, &state_key, &out.cid_new), Err(UpspaError::Aead)));

    // The old shares no longer lead to a key that opens the new blob.
    let stale = state_key_via_oprf(b"new password", &setup_out.shares, 3, &mut rng);
    assert!(matches!(decrypt_cid(UID, &stale, &out.cid_new), Err(UpspaError::Aead)));
}

#[test]
fn whole_flow_with_five_providers_and_threshold_three() {
    let uid = b"user123";
    let lsj = b"LS1";
    let password = b"benchmark password";
    let new_password = b"new benchmark password";
    let mut rng = ChaCha20Rng::from_seed([0x42u8; 32]);

    let (setup_out, _payloads) = client_setup(uid, password, 5, 3, &mut rng);
    let state_key = state_key_via_oprf(password, &setup_out.shares, 3, &mut rng);

    let reg = client_register(uid, lsj, &state_key, &setup_out.cid, 5, &mut rng).unwrap();
    assert_eq!(reg.per_sp.len(), 5);

    let q = client_auth_prepare(uid, lsj, &state_key, &setup_out.cid, 5).unwrap();
    let cjs = vec![reg.per_sp[0].cj.clone(); 3];
    let auth = client_auth_finish(uid, lsj, &q.k0, &cjs).unwrap();
    assert_eq!(auth.vinfo_prime, reg.to_ls.vinfo);

    let su_q = client_secret_update_prepare(uid, lsj, &state_key, &setup_out.cid, 5).unwrap();
    let su = client_secret_update_finish(uid, lsj, &su_q.k0, &cjs, &mut rng).unwrap();
    assert_eq!(su.old_ctr, 0);
    assert_eq!(su.new_ctr, 1);
    let auth2 = client_auth_finish(uid, lsj, &q.k0, &vec![su.cj_new.clone(); 3]).unwrap();
    assert_eq!(auth2.vinfo_prime, su.vinfo_new);

    let pw = client_password_update(
        uid,
        &state_key,
        &setup_out.cid,
        5,
        3,
        new_password,
        1_700_000_000,
        &mut rng,
    )
    .unwrap();
    for m in pw.per_sp.iter() {
        let msg = pwd_update_sig_message(&pw.cid_new, &m.k_i_new, 1_700_000_000, m.sp_id);
        verify_detached(&setup_out.sig_pk, &msg, &m.sig).unwrap();
    }
    let new_shares: Vec<(u32, [u8; 32])> = pw.per_sp.iter().map(|m| (m.sp_id, m.k_i_new)).collect();
    let new_key = state_key_via_oprf(new_password, &new_shares, 3, &mut rng);
    assert_eq!(
        decrypt_cid(uid, &new_key, &pw.cid_new).unwrap().to_bytes(),
        decrypt_cid(uid, &state_key, &setup_out.cid).unwrap().to_bytes()
    );
}
