use curve25519_dalek::ristretto::CompressedRistretto;
use rand_chacha::ChaCha20Rng;
use rand_core::SeedableRng;

use upspa_core::hash::{hash_to_point, oprf_finalize};
use upspa_core::point::Point;
use upspa_core::scalar::Scalar;
use upspa_core::shamir::{eval_poly, lagrange_coeffs_at_zero};
use upspa_core::toprf::{
    point_from_bytes, random_polynomial, random_scalar, scalar_from_canonical_bytes,
    scalar_from_draw, toprf_client_eval, toprf_client_eval_from_partials, toprf_gen,
    toprf_server_eval, toprf_shares, ToprfClient, ToprfClientState, ToprfPartial,
};
use upspa_core::types::UpspaError;

type DalekScalar = curve25519_dalek::scalar::Scalar;

fn small(x: u64) -> Scalar {
    let mut bytes = [0u8; 32];
    bytes[..8].copy_from_slice(&x.to_le_bytes());
    scalar_from_canonical_bytes(&bytes).unwrap()
}

fn bytes_of(x: u64) -> [u8; 32] {
    small(x).to_bytes()
}

fn dalek(s: &Scalar) -> DalekScalar {
    Option::<DalekScalar>::from(DalekScalar::from_canonical_bytes(s.to_bytes())).unwrap()
}

/// The state key that the password and the master scalar give without any
/// blinding or sharing.
fn direct_key(password: &[u8], master: &Scalar) -> [u8; 32] {
    let p = CompressedRistretto(hash_to_point(password).to_bytes()).decompress().unwrap();
    let y = (p * dalek(master)).compress().to_bytes();
    oprf_finalize(password, &point_from_bytes(&y).unwrap())
}

fn answers(blinded: &[u8; 32], shares: &[(u32, Scalar)], ids: &[u32]) -> Vec<ToprfPartial> {
    ids.iter()
        .map(|id| {
            let (sp_id, share) = shares.iter().find(|(i, _)| i == id).unwrap();
            ToprfPartial { id: *sp_id, y: toprf_server_eval(blinded, &share.to_bytes()).unwrap() }
        })
        .collect()
}

#[test]
fn lagrange_coefficients_of_one_two_three() {
    let lambdas = lagrange_coeffs_at_zero(&[1, 2, 3]);
    assert_eq!(lambdas.len(), 3);
    assert_eq!(lambdas[0].to_bytes(), bytes_of(3));
    assert_eq!(dalek(&lambdas[1]), -DalekScalar::from(3u64));
    assert_eq!(lambdas[2].to_bytes(), bytes_of(1));
}

#[test]
fn lagrange_coefficients_follow_the_order_of_the_ids() {
    let lambdas = lagrange_coeffs_at_zero(&[3, 1, 2]);
    assert_eq!(lambdas[0].to_bytes(), bytes_of(1));
    assert_eq!(lambdas[1].to_bytes(), bytes_of(3));
    assert_eq!(dalek(&lambdas[2]), -DalekScalar::from(3u64));
}

#[test]
fn lagrange_coefficients_of_two_and_five() {
    // 5 / (5 - 2) and 2 / (2 - 5)
    let lambdas = lagrange_coeffs_at_zero(&[2, 5]);
    let third = DalekScalar::from(3u64).invert();
    assert_eq!(dalek(&lambdas[0]), DalekScalar::from(5u64) * third);
    assert_eq!(dalek(&lambdas[1]), -(DalekScalar::from(2u64) * third));
    assert_eq!(dalek(&lambdas[0]) + dalek(&lambdas[1]), DalekScalar::ONE);
}

#[test]
fn lagrange_coefficients_at_the_edges() {
    assert!(lagrange_coeffs_at_zero(&[]).is_empty());
    let single = lagrange_coeffs_at_zero(&[9]);
    assert_eq!(single.len(), 1);
    assert_eq!(single[0].to_bytes(), bytes_of(1));
    // An id that occurs twice has no coefficient to divide by.
    let twice = lagrange_coeffs_at_zero(&[2, 2]);
    assert!(twice[0].is_zero());
    assert!(twice[1].is_zero());
    let large = lagrange_coeffs_at_zero(&[u32::MAX, 1]);
    let d = (DalekScalar::from(1u64) - DalekScalar::from(u32::MAX as u64)).invert();
    assert_eq!(dalek(&large[0]), DalekScalar::from(1u64) * d);
}

#[test]
fn shares_are_the_values_of_the_polynomial() {
    // f(x) = 5 + 7x + 11x^2
    let coeffs = vec![small(5), small(7), small(11)];
    assert_eq!(eval_poly(&coeffs, &small(0)).to_bytes(), bytes_of(5));
    assert_eq!(eval_poly(&coeffs, &small(1)).to_bytes(), bytes_of(23));
    assert_eq!(eval_poly(&coeffs, &small(2)).to_bytes(), bytes_of(63));
    assert_eq!(eval_poly(&coeffs, &small(3)).to_bytes(), bytes_of(125));
    assert!(eval_poly(&Vec::new(), &small(3)).is_zero());

    let shares = toprf_shares(&coeffs, 4);
    assert_eq!(shares.len(), 4);
    let expected = [23u64, 63, 125, 209];
    for (i, (id, share)) in shares.iter().enumerate() {
        assert_eq!(*id as usize, i + 1);
        assert_eq!(share.to_bytes(), bytes_of(expected[i]));
    }
    assert!(toprf_shares(&coeffs, 0).is_empty());
}

#[test]
fn shares_wrap_around_the_group_order() {
    let minus_one = -DalekScalar::ONE;
    let top = scalar_from_canonical_bytes(&minus_one.to_bytes()).unwrap();
    // f(x) = -1 + 2x, so f(1) = 1 and f(2) = 3
    let coeffs = vec![top, small(2)];
    let shares = toprf_shares(&coeffs, 2);
    assert_eq!(shares[0].1.to_bytes(), bytes_of(1));
    assert_eq!(shares[1].1.to_bytes(), bytes_of(3));
}

#[test]
fn weighted_shares_recover_the_constant_term() {
    let coeffs = vec![small(5), small(7), small(11)];
    let shares = toprf_shares(&coeffs, 5);
    for ids in [[1u32, 2, 3], [2, 4, 5], [5, 3, 1], [1, 4, 5]] {
        let lambdas = lagrange_coeffs_at_zero(&ids);
        let mut sum = DalekScalar::ZERO;
        for (k, id) in ids.iter().enumerate() {
            sum += dalek(&lambdas[k]) * dalek(&shares[(*id - 1) as usize].1);
        }
        assert_eq!(sum, DalekScalar::from(5u64));
    }
    let lambdas = lagrange_coeffs_at_zero(&[1, 2]);
    let sum = dalek(&lambdas[0]) * dalek(&shares[0].1) + dalek(&lambdas[1]) * dalek(&shares[1].1);
    assert_ne!(sum, DalekScalar::from(5u64));
}

#[test]
fn any_threshold_subset_gives_the_direct_key() {
    let pw = b"threshold password";
    for seed in [1u8, 2, 3] {
        let mut rng = ChaCha20Rng::from_seed([seed; 32]);
        let (master, shares) = toprf_gen(5, 3, &mut rng);
        assert_eq!(shares.len(), 5);
        let expected = direct_key(pw, &master);
        let (state, blinded) = ToprfClient::begin(pw, &mut rng);
        let subsets: [&[u32]; 6] =
            [&[1, 2, 3], &[3, 4, 5], &[5, 1, 3], &[2, 4, 5], &[4, 2, 1, 5], &[1, 2, 3, 4, 5]];
        for ids in subsets {
            let partials = answers(&blinded, &shares, ids);
            let key = ToprfClient::finish(pw, &state, &partials).unwrap();
            assert_eq!(key, expected);
        }
    }
}

#[test]
fn fewer_shares_than_the_threshold_give_another_key() {
    let pw = b"threshold password";
    let mut rng = ChaCha20Rng::from_seed([7u8; 32]);
    let (master, shares) = toprf_gen(5, 3, &mut rng);
    let expected = direct_key(pw, &master);
    let (state, blinded) = ToprfClient::begin(pw, &mut rng);
    for ids in [[1u32, 2], [4, 5], [3, 1]] {
        let partials = answers(&blinded, &shares, &ids);
        let key = ToprfClient::finish(pw, &state, &partials).unwrap();
        assert_ne!(key, expected);
    }
    let one = answers(&blinded, &shares, &[2]);
    assert_ne!(ToprfClient::finish(pw, &state, &one).unwrap(), expected);
}

#[test]
fn one_provider_with_threshold_one_holds_the_master_scalar() {
    let pw = b"single";
    let mut rng = ChaCha20Rng::from_seed([8u8; 32]);
    let (master, shares) = toprf_gen(1, 1, &mut rng);
    assert_eq!(shares.len(), 1);
    assert_eq!(shares[0].0, 1);
    assert_eq!(shares[0].1.to_bytes(), master.to_bytes());
    let (state, blinded) = ToprfClient::begin(pw, &mut rng);
    let partials = answers(&blinded, &shares, &[1]);
    assert_eq!(ToprfClient::finish(pw, &state, &partials).unwrap(), direct_key(pw, &master));
}

#[test]
fn sixteen_providers_with_full_threshold() {
    let pw = b"sixteen";
    let mut rng = ChaCha20Rng::from_seed([16u8; 32]);
    let (master, shares) = toprf_gen(16, 16, &mut rng);
    let ids: Vec<u32> = (1..=16).rev().collect();
    let (state, blinded) = ToprfClient::begin(pw, &mut rng);
    let partials = answers(&blinded, &shares, &ids);
    assert_eq!(ToprfClient::finish(pw, &state, &partials).unwrap(), direct_key(pw, &master));
    let fewer = answers(&blinded, &shares, &ids[1..]);
    assert_ne!(ToprfClient::finish(pw, &state, &fewer).unwrap(), direct_key(pw, &master));
}

#[test]
fn blinding_multiplies_the_passwords_point() {
    let pw = b"blinding";
    let mut rng = ChaCha20Rng::from_seed([9u8; 32]);
    let (state, blinded) = ToprfClient::begin(pw, &mut rng);
    let r = scalar_from_canonical_bytes(&state.r).unwrap();
    assert!(!r.is_zero());
    let p = CompressedRistretto(hash_to_point(pw).to_bytes()).decompress().unwrap();
    assert_eq!(blinded, (p * dalek(&r)).compress().to_bytes());

    let (fixed_state, fixed) = ToprfClient::blind(pw, &small(2));
    assert_eq!(fixed_state.r, bytes_of(2));
    assert_eq!(fixed, (p + p).compress().to_bytes());
}

#[test]
fn finish_checks_answers_blinding_and_points_in_that_order() {
    let pw = b"errors";
    let mut rng = ChaCha20Rng::from_seed([10u8; 32]);
    let (_master, shares) = toprf_gen(3, 2, &mut rng);
    let (state, blinded) = ToprfClient::begin(pw, &mut rng);
    let good = answers(&blinded, &shares, &[1, 2]);
    let zero = ToprfClientState { r: [0u8; 32] };
    let wild = ToprfClientState { r: [0xff; 32] };
    let mut bad = good.clone();
    bad[1].y = [0xff; 32];

    match ToprfClient::finish(pw, &state, &[]) {
        Err(UpspaError::InvalidLength { expected, got }) => assert_eq!((expected, got), (1, 0)),
        other => panic!("unexpected result: {:?}", other),
    }
    match ToprfClient::finish(pw, &wild, &[]) {
        Err(UpspaError::InvalidLength { expected, got }) => assert_eq!((expected, got), (1, 0)),
        other => panic!("unexpected result: {:?}", other),
    }
    assert!(matches!(ToprfClient::finish(pw, &zero, &good), Err(UpspaError::InvalidScalar)));
    assert!(matches!(ToprfClient::finish(pw, &wild, &good), Err(UpspaError::InvalidScalar)));
    assert!(matches!(ToprfClient::finish(pw, &wild, &bad), Err(UpspaError::InvalidScalar)));
    assert!(matches!(
        ToprfClient::finish(pw, &state, &bad),
        Err(UpspaError::InvalidRistrettoPoint)
    ));
    assert!(ToprfClient::finish(pw, &state, &good).is_ok());
}

#[test]
fn client_eval_combines_pairs_as_far_as_both_lists_go() {
    let pw = b"eval";
    let mut rng = ChaCha20Rng::from_seed([11u8; 32]);
    let (master, shares) = toprf_gen(4, 3, &mut rng);
    let (state, blinded) = ToprfClient::begin(pw, &mut rng);
    let r = scalar_from_canonical_bytes(&state.r).unwrap();
    let ids = [2u32, 3, 4];
    let points: Vec<Point> = answers(&blinded, &shares, &ids)
        .iter()
        .map(|p| point_from_bytes(&p.y).unwrap())
        .collect();
    let lambdas = lagrange_coeffs_at_zero(&ids);
    let expected = direct_key(pw, &master);

    assert_eq!(toprf_client_eval_from_partials(pw, r, &points, &lambdas), expected);
    assert_eq!(toprf_client_eval(pw, r, &points, &lambdas), expected);

    let short = toprf_client_eval_from_partials(pw, r, &points[..2], &lambdas);
    assert_eq!(short, toprf_client_eval_from_partials(pw, r, &points, &lambdas[..2]));
    assert_ne!(short, expected);

    // Nothing to combine leaves the neutral element.
    let neutral = point_from_bytes(&[0u8; 32]).unwrap();
    assert_eq!(toprf_client_eval_from_partials(pw, r, &[], &lambdas), oprf_finalize(pw, &neutral));
    assert_eq!(toprf_client_eval(pw, r, &points, &[]), oprf_finalize(pw, &neutral));
}

#[test]
fn drawn_scalars_are_canonical_and_not_zero() {
    let mut rng = ChaCha20Rng::from_seed([12u8; 32]);
    let a = random_scalar(&mut rng);
    let b = random_scalar(&mut rng);
    assert!(!a.is_zero());
    assert!(!b.is_zero());
    assert_ne!(a.to_bytes(), b.to_bytes());
    assert!(scalar_from_canonical_bytes(&a.to_bytes()).is_ok());

    let mut again = ChaCha20Rng::from_seed([12u8; 32]);
    let mut wide = [0u8; 64];
    rand_core::RngCore::fill_bytes(&mut again, &mut wide);
    assert_eq!(dalek(&a), DalekScalar::from_bytes_mod_order_wide(&wide));

    let coeffs = random_polynomial(4, &mut rng);
    assert_eq!(coeffs.len(), 4);
    assert!(coeffs.iter().all(|c| !c.is_zero()));
}

#[test]
fn a_draw_that_reduces_to_zero_is_rejected() {
    assert!(scalar_from_draw(&[0u8; 64]).is_none());
    let mut order = [0u8; 64];
    order[..32].copy_from_slice(&[
        0xed, 0xd3, 0xf5, 0x5c, 0x1a, 0x63, 0x12, 0x58, 0xd6, 0x9c, 0xf7, 0xa2, 0xde, 0xf9, 0xde,
        0x14, 0x00, 0x00, 0x00, 0x00, 0x00, 0x00, 0x00, 0x00, 0x00, 0x00, 0x00, 0x00, 0x00, 0x00,
        0x00, 0x10,
    ]);
    assert!(scalar_from_draw(&order).is_none());
    order[0] += 1;
    assert_eq!(scalar_from_draw(&order).unwrap().to_bytes(), bytes_of(1));
    let mut nine = [0u8; 64];
    nine[0] = 9;
    assert_eq!(scalar_from_draw(&nine).unwrap().to_bytes(), bytes_of(9));
    let all = scalar_from_draw(&[0xff; 64]).unwrap();
    assert_eq!(dalek(&all), DalekScalar::from_bytes_mod_order_wide(&[0xff; 64]));
}

#[test]
fn toprf_gen_draws_the_master_scalar_first() {
    let mut rng = ChaCha20Rng::from_seed([13u8; 32]);
    let (master, shares) = toprf_gen(4, 2, &mut rng);
    let mut again = ChaCha20Rng::from_seed([13u8; 32]);
    let a0 = random_scalar(&mut again);
    let a1 = random_scalar(&mut again);
    assert_eq!(master.to_bytes(), a0.to_bytes());
    for (id, share) in shares.iter() {
        let x = DalekScalar::from(*id as u64);
        assert_eq!(dalek(share), dalek(&a0) + dalek(&a1) * x);
    }
}
