//! The threshold OPRF over Ristretto255.
//!
//! The client blinds the point that its password hashes to and sends it to
//! the providers. Each provider multiplies it by its share. The client
//! combines the answers with Lagrange coefficients, removes the blinding and
//! hashes the result with the password into the state key.

use vstd::prelude::*;
use vstd::arithmetic::div_mod::{
    lemma_add_mod_noop, lemma_mod_bound, lemma_mul_mod_noop_general, lemma_small_mod,
};
use crate::field::{has_inverse, lemma_mod_inverse_inverts, mod_inverse, order, scalar_inverse};
use crate::hash::{hash_to_point, hash_to_point_spec, oprf_finalize, oprf_finalize_spec};
use crate::point::{identity_encoding, ristretto_add, ristretto_decodes, ristretto_mul, Point};
use crate::rng::random_bytes;
use crate::scalar::{group_order, le_value, Scalar};
use crate::shamir::{
    den_upto, distinct_small_ids, eval_poly, id_values, lagrange_coeff, lemma_shares_recover_secret,
    num_upto, poly_eval, scalar_values, share_value, shares_at, weighted_sum,
};

pub use crate::shamir::lagrange_coeffs_at_zero;
use crate::types::UpspaError;

verus! {

/// A provider's answer: its id and the blinded point times its share.
#[derive(Clone, Debug, PartialEq, Eq)]
pub struct ToprfPartial {
    pub id: u32,
    pub y: [u8; 32],
}

/// What the client keeps between the two steps: the blinding scalar.
#[derive(Clone, Debug, PartialEq, Eq)]
pub struct ToprfClientState {
    pub r: [u8; 32],
}

/// The client's two steps of the threshold OPRF.
pub struct ToprfClient;

/// Most draws that [`random_scalar`] makes before it gives up on the
/// generator.
pub const MAX_SCALAR_DRAWS: u64 = 0xffff_ffff_ffff_ffff;

/// The scalar that 64 drawn bytes stand for, unless they reduce to zero.
pub fn scalar_from_draw(wide: &[u8; 64]) -> (res: Option<Scalar>)
    ensures
        res is Some <==> le_value(wide@) % group_order() != 0,
        res matches Some(s) ==> s.value() == le_value(wide@) % group_order(),
{
    let s = Scalar::from_wide(wide);
    if s.is_zero() {
        None
    } else {
        Some(s)
    }
}

/// Draws a nonzero scalar: 64 bytes reduced modulo the group order, drawn
/// again while they reduce to zero.
///
/// A draw reduces to zero with probability about 2^-252. The loop is
/// bounded so that it ends on every generator: after `MAX_SCALAR_DRAWS`
/// rejected draws the scalar one is returned.
pub fn random_scalar(rng: &mut rand_chacha::ChaCha20Rng) -> (s: Scalar)
    ensures
        0 < s.value() < group_order(),
{
    let mut left: u64 = MAX_SCALAR_DRAWS;
    while left > 0
        decreases left,
    {
        let wide = random_bytes::<64>(rng);
        match scalar_from_draw(&wide) {
            Some(s) => {
                proof {
                    use_type_invariant(&s);
                    s.lemma_canonical();
                }
                return s;
            },
            None => {},
        }
        left -= 1;
    }
    Scalar::from_u64(1)
}

/// Decodes a Ristretto point.
pub fn point_from_bytes(bytes: &[u8; 32]) -> (res: Result<Point, UpspaError>)
    ensures
        res is Ok <==> ristretto_decodes(bytes@),
        res matches Ok(p) ==> p.encoding() == bytes@,
        res matches Err(e) ==> e == UpspaError::InvalidRistrettoPoint,
{
    match Point::decode(bytes) {
        Some(p) => Ok(p),
        None => Err(UpspaError::InvalidRistrettoPoint),
    }
}

/// Decodes a scalar from its canonical encoding.
pub fn scalar_from_canonical_bytes(bytes: &[u8; 32]) -> (res: Result<Scalar, UpspaError>)
    ensures
        res is Ok <==> le_value(bytes@) < group_order(),
        res matches Ok(s) ==> s.encoding() == bytes@,
        res matches Err(e) ==> e == UpspaError::InvalidScalar,
{
    match Scalar::decode(bytes) {
        Some(s) => Ok(s),
        None => Err(UpspaError::InvalidScalar),
    }
}

/// What [`toprf_server_eval`] owes: a blinded point that does not decode is
/// rejected first, then a share that is not canonical; otherwise the answer
/// encodes the share times the blinded point.
pub open spec fn is_server_eval(blinded: Seq<u8>, share: Seq<u8>, res: Result<[u8; 32], UpspaError>) -> bool {
    if !ristretto_decodes(blinded) {
        res matches Err(e) && e == UpspaError::InvalidRistrettoPoint
    } else if le_value(share) >= group_order() {
        res matches Err(e) && e == UpspaError::InvalidScalar
    } else {
        res is Ok && res.unwrap()@ == ristretto_mul(blinded, le_value(share))
    }
}

/// A provider's whole part: multiplies the blinded point by its share.
pub fn toprf_server_eval(blinded: &[u8; 32], share: &[u8; 32]) -> (res: Result<[u8; 32], UpspaError>)
    ensures
        is_server_eval(blinded@, share@, res),
{
    let b = match point_from_bytes(blinded) {
        Ok(b) => b,
        Err(e) => { return Err(e); },
    };
    let k = match scalar_from_canonical_bytes(share) {
        Ok(k) => k,
        Err(e) => { return Err(e); },
    };
    let y = b.mul(&k);
    let res = Ok(y.to_bytes());
    assert(res.unwrap()@ == y.encoding());
    res
}

/// Whether `coeffs` are the coefficients of a sharing polynomial with
/// threshold `tsp`: `tsp` nonzero scalars.
pub open spec fn is_secret_polynomial(coeffs: Seq<nat>, tsp: nat) -> bool {
    &&& coeffs.len() == tsp
    &&& forall|j: int| 0 <= j < tsp ==> 0 < #[trigger] coeffs[j] < group_order()
}

/// Whether `shares` lists, for each provider from 1 to `nsp` in order, the
/// provider's id with the polynomial's value at the id.
pub open spec fn is_share_list(shares: Seq<(u32, Scalar)>, coeffs: Seq<nat>, nsp: nat) -> bool {
    &&& shares.len() == nsp
    &&& forall|i: int|
        0 <= i < nsp ==> (#[trigger] shares[i]).0 == i + 1 && shares[i].1.value() == share_value(
            coeffs,
            i + 1,
        )
}

/// Evaluates the polynomial with the given coefficients at each provider id
/// from 1 to `nsp`.
pub fn toprf_shares(coeffs: &Vec<Scalar>, nsp: usize) -> (shares: Vec<(u32, Scalar)>)
    requires
        nsp <= u32::MAX,
    ensures
        is_share_list(shares@, scalar_values(coeffs@), nsp as nat),
{
    let mut shares: Vec<(u32, Scalar)> = Vec::new();
    let mut i: usize = 0;
    while i < nsp
        invariant
            i <= nsp <= u32::MAX,
            is_share_list(shares@, scalar_values(coeffs@), i as nat),
        decreases nsp - i,
    {
        let id: u32 = (i + 1) as u32;
        let x = Scalar::from_u64(id as u64);
        let y = eval_poly(coeffs, &x);
        shares.push((id, y));
        i += 1;
    }
    shares
}

/// What [`toprf_gen`] owes: some sharing polynomial with threshold `tsp`
/// whose constant term is the master scalar and whose values at 1 to `nsp`
/// are the shares.
pub open spec fn is_sharing(master: Scalar, shares: Seq<(u32, Scalar)>, nsp: nat, tsp: nat) -> bool {
    exists|coeffs: Seq<nat>|
        is_secret_polynomial(coeffs, tsp) && master.value() == coeffs[0] && #[trigger] is_share_list(
            shares,
            coeffs,
            nsp,
        )
}

/// Draws the coefficients of a sharing polynomial, the master scalar first.
pub fn random_polynomial(tsp: usize, rng: &mut rand_chacha::ChaCha20Rng) -> (coeffs: Vec<Scalar>)
    requires
        tsp >= 1,
    ensures
        is_secret_polynomial(scalar_values(coeffs@), tsp as nat),
        coeffs@.len() == tsp,
{
    let mut coeffs: Vec<Scalar> = Vec::new();
    let mut k: usize = 0;
    while k < tsp
        invariant
            k <= tsp,
            coeffs@.len() == k,
            forall|j: int| 0 <= j < k ==> 0 < (#[trigger] coeffs@[j]).value() < group_order(),
        decreases tsp - k,
    {
        coeffs.push(random_scalar(rng));
        k += 1;
    }
    coeffs
}

/// Draws a master scalar and shares it among `nsp` providers with threshold
/// `tsp`.
pub fn toprf_gen(nsp: usize, tsp: usize, rng: &mut rand_chacha::ChaCha20Rng) -> (out: (
    Scalar,
    Vec<(u32, Scalar)>,
))
    requires
        1 <= tsp <= nsp <= u32::MAX,
    ensures
        is_sharing(out.0, out.1@, nsp as nat, tsp as nat),
{
    let coeffs = random_polynomial(tsp, rng);
    let shares = toprf_shares(&coeffs, nsp);
    let a0 = coeffs[0];
    proof {
        let cs = scalar_values(coeffs@);
        assert(a0.value() == cs[0]);
        assert(is_share_list(shares@, cs, nsp as nat));
    }
    (a0, shares)
}

/// The encoding of the sum of the first `n` points, each times its weight.
pub open spec fn combine_upto(points: Seq<Seq<u8>>, weights: Seq<nat>, n: int) -> Seq<u8>
    decreases n,
{
    if n <= 0 {
        identity_encoding()
    } else {
        ristretto_add(
            combine_upto(points, weights, n - 1),
            ristretto_mul(points[n - 1], weights[n - 1]),
        )
    }
}

/// The state key for a password, a blinding scalar and the combined
/// answers: the blinding is divided out and the result hashed with the
/// password.
pub open spec fn unblinded_key(password: Seq<u8>, r: nat, combined: Seq<u8>) -> Seq<u8> {
    oprf_finalize_spec(password, ristretto_mul(combined, mod_inverse(r as int) as nat))
}

/// The state key that a password and a master scalar give directly.
pub open spec fn state_key_spec(password: Seq<u8>, master: nat) -> Seq<u8> {
    oprf_finalize_spec(password, ristretto_mul(hash_to_point_spec(password), master))
}

/// The encodings of a sequence of points.
pub open spec fn point_encodings(points: Seq<Point>) -> Seq<Seq<u8>> {
    Seq::new(points.len(), |i: int| points[i].encoding())
}

/// The smaller of two lengths.
pub open spec fn min_len(a: nat, b: nat) -> int {
    if a <= b {
        a as int
    } else {
        b as int
    }
}

/// Combines answers with weights, pair by pair as far as both lists go,
/// divides the blinding out and derives the state key.
pub fn toprf_client_eval_from_partials(
    password: &[u8],
    r: Scalar,
    partials: &[Point],
    lambdas: &[Scalar],
) -> (key: [u8; 32])
    ensures
        key@ == unblinded_key(
            password@,
            r.value(),
            combine_upto(
                point_encodings(partials@),
                scalar_values(lambdas@),
                min_len(partials@.len(), lambdas@.len()),
            ),
        ),
{
    let n = if partials.len() <= lambdas.len() {
        partials.len()
    } else {
        lambdas.len()
    };
    let ghost points = point_encodings(partials@);
    let ghost weights = scalar_values(lambdas@);
    let mut acc = Point::identity();
    let mut i: usize = 0;
    while i < n
        invariant
            i <= n,
            n <= partials@.len(),
            n <= lambdas@.len(),
            points == point_encodings(partials@),
            weights == scalar_values(lambdas@),
            acc.encoding() == combine_upto(points, weights, i as int),
        decreases n - i,
    {
        let term = partials[i].mul(&lambdas[i]);
        acc = acc.add(&term);
        i += 1;
    }
    let y = acc.mul(&scalar_inverse(&r));
    oprf_finalize(password, &y)
}

/// As [`toprf_client_eval_from_partials`], after blinding the password's
/// point once more, which changes nothing in the result.
pub fn toprf_client_eval(password: &[u8], r: Scalar, partials: &[Point], lambdas: &[Scalar]) -> (key:
    [u8; 32])
    ensures
        key@ == unblinded_key(
            password@,
            r.value(),
            combine_upto(
                point_encodings(partials@),
                scalar_values(lambdas@),
                min_len(partials@.len(), lambdas@.len()),
            ),
        ),
{
    let p = hash_to_point(password);
    let _blinded = p.mul(&r).to_bytes();
    toprf_client_eval_from_partials(password, r, partials, lambdas)
}

/// The ids of a sequence of answers.
pub open spec fn partial_ids(partials: Seq<ToprfPartial>) -> Seq<int> {
    Seq::new(partials.len(), |i: int| partials[i].id as int)
}

/// The points of a sequence of answers, as sent.
pub open spec fn partial_points(partials: Seq<ToprfPartial>) -> Seq<Seq<u8>> {
    Seq::new(partials.len(), |i: int| partials[i].y@)
}

/// The Lagrange coefficients at zero of all the given nodes.
pub open spec fn lagrange_weights(xs: Seq<int>) -> Seq<nat> {
    Seq::new(xs.len(), |i: int| lagrange_coeff(xs, i))
}

/// Whether blinding the password's point with the scalar that `r` encodes
/// gives `blinded`; the scalar is canonical and not zero.
pub open spec fn is_blinding(password: Seq<u8>, r: Seq<u8>, blinded: Seq<u8>) -> bool {
    &&& 0 < le_value(r) < group_order()
    &&& blinded == ristretto_mul(hash_to_point_spec(password), le_value(r))
}

/// What [`ToprfClient::finish`] owes. The checks come in this order: no
/// answer at all, a blinding scalar that is not canonical or zero, an
/// answer that is no point. Otherwise the key is derived from the answers
/// weighted by the Lagrange coefficients of their ids.
pub open spec fn is_finish_result(
    password: Seq<u8>,
    r: Seq<u8>,
    partials: Seq<ToprfPartial>,
    res: Result<[u8; 32], UpspaError>,
) -> bool {
    if partials.len() == 0 {
        res matches Err(e) && e == (UpspaError::InvalidLength { expected: 1, got: 0 })
    } else if le_value(r) >= group_order() || le_value(r) == 0 {
        res matches Err(e) && e == UpspaError::InvalidScalar
    } else if exists|i: int| 0 <= i < partials.len() && !ristretto_decodes(#[trigger] partials[i].y@) {
        res matches Err(e) && e == UpspaError::InvalidRistrettoPoint
    } else {
        res is Ok && res.unwrap()@ == unblinded_key(
            password,
            le_value(r),
            combine_upto(
                partial_points(partials),
                lagrange_weights(partial_ids(partials)),
                partials.len() as int,
            ),
        )
    }
}

impl ToprfClient {
    /// Blinds the password's point with the given scalar.
    pub fn blind(password: &[u8], r: &Scalar) -> (out: (ToprfClientState, [u8; 32]))
        ensures
            out.0.r@ == r.encoding(),
            out.1@ == ristretto_mul(hash_to_point_spec(password@), r.value()),
    {
        let p = hash_to_point(password);
        let blinded = p.mul(r);
        (ToprfClientState { r: r.to_bytes() }, blinded.to_bytes())
    }

    /// First step: draws the blinding scalar and blinds the password's
    /// point with it.
    pub fn begin(password: &[u8], rng: &mut rand_chacha::ChaCha20Rng) -> (out: (
        ToprfClientState,
        [u8; 32],
    ))
        ensures
            is_blinding(password@, out.0.r@, out.1@),
    {
        let r = random_scalar(rng);
        Self::blind(password, &r)
    }

    /// Second step: combines the providers' answers into the state key.
    pub fn finish(password: &[u8], state: &ToprfClientState, partials: &[ToprfPartial]) -> (res:
        Result<[u8; 32], UpspaError>)
        ensures
            is_finish_result(password@, state.r@, partials@, res),
    {
        let n = partials.len();
        if n == 0 {
            return Err(UpspaError::InvalidLength { expected: 1, got: 0 });
        }
        let r = match scalar_from_canonical_bytes(&state.r) {
            Ok(r) => r,
            Err(e) => { return Err(e); },
        };
        if r.is_zero() {
            return Err(UpspaError::InvalidScalar);
        }
        proof {
            use_type_invariant(&r);
            r.lemma_canonical();
        }
        let mut ids: Vec<u32> = Vec::new();
        let mut k: usize = 0;
        while k < n
            invariant
                k <= n,
                n == partials@.len(),
                ids@.len() == k,
                forall|j: int| 0 <= j < k ==> #[trigger] ids@[j] == partials@[j].id,
            decreases n - k,
        {
            ids.push(partials[k].id);
            k += 1;
        }
        let lambdas = lagrange_coeffs_at_zero(ids.as_slice());
        let ghost points = partial_points(partials@);
        let ghost weights = lagrange_weights(partial_ids(partials@));
        assert(id_values(ids@) =~= partial_ids(partials@));
        let mut acc = Point::identity();
        let mut i: usize = 0;
        while i < n
            invariant
                i <= n,
                n == partials@.len(),
                lambdas@.len() == n,
                0 < le_value(state.r@) < group_order(),
                points == partial_points(partials@),
                weights == lagrange_weights(partial_ids(partials@)),
                forall|j: int| 0 <= j < n ==> (#[trigger] lambdas@[j]).value() == weights[j],
                forall|j: int| 0 <= j < i ==> ristretto_decodes(#[trigger] partials@[j].y@),
                acc.encoding() == combine_upto(points, weights, i as int),
            decreases n - i,
        {
            let y_i = match point_from_bytes(&partials[i].y) {
                Ok(y) => y,
                Err(e) => {
                    assert(!ristretto_decodes(partials@[i as int].y@));
                    return Err(e);
                },
            };
            let term = y_i.mul(&lambdas[i]);
            acc = acc.add(&term);
            i += 1;
        }
        let y = acc.mul(&scalar_inverse(&r));
        let res = Ok(oprf_finalize(password, &y));
        assert(res.unwrap()@ == oprf_finalize_spec(password@, y.encoding()));
        res
    }
}

/// The laws of a group of prime order for the multiples of one point, as
/// far as the threshold evaluation uses them: multiplying twice multiplies
/// the scalars, adding multiples adds the scalars, and the zeroth multiple
/// is the neutral element.
pub open spec fn acts_linearly(p: Seq<u8>) -> bool {
    &&& forall|a: nat, b: nat|
        a < group_order() && b < group_order() ==> #[trigger] ristretto_mul(ristretto_mul(p, a), b)
            == ristretto_mul(p, (a * b) % group_order())
    &&& forall|a: nat, b: nat|
        a < group_order() && b < group_order() ==> #[trigger] ristretto_add(
            ristretto_mul(p, a),
            ristretto_mul(p, b),
        ) == ristretto_mul(p, (a + b) % group_order())
    &&& ristretto_mul(p, 0) == identity_encoding()
}

/// The shares as integers.
pub open spec fn as_ints(values: Seq<nat>) -> Seq<int> {
    Seq::new(values.len(), |i: int| values[i] as int)
}

/// Where the group's laws hold for the multiples of `p`, combining the
/// answers to the blinded point `r * p` gives the multiple of `p` by `r`
/// times the weighted sum of the shares.
proof fn lemma_combined_is_multiple(
    p: Seq<u8>,
    r: nat,
    ids: Seq<int>,
    shares: Seq<nat>,
    points: Seq<Seq<u8>>,
    n: int,
)
    requires
        acts_linearly(p),
        r < group_order(),
        shares.len() == ids.len(),
        points.len() == ids.len(),
        0 <= n <= ids.len(),
        forall|i: int| 0 <= i < ids.len() ==> #[trigger] shares[i] < group_order(),
        forall|i: int|
            0 <= i < ids.len() ==> #[trigger] points[i] == ristretto_mul(
                ristretto_mul(p, r),
                shares[i],
            ),
    ensures
        combine_upto(points, lagrange_weights(ids), n) == ristretto_mul(
            p,
            ((r * weighted_sum(ids, as_ints(shares), n)) % order()) as nat,
        ),
    decreases n,
{
    let m = order();
    let vals = as_ints(shares);
    if n <= 0 {
        assert(weighted_sum(ids, vals, n) == 0);
        assert(r * 0 == 0);
        lemma_small_mod(0, group_order());
    } else {
        lemma_combined_is_multiple(p, r, ids, shares, points, n - 1);
        let w0 = weighted_sum(ids, vals, n - 1);
        let k = shares[n - 1];
        let l = lagrange_coeff(ids, n - 1);
        let a = ((r * w0) % m) as nat;
        let rk = ((r * k) % group_order()) as nat;
        let t = ((rk * l) % group_order()) as nat;
        lemma_mod_bound(r * w0, m);
        lemma_mod_bound((r * k) as int, m);
        lemma_mod_bound((rk * l) as int, m);
        lemma_mod_bound(
            num_upto(ids, n - 1, ids.len() as int) * mod_inverse(
                den_upto(ids, n - 1, ids.len() as int) % order(),
            ),
            m,
        );
        assert(points[n - 1] == ristretto_mul(ristretto_mul(p, r), k));
        assert(ristretto_mul(ristretto_mul(p, r), k) == ristretto_mul(p, rk));
        assert(ristretto_mul(ristretto_mul(p, rk), l) == ristretto_mul(p, t));
        assert(lagrange_weights(ids)[n - 1] == l);
        assert(ristretto_add(ristretto_mul(p, a), ristretto_mul(p, t)) == ristretto_mul(
            p,
            (a + t) % group_order(),
        ));
        // (a + t) is r times the longer sum, modulo the order.
        let w1 = weighted_sum(ids, vals, n);
        assert(vals[n - 1] == k);
        assert(w1 == w0 + l * k);
        lemma_mul_mod_noop_general((r * k) as int, l as int, m);
        lemma_add_mod_noop(r * w0, ((r * k) * l) as int, m);
        assert(r * w0 + (r * k) * l == r * (w0 + l * k)) by (nonlinear_arith);
    }
}

/// Threshold evaluation, given the group's laws. Let the group's laws hold
/// for the multiples of the password's point and let the blinding scalar
/// have an inverse. Where at least as many providers as the threshold, out
/// of up to sixteen, each answer the blinded point with their share of a
/// sharing polynomial, the second step gives the state key of the password
/// and the polynomial's constant term, whichever providers they are.
pub proof fn lemma_finish_recovers_state_key(
    password: Seq<u8>,
    r: Seq<u8>,
    blinded: Seq<u8>,
    coeffs: Seq<nat>,
    partials: Seq<ToprfPartial>,
    res: Result<[u8; 32], UpspaError>,
)
    requires
        acts_linearly(hash_to_point_spec(password)),
        has_inverse(le_value(r) as int),
        is_blinding(password, r, blinded),
        1 <= coeffs.len() <= partials.len(),
        coeffs[0] < group_order(),
        distinct_small_ids(partial_ids(partials)),
        forall|i: int|
            0 <= i < partials.len() ==> ristretto_decodes(#[trigger] partials[i].y@) && partials[i].y@
                == ristretto_mul(blinded, share_value(coeffs, partials[i].id as int)),
        is_finish_result(password, r, partials, res),
    ensures
        res is Ok,
        res.unwrap()@ == state_key_spec(password, coeffs[0]),
{
    let m = order();
    let p = hash_to_point_spec(password);
    let rv = le_value(r);
    let ids = partial_ids(partials);
    let points = partial_points(partials);
    let shares = shares_at(coeffs, ids);
    let n = partials.len() as int;
    assert forall|i: int| 0 <= i < n implies #[trigger] shares[i] < group_order() by {
        lemma_mod_bound(poly_eval(coeffs, ids[i]), m);
    }
    assert forall|i: int| 0 <= i < n implies #[trigger] points[i] == ristretto_mul(
        ristretto_mul(p, rv),
        shares[i],
    ) by {
        assert(points[i] == partials[i].y@);
    }
    lemma_combined_is_multiple(p, rv, ids, shares, points, n);
    lemma_shares_recover_secret(coeffs, ids);
    let w = weighted_sum(ids, as_ints(shares), n);
    let s = ((rv * w) % m) as nat;
    let inv = mod_inverse(rv as int);
    lemma_mod_inverse_inverts(rv as int);
    lemma_mod_bound(rv * w, m);
    assert(ristretto_mul(ristretto_mul(p, s), inv as nat) == ristretto_mul(
        p,
        (s * (inv as nat)) % group_order(),
    ));
    // s * inv is w times (r * inv), and r * inv leaves remainder one.
    lemma_mul_mod_noop_general(rv * w, inv, m);
    assert((rv * w) * inv == w * (rv * inv)) by (nonlinear_arith);
    lemma_mul_mod_noop_general(w, rv * inv, m);
    assert(w * 1 == w);
    lemma_small_mod(coeffs[0], group_order());
    assert((s * inv) % m == coeffs[0]);
    assert(as_ints(shares) =~= Seq::new(shares.len(), |i: int| shares[i] as int));
}

} // verus!
