//! Shamir's sharing of a scalar and its recovery at zero.
//!
//! A secret `a0` is the constant term of a polynomial of degree below `t`
//! over the scalars. Provider `i` holds the polynomial's value at `i`. Any
//! `t` providers recover `a0` as the sum of their values, each weighted by
//! its Lagrange coefficient at zero.

use vstd::prelude::*;
use vstd::arithmetic::div_mod::{
    lemma_add_mod_noop, lemma_mod_bound, lemma_mul_mod_noop_general, lemma_small_mod,
};
use vstd::arithmetic::power::{lemma_pow0, pow};
use crate::field::{
    congruent, has_inverse, is_inverse, lemma_cancel, lemma_congruent_add, lemma_congruent_mod,
    lemma_congruent_mul, lemma_congruent_sub, lemma_inverse_congruent, lemma_mod_inverse_inverts,
    lemma_mod_inverse_is, lemma_product_has_inverse, mod_inverse, order, scalar_inverse,
};
use crate::scalar::{group_order, Scalar};

verus! {

/// The value at `x` of the polynomial with the given coefficients, constant
/// term first: the sum of `coeffs[j] * x^j`.
pub open spec fn poly_eval(coeffs: Seq<nat>, x: int) -> int
    decreases coeffs.len(),
{
    if coeffs.len() == 0 {
        0
    } else {
        poly_eval(coeffs.drop_last(), x) + coeffs.last() * pow(x, (coeffs.len() - 1) as nat)
    }
}

/// The share of the provider with the given id: the polynomial's value at
/// the id, reduced modulo the group order.
pub open spec fn share_value(coeffs: Seq<nat>, id: int) -> nat {
    (poly_eval(coeffs, id) % order()) as nat
}

/// The product of the first `n` nodes but the `i`-th.
pub open spec fn num_upto(xs: Seq<int>, i: int, n: int) -> int
    decreases n,
{
    if n <= 0 {
        1
    } else if n - 1 == i {
        num_upto(xs, i, n - 1)
    } else {
        num_upto(xs, i, n - 1) * xs[n - 1]
    }
}

/// The product of the differences between each of the first `n` nodes but
/// the `i`-th and the `i`-th.
pub open spec fn den_upto(xs: Seq<int>, i: int, n: int) -> int
    decreases n,
{
    if n <= 0 {
        1
    } else if n - 1 == i {
        den_upto(xs, i, n - 1)
    } else {
        den_upto(xs, i, n - 1) * (xs[n - 1] - xs[i])
    }
}

/// The Lagrange coefficient at zero of node `i` among the nodes `xs`: the
/// product of the other nodes, divided by the product of their differences
/// to node `i`. Where that product cannot be divided by, as when a node
/// occurs twice, the coefficient is zero.
pub open spec fn lagrange_coeff(xs: Seq<int>, i: int) -> nat {
    ((num_upto(xs, i, xs.len() as int) * mod_inverse(den_upto(xs, i, xs.len() as int) % order()))
        % order()) as nat
}

/// The values of a sequence of scalars.
pub open spec fn scalar_values(scalars: Seq<Scalar>) -> Seq<nat> {
    Seq::new(scalars.len(), |i: int| scalars[i].value())
}

/// Provider ids as integers.
pub open spec fn id_values(ids: Seq<u32>) -> Seq<int> {
    Seq::new(ids.len(), |i: int| ids[i] as int)
}

/// A power one higher is one more factor.
proof fn lemma_pow_succ(x: int, k: nat)
    ensures
        pow(x, k + 1) == x * pow(x, k),
{
    reveal(pow);
}

/// Evaluates the polynomial with the given coefficients at `x`.
pub fn eval_poly(coeffs: &Vec<Scalar>, x: &Scalar) -> (y: Scalar)
    ensures
        y.value() == share_value(scalar_values(coeffs@), x.value() as int),
{
    let ghost cs = scalar_values(coeffs@);
    let ghost xv = x.value() as int;
    let mut acc = Scalar::from_u64(0);
    let mut power = Scalar::from_u64(1);
    let mut k: usize = 0;
    proof {
        lemma_pow0(xv);
        lemma_small_mod(0, group_order());
        lemma_small_mod(1, group_order());
        assert(cs.take(0) =~= Seq::<nat>::empty());
    }
    while k < coeffs.len()
        invariant
            k <= coeffs@.len(),
            cs == scalar_values(coeffs@),
            xv == x.value(),
            acc.value() == poly_eval(cs.take(k as int), xv) % order(),
            power.value() == pow(xv, k as nat) % order(),
        decreases coeffs@.len() - k,
    {
        let term = coeffs[k].mul(&power);
        let acc_next = acc.add(&term);
        let power_next = power.mul(x);
        proof {
            let m = order();
            let c = cs[k as int] as int;
            let p = pow(xv, k as nat);
            let prefix = poly_eval(cs.take(k as int), xv);
            assert(cs.take(k + 1).drop_last() =~= cs.take(k as int));
            assert(cs.take(k + 1).last() == cs[k as int]);
            assert(poly_eval(cs.take(k + 1), xv) == prefix + c * p);
            lemma_mul_mod_noop_general(c, p, m);
            lemma_add_mod_noop(prefix, c * p, m);
            lemma_mod_bound(c * p, m);
            lemma_small_mod(((c * p) % m) as nat, m as nat);
            lemma_pow_succ(xv, k as nat);
            lemma_mul_mod_noop_general(p, xv, m);
            assert(p * xv == xv * p) by (nonlinear_arith);
        }
        acc = acc_next;
        power = power_next;
        k += 1;
    }
    assert(cs.take(coeffs@.len() as int) =~= cs);
    acc
}

/// Computes the Lagrange coefficients at zero for the given provider ids.
pub fn lagrange_coeffs_at_zero(ids: &[u32]) -> (lambdas: Vec<Scalar>)
    ensures
        lambdas@.len() == ids@.len(),
        forall|i: int|
            0 <= i < ids@.len() ==> (#[trigger] lambdas@[i]).value() == lagrange_coeff(
                id_values(ids@),
                i,
            ),
{
    let ghost xv = id_values(ids@);
    let n = ids.len();
    let mut xs: Vec<Scalar> = Vec::new();
    let mut k: usize = 0;
    while k < n
        invariant
            k <= n,
            n == ids@.len(),
            xs@.len() == k,
            forall|j: int| 0 <= j < k ==> (#[trigger] xs@[j]).value() == ids@[j],
        decreases n - k,
    {
        xs.push(Scalar::from_u64(ids[k] as u64));
        k += 1;
    }
    let mut lambdas: Vec<Scalar> = Vec::new();
    let mut i: usize = 0;
    while i < n
        invariant
            i <= n,
            n == ids@.len(),
            xv == id_values(ids@),
            xs@.len() == n,
            forall|j: int| 0 <= j < n ==> (#[trigger] xs@[j]).value() == ids@[j],
            lambdas@.len() == i,
            forall|j: int| 0 <= j < i ==> (#[trigger] lambdas@[j]).value() == lagrange_coeff(xv, j),
        decreases n - i,
    {
        let mut num = Scalar::from_u64(1);
        let mut den = Scalar::from_u64(1);
        let mut j: usize = 0;
        proof {
            lemma_small_mod(1, group_order());
        }
        while j < n
            invariant
                j <= n,
                i < n,
                n == ids@.len(),
                xv == id_values(ids@),
                xs@.len() == n,
                forall|j: int| 0 <= j < n ==> (#[trigger] xs@[j]).value() == ids@[j],
                num.value() == num_upto(xv, i as int, j as int) % order(),
                den.value() == den_upto(xv, i as int, j as int) % order(),
            decreases n - j,
        {
            if i != j {
                let diff = xs[j].sub(&xs[i]);
                let num_next = num.mul(&xs[j]);
                let den_next = den.mul(&diff);
                proof {
                    let m = order();
                    lemma_mul_mod_noop_general(num_upto(xv, i as int, j as int), xv[j as int], m);
                    lemma_mul_mod_noop_general(
                        den_upto(xv, i as int, j as int),
                        xv[j as int] - xv[i as int],
                        m,
                    );
                }
                num = num_next;
                den = den_next;
            }
            j += 1;
        }
        let lambda = num.mul(&scalar_inverse(&den));
        proof {
            lemma_mul_mod_noop_general(
                num_upto(xv, i as int, n as int),
                mod_inverse(den.value() as int),
                order(),
            );
        }
        lambdas.push(lambda);
        i += 1;
    }
    lambdas
}

/// The sum over the first `n` nodes of each node's value in `vals`,
/// weighted by the node's Lagrange coefficient at zero.
pub open spec fn weighted_sum(xs: Seq<int>, vals: Seq<int>, n: int) -> int
    decreases n,
{
    if n <= 0 {
        0
    } else {
        weighted_sum(xs, vals, n - 1) + lagrange_coeff(xs, n - 1) * vals[n - 1]
    }
}

/// Whether the difference of any two distinct nodes can be divided by.
pub open spec fn units_apart(xs: Seq<int>) -> bool {
    forall|i: int, j: int|
        0 <= i < xs.len() && 0 <= j < xs.len() && i != j ==> has_inverse(#[trigger] xs[j] - #[trigger] xs[i])
}

/// A weighted sum is linear in the values.
proof fn lemma_weighted_sum_linear(
    xs: Seq<int>,
    a: Seq<int>,
    b: Seq<int>,
    u: Seq<int>,
    alpha: int,
    beta: int,
    n: int,
)
    requires
        forall|i: int| 0 <= i < n ==> #[trigger] u[i] == alpha * a[i] + beta * b[i],
    ensures
        weighted_sum(xs, u, n) == alpha * weighted_sum(xs, a, n) + beta * weighted_sum(xs, b, n),
    decreases n,
{
    if n > 0 {
        lemma_weighted_sum_linear(xs, a, b, u, alpha, beta, n - 1);
        let l = lagrange_coeff(xs, n - 1) as int;
        let sa = weighted_sum(xs, a, n - 1);
        let sb = weighted_sum(xs, b, n - 1);
        let x = a[n - 1];
        let y = b[n - 1];
        assert(u[n - 1] == alpha * x + beta * y);
        assert(l * (alpha * x + beta * y) == l * (alpha * x) + l * (beta * y)) by (nonlinear_arith);
        assert(l * (alpha * x) == alpha * (l * x)) by (nonlinear_arith);
        assert(l * (beta * y) == beta * (l * y)) by (nonlinear_arith);
        assert(alpha * (sa + l * x) == alpha * sa + alpha * (l * x)) by (nonlinear_arith);
        assert(beta * (sb + l * y) == beta * sb + beta * (l * y)) by (nonlinear_arith);
    }
}

/// Weighted sums of congruent values are congruent.
proof fn lemma_weighted_sum_congruent(xs: Seq<int>, a: Seq<int>, b: Seq<int>, n: int)
    requires
        forall|i: int| 0 <= i < n ==> congruent(#[trigger] a[i], b[i]),
    ensures
        congruent(weighted_sum(xs, a, n), weighted_sum(xs, b, n)),
    decreases n,
{
    if n > 0 {
        lemma_weighted_sum_congruent(xs, a, b, n - 1);
        let l = lagrange_coeff(xs, n - 1) as int;
        assert(congruent(a[n - 1], b[n - 1]));
        lemma_congruent_mul(l, l, a[n - 1], b[n - 1]);
        lemma_congruent_add(
            weighted_sum(xs, a, n - 1),
            weighted_sum(xs, b, n - 1),
            l * a[n - 1],
            l * b[n - 1],
        );
    }
}

/// The products over a prefix depend on that prefix and the `i`-th node
/// alone.
proof fn lemma_products_of_prefix(xs: Seq<int>, ys: Seq<int>, i: int, n: int)
    requires
        0 <= n <= xs.len(),
        n <= ys.len(),
        forall|j: int| 0 <= j < n ==> xs[j] == ys[j],
        0 <= i < xs.len(),
        0 <= i < ys.len(),
        xs[i] == ys[i],
    ensures
        num_upto(xs, i, n) == num_upto(ys, i, n),
        den_upto(xs, i, n) == den_upto(ys, i, n),
    decreases n,
{
    if n > 0 {
        lemma_products_of_prefix(xs, ys, i, n - 1);
    }
}

/// Without the first node, the products lose that node's factor.
proof fn lemma_products_without_first(xs: Seq<int>, i: int, n: int)
    requires
        1 <= n <= xs.len(),
        1 <= i < xs.len(),
    ensures
        num_upto(xs, i, n) == xs[0] * num_upto(xs.skip(1), i - 1, n - 1),
        den_upto(xs, i, n) == (xs[0] - xs[i]) * den_upto(xs.skip(1), i - 1, n - 1),
    decreases n,
{
    let ys = xs.skip(1);
    if n == 1 {
        assert(num_upto(xs, i, 0) == 1);
        assert(den_upto(xs, i, 0) == 1);
        assert(num_upto(ys, i - 1, 0) == 1);
        assert(den_upto(ys, i - 1, 0) == 1);
    } else {
        lemma_products_without_first(xs, i, n - 1);
        assert(ys[n - 2] == xs[n - 1]);
        assert(ys[i - 1] == xs[i]);
        if n - 1 != i {
            let a = num_upto(ys, i - 1, n - 2);
            let b = den_upto(ys, i - 1, n - 2);
            assert((xs[0] * a) * xs[n - 1] == xs[0] * (a * xs[n - 1])) by (nonlinear_arith);
            assert(((xs[0] - xs[i]) * b) * (xs[n - 1] - xs[i]) == (xs[0] - xs[i]) * (b * (xs[n - 1]
                - xs[i]))) by (nonlinear_arith);
        }
    }
}

/// One can be divided by.
proof fn lemma_one_has_inverse()
    ensures
        has_inverse(1),
        mod_inverse(1) == 1,
{
    lemma_small_mod(1, group_order());
    assert(is_inverse(1, 1));
    lemma_mod_inverse_is(1, 1);
}

/// Among nodes whose differences can be divided by, so can the product of
/// the differences to one node.
proof fn lemma_den_has_inverse(xs: Seq<int>, i: int, n: int)
    requires
        units_apart(xs),
        0 <= i < xs.len(),
        0 <= n <= xs.len(),
    ensures
        has_inverse(den_upto(xs, i, n)),
    decreases n,
{
    if n <= 0 {
        lemma_one_has_inverse();
    } else {
        lemma_den_has_inverse(xs, i, n - 1);
        if n - 1 != i {
            assert(has_inverse(xs[n - 1] - xs[i]));
            lemma_product_has_inverse(den_upto(xs, i, n - 1), xs[n - 1] - xs[i]);
        }
    }
}

/// A Lagrange coefficient times its denominator is its numerator.
proof fn lemma_coeff_times_den(xs: Seq<int>, i: int)
    requires
        units_apart(xs),
        0 <= i < xs.len(),
    ensures
        congruent(
            lagrange_coeff(xs, i) * den_upto(xs, i, xs.len() as int),
            num_upto(xs, i, xs.len() as int),
        ),
{
    let n = xs.len() as int;
    let num = num_upto(xs, i, n);
    let den = den_upto(xs, i, n);
    let inv = mod_inverse(den % order());
    lemma_den_has_inverse(xs, i, n);
    lemma_congruent_mod(den);
    lemma_inverse_congruent(den % order(), den);
    lemma_mod_inverse_inverts(den);
    lemma_congruent_mod(num * inv);
    lemma_congruent_mul((num * inv) % order(), num * inv, den, den);
    assert((num * inv) * den == num * (den * inv)) by (nonlinear_arith);
    lemma_congruent_mul(num, num, den * inv, 1);
}

/// The nodes but the last are still apart.
proof fn lemma_units_apart_drop_last(xs: Seq<int>)
    requires
        units_apart(xs),
        xs.len() >= 1,
    ensures
        units_apart(xs.drop_last()),
{
    let ys = xs.drop_last();
    assert forall|i: int, j: int| 0 <= i < ys.len() && 0 <= j < ys.len() && i != j implies has_inverse(
        #[trigger] ys[j] - #[trigger] ys[i],
    ) by {
        assert(has_inverse(xs[j] - xs[i]));
    }
}

/// The nodes but the first are still apart.
proof fn lemma_units_apart_skip_first(xs: Seq<int>)
    requires
        units_apart(xs),
        xs.len() >= 1,
    ensures
        units_apart(xs.skip(1)),
{
    let ys = xs.skip(1);
    assert forall|i: int, j: int| 0 <= i < ys.len() && 0 <= j < ys.len() && i != j implies has_inverse(
        #[trigger] ys[j] - #[trigger] ys[i],
    ) by {
        assert(has_inverse(xs[j + 1] - xs[i + 1]));
    }
}

/// Dropping the last node divides a coefficient by that node's factor: the
/// coefficient times its distance to the last node is the coefficient among
/// the other nodes times the last node.
proof fn lemma_coeff_without_last(xs: Seq<int>, i: int)
    requires
        units_apart(xs),
        xs.len() >= 2,
        0 <= i < xs.len() - 1,
    ensures
        congruent(
            lagrange_coeff(xs, i) * (xs.last() - xs[i]),
            lagrange_coeff(xs.drop_last(), i) * xs.last(),
        ),
{
    let n = xs.len() as int;
    let ys = xs.drop_last();
    let last = xs.last();
    let d = last - xs[i];
    let l = lagrange_coeff(xs, i) as int;
    let l1 = lagrange_coeff(ys, i) as int;
    let num1 = num_upto(ys, i, n - 1);
    let den1 = den_upto(ys, i, n - 1);
    lemma_products_of_prefix(xs, ys, i, n - 1);
    assert(num_upto(xs, i, n) == num1 * last);
    assert(den_upto(xs, i, n) == den1 * d);
    lemma_units_apart_drop_last(xs);
    lemma_coeff_times_den(xs, i);
    lemma_coeff_times_den(ys, i);
    lemma_den_has_inverse(ys, i, n - 1);
    assert(den1 * (l * d) == l * (den1 * d)) by (nonlinear_arith);
    assert(den1 * (l1 * last) == (l1 * den1) * last) by (nonlinear_arith);
    lemma_congruent_mul(l1 * den1, num1, last, last);
    lemma_cancel(den1, l * d, l1 * last);
}

/// Dropping the first node divides a coefficient by that node's factor.
proof fn lemma_coeff_without_first(xs: Seq<int>, i: int)
    requires
        units_apart(xs),
        xs.len() >= 2,
        1 <= i < xs.len(),
    ensures
        congruent(
            lagrange_coeff(xs, i) * (xs[0] - xs[i]),
            lagrange_coeff(xs.skip(1), i - 1) * xs[0],
        ),
{
    let n = xs.len() as int;
    let ys = xs.skip(1);
    let first = xs[0];
    let d = first - xs[i];
    let l = lagrange_coeff(xs, i) as int;
    let l1 = lagrange_coeff(ys, i - 1) as int;
    let num1 = num_upto(ys, i - 1, n - 1);
    let den1 = den_upto(ys, i - 1, n - 1);
    lemma_products_without_first(xs, i, n);
    lemma_units_apart_skip_first(xs);
    lemma_coeff_times_den(xs, i);
    lemma_coeff_times_den(ys, i - 1);
    lemma_den_has_inverse(ys, i - 1, n - 1);
    assert(den1 * (l * d) == l * (d * den1)) by (nonlinear_arith);
    assert(den1 * (l1 * first) == (l1 * den1) * first) by (nonlinear_arith);
    assert(first * num1 == num1 * first) by (nonlinear_arith);
    lemma_congruent_mul(l1 * den1, num1, first, first);
    lemma_cancel(den1, l * d, l1 * first);
}

/// A weighted sum of values, each times its node's distance to the last
/// node, is the last node times the weighted sum among the other nodes.
proof fn lemma_sum_without_last(xs: Seq<int>, h: Seq<int>, g: Seq<int>, k: int)
    requires
        units_apart(xs),
        xs.len() >= 2,
        0 <= k <= xs.len() - 1,
        forall|i: int| 0 <= i < xs.len() ==> #[trigger] g[i] == (xs.last() - xs[i]) * h[i],
    ensures
        congruent(
            weighted_sum(xs, g, k),
            xs.last() * weighted_sum(xs.drop_last(), h, k),
        ),
    decreases k,
{
    if k > 0 {
        let ys = xs.drop_last();
        let last = xs.last();
        let i = k - 1;
        lemma_sum_without_last(xs, h, g, k - 1);
        lemma_coeff_without_last(xs, i);
        let l = lagrange_coeff(xs, i) as int;
        let l1 = lagrange_coeff(ys, i) as int;
        let d = last - xs[i];
        assert(g[i] == d * h[i]);
        lemma_congruent_mul(l * d, l1 * last, h[i], h[i]);
        assert(l * (d * h[i]) == (l * d) * h[i]) by (nonlinear_arith);
        assert((l1 * last) * h[i] == last * (l1 * h[i])) by (nonlinear_arith);
        let s = weighted_sum(xs, g, k - 1);
        let s1 = weighted_sum(ys, h, k - 1);
        lemma_congruent_add(s, last * s1, l * g[i], last * (l1 * h[i]));
        assert(last * s1 + last * (l1 * h[i]) == last * (s1 + l1 * h[i])) by (nonlinear_arith);
    }
}

/// A weighted sum of values, each times its node's distance to the first
/// node, is the first node times the weighted sum among the other nodes.
proof fn lemma_sum_without_first(xs: Seq<int>, h: Seq<int>, g: Seq<int>, k: int)
    requires
        units_apart(xs),
        xs.len() >= 2,
        h.len() == xs.len(),
        1 <= k <= xs.len(),
        forall|i: int| 0 <= i < xs.len() ==> #[trigger] g[i] == (xs[0] - xs[i]) * h[i],
    ensures
        congruent(
            weighted_sum(xs, g, k),
            xs[0] * weighted_sum(xs.skip(1), h.skip(1), k - 1),
        ),
    decreases k,
{
    let ys = xs.skip(1);
    let hs = h.skip(1);
    let first = xs[0];
    if k == 1 {
        assert(g[0] == (xs[0] - xs[0]) * h[0]);
        assert(weighted_sum(xs, g, 0) == 0);
        assert(weighted_sum(xs, g, 1) == lagrange_coeff(xs, 0) * g[0]);
        assert(lagrange_coeff(xs, 0) * g[0] == 0) by (nonlinear_arith)
            requires
                g[0] == 0,
        ;
        assert(weighted_sum(ys, hs, 0) == 0);
        assert(first * 0 == 0);
    } else {
        let i = k - 1;
        lemma_sum_without_first(xs, h, g, k - 1);
        lemma_coeff_without_first(xs, i);
        let l = lagrange_coeff(xs, i) as int;
        let l1 = lagrange_coeff(ys, i - 1) as int;
        let d = first - xs[i];
        assert(g[i] == d * h[i]);
        assert(hs[i - 1] == h[i]);
        lemma_congruent_mul(l * d, l1 * first, h[i], h[i]);
        assert(l * (d * h[i]) == (l * d) * h[i]) by (nonlinear_arith);
        assert((l1 * first) * h[i] == first * (l1 * h[i])) by (nonlinear_arith);
        let s = weighted_sum(xs, g, k - 1);
        let s1 = weighted_sum(ys, hs, k - 2);
        lemma_congruent_add(s, first * s1, l * g[i], first * (l1 * h[i]));
        assert(first * s1 + first * (l1 * h[i]) == first * (s1 + l1 * h[i])) by (nonlinear_arith);
    }
}

/// The Lagrange coefficients at zero sum to one.
proof fn lemma_weights_sum_to_one(xs: Seq<int>, h: Seq<int>)
    requires
        units_apart(xs),
        xs.len() >= 1,
        h.len() == xs.len(),
        forall|i: int| 0 <= i < h.len() ==> #[trigger] h[i] == 1,
    ensures
        congruent(weighted_sum(xs, h, xs.len() as int), 1),
    decreases xs.len(),
{
    let n = xs.len() as int;
    if n == 1 {
        lemma_one_has_inverse();
        lemma_small_mod(1, group_order());
        assert(num_upto(xs, 0, 0) == 1);
        assert(den_upto(xs, 0, 0) == 1);
        assert(num_upto(xs, 0, 1) == 1);
        assert(den_upto(xs, 0, 1) == 1);
        assert(lagrange_coeff(xs, 0) == 1);
        assert(weighted_sum(xs, h, 0) == 0);
        assert(weighted_sum(xs, h, 1) == lagrange_coeff(xs, 0) * h[0]);
    } else {
        let last = xs.last();
        let first = xs[0];
        let total = weighted_sum(xs, h, n);
        let gl = Seq::new(n as nat, |i: int| (last - xs[i]) * h[i]);
        let gf = Seq::new(n as nat, |i: int| (first - xs[i]) * h[i]);
        // Towards the last node.
        lemma_sum_without_last(xs, h, gl, n - 1);
        assert(gl[n - 1] == (last - xs[n - 1]) * h[n - 1]);
        assert(lagrange_coeff(xs, n - 1) * gl[n - 1] == 0) by (nonlinear_arith)
            requires
                gl[n - 1] == 0,
        ;
        assert(weighted_sum(xs, gl, n) == weighted_sum(xs, gl, n - 1));
        lemma_units_apart_drop_last(xs);
        lemma_weights_sum_to_one(xs.drop_last(), h.drop_last());
        lemma_weighted_sum_congruent(xs.drop_last(), h, h.drop_last(), n - 1);
        lemma_congruent_mul(last, last, weighted_sum(xs.drop_last(), h, n - 1), 1);
        assert(congruent(weighted_sum(xs, gl, n), last * 1));
        // Towards the first node.
        lemma_sum_without_first(xs, h, gf, n);
        lemma_units_apart_skip_first(xs);
        lemma_weights_sum_to_one(xs.skip(1), h.skip(1));
        lemma_congruent_mul(first, first, weighted_sum(xs.skip(1), h.skip(1), n - 1), 1);
        assert(congruent(weighted_sum(xs, gf, n), first * 1));
        // The difference of the two is the distance between the two nodes
        // times the sum of the coefficients.
        let u = Seq::new(n as nat, |i: int| (last - first) * h[i]);
        assert forall|i: int| 0 <= i < n implies #[trigger] u[i] == 1 * gl[i] + (-1) * gf[i] by {
            assert((last - first) * h[i] == 1 * ((last - xs[i]) * h[i]) + (-1) * ((first - xs[i])
                * h[i])) by (nonlinear_arith);
        }
        lemma_weighted_sum_linear(xs, gl, gf, u, 1, -1, n);
        assert forall|i: int| 0 <= i < n implies #[trigger] u[i] == (last - first) * h[i] + 0 * h[i] by {
        }
        lemma_weighted_sum_linear(xs, h, h, u, last - first, 0, n);
        lemma_congruent_sub(weighted_sum(xs, gl, n), last * 1, weighted_sum(xs, gf, n), first * 1);
        assert((last - first) * total + 0 * total == (last - first) * total) by (nonlinear_arith);
        assert(1 * weighted_sum(xs, gl, n) + (-1) * weighted_sum(xs, gf, n) == weighted_sum(
            xs,
            gl,
            n,
        ) - weighted_sum(xs, gf, n)) by (nonlinear_arith);
        assert(congruent((last - first) * total, (last - first) * 1));
        assert(has_inverse(xs[n - 1] - xs[0]));
        lemma_cancel(last - first, total, 1);
    }
}

/// The weighted sum of the nodes' `k`-th powers vanishes for `k` from one
/// up to the number of nodes.
proof fn lemma_monomial_sum(xs: Seq<int>, h: Seq<int>, k: nat)
    requires
        units_apart(xs),
        1 <= k < xs.len(),
        h.len() == xs.len(),
        forall|i: int| 0 <= i < h.len() ==> #[trigger] h[i] == pow(xs[i], k),
    ensures
        congruent(weighted_sum(xs, h, xs.len() as int), 0),
    decreases xs.len(), k,
{
    let n = xs.len() as int;
    let last = xs.last();
    let ys = xs.drop_last();
    let hp = Seq::new(n as nat, |i: int| pow(xs[i], (k - 1) as nat));
    let g = Seq::new(n as nat, |i: int| (last - xs[i]) * hp[i]);
    lemma_sum_without_last(xs, hp, g, n - 1);
    assert(g[n - 1] == (last - xs[n - 1]) * hp[n - 1]);
    assert(lagrange_coeff(xs, n - 1) * g[n - 1] == 0) by (nonlinear_arith)
        requires
            g[n - 1] == 0,
    ;
    assert(weighted_sum(xs, g, n) == weighted_sum(xs, g, n - 1));
    assert forall|i: int| 0 <= i < n implies #[trigger] g[i] == last * hp[i] + (-1) * h[i] by {
        lemma_pow_succ(xs[i], (k - 1) as nat);
        assert((last - xs[i]) * hp[i] == last * hp[i] + (-1) * (xs[i] * hp[i])) by (nonlinear_arith);
    }
    lemma_weighted_sum_linear(xs, hp, h, g, last, -1, n);
    let a = weighted_sum(xs, hp, n);
    let b = weighted_sum(ys, hp, n - 1);
    let total = weighted_sum(xs, h, n);
    lemma_units_apart_drop_last(xs);
    let c: int = if k == 1 {
        1
    } else {
        0
    };
    if k == 1 {
        assert forall|i: int| 0 <= i < n implies #[trigger] hp[i] == 1 by {
            lemma_pow0(xs[i]);
        }
        lemma_weights_sum_to_one(xs, hp);
        lemma_weights_sum_to_one(ys, hp.drop_last());
        lemma_weighted_sum_congruent(ys, hp, hp.drop_last(), n - 1);
    } else {
        lemma_monomial_sum(xs, hp, (k - 1) as nat);
        lemma_monomial_sum(ys, hp.drop_last(), (k - 1) as nat);
        lemma_weighted_sum_congruent(ys, hp, hp.drop_last(), n - 1);
    }
    assert(congruent(a, c) && congruent(b, c));
    // total = last * a - (last * b, up to congruence)
    assert(total == last * a - weighted_sum(xs, g, n)) by (nonlinear_arith)
        requires
            weighted_sum(xs, g, n) == last * a + (-1) * total,
    ;
    lemma_congruent_mul(last, last, a, c);
    lemma_congruent_mul(last, last, b, c);
    lemma_congruent_sub(last * a, last * c, weighted_sum(xs, g, n), last * c);
}

/// The weighted sum of a polynomial's values at the nodes is its constant
/// term, where there are no more coefficients than nodes.
proof fn lemma_polynomial_sum(xs: Seq<int>, coeffs: Seq<nat>, vals: Seq<int>)
    requires
        units_apart(xs),
        1 <= coeffs.len() <= xs.len(),
        vals.len() == xs.len(),
        forall|i: int| 0 <= i < vals.len() ==> #[trigger] vals[i] == poly_eval(coeffs, xs[i]),
    ensures
        congruent(weighted_sum(xs, vals, xs.len() as int), coeffs[0] as int),
    decreases coeffs.len(),
{
    let n = xs.len() as int;
    let m = coeffs.len();
    let rest = coeffs.drop_last();
    let c = coeffs.last() as int;
    let hm = Seq::new(n as nat, |i: int| pow(xs[i], (m - 1) as nat));
    let vals1 = Seq::new(n as nat, |i: int| poly_eval(rest, xs[i]));
    assert forall|i: int| 0 <= i < n implies #[trigger] vals[i] == 1 * vals1[i] + c * hm[i] by {
    }
    lemma_weighted_sum_linear(xs, vals1, hm, vals, 1, c, n);
    let s1 = weighted_sum(xs, vals1, n);
    let sm = weighted_sum(xs, hm, n);
    if m == 1 {
        assert forall|i: int| 0 <= i < n implies #[trigger] vals1[i] == 0 * hm[i] + 0 * hm[i] by {
            assert(rest.len() == 0);
        }
        lemma_weighted_sum_linear(xs, hm, hm, vals1, 0, 0, n);
        assert forall|i: int| 0 <= i < n implies #[trigger] hm[i] == 1 by {
            lemma_pow0(xs[i]);
        }
        lemma_weights_sum_to_one(xs, hm);
        lemma_congruent_mul(c, c, sm, 1);
        assert(s1 == 0) by (nonlinear_arith)
            requires
                s1 == 0 * sm + 0 * sm,
        ;
        assert(coeffs[0] == c);
    } else {
        lemma_polynomial_sum(xs, rest, vals1);
        lemma_monomial_sum(xs, hm, (m - 1) as nat);
        lemma_congruent_mul(c, c, sm, 0);
        lemma_congruent_add(1 * s1, rest[0] as int, c * sm, c * 0);
        assert(rest[0] == coeffs[0]);
        assert(c * 0 == 0);
    }
}

/// What the given shares recover: the sum of the shares, each weighted by
/// the Lagrange coefficient at zero of its id, modulo the group order.
pub open spec fn recovered_secret(ids: Seq<int>, shares: Seq<nat>) -> nat {
    (weighted_sum(ids, Seq::new(shares.len(), |i: int| shares[i] as int), ids.len() as int)
        % order()) as nat
}

/// The shares that the providers with the given ids hold.
pub open spec fn shares_at(coeffs: Seq<nat>, ids: Seq<int>) -> Seq<nat> {
    Seq::new(ids.len(), |i: int| share_value(coeffs, ids[i]))
}

/// Whether `ids` are distinct provider ids from 1 to 16.
pub open spec fn distinct_small_ids(ids: Seq<int>) -> bool {
    &&& forall|i: int| 0 <= i < ids.len() ==> 1 <= #[trigger] ids[i] <= 16
    &&& forall|i: int, j: int|
        0 <= i < ids.len() && 0 <= j < ids.len() && i != j ==> #[trigger] ids[i] != #[trigger] ids[j]
}

/// Recovery among nodes that are apart. Where the difference of any two
/// ids can be divided by and there are at least as many ids as
/// coefficients, the shares at the ids recover the constant term.
pub proof fn lemma_shares_recover_secret_among(coeffs: Seq<nat>, ids: Seq<int>)
    requires
        1 <= coeffs.len() <= ids.len(),
        units_apart(ids),
    ensures
        recovered_secret(ids, shares_at(coeffs, ids)) == coeffs[0] % group_order(),
{
    let n = ids.len() as int;
    let shares = shares_at(coeffs, ids);
    let reduced = Seq::new(shares.len(), |i: int| shares[i] as int);
    let exact = Seq::new(n as nat, |i: int| poly_eval(coeffs, ids[i]));
    assert forall|i: int| 0 <= i < n implies congruent(#[trigger] reduced[i], exact[i]) by {
        lemma_congruent_mod(poly_eval(coeffs, ids[i]));
    }
    lemma_weighted_sum_congruent(ids, reduced, exact, n);
    lemma_polynomial_sum(ids, coeffs, exact);
    lemma_mod_bound(weighted_sum(ids, reduced, n), order());
}

/// Distinct ids from 1 to 16 are apart: their differences, from 1 to 15 up
/// to sign, can be divided by.
pub proof fn lemma_small_ids_are_apart(ids: Seq<int>)
    requires
        distinct_small_ids(ids),
    ensures
        units_apart(ids),
{
    assert forall|i: int, j: int|
        0 <= i < ids.len() && 0 <= j < ids.len() && i != j implies has_inverse(
        #[trigger] ids[j] - #[trigger] ids[i],
    ) by {
        crate::field::lemma_small_has_inverse(ids[j] - ids[i]);
    }
}

/// Threshold recovery. With up to sixteen providers, the shares of any set
/// of providers that is at least as large as the threshold recover the
/// constant term of the sharing polynomial.
pub proof fn lemma_shares_recover_secret(coeffs: Seq<nat>, ids: Seq<int>)
    requires
        1 <= coeffs.len() <= ids.len(),
        distinct_small_ids(ids),
    ensures
        recovered_secret(ids, shares_at(coeffs, ids)) == coeffs[0] % group_order(),
{
    lemma_small_ids_are_apart(ids);
    lemma_shares_recover_secret_among(coeffs, ids);
}

/// Recovery does not depend on the providers. Any two sets of providers,
/// each at least as large as the threshold, recover the same scalar.
pub proof fn lemma_recovery_is_independent_of_providers(
    coeffs: Seq<nat>,
    ids: Seq<int>,
    other_ids: Seq<int>,
)
    requires
        1 <= coeffs.len() <= ids.len(),
        coeffs.len() <= other_ids.len(),
        distinct_small_ids(ids),
        distinct_small_ids(other_ids),
    ensures
        recovered_secret(ids, shares_at(coeffs, ids)) == recovered_secret(
            other_ids,
            shares_at(coeffs, other_ids),
        ),
{
    lemma_shares_recover_secret(coeffs, ids);
    lemma_shares_recover_secret(coeffs, other_ids);
}

} // verus!
