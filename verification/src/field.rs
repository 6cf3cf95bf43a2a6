//! Arithmetic modulo the group order, as far as the threshold scheme needs
//! it: congruences, inverses, and the fact that the small numbers that
//! separate provider ids can be divided by.

use vstd::prelude::*;
use vstd::arithmetic::div_mod::{
    lemma_add_mod_noop, lemma_mod_bound, lemma_mul_mod_noop, lemma_mul_mod_noop_general,
    lemma_small_mod, lemma_sub_mod_noop,
};
use crate::scalar::{group_order, Scalar};

verus! {

/// The group order as an integer.
pub open spec fn order() -> int {
    group_order() as int
}

/// Whether two integers leave the same remainder modulo the group order.
pub open spec fn congruent(a: int, b: int) -> bool {
    a % order() == b % order()
}

/// An integer is congruent to its remainder.
pub proof fn lemma_congruent_mod(a: int)
    ensures
        congruent(a % order(), a),
        0 <= a % order() < order(),
{
    lemma_mod_bound(a, order());
    lemma_small_mod((a % order()) as nat, order() as nat);
}

/// Sums of congruent integers are congruent.
pub proof fn lemma_congruent_add(a: int, b: int, c: int, d: int)
    requires
        congruent(a, b),
        congruent(c, d),
    ensures
        congruent(a + c, b + d),
{
    lemma_add_mod_noop(a, c, order());
    lemma_add_mod_noop(b, d, order());
}

/// Differences of congruent integers are congruent.
pub proof fn lemma_congruent_sub(a: int, b: int, c: int, d: int)
    requires
        congruent(a, b),
        congruent(c, d),
    ensures
        congruent(a - c, b - d),
{
    lemma_sub_mod_noop(a, c, order());
    lemma_sub_mod_noop(b, d, order());
}

/// Products of congruent integers are congruent.
pub proof fn lemma_congruent_mul(a: int, b: int, c: int, d: int)
    requires
        congruent(a, b),
        congruent(c, d),
    ensures
        congruent(a * c, b * d),
{
    lemma_mul_mod_noop(a, c, order());
    lemma_mul_mod_noop(b, d, order());
}

/// Whether `b` is the residue that inverts `a`: a number from zero up to
/// the order whose product with `a` leaves remainder one.
pub open spec fn is_inverse(a: int, b: int) -> bool {
    0 <= b < order() && (a * b) % order() == 1
}

/// Whether `a` can be divided by modulo the group order.
pub open spec fn has_inverse(a: int) -> bool {
    exists|b: int| is_inverse(a, b)
}

/// The inverse of `a` modulo the group order, and zero where `a` has none.
pub open spec fn mod_inverse(a: int) -> int {
    if has_inverse(a) {
        choose|b: int| is_inverse(a, b)
    } else {
        0
    }
}

/// An integer has at most one inverse.
pub proof fn lemma_inverse_unique(a: int, b: int, c: int)
    requires
        is_inverse(a, b),
        is_inverse(a, c),
    ensures
        b == c,
{
    let m = order();
    assert(b * (a * c) == (a * b) * c) by (nonlinear_arith);
    lemma_mul_mod_noop_general(b, a * c, m);
    lemma_mul_mod_noop_general(a * b, c, m);
    assert((b * 1) % m == (1 * c) % m);
    lemma_small_mod(b as nat, m as nat);
    lemma_small_mod(c as nat, m as nat);
}

/// What `mod_inverse` is, once some inverse is known.
pub proof fn lemma_mod_inverse_is(a: int, b: int)
    requires
        is_inverse(a, b),
    ensures
        has_inverse(a),
        mod_inverse(a) == b,
{
    let c = choose|c: int| is_inverse(a, c);
    lemma_inverse_unique(a, b, c);
}

/// The inverse of an invertible integer inverts it.
pub proof fn lemma_mod_inverse_inverts(a: int)
    requires
        has_inverse(a),
    ensures
        is_inverse(a, mod_inverse(a)),
        congruent(a * mod_inverse(a), 1),
{
    lemma_small_mod(1, order() as nat);
}

/// Zero has no inverse.
pub proof fn lemma_zero_has_no_inverse(a: int)
    requires
        congruent(a, 0),
    ensures
        !has_inverse(a),
        mod_inverse(a) == 0,
{
    let m = order();
    assert forall|b: int| !is_inverse(a, b) by {
        lemma_mul_mod_noop_general(a, b, m);
        lemma_small_mod(0, m as nat);
        assert((a % m) * b == 0) by (nonlinear_arith)
            requires
                a % m == 0,
        ;
    }
}

/// Congruent integers have the same inverse.
pub proof fn lemma_inverse_congruent(a: int, b: int)
    requires
        congruent(a, b),
    ensures
        has_inverse(a) == has_inverse(b),
        mod_inverse(a) == mod_inverse(b),
{
    let m = order();
    assert forall|x: int| is_inverse(a, x) == is_inverse(b, x) by {
        lemma_mul_mod_noop_general(a, x, m);
        lemma_mul_mod_noop_general(b, x, m);
    }
    if has_inverse(a) {
        let x = choose|x: int| is_inverse(a, x);
        assert(is_inverse(b, x));
        lemma_mod_inverse_is(b, x);
    } else if has_inverse(b) {
        let x = choose|x: int| is_inverse(b, x);
        assert(is_inverse(a, x));
    }
}

/// The product of two invertible integers is invertible.
pub proof fn lemma_product_has_inverse(a: int, b: int)
    requires
        has_inverse(a),
        has_inverse(b),
    ensures
        has_inverse(a * b),
{
    let m = order();
    let x = mod_inverse(a);
    let y = mod_inverse(b);
    lemma_mod_inverse_inverts(a);
    lemma_mod_inverse_inverts(b);
    let z = (x * y) % m;
    lemma_mod_bound(x * y, m);
    assert((a * b) * (x * y) == (a * x) * (b * y)) by (nonlinear_arith);
    lemma_mul_mod_noop_general(a * b, x * y, m);
    lemma_mul_mod_noop_general(a * x, b * y, m);
    lemma_small_mod(1, m as nat);
    assert(is_inverse(a * b, z));
}

/// A common invertible factor can be cancelled from a congruence.
pub proof fn lemma_cancel(u: int, a: int, b: int)
    requires
        has_inverse(u),
        congruent(u * a, u * b),
    ensures
        congruent(a, b),
{
    let m = order();
    let v = mod_inverse(u);
    lemma_mod_inverse_inverts(u);
    lemma_congruent_mul(v, v, u * a, u * b);
    assert(v * (u * a) == (u * v) * a) by (nonlinear_arith);
    assert(v * (u * b) == (u * v) * b) by (nonlinear_arith);
    lemma_congruent_mul(u * v, 1, a, a);
    lemma_congruent_mul(u * v, 1, b, b);
}

/// The inverse modulo the group order of a number from 1 to 15.
spec fn small_inverse(d: int) -> int {
    if d == 1 || d == -1 {
        1int
    } else if d == 2 || d == -2 {
        3618502788666131106986593281521497120428558179689953803000975469142727125495int
    } else if d == 3 || d == -3 {
        4824670384888174809315457708695329493904744239586605070667967292190302833993int
    } else if d == 4 || d == -4 {
        5427754182999196660479889922282245680642837269534930704501463203714090688242int
    } else if d == 5 || d == -5 {
        1447401115466452442794637312608598848171423271875981521200390187657090850198int
    } else if d == 6 || d == -6 {
        6030837981110218511644322135869161867380930299483256338334959115237878542491int
    } else if d == 7 || d == -7 {
        1033857939618894601996169509006142034408159479911415372285992991183636321570int
    } else if d == 8 || d == -8 {
        2713877091499598330239944961141122840321418634767465352250731601857045344121int
    } else if d == 9 || d == -9 {
        1608223461629391603105152569565109831301581413195535023555989097396767611331int
    } else if d == 10 || d == -10 {
        723700557733226221397318656304299424085711635937990760600195093828545425099int
    } else if d == 11 || d == -11 {
        6579095979392965649066533239129994764415560326709006914547228125714049319081int
    } else if d == 12 || d == -12 {
        6633921779221240362808754349456078054119023329431581972168455026761666396740int
    } else if d == 13 || d == -13 {
        3340156420307197944910701490635228111164822935098418895077823509977901961995int
    } else if d == 14 || d == -14 {
        516928969809447300998084754503071017204079739955707686142996495591818160785int
    } else if d == 15 || d == -15 {
        5307137423376992290247003479564862443295218663545265577734764021409333117392int
    } else {
        0int
    }
}

/// A number from 1 to 15, and its negative, can be divided by modulo the
/// group order.
pub proof fn lemma_small_has_inverse(d: int)
    requires
        1 <= d <= 15 || -15 <= d <= -1,
    ensures
        has_inverse(d),
{
    let m = order();
    if d > 0 {
        let c = small_inverse(d);
        assert(0 <= c < m);
        assert((d * c) % m == 1) by {
            lemma_small_inverse_inverts(d);
        }
        assert(is_inverse(d, c));
    } else {
        let c = small_inverse(d);
        let e = m - c;
        assert(0 <= e < m);
        assert((d * e) % m == 1) by {
            lemma_small_inverse_inverts(-d);
            assert(d * e == (-d) * c + d * m) by (nonlinear_arith)
                requires
                    e == m - c,
            ;
            vstd::arithmetic::div_mod::lemma_mod_multiples_vanish(d, (-d) * c, m);
            assert((-d) * c + d * m == m * d + (-d) * c) by (nonlinear_arith);
        }
        assert(is_inverse(d, e));
    }
}

/// The table of small inverses is right.
proof fn lemma_small_inverse_inverts(d: int)
    requires
        1 <= d <= 15,
    ensures
        0 < small_inverse(d) < order(),
        (d * small_inverse(d)) % order() == 1,
        small_inverse(-d) == small_inverse(d),
{
    let m = order();
    if d == 1 {
        assert((1 * small_inverse(1)) % m == 1);
    } else if d == 2 {
        assert((2 * small_inverse(2)) % m == 1);
    } else if d == 3 {
        assert((3 * small_inverse(3)) % m == 1);
    } else if d == 4 {
        assert((4 * small_inverse(4)) % m == 1);
    } else if d == 5 {
        assert((5 * small_inverse(5)) % m == 1);
    } else if d == 6 {
        assert((6 * small_inverse(6)) % m == 1);
    } else if d == 7 {
        assert((7 * small_inverse(7)) % m == 1);
    } else if d == 8 {
        assert((8 * small_inverse(8)) % m == 1);
    } else if d == 9 {
        assert((9 * small_inverse(9)) % m == 1);
    } else if d == 10 {
        assert((10 * small_inverse(10)) % m == 1);
    } else if d == 11 {
        assert((11 * small_inverse(11)) % m == 1);
    } else if d == 12 {
        assert((12 * small_inverse(12)) % m == 1);
    } else if d == 13 {
        assert((13 * small_inverse(13)) % m == 1);
    } else if d == 14 {
        assert((14 * small_inverse(14)) % m == 1);
    } else if d == 15 {
        assert((15 * small_inverse(15)) % m == 1);
    }
}

/// The inverse of a scalar, and zero for zero.
pub fn scalar_inverse(s: &Scalar) -> (r: Scalar)
    ensures
        r.value() == mod_inverse(s.value() as int),
{
    if s.is_zero() {
        proof {
            lemma_zero_has_no_inverse(0);
        }
        Scalar::from_u64(0)
    } else {
        let r = s.invert();
        proof {
            use_type_invariant(&r);
            r.lemma_canonical();
            assert(is_inverse(s.value() as int, r.value() as int));
            lemma_mod_inverse_is(s.value() as int, r.value() as int);
        }
        r
    }
}

} // verus!
