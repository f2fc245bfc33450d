//! A Vandermonde matrix can be inverted exactly as far as its evaluation
//! points are distinct.

use crate::algebra::{
    image, lemma_dot_add, lemma_dot_agree, lemma_dot_agree_first,
    lemma_dot_commute, lemma_dot_image, lemma_dot_scale, lemma_dot_zero, lemma_inverse_after,
    lemma_inverse_after_right, lemma_right_products, row_product,
};
use crate::field::{
    gf_add, gf_inv, gf_mul, gf_pow, lemma_add_self, lemma_add_zero, lemma_mul_associative,
    lemma_mul_commutative, lemma_mul_distributive, lemma_mul_one, lemma_mul_zero,
};
use crate::inverse::lemma_inverse;
use crate::matrix::{
    column, dot, extensible, inverse_after, is_square, right_products,
    schur_complement,
};
use crate::vector::powers;
use vstd::prelude::*;

verus! {

/// Whether the first `k + 1` points are pairwise distinct.
pub open spec fn distinct_upto(points: Seq<u128>, k: nat) -> bool {
    forall|i: int, j: int| 0 <= i < j <= k ==> points[i] != points[j]
}

/// Whether `m` is the Vandermonde matrix of order `n` of the points: row
/// `i` holds the powers of point `i`.
pub open spec fn is_vandermonde(m: Seq<Seq<u128>>, points: Seq<u128>, n: nat) -> bool {
    &&& is_square(m, n)
    &&& forall|i: int, j: int| 0 <= i < n && 0 <= j < n ==> m[i][j] == gf_pow(points[i], j as nat)
}

/// Coefficient `i` of a polynomial, zero beyond its length.
pub open spec fn coef(q: Seq<u128>, i: int) -> u128 {
    if 0 <= i < q.len() {
        q[i]
    } else {
        0
    }
}

/// The first `len` coefficients of a polynomial.
pub open spec fn coefs(q: Seq<u128>, len: nat) -> Seq<u128> {
    Seq::new(len, |i: int| coef(q, i))
}

/// The polynomial times `t + c`.
pub open spec fn times_linear(q: Seq<u128>, c: u128) -> Seq<u128> {
    Seq::new(q.len() + 1, |i: int| gf_add(coef(q, i - 1), gf_mul(coef(q, i), c)))
}

/// The product of `t + x` over the first `k` points `x`, as a polynomial in `t`.
pub open spec fn roots_poly(points: Seq<u128>, k: nat) -> Seq<u128>
    decreases k,
{
    if k == 0 {
        seq![1u128]
    } else {
        times_linear(roots_poly(points, (k - 1) as nat), points[k - 1])
    }
}

/// The product of `t + x` over the first `k` points `x`.
pub open spec fn roots_value(points: Seq<u128>, k: nat, t: u128) -> u128
    decreases k,
{
    if k == 0 {
        1
    } else {
        gf_mul(roots_value(points, (k - 1) as nat, t), gf_add(t, points[k - 1]))
    }
}

/// The value of a polynomial at `t`.
pub open spec fn eval(q: Seq<u128>, t: u128) -> u128 {
    dot(powers(t, q.len()), q, q.len())
}

/// A product is zero only where a factor is zero.
pub proof fn lemma_no_zero_divisors(a: u128, b: u128)
    requires
        gf_mul(a, b) == 0,
    ensures
        a == 0 || b == 0,
{
    if a != 0 {
        lemma_inverse(a);
        lemma_mul_associative(gf_inv(a), a, b);
        lemma_mul_commutative(gf_inv(a), a);
        lemma_mul_one(b);
        lemma_mul_zero(gf_inv(a));
    }
}

proof fn lemma_roots_poly_len(points: Seq<u128>, k: nat)
    ensures
        roots_poly(points, k).len() == k + 1,
    decreases k,
{
    if k > 0 {
        lemma_roots_poly_len(points, (k - 1) as nat);
    }
}

/// The sum of the terms of a polynomial shifted by one place is `t` times
/// the sum of its terms.
proof fn lemma_shifted_sum(q: Seq<u128>, t: u128, len: nat, m: nat)
    requires
        1 <= m <= len,
    ensures
        dot(powers(t, len), Seq::new(len, |i: int| coef(q, i - 1)), m) == gf_mul(
            t,
            dot(powers(t, len), coefs(q, len), (m - 1) as nat),
        ),
    decreases m,
{
    let p = powers(t, len);
    let shifted = Seq::new(len, |i: int| coef(q, i - 1));
    if m == 1 {
        assert(dot(p, shifted, 0) == 0);
        assert(dot(p, coefs(q, len), 0) == 0);
        lemma_mul_zero(p[0]);
        lemma_mul_zero(t);
        lemma_add_zero(0);
    } else {
        let b = (m - 1) as nat;
        lemma_shifted_sum(q, t, len, b);
        let d = dot(p, coefs(q, len), (b - 1) as nat);
        let c = coef(q, b - 1);
        assert(p[b as int] == gf_mul(t, p[b - 1]));
        lemma_mul_associative(t, p[b - 1], c);
        lemma_mul_distributive(t, d, gf_mul(p[b - 1], c));
    }
}

/// The value of a polynomial times `t + c` is its value times `t + c`.
pub proof fn lemma_eval_times_linear(q: Seq<u128>, c: u128, t: u128)
    requires
        q.len() >= 1,
    ensures
        eval(times_linear(q, c), t) == gf_mul(eval(q, t), gf_add(t, c)),
{
    let n = q.len();
    let len = (n + 1) as nat;
    let p = powers(t, len);
    let next = times_linear(q, c);
    let shifted = Seq::new(len, |i: int| coef(q, i - 1));
    let plain = coefs(q, len);
    let scaled = Seq::new(len, |i: int| gf_mul(coef(q, i), c));
    lemma_dot_add(p, shifted, scaled, next, len);
    lemma_dot_scale(p, plain, scaled, c, len);
    lemma_shifted_sum(q, t, len, len);
    // the sum of all terms of q, with and without the zero term behind them
    let whole = dot(p, plain, len);
    assert(whole == gf_add(dot(p, plain, n), gf_mul(p[n as int], plain[n as int])));
    lemma_mul_zero(p[n as int]);
    lemma_add_zero(dot(p, plain, n));
    lemma_dot_agree(p, plain, powers(t, n), q, n);
    let e = eval(q, t);
    lemma_mul_distributive(e, t, c);
    lemma_mul_commutative(e, t);
}

/// The polynomial of the roots has the product of the roots' factors as its value.
pub proof fn lemma_roots_eval(points: Seq<u128>, k: nat, t: u128)
    ensures
        eval(roots_poly(points, k), t) == roots_value(points, k, t),
    decreases k,
{
    if k == 0 {
        let q = roots_poly(points, 0);
        assert(q.len() == 1);
        assert(dot(powers(t, 1), q, 0) == 0);
        lemma_mul_one(1);
        lemma_add_zero(1);
    } else {
        lemma_roots_eval(points, (k - 1) as nat, t);
        lemma_roots_poly_len(points, (k - 1) as nat);
        lemma_eval_times_linear(roots_poly(points, (k - 1) as nat), points[k - 1], t);
    }
}

/// The product of the roots' factors is zero exactly at the roots.
pub proof fn lemma_roots_value(points: Seq<u128>, k: nat, t: u128)
    ensures
        roots_value(points, k, t) == 0 <==> exists|j: int| 0 <= j < k && points[j] == t,
    decreases k,
{
    if k == 0 {
    } else {
        let b = (k - 1) as nat;
        lemma_roots_value(points, b, t);
        let rest = roots_value(points, b, t);
        let last = gf_add(t, points[b as int]);
        crate::field::lemma_add_cancel(t, points[b as int]);
        lemma_add_self(t);
        lemma_add_zero(t);
        if rest == 0 {
            lemma_mul_zero(last);
            let j = choose|j: int| 0 <= j < b && points[j] == t;
            assert(0 <= j < k && points[j] == t);
        } else if points[b as int] == t {
            lemma_mul_zero(rest);
            assert(0 <= b < k && points[b as int] == t);
        } else {
            assert(last != 0) by {
                if last == 0 {
                    crate::field::lemma_add_cancel(t, points[b as int]);
                    lemma_add_zero(points[b as int]);
                }
            }
            if gf_mul(rest, last) == 0 {
                lemma_no_zero_divisors(rest, last);
            }
            if exists|j: int| 0 <= j < k && points[j] == t {
                let j = choose|j: int| 0 <= j < k && points[j] == t;
                assert(0 <= j < b && points[j] == t);
            }
        }
    }
}

/// Where the points are distinct, the Schur complement of an extension is not zero.
proof fn lemma_schur_not_zero(m: Seq<Seq<u128>>, points: Seq<u128>, n: nat, k: nat)
    requires
        1 <= k < n,
        is_vandermonde(m, points, n),
        extensible(m, n, (k - 1) as nat),
        distinct_upto(points, k),
    ensures
        schur_complement(inverse_after(m, n, (k - 1) as nat), m, k) != 0,
{
    let inv = inverse_after(m, n, (k - 1) as nat);
    let s = schur_complement(inv, m, k);
    let ki = k as int;
    let len = (k + 1) as nat;
    assert(m[0][0] == gf_pow(points[0], 0));
    lemma_inverse_after(m, n, (k - 1) as nat);
    if s == 0 {
        let va = right_products(inv, m, k);
        let r = Seq::new(len, |j: int| if j < k { va[j] } else { 1u128 });
        let q = roots_poly(points, k);
        lemma_roots_poly_len(points, k);
        // the row r times every column of the block is zero
        let product = row_product(r, m, len);
        assert forall|c: int| 0 <= c < len implies product[c] == 0 by {
            let col = column(m, c);
            lemma_dot_agree_first(r, va, col, k);
            lemma_mul_one(col[ki]);
            if c < k {
                lemma_right_products(inv, m, k, c);
                lemma_add_self(m[ki][c]);
            } else {
                crate::field::lemma_add_commutative(m[ki][ki], dot(va, col, k));
            }
        }
        lemma_dot_image(r, m, q, len);
        lemma_dot_commute(product, q, len);
        lemma_dot_zero(q, product, len);
        // the columns of the block times q are the values of q at the points
        let values = image(m, q, len);
        assert forall|j: int| 0 <= j < len implies values[j] == roots_value(
            points,
            k,
            points[j],
        ) by {
            lemma_dot_agree_first(m[j], powers(points[j], len), q, len);
            lemma_roots_eval(points, k, points[j]);
        }
        assert forall|j: int| 0 <= j < k implies values[j] == 0 by {
            lemma_roots_value(points, k, points[j]);
        }
        lemma_dot_zero(r, values, k);
        lemma_mul_one(values[ki]);
        lemma_add_zero(values[ki]);
        assert(values[ki] == 0);
        lemma_roots_value(points, k, points[ki]);
        let j = choose|j: int| 0 <= j < k && points[j] == points[ki];
        assert(points[j] != points[ki]);
    }
}

/// A Vandermonde matrix of distinct points can be inverted: no extension
/// meets a zero Schur complement.
pub proof fn lemma_distinct_points_invert(m: Seq<Seq<u128>>, points: Seq<u128>, n: nat, k: nat)
    requires
        k < n,
        is_vandermonde(m, points, n),
        distinct_upto(points, k),
    ensures
        extensible(m, n, k),
    decreases k,
{
    if k > 0 {
        lemma_distinct_points_invert(m, points, n, (k - 1) as nat);
        lemma_schur_not_zero(m, points, n, k);
    }
}

/// A Vandermonde matrix with two equal points cannot be inverted up to the
/// second of them.
pub proof fn lemma_equal_points_fail(
    m: Seq<Seq<u128>>,
    points: Seq<u128>,
    n: nat,
    k: nat,
    i: int,
    j: int,
)
    requires
        k < n,
        is_vandermonde(m, points, n),
        0 <= i < j <= k,
        points[i] == points[j],
    ensures
        !extensible(m, n, k),
{
    if extensible(m, n, k) {
        assert(m[0][0] == gf_pow(points[0], 0));
        lemma_inverse_after_right(m, n, k);
        let x = inverse_after(m, n, k);
        let col = column(x, i);
        assert(dot(m[i], col, k + 1) == 1);
        assert(dot(m[j], col, k + 1) == 0);
        lemma_dot_agree_first(m[i], m[j], col, k + 1);
    }
}

/// A Vandermonde matrix can be inverted up to a point exactly where the
/// points up to it are pairwise distinct.
pub proof fn lemma_invertible_iff_distinct(m: Seq<Seq<u128>>, points: Seq<u128>, n: nat, k: nat)
    requires
        k < n,
        is_vandermonde(m, points, n),
    ensures
        extensible(m, n, k) <==> distinct_upto(points, k),
{
    if distinct_upto(points, k) {
        lemma_distinct_points_invert(m, points, n, k);
    } else {
        let (i, j) = choose|i: int, j: int| 0 <= i < j <= k && points[i] == points[j];
        lemma_equal_points_fail(m, points, n, k, i, j);
    }
}

} // verus!
