//! Sums of products over the field: the laws that matrix products rest on.

use crate::field::{
    gf_add, gf_inv, gf_mul, lemma_add_exchange, lemma_add_self, lemma_add_zero,
    lemma_mul_associative, lemma_mul_commutative, lemma_mul_distributive, lemma_mul_one,
    lemma_mul_zero,
};
use crate::matrix::{
    column, covers, dot, extend_inverse, extended_entry, extended_row, extensible,
    inverse_after,
    inverse_seed, is_square, leading_block, left_products, right_products, schur_complement,
};
use vstd::prelude::*;

verus! {

/// Whether `m` times `v` is the identity over the leading blocks of order `r`.
pub open spec fn left_inverse(m: Seq<Seq<u128>>, v: Seq<Seq<u128>>, r: nat) -> bool {
    forall|i: int, k: int|
        0 <= i < r && 0 <= k < r ==> #[trigger] dot(m[i], column(v, k), r) == if i == k {
            1u128
        } else {
            0u128
        }
}

/// The first `r` rows of `v`, each multiplied with the first `n` items of `w`.
pub open spec fn image_upto(v: Seq<Seq<u128>>, w: Seq<u128>, r: nat, n: nat) -> Seq<u128> {
    Seq::new(r, |j: int| dot(v[j], w, n))
}

/// The leading block of order `r` of `v` times `w`.
pub open spec fn image(v: Seq<Seq<u128>>, w: Seq<u128>, r: nat) -> Seq<u128> {
    image_upto(v, w, r, r)
}

/// The row `a` times the leading block of order `r` of `v`.
pub open spec fn row_product(a: Seq<u128>, v: Seq<Seq<u128>>, r: nat) -> Seq<u128> {
    Seq::new(r, |k: int| dot(a, column(v, k), r))
}

/// A sum of products with zeros is zero.
pub proof fn lemma_dot_zero(a: Seq<u128>, z: Seq<u128>, n: nat)
    requires
        forall|k: int| 0 <= k < n ==> z[k] == 0,
    ensures
        dot(a, z, n) == 0,
    decreases n,
{
    if n > 0 {
        lemma_dot_zero(a, z, (n - 1) as nat);
        lemma_mul_zero(a[n - 1]);
        lemma_add_zero(0);
    }
}

/// A sum of products is additive in its second factor.
pub proof fn lemma_dot_add(a: Seq<u128>, x: Seq<u128>, y: Seq<u128>, z: Seq<u128>, n: nat)
    requires
        forall|k: int| 0 <= k < n ==> z[k] == gf_add(x[k], y[k]),
    ensures
        dot(a, z, n) == gf_add(dot(a, x, n), dot(a, y, n)),
    decreases n,
{
    if n == 0 {
        lemma_add_zero(0);
    } else {
        let m = (n - 1) as nat;
        lemma_dot_add(a, x, y, z, m);
        lemma_mul_distributive(a[m as int], x[m as int], y[m as int]);
        lemma_add_exchange(
            dot(a, x, m),
            dot(a, y, m),
            gf_mul(a[m as int], x[m as int]),
            gf_mul(a[m as int], y[m as int]),
        );
    }
}

/// A common factor of the second factors can be drawn out of a sum of products.
pub proof fn lemma_dot_scale(a: Seq<u128>, x: Seq<u128>, y: Seq<u128>, s: u128, n: nat)
    requires
        forall|k: int| 0 <= k < n ==> y[k] == gf_mul(x[k], s),
    ensures
        dot(a, y, n) == gf_mul(dot(a, x, n), s),
    decreases n,
{
    if n == 0 {
        lemma_mul_zero(s);
    } else {
        let m = (n - 1) as nat;
        lemma_dot_scale(a, x, y, s, m);
        lemma_mul_associative(a[m as int], x[m as int], s);
        lemma_mul_distributive(s, dot(a, x, m), gf_mul(a[m as int], x[m as int]));
    }
}

/// A sum of products with a unit row picks one item.
pub proof fn lemma_dot_unit(d: Seq<u128>, w: Seq<u128>, i: int, n: nat)
    requires
        forall|k: int|
            0 <= k < n ==> d[k] == if k == i {
                1u128
            } else {
                0u128
            },
    ensures
        dot(d, w, n) == if 0 <= i < n {
            w[i]
        } else {
            0u128
        },
    decreases n,
{
    if n > 0 {
        let m = (n - 1) as nat;
        lemma_dot_unit(d, w, i, m);
        lemma_mul_one(w[m as int]);
        lemma_mul_zero(w[m as int]);
        lemma_add_zero(w[m as int]);
        lemma_add_zero(dot(d, w, m));
    }
}

proof fn lemma_dot_image_upto(a: Seq<u128>, v: Seq<Seq<u128>>, w: Seq<u128>, r: nat, n: nat)
    requires
        n <= r,
        covers(v, r),
    ensures
        dot(a, image_upto(v, w, r, n), r) == dot(row_product(a, v, r), w, n),
    decreases n,
{
    if n == 0 {
        lemma_dot_zero(a, image_upto(v, w, r, 0), r);
    } else {
        let m = (n - 1) as nat;
        lemma_dot_image_upto(a, v, w, r, m);
        let x = image_upto(v, w, r, m);
        let col = column(v, m as int);
        let y = Seq::new(r, |j: int| gf_mul(col[j], w[m as int]));
        let z = image_upto(v, w, r, n);
        assert forall|k: int| 0 <= k < r implies z[k] == gf_add(x[k], y[k]) by {
            assert(v[k].len() >= r);
        }
        lemma_dot_add(a, x, y, z, r);
        lemma_dot_scale(a, col, y, w[m as int], r);
    }
}

/// A row times the image of a vector is the row's product with the matrix
/// times the vector.
pub proof fn lemma_dot_image(a: Seq<u128>, v: Seq<Seq<u128>>, w: Seq<u128>, r: nat)
    requires
        covers(v, r),
    ensures
        dot(a, image(v, w, r), r) == dot(row_product(a, v, r), w, r),
{
    lemma_dot_image_upto(a, v, w, r, r);
}

/// A left inverse applied to the image of a vector gives the vector back.
pub proof fn lemma_left_inverse_recovers(
    m: Seq<Seq<u128>>,
    v: Seq<Seq<u128>>,
    w: Seq<u128>,
    r: nat,
    i: int,
)
    requires
        covers(v, r),
        left_inverse(m, v, r),
        0 <= i < r,
    ensures
        dot(m[i], image(v, w, r), r) == w[i],
{
    lemma_dot_image(m[i], v, w, r);
    let d = row_product(m[i], v, r);
    assert forall|k: int| 0 <= k < r implies d[k] == if k == i {
        1u128
    } else {
        0u128
    } by {
        assert(d[k] == dot(m[i], column(v, k), r));
    }
    lemma_dot_unit(d, w, i, r);
}

/// A sum of products does not change when the factors change places.
pub proof fn lemma_dot_commute(a: Seq<u128>, b: Seq<u128>, n: nat)
    ensures
        dot(a, b, n) == dot(b, a, n),
    decreases n,
{
    if n > 0 {
        lemma_dot_commute(a, b, (n - 1) as nat);
        lemma_mul_commutative(a[n - 1], b[n - 1]);
    }
}

/// The new row applied to a left inverse of the leading block and then to a
/// column of that block gives the new row's entry in that column.
pub proof fn lemma_right_products(inv: Seq<Seq<u128>>, m: Seq<Seq<u128>>, k: nat, c: int)
    requires
        covers(inv, k),
        covers(m, k + 1),
        left_inverse(inv, m, k),
        0 <= c < k,
    ensures
        dot(right_products(inv, m, k), column(m, c), k) == m[k as int][c],
{
    let row = m[k as int];
    let col = column(m, c);
    lemma_dot_image(row, inv, col, k);
    assert(right_products(inv, m, k) =~= row_product(row, inv, k));
    let e = image(inv, col, k);
    assert forall|x: int| 0 <= x < k implies e[x] == if x == c {
        1u128
    } else {
        0u128
    } by {
        assert(e[x] == dot(inv[x], column(m, c), k));
    }
    lemma_dot_commute(row, e, k);
    lemma_dot_unit(e, row, c, k);
}

/// One extension of a left inverse by the block inversion formula is a left
/// inverse of the block that is one row and column larger, where the Schur
/// complement is not zero.
pub proof fn lemma_extend_left_inverse(inv: Seq<Seq<u128>>, m: Seq<Seq<u128>>, n: nat, k: nat)
    requires
        1 <= k < n,
        is_square(inv, n),
        covers(m, k + 1),
        left_inverse(inv, m, k),
        schur_complement(inv, m, k) != 0,
    ensures
        left_inverse(extend_inverse(inv, m, k), m, k + 1),
        is_square(extend_inverse(inv, m, k), n),
{
    let next = extend_inverse(inv, m, k);
    let s = schur_complement(inv, m, k);
    let gamma = gf_inv(s);
    let au = left_products(inv, m, k);
    let va = right_products(inv, m, k);
    let ki = k as int;
    crate::inverse::lemma_inverse(s);
    lemma_mul_commutative(s, gamma);
    assert forall|i: int, c: int| 0 <= i < k + 1 && 0 <= c < k + 1 implies #[trigger] dot(
        next[i],
        column(m, c),
        k + 1,
    ) == if i == c {
        1u128
    } else {
        0u128
    } by {
        let col = column(m, c);
        // the part of the new row's product that the old block does not see
        let tail = gf_add(dot(va, col, k), m[ki][c]);
        if c < k {
            lemma_right_products(inv, m, k, c);
            lemma_add_self(m[ki][c]);
            assert(tail == 0);
        } else {
            lemma_mul_commutative(0, 0);
            crate::field::lemma_add_commutative(m[ki][ki], dot(va, col, k));
            assert(tail == s);
        }
        assert(next[i] == extended_row(inv, m, k, i));
        assert(next[i][ki] == extended_entry(inv, m, k, i, ki));
        assert(col[ki] == m[ki][c]);
        if i < k {
            let f = gf_mul(gamma, au[i]);
            let y = Seq::new(k, |j: int| gf_mul(va[j], f));
            assert forall|j: int| 0 <= j < k implies next[i][j] == gf_add(inv[i][j], y[j]) by {
                assert(next[i][j] == extended_entry(inv, m, k, i, j));
                lemma_mul_commutative(f, va[j]);
            }
            lemma_dot_add(col, inv[i], y, next[i], k);
            lemma_dot_scale(col, va, y, f, k);
            lemma_dot_commute(col, next[i], k);
            lemma_dot_commute(col, inv[i], k);
            lemma_dot_commute(col, va, k);
            // dot(next[i], col, k) == dot(inv[i], col, k) + dot(va, col, k) * f
            let base = dot(inv[i], col, k);
            let d = dot(va, col, k);
            lemma_mul_distributive(f, d, m[ki][c]);
            lemma_mul_commutative(f, d);
            lemma_mul_commutative(f, m[ki][c]);
            lemma_mul_commutative(f, tail);
            crate::field::lemma_add_associative(base, gf_mul(d, f), gf_mul(f, m[ki][c]));
            // whole product == base + f * tail
            assert(dot(next[i], col, k + 1) == gf_add(base, gf_mul(f, tail)));
            if c < k {
                lemma_mul_zero(f);
                lemma_add_zero(base);
                assert(base == dot(inv[i], column(m, c), k));
            } else {
                assert(base == au[i]);
                lemma_mul_associative(gamma, au[i], s);
                lemma_mul_commutative(au[i], s);
                lemma_mul_associative(gamma, s, au[i]);
                lemma_mul_one(au[i]);
                lemma_add_self(au[i]);
            }
        } else {
            let y = Seq::new(k, |j: int| gf_mul(va[j], gamma));
            assert forall|j: int| 0 <= j < k implies next[i][j] == y[j] by {
                assert(next[i][j] == extended_entry(inv, m, k, i, j));
                lemma_mul_commutative(gamma, va[j]);
            }
            lemma_dot_agree_first(next[i], y, col, k);
            lemma_dot_commute(y, col, k);
            lemma_dot_scale(col, va, y, gamma, k);
            lemma_dot_commute(col, va, k);
            let d = dot(va, col, k);
            lemma_mul_distributive(gamma, d, m[ki][c]);
            lemma_mul_commutative(gamma, d);
            assert(dot(next[i], col, k + 1) == gf_mul(gamma, tail));
            if c < k {
                lemma_mul_zero(gamma);
            }
        }
    }
    assert forall|i: int| 0 <= i < n implies (#[trigger] next[i]).len() == n by {
        assert(next[i] == extended_row(inv, m, k, i));
    }
}

/// Two sums of products agree where their first factors agree.
pub proof fn lemma_dot_agree_first(a: Seq<u128>, a2: Seq<u128>, b: Seq<u128>, n: nat)
    requires
        forall|k: int| 0 <= k < n ==> a[k] == a2[k],
    ensures
        dot(a, b, n) == dot(a2, b, n),
    decreases n,
{
    if n > 0 {
        lemma_dot_agree_first(a, a2, b, (n - 1) as nat);
    }
}

/// The incremental inversion yields a left inverse: after `k` extensions of
/// a matrix whose leading entry is one, the table is a left inverse of the
/// leading block of order `k + 1`, where no Schur complement on the way is zero.
pub proof fn lemma_inverse_after(m: Seq<Seq<u128>>, n: nat, k: nat)
    requires
        k < n,
        covers(m, k + 1),
        m[0][0] == 1,
        extensible(m, n, k),
    ensures
        left_inverse(inverse_after(m, n, k), m, k + 1),
        is_square(inverse_after(m, n, k), n),
    decreases k,
{
    if k == 0 {
        let seed = inverse_seed(n);
        assert(seed[0][0] == 1);
        assert(column(m, 0)[0] == m[0][0]);
        lemma_mul_one(1);
        lemma_add_zero(1);
        assert(dot(seed[0], column(m, 0), 0) == 0);
        assert(dot(seed[0], column(m, 0), 1) == 1);
        assert(is_square(seed, n));
    } else {
        lemma_inverse_after(m, n, (k - 1) as nat);
        lemma_extend_left_inverse(inverse_after(m, n, (k - 1) as nat), m, n, k);
    }
}

/// Cutting a left inverse down to the block it inverts leaves a left inverse.
pub proof fn lemma_leading_block_inverse(inv: Seq<Seq<u128>>, m: Seq<Seq<u128>>, n: nat, r: nat)
    requires
        r <= n,
        is_square(inv, n),
        left_inverse(inv, m, r),
    ensures
        left_inverse(leading_block(inv, r), m, r),
{
    let cut = leading_block(inv, r);
    assert forall|i: int, k: int| 0 <= i < r && 0 <= k < r implies #[trigger] dot(
        cut[i],
        column(m, k),
        r,
    ) == if i == k {
        1u128
    } else {
        0u128
    } by {
        lemma_dot_agree_first(cut[i], inv[i], column(m, k), r);
        assert(dot(inv[i], column(m, k), r) == if i == k {
            1u128
        } else {
            0u128
        });
    }
}

/// The Schur complement can be summed either way: the new row times the
/// inverse applied to the new column, or the new row applied to the inverse
/// times the new column.
proof fn lemma_schur_either_way(inv: Seq<Seq<u128>>, m: Seq<Seq<u128>>, k: nat)
    requires
        covers(inv, k),
        covers(m, k + 1),
    ensures
        dot(m[k as int], left_products(inv, m, k), k) == dot(
            right_products(inv, m, k),
            column(m, k as int),
            k,
        ),
{
    let row = m[k as int];
    let col = column(m, k as int);
    lemma_dot_image(row, inv, col, k);
    assert(image(inv, col, k) =~= left_products(inv, m, k));
    assert(row_product(row, inv, k) =~= right_products(inv, m, k));
}

/// One extension of a right inverse by the block inversion formula is a
/// right inverse of the block that is one row and column larger, where the
/// Schur complement is not zero.
pub proof fn lemma_extend_right_inverse(inv: Seq<Seq<u128>>, m: Seq<Seq<u128>>, n: nat, k: nat)
    requires
        1 <= k < n,
        is_square(inv, n),
        covers(m, k + 1),
        left_inverse(m, inv, k),
        schur_complement(inv, m, k) != 0,
    ensures
        left_inverse(m, extend_inverse(inv, m, k), k + 1),
{
    let next = extend_inverse(inv, m, k);
    let s = schur_complement(inv, m, k);
    let gamma = gf_inv(s);
    let au = left_products(inv, m, k);
    let va = right_products(inv, m, k);
    let ki = k as int;
    crate::inverse::lemma_inverse(s);
    lemma_mul_commutative(s, gamma);
    lemma_schur_either_way(inv, m, k);
    assert forall|i: int, c: int| 0 <= i < k + 1 && 0 <= c < k + 1 implies #[trigger] dot(
        m[i],
        column(next, c),
        k + 1,
    ) == if i == c {
        1u128
    } else {
        0u128
    } by {
        let col = column(next, c);
        let row = m[i];
        assert(next[ki] == extended_row(inv, m, k, ki));
        assert(col[ki] == extended_entry(inv, m, k, ki, c));
        // the row applied to the inverse times the new column
        let through = dot(row, au, k);
        // what the corner adds to it
        let tail = gf_add(through, row[ki]);
        if i < k {
            lemma_left_inverse_recovers(m, inv, column(m, ki), k, i);
            assert(image(inv, column(m, ki), k) =~= au);
            assert(through == row[ki]);
            lemma_add_self(row[ki]);
            assert(tail == 0);
        } else {
            crate::field::lemma_add_commutative(through, row[ki]);
            assert(tail == s);
        }
        if c < k {
            let f = gf_mul(gamma, va[c]);
            let old_col = column(inv, c);
            let y = Seq::new(k, |j: int| gf_mul(au[j], f));
            assert forall|j: int| 0 <= j < k implies col[j] == gf_add(old_col[j], y[j]) by {
                assert(next[j] == extended_row(inv, m, k, j));
                assert(col[j] == extended_entry(inv, m, k, j, c));
                lemma_mul_associative(gamma, au[j], va[c]);
                lemma_mul_commutative(au[j], va[c]);
                lemma_mul_associative(gamma, va[c], au[j]);
                lemma_mul_commutative(f, au[j]);
            }
            lemma_dot_add(row, old_col, y, col, k);
            lemma_dot_scale(row, au, y, f, k);
            let base = dot(row, old_col, k);
            lemma_mul_distributive(f, through, row[ki]);
            lemma_mul_commutative(f, through);
            lemma_mul_commutative(row[ki], f);
            crate::field::lemma_add_associative(base, gf_mul(through, f), gf_mul(f, row[ki]));
            assert(dot(row, col, k + 1) == gf_add(base, gf_mul(f, tail)));
            if i < k {
                lemma_mul_zero(f);
                lemma_add_zero(base);
                assert(base == dot(m[i], column(inv, c), k));
            } else {
                assert(base == va[c]);
                lemma_mul_associative(gamma, va[c], s);
                lemma_mul_commutative(va[c], s);
                lemma_mul_associative(gamma, s, va[c]);
                lemma_mul_one(va[c]);
                lemma_add_self(va[c]);
            }
        } else {
            let y = Seq::new(k, |j: int| gf_mul(au[j], gamma));
            assert forall|j: int| 0 <= j < k implies col[j] == y[j] by {
                assert(next[j] == extended_row(inv, m, k, j));
                assert(col[j] == extended_entry(inv, m, k, j, c));
                lemma_mul_commutative(gamma, au[j]);
            }
            lemma_dot_agree(row, col, row, y, k);
            lemma_dot_scale(row, au, y, gamma, k);
            lemma_mul_distributive(gamma, through, row[ki]);
            lemma_mul_commutative(gamma, through);
            lemma_mul_commutative(row[ki], gamma);
            assert(dot(row, col, k + 1) == gf_mul(gamma, tail));
            if i < k {
                lemma_mul_zero(gamma);
            }
        }
    }
}

/// Two sums of products agree where their factors agree.
pub proof fn lemma_dot_agree(a: Seq<u128>, b: Seq<u128>, a2: Seq<u128>, b2: Seq<u128>, n: nat)
    requires
        forall|k: int| 0 <= k < n ==> a[k] == a2[k] && b[k] == b2[k],
    ensures
        dot(a, b, n) == dot(a2, b2, n),
    decreases n,
{
    if n > 0 {
        lemma_dot_agree(a, b, a2, b2, (n - 1) as nat);
    }
}

/// The incremental inversion yields a right inverse as well.
pub proof fn lemma_inverse_after_right(m: Seq<Seq<u128>>, n: nat, k: nat)
    requires
        k < n,
        covers(m, k + 1),
        m[0][0] == 1,
        extensible(m, n, k),
    ensures
        left_inverse(m, inverse_after(m, n, k), k + 1),
        is_square(inverse_after(m, n, k), n),
    decreases k,
{
    lemma_inverse_after(m, n, k);
    if k == 0 {
        let seed = inverse_seed(n);
        assert(column(seed, 0)[0] == seed[0][0]);
        lemma_mul_one(1);
        lemma_add_zero(1);
        assert(dot(m[0], column(seed, 0), 0) == 0);
        assert(dot(m[0], column(seed, 0), 1) == 1);
    } else {
        lemma_inverse_after_right(m, n, (k - 1) as nat);
        lemma_extend_right_inverse(inverse_after(m, n, (k - 1) as nat), m, n, k);
    }
}

/// A left inverse and a right inverse of one matrix are the same matrix.
pub proof fn lemma_inverse_unique(
    y: Seq<Seq<u128>>,
    x: Seq<Seq<u128>>,
    m: Seq<Seq<u128>>,
    r: nat,
    i: int,
    j: int,
)
    requires
        covers(m, r),
        covers(x, r),
        left_inverse(y, m, r),
        left_inverse(m, x, r),
        0 <= i < r,
        0 <= j < r,
    ensures
        y[i][j] == x[i][j],
{
    let w = column(x, j);
    lemma_left_inverse_recovers(y, m, w, r, i);
    let e = image(m, w, r);
    assert forall|k: int| 0 <= k < r implies e[k] == if k == j {
        1u128
    } else {
        0u128
    } by {
        assert(e[k] == dot(m[k], column(x, j), r));
    }
    lemma_dot_commute(y[i], e, r);
    lemma_dot_unit(e, y[i], j, r);
}

} // verus!
