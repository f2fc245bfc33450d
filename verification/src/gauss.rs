//! Gauss-Jordan elimination yields an inverse, and the same one that the
//! incremental inversion of a Vandermonde matrix yields.

use crate::algebra::{
    left_inverse, lemma_dot_add, lemma_dot_agree, lemma_dot_commute, lemma_dot_scale,
    lemma_dot_unit, lemma_inverse_after_right, lemma_inverse_unique,
};
use crate::field::{
    gf_add, gf_inv, gf_mul, lemma_add_self, lemma_add_zero, lemma_mul_commutative,
    lemma_mul_one, lemma_mul_zero,
};
use crate::matrix::{
    column, covers, dot, eliminate, eliminated_row, extensible, find_pivot, gauss_jordan,
    identity_table,
    inverse_after, is_square, leading_block, scaled_row, swap_rows,
};
use vstd::prelude::*;

verus! {

/// What the elimination keeps true: the growing inverse times the matrix is
/// the working matrix, and the first `i` columns of the working matrix are
/// those of the identity.
pub open spec fn elimination_holds(
    m: Seq<Seq<u128>>,
    a: Seq<Seq<u128>>,
    inv: Seq<Seq<u128>>,
    n: nat,
    i: nat,
) -> bool {
    &&& covers(a, n)
    &&& is_square(inv, n)
    &&& forall|r: int, c: int|
        0 <= r < n && 0 <= c < n ==> #[trigger] dot(inv[r], column(m, c), n) == a[r][c]
    &&& forall|r: int, c: int|
        0 <= r < n && 0 <= c < i ==> #[trigger] a[r][c] == if r == c {
            1u128
        } else {
            0u128
        }
}

/// The working matrix after `i` columns of the elimination.
pub open spec fn worked(m: Seq<Seq<u128>>, n: nat, i: nat) -> Seq<Seq<u128>> {
    match gauss_jordan(m, n, i) {
        Some((a, inv)) => a,
        None => Seq::empty(),
    }
}

/// The growing inverse after `i` columns of the elimination.
pub open spec fn grown(m: Seq<Seq<u128>>, n: nat, i: nat) -> Seq<Seq<u128>> {
    match gauss_jordan(m, n, i) {
        Some((a, inv)) => inv,
        None => Seq::empty(),
    }
}

/// The pivot search stays between its start and the order.
pub proof fn lemma_find_pivot(a: Seq<Seq<u128>>, i: int, n: int, from: int)
    requires
        from <= n,
    ensures
        from <= find_pivot(a, i, n, from) <= n,
        find_pivot(a, i, n, from) < n ==> a[find_pivot(a, i, n, from)][i] != 0,
    decreases n - from,
{
    if from < n && a[from][i] == 0 {
        lemma_find_pivot(a, i, n, from + 1);
    }
}

proof fn lemma_swap_holds(
    m: Seq<Seq<u128>>,
    a: Seq<Seq<u128>>,
    inv: Seq<Seq<u128>>,
    n: nat,
    i: nat,
    p: int,
)
    requires
        elimination_holds(m, a, inv, n, i),
        i <= p < n,
    ensures
        elimination_holds(m, swap_rows(a, i as int, p), swap_rows(inv, i as int, p), n, i),
{
    let a1 = swap_rows(a, i as int, p);
    let inv1 = swap_rows(inv, i as int, p);
    assert forall|r: int, c: int| 0 <= r < n && 0 <= c < n implies #[trigger] dot(
        inv1[r],
        column(m, c),
        n,
    ) == a1[r][c] by {
        let source = if r == p {
            i as int
        } else if r == i {
            p
        } else {
            r
        };
        assert(inv1[r] == inv[source]);
        assert(a1[r] == a[source]);
        assert(dot(inv[source], column(m, c), n) == a[source][c]);
    }
    assert forall|r: int, c: int| 0 <= r < n && 0 <= c < i implies #[trigger] a1[r][c] == if r
        == c {
        1u128
    } else {
        0u128
    } by {
        let source = if r == p {
            i as int
        } else if r == i {
            p
        } else {
            r
        };
        assert(a1[r] == a[source]);
        assert(a[source][c] == if source == c {
            1u128
        } else {
            0u128
        });
    }
}

proof fn lemma_eliminate_holds(
    m: Seq<Seq<u128>>,
    a: Seq<Seq<u128>>,
    inv: Seq<Seq<u128>>,
    n: nat,
    i: nat,
)
    requires
        elimination_holds(m, a, inv, n, i),
        i < n,
        a[i as int][i as int] != 0,
    ensures
        elimination_holds(
            m,
            eliminate(a, a, i as int, gf_inv(a[i as int][i as int]), n),
            eliminate(a, inv, i as int, gf_inv(a[i as int][i as int]), n),
            n,
            i + 1,
        ),
{
    let ii = i as int;
    let c = gf_inv(a[ii][ii]);
    let a2 = eliminate(a, a, ii, c, n);
    let inv2 = eliminate(a, inv, ii, c, n);
    let pivot_a = scaled_row(a[ii], c, n);
    let pivot_inv = scaled_row(inv[ii], c, n);
    assert forall|r: int| 0 <= r < n implies (#[trigger] a2[r]).len() >= n by {
        assert(a2[r] == eliminated_row(a, a, ii, c, n, r));
    }
    assert forall|r: int| 0 <= r < n implies (#[trigger] inv2[r]).len() == n by {
        assert(inv2[r] == eliminated_row(a, inv, ii, c, n, r));
    }
    assert forall|r: int, cc: int| 0 <= r < n && 0 <= cc < n implies #[trigger] dot(
        inv2[r],
        column(m, cc),
        n,
    ) == a2[r][cc] by {
        let col = column(m, cc);
        assert(inv2[r] == eliminated_row(a, inv, ii, c, n, r));
        assert(a2[r] == eliminated_row(a, a, ii, c, n, r));
        assert(dot(inv[ii], col, n) == a[ii][cc]);
        assert(dot(inv[r], col, n) == a[r][cc]);
        lemma_dot_commute(pivot_inv, col, n);
        lemma_dot_commute(inv[ii], col, n);
        lemma_dot_scale(col, inv[ii], pivot_inv, c, n);
        // dot(pivot_inv, col) == a[i][cc] * c == pivot_a[cc]
        if r == ii {
        } else {
            let f = a[r][ii];
            let y = Seq::new(n, |k: int| gf_mul(pivot_inv[k], f));
            assert forall|k: int| 0 <= k < n implies inv2[r][k] == gf_add(inv[r][k], y[k]) by {
                lemma_mul_commutative(f, pivot_inv[k]);
            }
            lemma_dot_add(col, inv[r], y, inv2[r], n);
            lemma_dot_scale(col, pivot_inv, y, f, n);
            lemma_dot_commute(inv2[r], col, n);
            lemma_dot_commute(inv[r], col, n);
            lemma_mul_commutative(f, pivot_a[cc]);
        }
    }
    crate::inverse::lemma_inverse(a[ii][ii]);
    lemma_mul_commutative(a[ii][ii], c);
    assert forall|r: int, cc: int| 0 <= r < n && 0 <= cc < i + 1 implies #[trigger] a2[r][cc]
        == if r == cc {
        1u128
    } else {
        0u128
    } by {
        assert(a2[r] == eliminated_row(a, a, ii, c, n, r));
        let f = a[r][ii];
        if cc < i {
            assert(a[ii][cc] == 0);
            assert(a[r][cc] == if r == cc {
                1u128
            } else {
                0u128
            });
            lemma_mul_zero(c);
            lemma_mul_zero(f);
            lemma_add_zero(a[r][cc]);
        } else {
            lemma_mul_one(f);
            lemma_add_self(f);
        }
    }
}

/// The elimination keeps its invariant for as long as it finds pivots.
pub proof fn lemma_elimination(m: Seq<Seq<u128>>, n: nat, i: nat)
    requires
        covers(m, n),
        i <= n,
        gauss_jordan(m, n, i) is Some,
    ensures
        elimination_holds(m, worked(m, n, i), grown(m, n, i), n, i),
    decreases i,
{
    if i == 0 {
        let id = identity_table(n);
        assert forall|r: int, c: int| 0 <= r < n && 0 <= c < n implies #[trigger] dot(
            id[r],
            column(m, c),
            n,
        ) == m[r][c] by {
            lemma_dot_unit(id[r], column(m, c), r, n);
        }
    } else {
        let before = (i - 1) as nat;
        lemma_elimination(m, n, before);
        let a = worked(m, n, before);
        let inv = grown(m, n, before);
        let col = before as int;
        let p = find_pivot(a, col, n as int, col);
        lemma_find_pivot(a, col, n as int, col);
        lemma_swap_holds(m, a, inv, n, before, p);
        lemma_eliminate_holds(m, swap_rows(a, col, p), swap_rows(inv, col, p), n, before);
    }
}

/// Gauss-Jordan elimination yields a left inverse wherever it yields a result.
pub proof fn lemma_gauss_jordan_inverts(m: Seq<Seq<u128>>, n: nat)
    requires
        covers(m, n),
        gauss_jordan(m, n, n) is Some,
    ensures
        left_inverse(grown(m, n, n), m, n),
        is_square(grown(m, n, n), n),
{
    lemma_elimination(m, n, n);
    let a = worked(m, n, n);
    let inv = grown(m, n, n);
    assert forall|r: int, c: int| 0 <= r < n && 0 <= c < n implies #[trigger] dot(
        inv[r],
        column(m, c),
        n,
    ) == if r == c {
        1u128
    } else {
        0u128
    } by {
        assert(a[r][c] == if r == c {
            1u128
        } else {
            0u128
        });
    }
}

/// The two inversions agree: for a matrix of order `n` whose leading entry
/// is one, as that of a Vandermonde matrix is, the incremental inversion and
/// Gauss-Jordan elimination yield the same inverse wherever both yield one.
pub proof fn lemma_inversions_agree(m: Seq<Seq<u128>>, n: nat)
    requires
        n >= 1,
        is_square(m, n),
        m[0][0] == 1,
        extensible(m, n, (n - 1) as nat),
        gauss_jordan(m, n, n) is Some,
    ensures
        grown(m, n, n) == inverse_after(m, n, (n - 1) as nat),
{
    let y = grown(m, n, n);
    let x = inverse_after(m, n, (n - 1) as nat);
    lemma_gauss_jordan_inverts(m, n);
    lemma_inverse_after_right(m, n, (n - 1) as nat);
    assert forall|i: int| 0 <= i < n implies #[trigger] y[i] == x[i] by {
        assert forall|j: int| 0 <= j < n implies y[i][j] == x[i][j] by {
            lemma_inverse_unique(y, x, m, n, i, j);
        }
        assert(y[i] =~= x[i]);
    }
    assert(y =~= x);
}

/// The leading block of order `n - 1` of a table.
pub open spec fn leading_part(m: Seq<Seq<u128>>, r: nat) -> Seq<Seq<u128>> {
    Seq::new(r, |i: int| m[i].take(r as int))
}

/// The smaller of the two inverses of one incremental pass agrees with
/// Gauss-Jordan elimination of the leading block of order `n - 1`.
pub proof fn lemma_sub_inversions_agree(m: Seq<Seq<u128>>, n: nat, i: int, j: int)
    requires
        n >= 2,
        is_square(m, n),
        m[0][0] == 1,
        extensible(m, n, (n - 2) as nat),
        gauss_jordan(leading_part(m, (n - 1) as nat), (n - 1) as nat, (n - 1) as nat) is Some,
        0 <= i < n - 1,
        0 <= j < n - 1,
    ensures
        grown(leading_part(m, (n - 1) as nat), (n - 1) as nat, (n - 1) as nat)[i][j]
            == leading_block(inverse_after(m, n, (n - 2) as nat), (n - 1) as nat)[i][j],
{
    let r = (n - 1) as nat;
    let part = leading_part(m, r);
    let y = grown(part, r, r);
    let x = inverse_after(m, n, (n - 2) as nat);
    lemma_gauss_jordan_inverts(part, r);
    lemma_inverse_after_right(m, n, (n - 2) as nat);
    assert forall|a: int, c: int| 0 <= a < r && 0 <= c < r implies #[trigger] dot(
        y[a],
        column(m, c),
        r,
    ) == if a == c {
        1u128
    } else {
        0u128
    } by {
        lemma_dot_agree(y[a], column(m, c), y[a], column(part, c), r);
        assert(dot(y[a], column(part, c), r) == if a == c {
            1u128
        } else {
            0u128
        });
    }
    lemma_inverse_unique(y, x, m, r, i, j);
}

} // verus!
