//! Square matrices of field elements: products, Gauss-Jordan inversion, and
//! the inversion of a Vandermonde matrix one row and column at a time.

use crate::field::{
    gf_add, gf_inv, gf_mul, gf_pow, lemma_mul_commutative, GF128,
    MAX_VECTOR_ELEMENTS,
};
use crate::storage::{
    row_get, row_items, row_new, row_push, table_clone, table_get, table_items,
    table_len, table_new, table_push, table_row_len, table_set, table_swap, Row, Table,
};
use crate::vector::{powers, GF128Vector};
use crate::algebra::{left_inverse, lemma_inverse_after, lemma_inverse_after_right, lemma_leading_block_inverse};
use crate::gauss::lemma_gauss_jordan_inverts;
use crate::parse::{lenient_number, parse_bytes_to_gf128, parse_signed, signed_number};
use vstd::prelude::*;
use vstd::string::StringSliceAdditionalSpecFns;

verus! {

/// The sum of the products of the first `n` items of `a` and `b`.
pub open spec fn dot(a: Seq<u128>, b: Seq<u128>, n: nat) -> u128
    decreases n,
{
    if n == 0 {
        0
    } else {
        gf_add(dot(a, b, (n - 1) as nat), gf_mul(a[n - 1], b[n - 1]))
    }
}

/// Column `j` of a table.
pub open spec fn column(m: Seq<Seq<u128>>, j: int) -> Seq<u128> {
    Seq::new(m.len(), |i: int| m[i][j])
}

/// A table of `n` rows of `n` zeros.
pub open spec fn zero_table(n: nat) -> Seq<Seq<u128>> {
    Seq::new(n, |i: int| Seq::new(n, |j: int| 0u128))
}

/// The identity table of order `n`.
pub open spec fn identity_table(n: nat) -> Seq<Seq<u128>> {
    Seq::new(
        n,
        |i: int|
            Seq::new(
                n,
                |j: int|
                    if i == j {
                        1u128
                    } else {
                        0u128
                    },
            ),
    )
}

/// Whether a table has `n` rows of `n` items each.
pub open spec fn is_square(m: Seq<Seq<u128>>, n: nat) -> bool {
    &&& m.len() == n
    &&& forall|i: int| 0 <= i < n ==> (#[trigger] m[i]).len() == n
}

/// Whether a table has at least `n` rows, the first `n` of at least `n` items.
pub open spec fn covers(m: Seq<Seq<u128>>, n: nat) -> bool {
    &&& m.len() >= n
    &&& forall|i: int| 0 <= i < n ==> (#[trigger] m[i]).len() >= n
}

/// The table that is `m` within its leading block of order `k` and zero elsewhere.
pub open spec fn leading_block(m: Seq<Seq<u128>>, k: nat) -> Seq<Seq<u128>> {
    Seq::new(
        m.len(),
        |i: int|
            Seq::new(
                m[i].len(),
                |j: int|
                    if i < k && j < k {
                        m[i][j]
                    } else {
                        0u128
                    },
            ),
    )
}

/// The start of the incremental inversion: the inverse of the leading entry
/// of a Vandermonde matrix, which is one, in a zero table of order `n`.
pub open spec fn inverse_seed(n: nat) -> Seq<Seq<u128>> {
    Seq::new(
        n,
        |i: int|
            Seq::new(
                n,
                |j: int|
                    if i == 0 && j == 0 {
                        1u128
                    } else {
                        0u128
                    },
            ),
    )
}

/// The inverse of the leading block of order `k`, applied to the new column.
pub open spec fn left_products(inv: Seq<Seq<u128>>, m: Seq<Seq<u128>>, k: nat) -> Seq<u128> {
    Seq::new(k, |i: int| dot(inv[i], column(m, k as int), k))
}

/// The new row applied to the inverse of the leading block of order `k`.
pub open spec fn right_products(inv: Seq<Seq<u128>>, m: Seq<Seq<u128>>, k: nat) -> Seq<u128> {
    Seq::new(k, |j: int| dot(m[k as int], column(inv, j), k))
}

/// The Schur complement of the leading block of order `k` in the block of order `k + 1`.
pub open spec fn schur_complement(inv: Seq<Seq<u128>>, m: Seq<Seq<u128>>, k: nat) -> u128 {
    gf_add(m[k as int][k as int], dot(right_products(inv, m, k), column(m, k as int), k))
}

/// Entry (i, j) of the inverse of the leading block of order `k + 1`, from
/// the inverse `inv` of the leading block of order `k`.
pub open spec fn extended_entry(
    inv: Seq<Seq<u128>>,
    m: Seq<Seq<u128>>,
    k: nat,
    i: int,
    j: int,
) -> u128 {
    let gamma = gf_inv(schur_complement(inv, m, k));
    let au = left_products(inv, m, k);
    let va = right_products(inv, m, k);
    if i < k && j < k {
        gf_add(inv[i][j], gf_mul(gf_mul(gamma, au[i]), va[j]))
    } else if i < k && j == k {
        gf_mul(gamma, au[i])
    } else if i == k && j < k {
        gf_mul(gamma, va[j])
    } else if i == k && j == k {
        gamma
    } else {
        inv[i][j]
    }
}

/// Row `i` of the extended inverse.
pub open spec fn extended_row(inv: Seq<Seq<u128>>, m: Seq<Seq<u128>>, k: nat, i: int) -> Seq<
    u128,
> {
    Seq::new(inv[i].len(), |j: int| extended_entry(inv, m, k, i, j))
}

/// The inverse of the leading block of order `k + 1`, from the inverse `inv`
/// of the leading block of order `k`, by the block inversion formula.
pub open spec fn extend_inverse(inv: Seq<Seq<u128>>, m: Seq<Seq<u128>>, k: nat) -> Seq<
    Seq<u128>,
> {
    Seq::new(inv.len(), |i: int| extended_row(inv, m, k, i))
}

/// The table after `k` extensions: the inverse of the leading block of order
/// `k + 1` of `m` within a table of order `n`.
pub open spec fn inverse_after(m: Seq<Seq<u128>>, n: nat, k: nat) -> Seq<Seq<u128>>
    decreases k,
{
    if k == 0 {
        inverse_seed(n)
    } else {
        extend_inverse(inverse_after(m, n, (k - 1) as nat), m, k)
    }
}

/// Whether the first `k` extensions all meet a nonzero Schur complement.
pub open spec fn extensible(m: Seq<Seq<u128>>, n: nat, k: nat) -> bool
    decreases k,
{
    k == 0 || (extensible(m, n, (k - 1) as nat) && schur_complement(
        inverse_after(m, n, (k - 1) as nat),
        m,
        k,
    ) != 0)
}

/// The first row from `from` on, below `n`, whose entry in column `i` is not
/// zero; `n` where there is none.
pub open spec fn find_pivot(a: Seq<Seq<u128>>, i: int, n: int, from: int) -> int
    decreases n - from,
{
    if from >= n {
        n
    } else if a[from][i] != 0 {
        from
    } else {
        find_pivot(a, i, n, from + 1)
    }
}

/// The table with rows `i` and `j` exchanged.
pub open spec fn swap_rows(a: Seq<Seq<u128>>, i: int, j: int) -> Seq<Seq<u128>> {
    a.update(i, a[j]).update(j, a[i])
}

/// The row with its first `n` items multiplied by `c`.
pub open spec fn scaled_row(row: Seq<u128>, c: u128, n: nat) -> Seq<u128> {
    Seq::new(
        row.len(),
        |k: int|
            if k < n {
                gf_mul(row[k], c)
            } else {
                row[k]
            },
    )
}

/// The row less `factor` times the pivot row, over the first `n` items.
pub open spec fn reduced_row(row: Seq<u128>, factor: u128, pivot_row: Seq<u128>, n: nat) -> Seq<
    u128,
> {
    Seq::new(
        row.len(),
        |k: int|
            if k < n {
                gf_add(row[k], gf_mul(factor, pivot_row[k]))
            } else {
                row[k]
            },
    )
}

/// Row `j` of `t` after the elimination step on column `i`: the pivot row is
/// scaled by `c`, every other row below `n` loses its multiple of it, the
/// factor being that row's entry of `a` in column `i`.
pub open spec fn eliminated_row(
    a: Seq<Seq<u128>>,
    t: Seq<Seq<u128>>,
    i: int,
    c: u128,
    n: nat,
    j: int,
) -> Seq<u128> {
    if j == i {
        scaled_row(t[i], c, n)
    } else if j < n {
        reduced_row(t[j], a[j][i], scaled_row(t[i], c, n), n)
    } else {
        t[j]
    }
}

/// The table `t` after the elimination step on column `i`.
pub open spec fn eliminate(a: Seq<Seq<u128>>, t: Seq<Seq<u128>>, i: int, c: u128, n: nat) -> Seq<
    Seq<u128>,
> {
    Seq::new(t.len(), |j: int| eliminated_row(a, t, i, c, n, j))
}

/// The working matrix and the growing inverse after `i` columns of
/// Gauss-Jordan elimination on `m`, or `None` where a column has no pivot.
pub open spec fn gauss_jordan(m: Seq<Seq<u128>>, n: nat, i: nat) -> Option<
    (Seq<Seq<u128>>, Seq<Seq<u128>>),
>
    decreases i,
{
    if i == 0 {
        Some((m, identity_table(n)))
    } else {
        match gauss_jordan(m, n, (i - 1) as nat) {
            None => None,
            Some((a, inv)) => {
                let col = i - 1;
                let p = find_pivot(a, col, n as int, col);
                if p >= n {
                    None
                } else {
                    let a1 = swap_rows(a, col, p);
                    let inv1 = swap_rows(inv, col, p);
                    let c = gf_inv(a1[col][col]);
                    Some((eliminate(a1, a1, col, c, n), eliminate(a1, inv1, col, c, n)))
                }
            },
        }
    }
}

/// The product of two tables over their leading blocks of order `n`.
pub open spec fn table_product(a: Seq<Seq<u128>>, b: Seq<Seq<u128>>, n: nat, cols: nat) -> Seq<
    Seq<u128>,
> {
    Seq::new(n, |i: int| Seq::new(cols, |j: int| dot(a[i], column(b, j), n)))
}

/// The storage of a vector after multiplication by a table: the first `n`
/// items are the products of the rows with the old items, the others stay.
pub open spec fn applied(m: Seq<Seq<u128>>, v: Seq<u128>, n: nat) -> Seq<u128> {
    Seq::new(
        v.len(),
        |i: int|
            if i < n {
                dot(m[i], v, n)
            } else {
                v[i]
            },
    )
}

/// A square matrix: `data` holds the storage, of which the leading block of
/// order `true_size` is the matrix.
pub struct GF128Matrix {
    pub data: Table,
    pub true_size: usize,
}

impl Clone for GF128Matrix {
    fn clone(&self) -> (copy: GF128Matrix)
        ensures
            copy.entries() == self.entries(),
            copy.true_size == self.true_size,
    {
        GF128Matrix { data: table_clone(&self.data), true_size: self.true_size }
    }
}

/// A row of `n` zeros.
fn zero_row(n: usize) -> (row: Row)
    requires
        n <= MAX_VECTOR_ELEMENTS,
    ensures
        row_items(row) == Seq::new(n as nat, |j: int| 0u128),
{
    let mut row = row_new();
    let mut j: usize = 0;
    while j < n
        invariant
            j <= n <= MAX_VECTOR_ELEMENTS,
            row_items(row) =~= Seq::new(j as nat, |c: int| 0u128),
        decreases n - j,
    {
        row_push(&mut row, 0);
        j = j + 1;
    }
    row
}

/// The sum of the products of the first `n` items of row `i` of `a` with
/// column `c` of `b`.
fn row_by_column(a: &Table, i: usize, b: &Table, c: usize, n: usize) -> (sum: GF128)
    requires
        i < table_items(*a).len(),
        n <= table_items(*a)[i as int].len(),
        n <= table_items(*b).len(),
        forall|k: int| 0 <= k < n ==> c < (#[trigger] table_items(*b)[k]).len(),
    ensures
        sum@ == dot(table_items(*a)[i as int], column(table_items(*b), c as int), n as nat),
{
    let mut sum = GF128 { value: 0 };
    let mut k: usize = 0;
    while k < n
        invariant
            k <= n,
            i < table_items(*a).len(),
            n <= table_items(*a)[i as int].len(),
            n <= table_items(*b).len(),
            forall|k: int| 0 <= k < n ==> c < (#[trigger] table_items(*b)[k]).len(),
            sum@ == dot(table_items(*a)[i as int], column(table_items(*b), c as int), k as nat),
        decreases n - k,
    {
        let x = GF128 { value: table_get(a, i, k) };
        let y = GF128 { value: table_get(b, k, c) };
        sum = sum.addto(&x.multiply(&y));
        k = k + 1;
    }
    sum
}

/// The sum of the products of the first `n` items of a row with column `c` of `b`.
fn items_by_column(a: &Row, b: &Table, c: usize, n: usize) -> (sum: GF128)
    requires
        n <= row_items(*a).len(),
        n <= table_items(*b).len(),
        forall|k: int| 0 <= k < n ==> c < (#[trigger] table_items(*b)[k]).len(),
    ensures
        sum@ == dot(row_items(*a), column(table_items(*b), c as int), n as nat),
{
    let mut sum = GF128 { value: 0 };
    let mut k: usize = 0;
    while k < n
        invariant
            k <= n,
            n <= row_items(*a).len(),
            n <= table_items(*b).len(),
            forall|k: int| 0 <= k < n ==> c < (#[trigger] table_items(*b)[k]).len(),
            sum@ == dot(row_items(*a), column(table_items(*b), c as int), k as nat),
        decreases n - k,
    {
        let x = GF128 { value: row_get(a, k) };
        let y = GF128 { value: table_get(b, k, c) };
        sum = sum.addto(&x.multiply(&y));
        k = k + 1;
    }
    sum
}

/// The sum of the products of the first `n` items of row `i` of `a` with the
/// items of `v`.
pub(crate) fn row_by_items(a: &Table, i: usize, v: &Row, n: usize) -> (sum: GF128)
    requires
        i < table_items(*a).len(),
        n <= table_items(*a)[i as int].len(),
        n <= row_items(*v).len(),
    ensures
        sum@ == dot(table_items(*a)[i as int], row_items(*v), n as nat),
{
    let mut sum = GF128 { value: 0 };
    let mut k: usize = 0;
    while k < n
        invariant
            k <= n,
            i < table_items(*a).len(),
            n <= table_items(*a)[i as int].len(),
            n <= row_items(*v).len(),
            sum@ == dot(table_items(*a)[i as int], row_items(*v), k as nat),
        decreases n - k,
    {
        let x = GF128 { value: table_get(a, i, k) };
        let y = GF128 { value: row_get(v, k) };
        sum = sum.addto(&x.multiply(&y));
        k = k + 1;
    }
    sum
}

/// One extension of the incremental inversion: from the inverse `inv` of the
/// leading block of order `k` of `m` to that of order `k + 1`; `None` where
/// the Schur complement is zero.
fn extend(m: &Table, inv: &Table, k: usize) -> (out: Option<Table>)
    requires
        1 <= k,
        k < table_items(*inv).len() <= MAX_VECTOR_ELEMENTS,
        is_square(table_items(*inv), table_items(*inv).len()),
        covers(table_items(*m), (k + 1) as nat),
    ensures
        out is Some <==> schur_complement(table_items(*inv), table_items(*m), k as nat) != 0,
        out matches Some(t) ==> table_items(t) == extend_inverse(
            table_items(*inv),
            table_items(*m),
            k as nat,
        ),
{
    let n = table_len(inv);
    let ghost inv_e = table_items(*inv);
    let ghost m_e = table_items(*m);
    let mut au = row_new();
    let mut i: usize = 0;
    while i < k
        invariant
            i <= k < n <= MAX_VECTOR_ELEMENTS,
            inv_e == table_items(*inv),
            m_e == table_items(*m),
            is_square(inv_e, n as nat),
            covers(m_e, (k + 1) as nat),
            row_items(au) =~= Seq::new(i as nat, |r: int| dot(inv_e[r], column(m_e, k as int), k as nat)),
        decreases k - i,
    {
        let sum = row_by_column(inv, i, m, k, k);
        row_push(&mut au, sum.to_u128());
        i = i + 1;
    }
    assert(row_items(au) =~= left_products(inv_e, m_e, k as nat));
    let mut va = row_new();
    let mut j: usize = 0;
    while j < k
        invariant
            j <= k < n <= MAX_VECTOR_ELEMENTS,
            inv_e == table_items(*inv),
            m_e == table_items(*m),
            is_square(inv_e, n as nat),
            covers(m_e, (k + 1) as nat),
            row_items(va) =~= Seq::new(j as nat, |c: int| dot(m_e[k as int], column(inv_e, c), k as nat)),
        decreases k - j,
    {
        let sum = row_by_column(m, k, inv, j, k);
        row_push(&mut va, sum.to_u128());
        j = j + 1;
    }
    assert(row_items(va) =~= right_products(inv_e, m_e, k as nat));
    let corner = GF128 { value: table_get(m, k, k) };
    let schur = corner.addto(&items_by_column(&va, m, k, k));
    if schur.is_zero() {
        return None;
    }
    let gamma = schur.invert();
    let mut out = table_new();
    let mut i: usize = 0;
    while i < n
        invariant
            i <= n,
            1 <= k < n <= MAX_VECTOR_ELEMENTS,
            inv_e == table_items(*inv),
            m_e == table_items(*m),
            is_square(inv_e, n as nat),
            row_items(au) == left_products(inv_e, m_e, k as nat),
            row_items(va) == right_products(inv_e, m_e, k as nat),
            gamma@ == gf_inv(schur_complement(inv_e, m_e, k as nat)),
            table_items(out) =~= Seq::new(i as nat, |r: int| extended_row(inv_e, m_e, k as nat, r)),
        decreases n - i,
    {
        let mut row = row_new();
        let mut j: usize = 0;
        while j < n
            invariant
                j <= n,
                i < n,
                1 <= k < n <= MAX_VECTOR_ELEMENTS,
                inv_e == table_items(*inv),
                m_e == table_items(*m),
                is_square(inv_e, n as nat),
                row_items(au) == left_products(inv_e, m_e, k as nat),
                row_items(va) == right_products(inv_e, m_e, k as nat),
                gamma@ == gf_inv(schur_complement(inv_e, m_e, k as nat)),
                row_items(row) =~= Seq::new(
                    j as nat,
                    |c: int| extended_entry(inv_e, m_e, k as nat, i as int, c),
                ),
            decreases n - j,
        {
            let entry = if i < k && j < k {
                let old_entry = GF128 { value: table_get(inv, i, j) };
                let a = GF128 { value: row_get(&au, i) };
                let b = GF128 { value: row_get(&va, j) };
                old_entry.addto(&gamma.multiply(&a).multiply(&b))
            } else if i < k && j == k {
                gamma.multiply(&GF128 { value: row_get(&au, i) })
            } else if i == k && j < k {
                gamma.multiply(&GF128 { value: row_get(&va, j) })
            } else if i == k && j == k {
                gamma
            } else {
                GF128 { value: table_get(inv, i, j) }
            };
            row_push(&mut row, entry.to_u128());
            j = j + 1;
        }
        assert(row_items(row) =~= extended_row(inv_e, m_e, k as nat, i as int));
        table_push(&mut out, row);
        i = i + 1;
    }
    assert(table_items(out) =~= extend_inverse(inv_e, m_e, k as nat));
    Some(out)
}

/// The table `t` after the elimination step on column `i` with the factors of `a`.
fn eliminate_table(a: &Table, t: &Table, i: usize, c: &GF128, n: usize) -> (out: Table)
    requires
        i < n <= MAX_VECTOR_ELEMENTS,
        table_items(*t).len() <= MAX_VECTOR_ELEMENTS,
        covers(table_items(*a), n as nat),
        covers(table_items(*t), n as nat),
        forall|j: int|
            0 <= j < table_items(*t).len() ==> (#[trigger] table_items(*t)[j]).len()
                <= MAX_VECTOR_ELEMENTS,
    ensures
        table_items(out) == eliminate(table_items(*a), table_items(*t), i as int, c@, n as nat),
{
    let rows = table_len(t);
    let ghost a_e = table_items(*a);
    let ghost t_e = table_items(*t);
    let mut out = table_new();
    let mut j: usize = 0;
    while j < rows
        invariant
            j <= rows <= MAX_VECTOR_ELEMENTS,
            i < n <= MAX_VECTOR_ELEMENTS,
            a_e == table_items(*a),
            t_e == table_items(*t),
            rows == t_e.len(),
            covers(a_e, n as nat),
            covers(t_e, n as nat),
            forall|r: int| 0 <= r < t_e.len() ==> (#[trigger] t_e[r]).len() <= MAX_VECTOR_ELEMENTS,
            table_items(out) =~= Seq::new(
                j as nat,
                |r: int| eliminated_row(a_e, t_e, i as int, c@, n as nat, r),
            ),
        decreases rows - j,
    {
        let width = table_row_len(t, j);
        let factor = if j < n {
            GF128 { value: table_get(a, j, i) }
        } else {
            GF128 { value: 0 }
        };
        let mut row = row_new();
        let mut k: usize = 0;
        while k < width
            invariant
                k <= width <= MAX_VECTOR_ELEMENTS,
                j < rows,
                i < n <= MAX_VECTOR_ELEMENTS,
                a_e == table_items(*a),
                t_e == table_items(*t),
                rows == t_e.len(),
                width == t_e[j as int].len(),
                covers(a_e, n as nat),
                covers(t_e, n as nat),
                j < n ==> factor@ == a_e[j as int][i as int],
                row_items(row) =~= Seq::new(
                    k as nat,
                    |x: int| eliminated_row(a_e, t_e, i as int, c@, n as nat, j as int)[x],
                ),
            decreases width - k,
        {
            let own = GF128 { value: table_get(t, j, k) };
            let entry = if j == i {
                if k < n {
                    own.multiply(c)
                } else {
                    own
                }
            } else if j < n && k < n {
                let pivot = GF128 { value: table_get(t, i, k) }.multiply(c);
                own.subtract(&factor.multiply(&pivot))
            } else {
                own
            };
            row_push(&mut row, entry.to_u128());
            k = k + 1;
        }
        assert(row_items(row) =~= eliminated_row(a_e, t_e, i as int, c@, n as nat, j as int));
        table_push(&mut out, row);
        j = j + 1;
    }
    assert(table_items(out) =~= eliminate(a_e, t_e, i as int, c@, n as nat));
    out
}

impl GF128Matrix {
    /// Everything the storage holds.
    pub open spec fn entries(&self) -> Seq<Seq<u128>> {
        table_items(self.data)
    }

    /// The storage fits its capacity and covers the matrix.
    pub open spec fn wf(&self) -> bool {
        &&& self.entries().len() <= MAX_VECTOR_ELEMENTS
        &&& forall|i: int|
            0 <= i < self.entries().len() ==> (#[trigger] self.entries()[i]).len()
                <= MAX_VECTOR_ELEMENTS
        &&& covers(self.entries(), self.true_size as nat)
    }

    /// The zero matrix of order `size`.
    pub fn new(size: usize) -> (m: GF128Matrix)
        requires
            size <= MAX_VECTOR_ELEMENTS,
        ensures
            m.wf(),
            m.true_size == size,
            m.entries() == zero_table(size as nat),
    {
        let mut data = table_new();
        let mut i: usize = 0;
        while i < size
            invariant
                i <= size <= MAX_VECTOR_ELEMENTS,
                table_items(data) =~= Seq::new(i as nat, |r: int| Seq::new(size as nat, |j: int| 0u128)),
            decreases size - i,
        {
            table_push(&mut data, zero_row(size));
            i = i + 1;
        }
        GF128Matrix { data, true_size: size }
    }

    /// The order of the matrix.
    pub fn order(&self) -> (n: usize)
        ensures
            n == self.true_size,
    {
        self.true_size
    }

    /// The entry in row `i` and column `j` of the storage.
    pub fn get(&self, i: usize, j: usize) -> (item: GF128)
        requires
            i < self.entries().len(),
            j < self.entries()[i as int].len(),
        ensures
            item@ == self.entries()[i as int][j as int],
    {
        GF128 { value: table_get(&self.data, i, j) }
    }

    /// Replaces the entry in row `i` and column `j` of the storage.
    pub fn set(&mut self, i: usize, j: usize, item: GF128)
        requires
            i < old(self).entries().len(),
            j < old(self).entries()[i as int].len(),
        ensures
            final(self).entries() == old(self).entries().update(
                i as int,
                old(self).entries()[i as int].update(j as int, item@),
            ),
            final(self).true_size == old(self).true_size,
    {
        table_set(&mut self.data, i, j, item.to_u128());
    }

    /// The transpose within a table as wide as the storage is high: column
    /// `j` of the matrix becomes row `j`, filled up with zeros.
    pub fn transpose(&self) -> (m: GF128Matrix)
        requires
            self.wf(),
            forall|i: int|
                0 <= i < self.true_size ==> (#[trigger] self.entries()[i]).len()
                    >= self.entries().len(),
        ensures
            m.wf(),
            m.true_size == self.entries().len(),
            m.entries() == Seq::new(
                self.entries().len(),
                |j: int|
                    Seq::new(
                        self.entries().len(),
                        |i: int|
                            if i < self.true_size {
                                self.entries()[i][j]
                            } else {
                                0u128
                            },
                    ),
            ),
    {
        let size = table_len(&self.data);
        let ghost e = self.entries();
        let ghost order = self.true_size;
        let mut data = table_new();
        let mut j: usize = 0;
        while j < size
            invariant
                j <= size <= MAX_VECTOR_ELEMENTS,
                self.wf(),
                e == self.entries(),
                order == self.true_size,
                size == e.len(),
                forall|i: int| 0 <= i < order ==> (#[trigger] e[i]).len() >= size,
                table_items(data) =~= Seq::new(
                    j as nat,
                    |c: int|
                        Seq::new(
                            size as nat,
                            |i: int|
                                if i < order {
                                    e[i][c]
                                } else {
                                    0u128
                                },
                        ),
                ),
            decreases size - j,
        {
            let mut row = row_new();
            let mut i: usize = 0;
            while i < size
                invariant
                    i <= size <= MAX_VECTOR_ELEMENTS,
                    j < size,
                    self.wf(),
                    e == self.entries(),
                    order == self.true_size,
                    size == e.len(),
                    forall|i: int| 0 <= i < order ==> (#[trigger] e[i]).len() >= size,
                    row_items(row) =~= Seq::new(
                        i as nat,
                        |r: int|
                            if r < order {
                                e[r][j as int]
                            } else {
                                0u128
                            },
                    ),
                decreases size - i,
            {
                if i < self.true_size {
                    row_push(&mut row, table_get(&self.data, i, j));
                } else {
                    row_push(&mut row, 0);
                }
                i = i + 1;
            }
            table_push(&mut data, row);
            j = j + 1;
        }
        GF128Matrix { data, true_size: size }
    }

    /// The identity matrix of order `size`.
    pub fn identity(size: usize) -> (m: GF128Matrix)
        requires
            size <= MAX_VECTOR_ELEMENTS,
        ensures
            m.wf(),
            m.true_size == size,
            m.entries() == identity_table(size as nat),
    {
        let mut data = table_new();
        let mut i: usize = 0;
        while i < size
            invariant
                i <= size <= MAX_VECTOR_ELEMENTS,
                table_items(data) =~~= Seq::new(
                    i as nat,
                    |r: int|
                        Seq::new(
                            size as nat,
                            |j: int|
                                if r == j {
                                    1u128
                                } else {
                                    0u128
                                },
                        ),
                ),
            decreases size - i,
        {
            let mut row = row_new();
            let mut j: usize = 0;
            while j < size
                invariant
                    j <= size <= MAX_VECTOR_ELEMENTS,
                    row_items(row) =~= Seq::new(
                        j as nat,
                        |c: int|
                            if i == c {
                                1u128
                            } else {
                                0u128
                            },
                    ),
                decreases size - j,
            {
                row_push(
                    &mut row,
                    if i == j {
                        1
                    } else {
                        0
                    },
                );
                j = j + 1;
            }
            table_push(&mut data, row);
            i = i + 1;
        }
        GF128Matrix { data, true_size: size }
    }

    /// The leading block of order `k` as a matrix of its own.
    pub fn extract_submatrix(&self, k: usize) -> (m: GF128Matrix)
        requires
            k <= MAX_VECTOR_ELEMENTS,
            covers(self.entries(), k as nat),
        ensures
            m.wf(),
            m.true_size == k,
            m.entries() == Seq::new(k as nat, |i: int| self.entries()[i].take(k as int)),
    {
        let ghost e = self.entries();
        let mut data = table_new();
        let mut i: usize = 0;
        while i < k
            invariant
                i <= k <= MAX_VECTOR_ELEMENTS,
                e == self.entries(),
                covers(e, k as nat),
                table_items(data) =~= Seq::new(i as nat, |r: int| e[r].take(k as int)),
            decreases k - i,
        {
            let mut row = row_new();
            let mut j: usize = 0;
            while j < k
                invariant
                    j <= k <= MAX_VECTOR_ELEMENTS,
                    i < k,
                    e == self.entries(),
                    covers(e, k as nat),
                    row_items(row) =~= e[i as int].take(j as int),
                decreases k - j,
            {
                row_push(&mut row, table_get(&self.data, i, j));
                j = j + 1;
            }
            table_push(&mut data, row);
            i = i + 1;
        }
        GF128Matrix { data, true_size: k }
    }

    /// The inverse by Gauss-Jordan elimination with row exchanges, or `None`
    /// where a column has no nonzero pivot.
    pub fn invert(&self) -> (out: Option<GF128Matrix>)
        requires
            self.wf(),
        ensures
            match gauss_jordan(self.entries(), self.true_size as nat, self.true_size as nat) {
                None => out is None,
                Some((rest, inverse)) => out matches Some(m) && m.entries() == inverse
                    && m.true_size == self.true_size && m.wf(),
            },
            out matches Some(m) ==> left_inverse(
                m.entries(),
                self.entries(),
                self.true_size as nat,
            ),
    {
        let n = self.true_size;
        let ghost e = self.entries();
        let mut a = table_clone(&self.data);
        let mut inv = GF128Matrix::identity(n).data;
        let mut i: usize = 0;
        while i < n
            invariant
                i <= n <= MAX_VECTOR_ELEMENTS,
                n == self.true_size,
                e == self.entries(),
                self.wf(),
                gauss_jordan(e, n as nat, i as nat) == Some((table_items(a), table_items(inv))),
                table_items(a).len() <= MAX_VECTOR_ELEMENTS,
                forall|r: int|
                    0 <= r < table_items(a).len() ==> (#[trigger] table_items(a)[r]).len()
                        <= MAX_VECTOR_ELEMENTS,
                covers(table_items(a), n as nat),
                is_square(table_items(inv), n as nat),
            decreases n - i,
        {
            let ghost a0 = table_items(a);
            let ghost inv0 = table_items(inv);
            let mut p: usize = i;
            while p < n && table_get(&a, p, i) == 0
                invariant
                    i <= p <= n,
                    i < n <= MAX_VECTOR_ELEMENTS,
                    a0 == table_items(a),
                    covers(a0, n as nat),
                    find_pivot(a0, i as int, n as int, i as int) == find_pivot(
                        a0,
                        i as int,
                        n as int,
                        p as int,
                    ),
                decreases n - p,
            {
                p = p + 1;
            }
            if p >= n {
                proof {
                    assert(gauss_jordan(e, n as nat, (i + 1) as nat) is None);
                    lemma_gauss_jordan_stays_none(e, n as nat, (i + 1) as nat, n as nat);
                }
                return None;
            }
            table_swap(&mut a, i, p);
            table_swap(&mut inv, i, p);
            let inv_pivot = GF128 { value: table_get(&a, i, i) }.invert();
            let next_a = eliminate_table(&a, &a, i, &inv_pivot, n);
            let next_inv = eliminate_table(&a, &inv, i, &inv_pivot, n);
            a = next_a;
            inv = next_inv;
            i = i + 1;
        }
        proof {
            lemma_gauss_jordan_inverts(e, n as nat);
        }
        Some(GF128Matrix { data: inv, true_size: n })
    }

    /// The inverse of the leading block of order `sub_size` of a Vandermonde
    /// matrix, grown from order one by one row and column at a time; `None`
    /// where a Schur complement on the way is zero.
    pub fn invert_vandermonde(&self, sub_size: usize) -> (out: Option<GF128Matrix>)
        requires
            self.wf(),
            1 <= sub_size <= self.true_size,
        ensures
            out is Some <==> extensible(
                self.entries(),
                self.entries().len(),
                (sub_size - 1) as nat,
            ),
            out matches Some(m) ==> m.wf() && m.true_size == sub_size && m.entries()
                == inverse_after(self.entries(), self.entries().len(), (sub_size - 1) as nat),
            out matches Some(m) ==> (self.entries()[0][0] == 1 ==> left_inverse(
                m.entries(),
                self.entries(),
                sub_size as nat,
            ) && left_inverse(self.entries(), m.entries(), sub_size as nat)),
    {
        let n = table_len(&self.data);
        let ghost e = self.entries();
        let mut inv = GF128Matrix::new(n);
        inv.set(0, 0, GF128 { value: 1 });
        assert(inv.entries() =~~= inverse_seed(n as nat));
        let mut k: usize = 1;
        while k < sub_size
            invariant
                1 <= k <= sub_size <= self.true_size,
                self.wf(),
                e == self.entries(),
                n == e.len(),
                is_square(inv.entries(), n as nat),
                extensible(e, n as nat, (k - 1) as nat),
                inv.entries() == inverse_after(e, n as nat, (k - 1) as nat),
            decreases sub_size - k,
        {
            match extend(&self.data, &inv.data, k) {
                None => {
                    proof {
                        lemma_extensible_stays_false(e, n as nat, k as nat, (sub_size - 1) as nat);
                    }
                    return None;
                },
                Some(next) => {
                    inv = GF128Matrix { data: next, true_size: n };
                },
            }
            k = k + 1;
        }
        proof {
            if e[0][0] == 1 {
                lemma_inverse_after(e, n as nat, (sub_size - 1) as nat);
                lemma_inverse_after_right(e, n as nat, (sub_size - 1) as nat);
            }
        }
        Some(GF128Matrix { data: inv.data, true_size: sub_size })
    }

    /// The inverses of the leading blocks of orders `sub_size` and
    /// `sub_size - 1` of a Vandermonde matrix from one pass: the smaller one
    /// is what the pass holds before its last extension. `None` where a
    /// Schur complement on the way is zero.
    pub fn invert_vandermonde_both(&self, sub_size: usize) -> (out: Option<
        (GF128Matrix, GF128Matrix),
    >)
        requires
            self.wf(),
            1 <= sub_size <= self.true_size,
        ensures
            out is Some <==> extensible(
                self.entries(),
                self.entries().len(),
                (sub_size - 1) as nat,
            ),
            out matches Some((full, sub)) ==> {
                &&& full.wf()
                &&& sub.wf()
                &&& full.true_size == sub_size
                &&& sub.true_size == sub_size - 1
                &&& full.entries() == inverse_after(
                    self.entries(),
                    self.entries().len(),
                    (sub_size - 1) as nat,
                )
                &&& sub.entries() == if sub_size == 1 {
                    zero_table(self.entries().len())
                } else {
                    leading_block(
                        inverse_after(
                            self.entries(),
                            self.entries().len(),
                            (sub_size - 2) as nat,
                        ),
                        (sub_size - 1) as nat,
                    )
                }
                &&& self.entries()[0][0] == 1 ==> left_inverse(
                    full.entries(),
                    self.entries(),
                    sub_size as nat,
                ) && left_inverse(sub.entries(), self.entries(), (sub_size - 1) as nat)
            },
    {
        let n = table_len(&self.data);
        let ghost e = self.entries();
        let mut inv = GF128Matrix::new(n);
        let mut sub = GF128Matrix::new(n);
        inv.set(0, 0, GF128 { value: 1 });
        assert(inv.entries() =~~= inverse_seed(n as nat));
        let mut k: usize = 1;
        while k < sub_size
            invariant
                1 <= k <= sub_size <= self.true_size,
                self.wf(),
                e == self.entries(),
                n == e.len(),
                is_square(inv.entries(), n as nat),
                extensible(e, n as nat, (k - 1) as nat),
                inv.entries() == inverse_after(e, n as nat, (k - 1) as nat),
                is_square(sub.entries(), n as nat),
                sub.entries() == if k == sub_size && sub_size > 1 {
                    leading_block(
                        inverse_after(e, n as nat, (sub_size - 2) as nat),
                        (sub_size - 1) as nat,
                    )
                } else {
                    zero_table(n as nat)
                },
            decreases sub_size - k,
        {
            if k == sub_size - 1 {
                sub = inv.leading(k);
            }
            match extend(&self.data, &inv.data, k) {
                None => {
                    proof {
                        lemma_extensible_stays_false(e, n as nat, k as nat, (sub_size - 1) as nat);
                    }
                    return None;
                },
                Some(next) => {
                    inv = GF128Matrix { data: next, true_size: n };
                },
            }
            k = k + 1;
        }
        proof {
            if e[0][0] == 1 {
                lemma_inverse_after(e, n as nat, (sub_size - 1) as nat);
                if sub_size > 1 {
                    lemma_inverse_after(e, n as nat, (sub_size - 2) as nat);
                    lemma_leading_block_inverse(
                        inverse_after(e, n as nat, (sub_size - 2) as nat),
                        e,
                        n as nat,
                        (sub_size - 1) as nat,
                    );
                }
            }
        }
        Some(
            (
                GF128Matrix { data: inv.data, true_size: sub_size },
                GF128Matrix { data: sub.data, true_size: sub_size - 1 },
            ),
        )
    }

    /// The storage with everything outside the leading block of order `k` set to zero.
    fn leading(&self, k: usize) -> (m: GF128Matrix)
        requires
            self.entries().len() <= MAX_VECTOR_ELEMENTS,
            is_square(self.entries(), self.entries().len()),
        ensures
            m.entries() == leading_block(self.entries(), k as nat),
            is_square(m.entries(), self.entries().len()),
            m.true_size == self.true_size,
    {
        let n = table_len(&self.data);
        let ghost e = self.entries();
        let mut data = table_new();
        let mut i: usize = 0;
        while i < n
            invariant
                i <= n <= MAX_VECTOR_ELEMENTS,
                e == self.entries(),
                is_square(e, n as nat),
                table_items(data) =~= Seq::new(i as nat, |r: int| leading_block(e, k as nat)[r]),
            decreases n - i,
        {
            let mut row = row_new();
            let mut j: usize = 0;
            while j < n
                invariant
                    j <= n <= MAX_VECTOR_ELEMENTS,
                    i < n,
                    e == self.entries(),
                    is_square(e, n as nat),
                    row_items(row) =~= Seq::new(j as nat, |c: int| leading_block(e, k as nat)[i as int][c]),
                decreases n - j,
            {
                if i < k && j < k {
                    row_push(&mut row, table_get(&self.data, i, j));
                } else {
                    row_push(&mut row, 0);
                }
                j = j + 1;
            }
            assert(row_items(row) =~= leading_block(e, k as nat)[i as int]);
            table_push(&mut data, row);
            i = i + 1;
        }
        assert(table_items(data) =~= leading_block(e, k as nat));
        GF128Matrix { data, true_size: self.true_size }
    }

    /// Whether the two storages hold the same items.
    pub fn matrices_equal(&self, b: &GF128Matrix) -> (same: bool)
        ensures
            same == (self.entries() == b.entries()),
    {
        let rows = table_len(&self.data);
        if rows != table_len(&b.data) {
            return false;
        }
        let mut i: usize = 0;
        while i < rows
            invariant
                i <= rows,
                rows == self.entries().len(),
                rows == b.entries().len(),
                forall|r: int| 0 <= r < i ==> self.entries()[r] == b.entries()[r],
            decreases rows - i,
        {
            let width = table_row_len(&self.data, i);
            if width != table_row_len(&b.data, i) {
                return false;
            }
            let mut j: usize = 0;
            while j < width
                invariant
                    j <= width,
                    i < rows,
                    rows == self.entries().len(),
                    rows == b.entries().len(),
                    width == self.entries()[i as int].len(),
                    width == b.entries()[i as int].len(),
                    forall|c: int| 0 <= c < j ==> self.entries()[i as int][c] == b.entries()[i as int][c],
                decreases width - j,
            {
                if table_get(&self.data, i, j) != table_get(&b.data, i, j) {
                    return false;
                }
                j = j + 1;
            }
            assert(self.entries()[i as int] =~= b.entries()[i as int]);
            i = i + 1;
        }
        assert(self.entries() =~= b.entries());
        true
    }

    /// The product of the two matrices, both of the order of `self`.
    pub fn multiply(&self, b: &GF128Matrix) -> (m: GF128Matrix)
        requires
            self.wf(),
            b.wf(),
            b.true_size == self.true_size,
        ensures
            m.wf(),
            m.true_size == self.true_size,
            m.entries() == table_product(
                self.entries(),
                b.entries(),
                self.true_size as nat,
                self.true_size as nat,
            ),
    {
        let n = self.true_size;
        let ghost x = self.entries();
        let ghost y = b.entries();
        let mut data = table_new();
        let mut i: usize = 0;
        while i < n
            invariant
                i <= n <= MAX_VECTOR_ELEMENTS,
                x == self.entries(),
                y == b.entries(),
                covers(x, n as nat),
                covers(y, n as nat),
                table_items(data) =~= Seq::new(
                    i as nat,
                    |r: int| Seq::new(n as nat, |c: int| dot(x[r], column(y, c), n as nat)),
                ),
            decreases n - i,
        {
            let mut row = row_new();
            let mut j: usize = 0;
            while j < n
                invariant
                    j <= n <= MAX_VECTOR_ELEMENTS,
                    i < n,
                    x == self.entries(),
                    y == b.entries(),
                    covers(x, n as nat),
                    covers(y, n as nat),
                    row_items(row) =~= Seq::new(
                        j as nat,
                        |c: int| dot(x[i as int], column(y, c), n as nat),
                    ),
                decreases n - j,
            {
                let sum = row_by_column(&self.data, i, &b.data, j, n);
                row_push(&mut row, sum.to_u128());
                j = j + 1;
            }
            table_push(&mut data, row);
            i = i + 1;
        }
        GF128Matrix { data, true_size: n }
    }

    /// Multiplies the vector by the matrix in place: each of its logical
    /// items becomes the product of a row with the old items.
    pub fn multiply_by_vector(&self, b: &mut GF128Vector)
        requires
            old(b).wf(),
            covers(self.entries(), old(b).true_size as nat),
        ensures
            final(b).true_size == old(b).true_size,
            final(b).storage() == applied(
                self.entries(),
                old(b).storage(),
                old(b).true_size as nat,
            ),
    {
        let n = b.true_size;
        let ghost e = self.entries();
        let ghost v = b.storage();
        let mut result = row_new();
        let mut i: usize = 0;
        while i < n
            invariant
                i <= n <= MAX_VECTOR_ELEMENTS,
                e == self.entries(),
                v == b.storage(),
                n == b.true_size,
                b.wf(),
                covers(e, n as nat),
                row_items(result) =~= Seq::new(i as nat, |r: int| dot(e[r], v, n as nat)),
            decreases n - i,
        {
            let sum = row_by_items(&self.data, i, &b.elements, n);
            row_push(&mut result, sum.to_u128());
            i = i + 1;
        }
        let mut i: usize = 0;
        while i < n
            invariant
                i <= n <= MAX_VECTOR_ELEMENTS,
                n == b.true_size,
                n <= v.len(),
                b.storage().len() == v.len(),
                row_items(result) == Seq::new(n as nat, |r: int| dot(e[r], v, n as nat)),
                b.storage() =~= Seq::new(
                    v.len(),
                    |r: int|
                        if r < i {
                            dot(e[r], v, n as nat)
                        } else {
                            v[r]
                        },
                ),
            decreases n - i,
        {
            b.set(i, GF128 { value: row_get(&result, i) });
            i = i + 1;
        }
        assert(b.storage() =~= applied(e, v, n as nat));
    }

    /// The entrywise sum of the two matrices.
    pub fn add_mat(&self, b: &GF128Matrix) -> (m: GF128Matrix)
        requires
            self.wf(),
            covers(b.entries(), self.true_size as nat),
        ensures
            m.wf(),
            m.true_size == self.true_size,
            m.entries() == Seq::new(
                self.true_size as nat,
                |i: int|
                    Seq::new(
                        self.true_size as nat,
                        |j: int| gf_add(self.entries()[i][j], b.entries()[i][j]),
                    ),
            ),
    {
        let n = self.true_size;
        let ghost x = self.entries();
        let ghost y = b.entries();
        let mut data = table_new();
        let mut i: usize = 0;
        while i < n
            invariant
                i <= n <= MAX_VECTOR_ELEMENTS,
                x == self.entries(),
                y == b.entries(),
                covers(x, n as nat),
                covers(y, n as nat),
                table_items(data) =~= Seq::new(
                    i as nat,
                    |r: int| Seq::new(n as nat, |c: int| gf_add(x[r][c], y[r][c])),
                ),
            decreases n - i,
        {
            let mut row = row_new();
            let mut j: usize = 0;
            while j < n
                invariant
                    j <= n <= MAX_VECTOR_ELEMENTS,
                    i < n,
                    x == self.entries(),
                    y == b.entries(),
                    covers(x, n as nat),
                    covers(y, n as nat),
                    row_items(row) =~= Seq::new(
                        j as nat,
                        |c: int| gf_add(x[i as int][c], y[i as int][c]),
                    ),
                decreases n - j,
            {
                let sum = self.get(i, j).addto(&b.get(i, j));
                row_push(&mut row, sum.to_u128());
                j = j + 1;
            }
            table_push(&mut data, row);
            i = i + 1;
        }
        GF128Matrix { data, true_size: n }
    }

    /// The entrywise difference of the two matrices, which is their sum.
    pub fn sub_mat(&self, b: &GF128Matrix) -> (m: GF128Matrix)
        requires
            self.wf(),
            covers(b.entries(), self.true_size as nat),
        ensures
            m.wf(),
            m.true_size == self.true_size,
            m.entries() == Seq::new(
                self.true_size as nat,
                |i: int|
                    Seq::new(
                        self.true_size as nat,
                        |j: int| gf_add(self.entries()[i][j], b.entries()[i][j]),
                    ),
            ),
    {
        self.add_mat(b)
    }

    /// A matrix of order `size` with random entries.
    pub fn random(size: usize) -> (m: GF128Matrix)
        requires
            size <= MAX_VECTOR_ELEMENTS,
        ensures
            m.wf(),
            m.true_size == size,
            is_square(m.entries(), size as nat),
    {
        let mut data = table_new();
        let mut i: usize = 0;
        while i < size
            invariant
                i <= size <= MAX_VECTOR_ELEMENTS,
                is_square_rows(table_items(data), i as nat, size as nat),
            decreases size - i,
        {
            let mut row = row_new();
            let mut j: usize = 0;
            while j < size
                invariant
                    j <= size <= MAX_VECTOR_ELEMENTS,
                    row_items(row).len() == j,
                decreases size - j,
            {
                row_push(&mut row, GF128::random().to_u128());
                j = j + 1;
            }
            table_push(&mut data, row);
            i = i + 1;
        }
        GF128Matrix { data, true_size: size }
    }

    /// The Vandermonde matrix of the logical items of `x`: row `i` holds the
    /// powers of item `i`, from the zeroth on.
    pub fn vandermonde(x: &GF128Vector) -> (m: GF128Matrix)
        requires
            x.wf(),
        ensures
            m.wf(),
            m.true_size == x.true_size,
            m.entries() == Seq::new(
                x.true_size as nat,
                |i: int| powers(x.storage()[i], x.true_size as nat),
            ),
            x.true_size >= 1 ==> m.entries()[0][0] == 1,
    {
        let size = x.true_size;
        let ghost v = x.storage();
        let mut data = table_new();
        let mut i: usize = 0;
        while i < size
            invariant
                i <= size <= MAX_VECTOR_ELEMENTS,
                x.wf(),
                size == x.true_size,
                v == x.storage(),
                table_items(data) =~= Seq::new(i as nat, |r: int| powers(v[r], size as nat)),
            decreases size - i,
        {
            let mut row = row_new();
            let mut power = GF128 { value: 1 };
            let point = x.get(i);
            let mut j: usize = 0;
            while j < size
                invariant
                    j <= size <= MAX_VECTOR_ELEMENTS,
                    i < size,
                    point@ == v[i as int],
                    power@ == gf_pow(point@, j as nat),
                    row_items(row) =~= powers(point@, j as nat),
                decreases size - j,
            {
                row_push(&mut row, power.to_u128());
                proof {
                    lemma_mul_commutative(power@, point@);
                }
                power = power.multiply(&point);
                j = j + 1;
            }
            table_push(&mut data, row);
            i = i + 1;
        }
        GF128Matrix { data, true_size: size }
    }
}

/// Whether a table has `rows` rows of `width` items each.
pub open spec fn is_square_rows(m: Seq<Seq<u128>>, rows: nat, width: nat) -> bool {
    &&& m.len() == rows
    &&& forall|i: int| 0 <= i < rows ==> (#[trigger] m[i]).len() == width
}

/// Once a column has no pivot, later columns give no result either.
pub proof fn lemma_gauss_jordan_stays_none(m: Seq<Seq<u128>>, n: nat, i: nat, j: nat)
    requires
        i <= j,
        gauss_jordan(m, n, i) is None,
    ensures
        gauss_jordan(m, n, j) is None,
    decreases j,
{
    if i < j {
        lemma_gauss_jordan_stays_none(m, n, i, (j - 1) as nat);
    }
}

/// Once an extension meets a zero Schur complement, no later order is reached.
pub proof fn lemma_extensible_stays_false(m: Seq<Seq<u128>>, n: nat, i: nat, j: nat)
    requires
        i <= j,
        !extensible(m, n, i),
    ensures
        !extensible(m, n, j),
    decreases j,
{
    if i < j {
        lemma_extensible_stays_false(m, n, i, (j - 1) as nat);
    }
}

/// Row `i` of a matrix of order `n` made of the given rows: the row filled
/// up with zeros where it is shorter than `n`.
pub open spec fn filled_row(row: Seq<u128>, n: nat) -> Seq<u128> {
    Seq::new(
        if row.len() < n {
            n
        } else {
            row.len()
        },
        |j: int|
            if j < row.len() {
                row[j]
            } else {
                0u128
            },
    )
}

/// Whether the texts form `n` rows of `n` texts each, with `n` within the capacity.
pub open spec fn square_texts(texts: Seq<Vec<&str>>) -> bool {
    &&& texts.len() <= MAX_VECTOR_ELEMENTS
    &&& forall|i: int| 0 <= i < texts.len() ==> (#[trigger] texts[i])@.len() == texts.len()
}

/// What text (i, j) means: in either notation, or as hexadecimal digits only.
pub open spec fn text_number(texts: Seq<Vec<&str>>, i: int, j: int, hexadecimal: bool) -> Option<
    u128,
> {
    if hexadecimal {
        signed_number(texts[i]@[j].spec_bytes(), 16)
    } else {
        lenient_number(texts[i]@[j].spec_bytes())
    }
}

/// Whether every text means a number.
pub open spec fn all_numbers(texts: Seq<Vec<&str>>, hexadecimal: bool) -> bool {
    forall|i: int, j: int|
        0 <= i < texts.len() && 0 <= j < texts[i]@.len() ==> (#[trigger] text_number(
            texts,
            i,
            j,
            hexadecimal,
        )) is Some
}

impl GF128Matrix {
    /// The matrix whose order is the number of rows given, each row filled
    /// up with zeros where it is shorter than that.
    pub fn from_rows(arr: Vec<Vec<u128>>) -> (m: GF128Matrix)
        requires
            arr@.len() <= MAX_VECTOR_ELEMENTS,
            forall|i: int| 0 <= i < arr@.len() ==> (#[trigger] arr@[i])@.len() <= MAX_VECTOR_ELEMENTS,
        ensures
            m.wf(),
            m.true_size == arr@.len(),
            m.entries() == Seq::new(arr@.len(), |i: int| filled_row(arr@[i]@, arr@.len())),
    {
        let true_size = arr.len();
        let mut data = table_new();
        let mut i: usize = 0;
        while i < true_size
            invariant
                i <= true_size <= MAX_VECTOR_ELEMENTS,
                true_size == arr@.len(),
                forall|r: int|
                    0 <= r < arr@.len() ==> (#[trigger] arr@[r])@.len() <= MAX_VECTOR_ELEMENTS,
                table_items(data) =~= Seq::new(i as nat, |r: int| filled_row(arr@[r]@, true_size as nat)),
            decreases true_size - i,
        {
            let width = arr[i].len();
            let mut row = row_new();
            let mut j: usize = 0;
            while j < width
                invariant
                    j <= width <= MAX_VECTOR_ELEMENTS,
                    i < true_size,
                    true_size == arr@.len(),
                    width == arr@[i as int]@.len(),
                    row_items(row) =~= arr@[i as int]@.take(j as int),
                decreases width - j,
            {
                row_push(&mut row, arr[i][j]);
                j = j + 1;
            }
            while j < true_size
                invariant
                    width <= j,
                    j <= true_size || j == width,
                    true_size <= MAX_VECTOR_ELEMENTS,
                    width == arr@[i as int]@.len(),
                    width <= MAX_VECTOR_ELEMENTS,
                    row_items(row) =~= Seq::new(
                        j as nat,
                        |c: int|
                            if c < width {
                                arr@[i as int]@[c]
                            } else {
                                0u128
                            },
                    ),
                decreases true_size - j,
            {
                row_push(&mut row, 0);
                j = j + 1;
            }
            assert(row_items(row) =~= filled_row(arr@[i as int]@, true_size as nat));
            table_push(&mut data, row);
            i = i + 1;
        }
        GF128Matrix { data, true_size }
    }

    /// The matrix of the numbers that the texts mean, each in either
    /// notation or, where `hexadecimal` is set, as hexadecimal digits only;
    /// `None` where the texts are no square or one of them means no number.
    pub fn from_texts(texts: &Vec<Vec<&str>>, hexadecimal: bool) -> (out: Option<GF128Matrix>)
        ensures
            out is Some <==> square_texts(texts@) && all_numbers(texts@, hexadecimal),
            out matches Some(m) ==> {
                &&& m.wf()
                &&& m.true_size == texts@.len()
                &&& is_square(m.entries(), texts@.len())
                &&& forall|i: int, j: int|
                    0 <= i < texts@.len() && 0 <= j < texts@.len() ==> text_number(
                        texts@,
                        i,
                        j,
                        hexadecimal,
                    ) == Some(#[trigger] m.entries()[i][j])
            },
    {
        let true_size = texts.len();
        if true_size > MAX_VECTOR_ELEMENTS {
            return None;
        }
        let mut i: usize = 0;
        while i < true_size
            invariant
                i <= true_size,
                true_size == texts@.len(),
                forall|r: int| 0 <= r < i ==> (#[trigger] texts@[r])@.len() == true_size,
            decreases true_size - i,
        {
            if texts[i].len() != true_size {
                return None;
            }
            i = i + 1;
        }
        let mut data = table_new();
        let mut i: usize = 0;
        while i < true_size
            invariant
                i <= true_size <= MAX_VECTOR_ELEMENTS,
                true_size == texts@.len(),
                square_texts(texts@),
                is_square_rows(table_items(data), i as nat, true_size as nat),
                forall|r: int, c: int|
                    0 <= r < i && 0 <= c < true_size ==> text_number(texts@, r, c, hexadecimal)
                        == Some(#[trigger] table_items(data)[r][c]),
            decreases true_size - i,
        {
            let mut row = row_new();
            let mut j: usize = 0;
            while j < true_size
                invariant
                    j <= true_size <= MAX_VECTOR_ELEMENTS,
                    i < true_size,
                    true_size == texts@.len(),
                    square_texts(texts@),
                    row_items(row).len() == j,
                    forall|c: int|
                        0 <= c < j ==> text_number(texts@, i as int, c, hexadecimal) == Some(
                            #[trigger] row_items(row)[c],
                        ),
                decreases true_size - j,
            {
                let bytes = texts[i][j].as_bytes();
                let parsed = if hexadecimal {
                    assert(bytes@.skip(0) =~= bytes@);
                    parse_signed(bytes, 0, true)
                } else {
                    match parse_bytes_to_gf128(bytes) {
                        Ok(element) => Some(element.to_u128()),
                        Err(_) => None,
                    }
                };
                match parsed {
                    Some(v) => {
                        row_push(&mut row, v);
                    },
                    None => {
                        assert(text_number(texts@, i as int, j as int, hexadecimal) is None);
                        return None;
                    },
                }
                j = j + 1;
            }
            let ghost before = table_items(data);
            table_push(&mut data, row);
            assert forall|r: int, c: int| 0 <= r < i + 1 && 0 <= c < true_size implies text_number(
                texts@,
                r,
                c,
                hexadecimal,
            ) == Some(#[trigger] table_items(data)[r][c]) by {
                if r < i {
                    assert(table_items(data)[r] == before[r]);
                }
            }
            i = i + 1;
        }
        assert forall|r: int, c: int|
            0 <= r < texts@.len() && 0 <= c < texts@[r]@.len() implies (#[trigger] text_number(
            texts@,
            r,
            c,
            hexadecimal,
        )) is Some by {
            assert(text_number(texts@, r, c, hexadecimal) == Some(table_items(data)[r][c]));
        }
        Some(GF128Matrix { data, true_size })
    }
}

} // verus!
