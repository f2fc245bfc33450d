//! Inline storage for vectors and matrices of field elements.
//!
//! Rows are `SmallVec`s with room for `MAX_VECTOR_ELEMENTS` items and never
//! grow beyond that, so they never leave their inline buffer. What a row
//! holds is named by `row_items`, what a table of rows holds by `table_items`;
//! the functions below state the effect of each `SmallVec` operation on them.

use crate::field::MAX_VECTOR_ELEMENTS;
use smallvec::SmallVec;
use vstd::prelude::*;

verus! {

/// A row of field elements, each held as its coefficient word.
#[verifier::external_body]
pub struct Row {
    inner: SmallVec<[u128; MAX_VECTOR_ELEMENTS]>,
}

/// A table of rows.
#[verifier::external_body]
pub struct Table {
    inner: SmallVec<[SmallVec<[u128; MAX_VECTOR_ELEMENTS]>; MAX_VECTOR_ELEMENTS]>,
}

/// The items of a row, in order.
pub uninterp spec fn row_items(row: Row) -> Seq<u128>;

/// The rows of a table, in order, each as its items.
pub uninterp spec fn table_items(table: Table) -> Seq<Seq<u128>>;

/// `SmallVec::new`: a row without items.
#[verifier::external_body]
pub(crate) fn row_new() -> (row: Row)
    ensures
        row_items(row) == Seq::<u128>::empty(),
{
    Row { inner: SmallVec::new() }
}

/// `SmallVec::len`: the number of items in the row.
#[verifier::external_body]
pub(crate) fn row_len(row: &Row) -> (n: usize)
    ensures
        n == row_items(*row).len(),
{
    row.inner.len()
}

/// `SmallVec::push` below the inline capacity: the item is appended.
#[verifier::external_body]
pub(crate) fn row_push(row: &mut Row, item: u128)
    requires
        row_items(*old(row)).len() < MAX_VECTOR_ELEMENTS,
    ensures
        row_items(*final(row)) == row_items(*old(row)).push(item),
{
    row.inner.push(item)
}

/// Indexing a `SmallVec` within its length: the item at `index`.
#[verifier::external_body]
pub(crate) fn row_get(row: &Row, index: usize) -> (item: u128)
    requires
        index < row_items(*row).len(),
    ensures
        item == row_items(*row)[index as int],
{
    row.inner[index]
}

/// Assigning through an index within the length: only that item changes.
#[verifier::external_body]
pub(crate) fn row_set(row: &mut Row, index: usize, item: u128)
    requires
        index < row_items(*old(row)).len(),
    ensures
        row_items(*final(row)) == row_items(*old(row)).update(index as int, item),
{
    row.inner[index] = item;
}

/// `SmallVec::clone`: a row with the same items.
#[verifier::external_body]
pub(crate) fn row_clone(row: &Row) -> (copy: Row)
    ensures
        row_items(copy) == row_items(*row),
{
    Row { inner: row.inner.clone() }
}

/// `SmallVec::new`: a table without rows.
#[verifier::external_body]
pub(crate) fn table_new() -> (table: Table)
    ensures
        table_items(table) == Seq::<Seq<u128>>::empty(),
{
    Table { inner: SmallVec::new() }
}

/// `SmallVec::len`: the number of rows in the table.
#[verifier::external_body]
pub(crate) fn table_len(table: &Table) -> (n: usize)
    ensures
        n == table_items(*table).len(),
{
    table.inner.len()
}

/// `SmallVec::push` below the inline capacity: the row is appended.
#[verifier::external_body]
pub(crate) fn table_push(table: &mut Table, row: Row)
    requires
        table_items(*old(table)).len() < MAX_VECTOR_ELEMENTS,
    ensures
        table_items(*final(table)) == table_items(*old(table)).push(row_items(row)),
{
    table.inner.push(row.inner)
}

/// `SmallVec::len` of one row of the table.
#[verifier::external_body]
pub(crate) fn table_row_len(table: &Table, i: usize) -> (n: usize)
    requires
        i < table_items(*table).len(),
    ensures
        n == table_items(*table)[i as int].len(),
{
    table.inner[i].len()
}

/// Indexing a table and then the row, both within their lengths.
#[verifier::external_body]
pub(crate) fn table_get(table: &Table, i: usize, j: usize) -> (item: u128)
    requires
        i < table_items(*table).len(),
        j < table_items(*table)[i as int].len(),
    ensures
        item == table_items(*table)[i as int][j as int],
{
    table.inner[i][j]
}

/// Assigning through two indices within the lengths: only that item changes.
#[verifier::external_body]
pub(crate) fn table_set(table: &mut Table, i: usize, j: usize, item: u128)
    requires
        i < table_items(*old(table)).len(),
        j < table_items(*old(table))[i as int].len(),
    ensures
        table_items(*final(table)) == table_items(*old(table)).update(
            i as int,
            table_items(*old(table))[i as int].update(j as int, item),
        ),
{
    table.inner[i][j] = item;
}

/// `swap` on the table's slice of rows: rows `i` and `j` change places.
#[verifier::external_body]
pub(crate) fn table_swap(table: &mut Table, i: usize, j: usize)
    requires
        i < table_items(*old(table)).len(),
        j < table_items(*old(table)).len(),
    ensures
        table_items(*final(table)) == table_items(*old(table)).update(
            i as int,
            table_items(*old(table))[j as int],
        ).update(j as int, table_items(*old(table))[i as int]),
{
    table.inner.swap(i, j)
}

/// `SmallVec::clone`: a table with the same rows.
#[verifier::external_body]
pub(crate) fn table_clone(table: &Table) -> (copy: Table)
    ensures
        table_items(copy) == table_items(*table),
{
    Table { inner: table.inner.clone() }
}

} // verus!
