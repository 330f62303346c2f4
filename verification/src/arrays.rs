//! Arrays backed by `ndarray`.
//!
//! The running sums of the analysis live in `ndarray` arrays of `i64`, the
//! correlations derived from them in `ndarray` arrays of [`Correlation`].
//! Verus cannot look inside them, so this module is the trusted boundary:
//! three opaque holders, a name for what each of them contains, and one small
//! function per `ndarray` operation that the accumulators use. Nothing in this file is
//! proved; every contract restates what `ndarray` documents or what its
//! source shows, and everything outside this file is proved against them.

use crate::correlation::Correlation;
use vstd::prelude::*;

verus! {

/// A one-dimensional `ndarray::Array1<i64>`.
#[verifier::external_body]
pub struct Vector {
    inner: ndarray::Array1<i64>,
}

/// A two-dimensional `ndarray::Array2<i64>`, addressed as `[row, column]`.
#[verifier::external_body]
pub struct Matrix {
    inner: ndarray::Array2<i64>,
}

/// The elements of a vector, in index order.
pub uninterp spec fn vector_items(v: Vector) -> Seq<i64>;

/// The elements of a matrix, row by row.
pub uninterp spec fn matrix_rows(m: Matrix) -> Seq<Seq<i64>>;

/// Sum of the elements of a sequence.
pub open spec fn sum(s: Seq<int>) -> int
    decreases s.len(),
{
    if s.len() == 0 {
        0
    } else {
        sum(s.drop_last()) + s.last()
    }
}

/// Element-wise products of two sequences, as long as the first.
pub open spec fn products(a: Seq<int>, b: Seq<int>) -> Seq<int> {
    Seq::new(a.len(), |i: int| a[i] * b[i])
}

/// Element-wise magnitudes.
pub open spec fn magnitudes(s: Seq<int>) -> Seq<int> {
    Seq::new(s.len(), |i: int| if s[i] < 0 { -s[i] } else { s[i] })
}

/// Column `c` of a matrix given by its rows.
pub open spec fn column(rows: Seq<Seq<i64>>, c: int) -> Seq<int> {
    Seq::new(rows.len(), |r: int| rows[r][c] as int)
}

/// `Array1::zeros`: a vector of `n` zeros. The allocation behind it is a
/// `Vec<i64>`, whose byte size must stay within `isize::MAX`.
#[verifier::external_body]
pub(crate) fn vector_zeros(n: usize) -> (v: Vector)
    requires
        n * 8 <= isize::MAX,
    ensures
        vector_items(v) == Seq::new(n as nat, |i: int| 0i64),
{
    Vector { inner: ndarray::Array1::zeros(n) }
}

/// Indexing an `Array1` for reading; `ndarray` panics out of bounds.
#[verifier::external_body]
pub(crate) fn vector_get(v: &Vector, i: usize) -> (x: i64)
    requires
        i < vector_items(*v).len(),
    ensures
        x == vector_items(*v)[i as int],
{
    v.inner[i]
}

/// Indexing an `Array1` for writing: element `i` becomes `x`, the others stay.
#[verifier::external_body]
pub(crate) fn vector_set(v: &mut Vector, i: usize, x: i64)
    requires
        i < vector_items(*old(v)).len(),
    ensures
        vector_items(*final(v)) == vector_items(*old(v)).update(i as int, x),
{
    v.inner[i] = x;
}

/// `Array1 + Array1`: the element-wise sum of two vectors of one length.
/// `ndarray` adds with the element type's `+`, so no single sum may leave
/// `i64`.
#[verifier::external_body]
pub(crate) fn vector_add(a: Vector, b: Vector) -> (v: Vector)
    requires
        vector_items(a).len() == vector_items(b).len(),
        forall|i: int|
            0 <= i < vector_items(a).len() ==> i64::MIN <= #[trigger] vector_items(a)[i]
                + vector_items(b)[i] <= i64::MAX,
    ensures
        vector_items(v).len() == vector_items(a).len(),
        forall|i: int|
            0 <= i < vector_items(a).len() ==> #[trigger] vector_items(v)[i] == vector_items(a)[i]
                + vector_items(b)[i],
{
    Vector { inner: a.inner + b.inner }
}

/// `Array2::zeros`: `r` rows of `c` zeros each. `ndarray` refuses axis lengths
/// whose product, zero lengths left out, exceeds `isize::MAX`, and the
/// allocation behind the array must stay within `isize::MAX` bytes.
#[verifier::external_body]
pub(crate) fn matrix_zeros(r: usize, c: usize) -> (m: Matrix)
    requires
        r > 0,
        c > 0,
        r * c * 8 <= isize::MAX,
    ensures
        matrix_rows(m) == Seq::new(r as nat, |i: int| Seq::new(c as nat, |j: int| 0i64)),
{
    Matrix { inner: ndarray::Array2::zeros((r, c)) }
}

/// Indexing an `Array2` for reading; `ndarray` panics out of bounds.
#[verifier::external_body]
pub(crate) fn matrix_get(m: &Matrix, r: usize, c: usize) -> (x: i64)
    requires
        r < matrix_rows(*m).len(),
        c < matrix_rows(*m)[r as int].len(),
    ensures
        x == matrix_rows(*m)[r as int][c as int],
{
    m.inner[[r, c]]
}

/// Indexing an `Array2` for writing: element `[r, c]` becomes `x`, the others
/// stay.
#[verifier::external_body]
pub(crate) fn matrix_set(m: &mut Matrix, r: usize, c: usize, x: i64)
    requires
        r < matrix_rows(*old(m)).len(),
        c < matrix_rows(*old(m))[r as int].len(),
    ensures
        matrix_rows(*final(m)) == matrix_rows(*old(m)).update(
            r as int,
            matrix_rows(*old(m))[r as int].update(c as int, x),
        ),
{
    m.inner[[r, c]] = x;
}

/// `Array2 + Array2`: the element-wise sum of two matrices of one shape.
#[verifier::external_body]
pub(crate) fn matrix_add(a: Matrix, b: Matrix) -> (m: Matrix)
    requires
        matrix_rows(a).len() > 0,
        matrix_rows(a).len() == matrix_rows(b).len(),
        forall|i: int|
            0 <= i < matrix_rows(a).len() ==> (#[trigger] matrix_rows(a)[i]).len() == matrix_rows(
                b,
            )[i].len(),
        forall|i: int, j: int|
            0 <= i < matrix_rows(a).len() && 0 <= j < matrix_rows(a)[i].len() ==> i64::MIN
                <= #[trigger] matrix_rows(a)[i][j] + matrix_rows(b)[i][j] <= i64::MAX,
    ensures
        matrix_rows(m).len() == matrix_rows(a).len(),
        forall|i: int|
            0 <= i < matrix_rows(a).len() ==> (#[trigger] matrix_rows(m)[i]).len() == matrix_rows(
                a,
            )[i].len(),
        forall|i: int, j: int|
            0 <= i < matrix_rows(a).len() && 0 <= j < matrix_rows(a)[i].len()
                ==> #[trigger] matrix_rows(m)[i][j] == matrix_rows(a)[i][j] + matrix_rows(b)[i][j],
{
    Matrix { inner: a.inner + b.inner }
}

/// `ArrayBase::column` followed by `ArrayBase::sum`: the sum of column `c`.
/// `ndarray` folds the elements in an order of its own choosing, so the sum
/// of their magnitudes must fit in `i64`.
#[verifier::external_body]
pub(crate) fn matrix_column_sum(m: &Matrix, c: usize) -> (x: i64)
    requires
        matrix_rows(*m).len() > 0,
        forall|r: int| 0 <= r < matrix_rows(*m).len() ==> c < (#[trigger] matrix_rows(*m)[r]).len(),
        sum(magnitudes(column(matrix_rows(*m), c as int))) <= i64::MAX,
    ensures
        x == sum(column(matrix_rows(*m), c as int)),
{
    m.inner.column(c).sum()
}

/// `ArrayBase::column` on both sides followed by `ArrayBase::dot`: the dot
/// product of column `ca` of `a` with column `cb` of `b`. `ndarray` multiplies
/// and adds in `i64`, in an order of its own choosing, so the sum of the
/// magnitudes of the products must fit in `i64`.
#[verifier::external_body]
pub(crate) fn matrix_column_dot(a: &Matrix, ca: usize, b: &Matrix, cb: usize) -> (x: i64)
    requires
        matrix_rows(*a).len() > 0,
        matrix_rows(*a).len() == matrix_rows(*b).len(),
        forall|r: int|
            0 <= r < matrix_rows(*a).len() ==> ca < (#[trigger] matrix_rows(*a)[r]).len(),
        forall|r: int|
            0 <= r < matrix_rows(*b).len() ==> cb < (#[trigger] matrix_rows(*b)[r]).len(),
        sum(
            magnitudes(
                products(column(matrix_rows(*a), ca as int), column(matrix_rows(*b), cb as int)),
            ),
        ) <= i64::MAX,
    ensures
        x == sum(products(column(matrix_rows(*a), ca as int), column(matrix_rows(*b), cb as int))),
{
    a.inner.column(ca).dot(&b.inner.column(cb))
}

/// A two-dimensional `ndarray::Array2<Correlation>`, addressed as
/// `[row, column]`.
#[verifier::external_body]
pub struct Grid {
    inner: ndarray::Array2<Correlation>,
}

/// The elements of a grid, row by row.
pub uninterp spec fn grid_rows(m: Grid) -> Seq<Seq<Correlation>>;

/// `Array2::from_elem`: `rows` rows of `width` copies of `value`. `ndarray`
/// refuses axis lengths whose product, zero lengths left out, exceeds
/// `isize::MAX`, and the allocation behind the array, of three 128-bit
/// integers per element, must stay within `isize::MAX` bytes.
#[verifier::external_body]
pub(crate) fn grid_filled(rows: usize, width: usize, value: Correlation) -> (m: Grid)
    requires
        rows <= isize::MAX,
        width <= isize::MAX,
        rows * width * 48 <= isize::MAX,
    ensures
        grid_rows(m) == Seq::new(rows as nat, |r: int| Seq::new(width as nat, |c: int| value)),
{
    Grid { inner: ndarray::Array2::from_elem((rows, width), value) }
}

/// Indexing an `Array2` for reading; `ndarray` panics out of bounds.
#[verifier::external_body]
pub(crate) fn grid_get(m: &Grid, r: usize, c: usize) -> (x: Correlation)
    requires
        r < grid_rows(*m).len(),
        c < grid_rows(*m)[r as int].len(),
    ensures
        x == grid_rows(*m)[r as int][c as int],
{
    m.inner[[r, c]]
}

/// Indexing an `Array2` for writing: element `[r, c]` becomes `x`, the others
/// stay.
#[verifier::external_body]
pub(crate) fn grid_set(m: &mut Grid, r: usize, c: usize, x: Correlation)
    requires
        r < grid_rows(*old(m)).len(),
        c < grid_rows(*old(m))[r as int].len(),
    ensures
        grid_rows(*final(m)) == grid_rows(*old(m)).update(
            r as int,
            grid_rows(*old(m))[r as int].update(c as int, x),
        ),
{
    m.inner[[r, c]] = x;
}

/// `Array2::dim`: the number of rows and the length of every row.
#[verifier::external_body]
pub(crate) fn grid_dim(m: &Grid) -> (d: (usize, usize))
    ensures
        d.0 == grid_rows(*m).len(),
        forall|r: int| 0 <= r < grid_rows(*m).len() ==> (#[trigger] grid_rows(*m)[r]).len() == d.1,
{
    m.inner.dim()
}

/// `ndarray::concatenate` along the second axis: every row of `a` followed by
/// the same row of `b`. `ndarray` reports an error where the numbers of rows
/// differ or the result is too large to be represented, and the allocation
/// behind the result must stay within `isize::MAX` bytes; both are left out.
#[verifier::external_body]
pub(crate) fn grid_beside(a: &Grid, b: &Grid) -> (m: Grid)
    requires
        grid_rows(*a).len() > 0,
        grid_rows(*a).len() == grid_rows(*b).len(),
        grid_rows(*a).len() * (grid_rows(*a)[0].len() + grid_rows(*b)[0].len()) * 48
            <= isize::MAX,
    ensures
        grid_rows(m).len() == grid_rows(*a).len(),
        forall|r: int|
            0 <= r < grid_rows(*a).len() ==> #[trigger] grid_rows(m)[r] == grid_rows(*a)[r]
                + grid_rows(*b)[r],
{
    Grid {
        inner: ndarray::concatenate(ndarray::Axis(1), &[a.inner.view(), b.inner.view()]).unwrap(),
    }
}

} // verus!
