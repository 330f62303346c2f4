//! Sums, columns and dot products of sequences of integers.
//!
//! The contracts of the array operations speak of sums and of element-wise
//! products of sequences. The facts about them that the accumulators rely on
//! are collected here.

use crate::arrays::{column, magnitudes, products, sum};
use vstd::prelude::*;

verus! {

/// The elements of a vector as mathematical integers.
pub open spec fn ints(s: Seq<i64>) -> Seq<int> {
    Seq::new(s.len(), |i: int| s[i] as int)
}

/// The elements of a matrix as mathematical integers.
pub open spec fn int_rows(rows: Seq<Seq<i64>>) -> Seq<Seq<int>> {
    Seq::new(rows.len(), |r: int| ints(rows[r]))
}

/// Column `c` of a matrix of mathematical integers.
pub open spec fn int_column(rows: Seq<Seq<int>>, c: int) -> Seq<int> {
    Seq::new(rows.len(), |r: int| rows[r][c])
}

/// A matrix of `r` rows and `c` columns.
pub open spec fn has_shape(rows: Seq<Seq<i64>>, r: nat, c: nat) -> bool {
    &&& rows.len() == r
    &&& forall|i: int| 0 <= i < r ==> (#[trigger] rows[i]).len() == c
}

/// A sum of bounded terms is bounded by the bound times the number of terms,
/// and so is the sum of their magnitudes.
pub proof fn lemma_sum_bounds(s: Seq<int>, bound: int)
    requires
        forall|i: int| 0 <= i < s.len() ==> -bound <= #[trigger] s[i] <= bound,
    ensures
        -s.len() * bound <= sum(s) <= s.len() * bound,
        0 <= sum(magnitudes(s)) <= s.len() * bound,
    decreases s.len(),
{
    if s.len() == 0 {
        assert(magnitudes(s) =~= s);
        assert(0 * bound == 0);
    } else {
        let front = s.drop_last();
        assert forall|i: int| 0 <= i < front.len() implies -bound <= #[trigger] front[i]
            <= bound by {
            assert(front[i] == s[i]);
        }
        lemma_sum_bounds(front, bound);
        assert(magnitudes(s).drop_last() =~= magnitudes(front));
        assert(-bound <= s[s.len() - 1] <= bound);
        let n = front.len() as int;
        assert((n + 1) * bound == n * bound + bound && -(n + 1) * bound == -n * bound - bound)
            by (nonlinear_arith);
    }
}

/// A column of a matrix holds the same integers whether they are taken from
/// the column or from the matrix.
pub proof fn lemma_column_ints(rows: Seq<Seq<i64>>, n: nat, width: nat, c: int)
    requires
        has_shape(rows, n, width),
        0 <= c < width,
    ensures
        column(rows, c) == int_column(int_rows(rows), c),
{
    assert forall|r: int| 0 <= r < n implies column(rows, c)[r] == int_column(int_rows(rows), c)[r] by {
        assert(rows[r].len() == width);
    }
    assert(column(rows, c) =~= int_column(int_rows(rows), c));
}

/// Replacing one element changes the sum by the difference.
pub proof fn lemma_sum_update(s: Seq<int>, i: int, v: int)
    requires
        0 <= i < s.len(),
    ensures
        sum(s.update(i, v)) == sum(s) + v - s[i],
    decreases s.len(),
{
    if i == s.len() - 1 {
        assert(s.update(i, v).drop_last() =~= s.drop_last());
    } else {
        assert(s.update(i, v).drop_last() =~= s.drop_last().update(i, v));
        lemma_sum_update(s.drop_last(), i, v);
    }
}

/// A sum of zeros is zero.
pub proof fn lemma_sum_zeros(s: Seq<int>)
    requires
        forall|i: int| 0 <= i < s.len() ==> #[trigger] s[i] == 0,
    ensures
        sum(s) == 0,
    decreases s.len(),
{
    if s.len() > 0 {
        lemma_sum_zeros(s.drop_last());
    }
}

/// Adding `d` to one element of `a` adds `d` times the matching element of
/// `b` to their dot product.
pub proof fn lemma_dot_update(a: Seq<int>, b: Seq<int>, k: int, d: int)
    requires
        0 <= k < a.len(),
        a.len() <= b.len(),
    ensures
        sum(products(a.update(k, a[k] + d), b)) == sum(products(a, b)) + d * b[k],
{
    let p = products(a, b);
    let q = products(a.update(k, a[k] + d), b);
    assert(q =~= p.update(k, (a[k] + d) * b[k]));
    lemma_sum_update(p, k, (a[k] + d) * b[k]);
    assert((a[k] + d) * b[k] == a[k] * b[k] + d * b[k]) by (nonlinear_arith);
}

/// Adding `d` to one element adds at most the magnitude of `d` to the sum of
/// the magnitudes.
pub proof fn lemma_magnitudes_update(a: Seq<int>, k: int, d: int, bound: int)
    requires
        0 <= k < a.len(),
        -bound <= d <= bound,
    ensures
        sum(magnitudes(a.update(k, a[k] + d))) <= sum(magnitudes(a)) + bound,
{
    let m = magnitudes(a);
    let v = a[k] + d;
    let mv = if v < 0 {
        -v
    } else {
        v
    };
    assert(magnitudes(a.update(k, v)) =~= m.update(k, mv));
    lemma_sum_update(m, k, mv);
}

/// The magnitudes of the products of `a` with bounded values add up to at
/// most the bound times the sum of the magnitudes of `a`.
pub proof fn lemma_dot_magnitudes(a: Seq<int>, b: Seq<int>, bound: int)
    requires
        a.len() <= b.len(),
        forall|i: int| 0 <= i < a.len() ==> -bound <= #[trigger] b[i] <= bound,
    ensures
        0 <= sum(magnitudes(products(a, b))) <= bound * sum(magnitudes(a)),
        -bound * sum(magnitudes(a)) <= sum(products(a, b)) <= bound * sum(magnitudes(a)),
    decreases a.len(),
{
    if a.len() == 0 {
        assert(bound * 0 == 0);
    } else {
        let front = a.drop_last();
        let n = a.len() - 1;
        lemma_dot_magnitudes(front, b, bound);
        assert(products(a, b).drop_last() =~= products(front, b));
        assert(magnitudes(products(a, b)).drop_last() =~= magnitudes(products(front, b)));
        assert(magnitudes(a).drop_last() =~= magnitudes(front));
        let x = a[n];
        let y = b[n];
        let mx = if x < 0 {
            -x
        } else {
            x
        };
        let p = x * y;
        let mp = if p < 0 {
            -p
        } else {
            p
        };
        assert(-bound <= y <= bound);
        assert(mp <= bound * mx && -bound * mx <= p <= bound * mx) by (nonlinear_arith)
            requires
                -bound <= y <= bound,
                mx == (if x < 0 {
                    -x
                } else {
                    x
                }),
                p == x * y,
                mp == (if p < 0 {
                    -p
                } else {
                    p
                }),
        ;
        let before = sum(magnitudes(front));
        assert(bound * (before + mx) == bound * before + bound * mx) by (nonlinear_arith);
        assert(-bound * (before + mx) == -bound * before - bound * mx) by (nonlinear_arith);
    }
}

/// A sum of squares is not negative.
pub proof fn lemma_sum_of_squares(s: Seq<int>)
    ensures
        sum(products(s, s)) >= 0,
    decreases s.len(),
{
    if s.len() > 0 {
        lemma_sum_of_squares(s.drop_last());
        assert(products(s, s).drop_last() =~= products(s.drop_last(), s.drop_last()));
        let a = s.last();
        assert(a * a >= 0) by (nonlinear_arith);
    }
}

} // verus!
