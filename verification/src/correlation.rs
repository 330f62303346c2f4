//! Exact correlation magnitudes.
//!
//! For `n` traces with sample sums `Σx`, `Σx²`, hypothesis sums `Σy`, `Σy²`
//! and cross sum `Σxy`, Pearson's coefficient is
//!
//! ```text
//!           n·Σxy − Σx·Σy
//! r = ---------------------------------
//!     sqrt((n·Σx² − (Σx)²)(n·Σy² − (Σy)²))
//! ```
//!
//! The three integers on the right determine `|r|`. A [`Correlation`] keeps
//! them instead of a rounded quotient, so that two magnitudes can be ordered
//! without error: `|r₁| > |r₂|` exactly when
//! `num₁²·(var_x₂·var_y₂) > num₂²·(var_x₁·var_y₁)`. Where a variance is not
//! positive the coefficient does not exist; such a value is *undefined* and
//! never counts as greater than anything.

use crate::arrays::{grid_dim, grid_filled, grid_get, grid_rows, grid_set, Grid};
use crate::error::CpaError;
use crate::wide;
use vstd::prelude::*;

verus! {

/// A correlation magnitude in exact form: `num / sqrt(var_x * var_y)`.
pub struct Ratio {
    /// Magnitude of the covariance numerator.
    pub num: int,
    /// Variance numerator of the samples, never negative.
    pub var_x: int,
    /// Variance numerator of the hypotheses, never negative.
    pub var_y: int,
}

impl Ratio {
    /// Both variances are positive, so the coefficient exists.
    pub open spec fn defined(self) -> bool {
        self.var_x > 0 && self.var_y > 0
    }

    /// The coefficient exists and is not zero.
    pub open spec fn positive(self) -> bool {
        self.defined() && self.num > 0
    }

    /// `self` and `other` both exist and `self` is strictly the greater.
    pub open spec fn above(self, other: Ratio) -> bool {
        &&& self.defined()
        &&& other.defined()
        &&& (self.num * self.num) * (other.var_x * other.var_y) > (other.num * other.num) * (
        self.var_x * self.var_y)
    }

    /// The coefficient exists and is one.
    pub open spec fn perfect(self) -> bool {
        self.defined() && self.num * self.num == self.var_x * self.var_y
    }

    /// The value that stands for "no coefficient".
    pub open spec fn undefined() -> Ratio {
        Ratio { num: 0, var_x: 0, var_y: 0 }
    }

    /// The coefficient of `n` observations from their five sums.
    pub open spec fn of_sums(n: int, cross: int, sum_x: int, sig_x: int, sum_y: int, sig_y: int)
        -> Ratio {
        let covariance = n * cross - sum_x * sum_y;
        let var_x = n * sig_x - sum_x * sum_x;
        let var_y = n * sig_y - sum_y * sum_y;
        Ratio {
            num: if covariance < 0 {
                -covariance
            } else {
                covariance
            },
            var_x: if var_x > 0 {
                var_x
            } else {
                0
            },
            var_y: if var_y > 0 {
                var_y
            } else {
                0
            },
        }
    }
}

/// A correlation magnitude `num / sqrt(var_x * var_y)`, kept as its three
/// integers.
#[derive(Clone, Copy, Debug, PartialEq, Eq, Structural)]
pub struct Correlation {
    pub num: u128,
    pub var_x: u128,
    pub var_y: u128,
}

impl View for Correlation {
    type V = Ratio;

    open spec fn view(&self) -> Ratio {
        Ratio { num: self.num as int, var_x: self.var_x as int, var_y: self.var_y as int }
    }
}

/// The views of a row of correlations.
pub open spec fn ratios(row: Seq<Correlation>) -> Seq<Ratio> {
    Seq::new(row.len(), |i: int| row[i]@)
}

/// The views of a matrix of correlations.
pub open spec fn ratio_rows(rows: Seq<Vec<Correlation>>) -> Seq<Seq<Ratio>> {
    Seq::new(rows.len(), |i: int| ratios(rows[i]@))
}

/// The ratios of a grid of correlations given by its rows.
pub open spec fn grid_ratios(rows: Seq<Seq<Correlation>>) -> Seq<Seq<Ratio>> {
    Seq::new(rows.len(), |g: int| ratios(rows[g]))
}

/// A grid of `n` rows of `width` correlations each.
pub open spec fn grid_shape(rows: Seq<Seq<Correlation>>, n: nat, width: nat) -> bool {
    &&& rows.len() == n
    &&& forall|g: int| 0 <= g < n ==> (#[trigger] rows[g]).len() == width
}

/// The ratios of the one column of a grid of one column; empty where the
/// grid has another width.
pub open spec fn column_ratios(rows: Seq<Seq<Correlation>>) -> Seq<Ratio> {
    if grid_shape(rows, rows.len(), 1) {
        Seq::new(rows.len(), |g: int| rows[g][0]@)
    } else {
        Seq::empty()
    }
}

/// Index of the first entry that exists and that no other existing entry
/// exceeds; `-1` where no entry exists.
pub open spec fn first_maximum(row: Seq<Ratio>) -> int
    decreases row.len(),
{
    if row.len() == 0 {
        -1
    } else {
        let k = first_maximum(row.drop_last());
        let e = row.last();
        if e.defined() && (k < 0 || e.above(row[k])) {
            row.len() - 1
        } else {
            k
        }
    }
}

/// The greatest existing entry of a row, or the undefined value where the
/// row has none.
pub open spec fn maximum(row: Seq<Ratio>) -> Ratio {
    let k = first_maximum(row);
    if k < 0 {
        Ratio::undefined()
    } else {
        row[k]
    }
}

/// The maximum of each row.
pub open spec fn row_maxima(rows: Seq<Seq<Ratio>>) -> Seq<Ratio> {
    Seq::new(rows.len(), |g: int| maximum(rows[g]))
}

/// The guess that a column of per-guess maxima points to: the first guess
/// whose maximum is positive and unsurpassed, and guess 0 where no maximum is
/// positive.
pub open spec fn best_guess(maxima: Seq<Ratio>) -> int {
    let k = first_maximum(maxima);
    if k >= 0 && maxima[k].num > 0 {
        k
    } else {
        0
    }
}

/// Not being above is transitive: the order on existing values is a total
/// preorder.
pub proof fn lemma_not_above_transitive(a: Ratio, b: Ratio, c: Ratio)
    requires
        a.defined(),
        b.defined(),
        c.defined(),
        !a.above(b),
        !b.above(c),
    ensures
        !a.above(c),
{
    let pa = a.num * a.num;
    let pb = b.num * b.num;
    let pc = c.num * c.num;
    let da = a.var_x * a.var_y;
    let db = b.var_x * b.var_y;
    let dc = c.var_x * c.var_y;
    assert(da > 0 && db > 0 && dc > 0) by (nonlinear_arith)
        requires
            a.var_x > 0,
            a.var_y > 0,
            b.var_x > 0,
            b.var_y > 0,
            c.var_x > 0,
            c.var_y > 0,
            da == a.var_x * a.var_y,
            db == b.var_x * b.var_y,
            dc == c.var_x * c.var_y,
    ;
    assert(pa >= 0 && pb >= 0 && pc >= 0) by (nonlinear_arith)
        requires
            pa == a.num * a.num,
            pb == b.num * b.num,
            pc == c.num * c.num,
    ;
    assert(pa * dc <= pc * da) by (nonlinear_arith)
        requires
            pa * db <= pb * da,
            pb * dc <= pc * db,
            da > 0,
            db > 0,
            dc > 0,
            pa >= 0,
            pb >= 0,
            pc >= 0,
    ;
}

/// Being above is transitive.
pub proof fn lemma_above_transitive(a: Ratio, b: Ratio, c: Ratio)
    requires
        a.above(b),
        b.above(c),
    ensures
        a.above(c),
{
    let pa = a.num * a.num;
    let pb = b.num * b.num;
    let pc = c.num * c.num;
    let da = a.var_x * a.var_y;
    let db = b.var_x * b.var_y;
    let dc = c.var_x * c.var_y;
    assert(da > 0 && db > 0 && dc > 0) by (nonlinear_arith)
        requires
            a.var_x > 0,
            a.var_y > 0,
            b.var_x > 0,
            b.var_y > 0,
            c.var_x > 0,
            c.var_y > 0,
            da == a.var_x * a.var_y,
            db == b.var_x * b.var_y,
            dc == c.var_x * c.var_y,
    ;
    assert(pa >= 0 && pb >= 0 && pc >= 0) by (nonlinear_arith)
        requires
            pa == a.num * a.num,
            pb == b.num * b.num,
            pc == c.num * c.num,
    ;
    assert(pa * dc > pc * da) by (nonlinear_arith)
        requires
            pa * db > pb * da,
            pb * dc > pc * db,
            da > 0,
            db > 0,
            dc > 0,
            pa >= 0,
            pb >= 0,
            pc >= 0,
    ;
}

/// What `first_maximum` finds: nothing exactly where no entry exists;
/// otherwise an existing entry that none exceeds and that exceeds every
/// existing entry before it.
pub proof fn lemma_first_maximum(row: Seq<Ratio>)
    ensures
        -1 <= first_maximum(row) < row.len(),
        first_maximum(row) < 0 <==> forall|j: int| 0 <= j < row.len() ==> !(#[trigger] row[j]).defined(),
        first_maximum(row) >= 0 ==> {
            let k = first_maximum(row);
            &&& row[k].defined()
            &&& forall|j: int| 0 <= j < row.len() ==> !(#[trigger] row[j]).above(row[k])
            &&& forall|j: int| 0 <= j < k && (#[trigger] row[j]).defined() ==> row[k].above(row[j])
        },
    decreases row.len(),
{
    if row.len() > 0 {
        let front = row.drop_last();
        let k = first_maximum(front);
        let e = row.last();
        let n = row.len() - 1;
        lemma_first_maximum(front);
        assert(forall|j: int| 0 <= j < n ==> front[j] == row[j]);
        if e.defined() && (k < 0 || e.above(row[k])) {
            assert forall|j: int| 0 <= j < row.len() implies !(#[trigger] row[j]).above(e) by {
                if j < n && k >= 0 && row[j].defined() {
                    assert(front[j] == row[j]);
                    assert(!row[j].above(row[k]));
                    assert(!row[k].above(e));
                    lemma_not_above_transitive(row[j], row[k], e);
                } else if j < n && k < 0 {
                    assert(!front[j].defined());
                }
            }
            assert forall|j: int| 0 <= j < n && (#[trigger] row[j]).defined() implies e.above(
                row[j],
            ) by {
                assert(front[j] == row[j]);
                assert(k >= 0);
                if j == k {
                } else if j < k {
                    assert(row[k].above(row[j]));
                    lemma_above_transitive(e, row[k], row[j]);
                } else {
                    assert(!row[j].above(row[k]));
                    lemma_above_or_not(e, row[k], row[j]);
                }
            }
        } else {
            if k >= 0 {
                assert forall|j: int| 0 <= j < row.len() implies !(#[trigger] row[j]).above(
                    row[k],
                ) by {
                    if j < n {
                        assert(front[j] == row[j]);
                    }
                }
                assert forall|j: int| 0 <= j < k && (#[trigger] row[j]).defined() implies row[k].above(
                    row[j],
                ) by {
                    assert(front[j] == row[j]);
                }
            } else {
                assert forall|j: int| 0 <= j < row.len() implies !(#[trigger] row[j]).defined() by {
                    if j < n {
                        assert(front[j] == row[j]);
                    }
                }
            }
        }
    }
}

/// If `a` is above `b` and `c` is not above `b`, then `a` is above `c`.
pub proof fn lemma_above_or_not(a: Ratio, b: Ratio, c: Ratio)
    requires
        a.above(b),
        c.defined(),
        !c.above(b),
    ensures
        a.above(c),
{
    let pa = a.num * a.num;
    let pb = b.num * b.num;
    let pc = c.num * c.num;
    let da = a.var_x * a.var_y;
    let db = b.var_x * b.var_y;
    let dc = c.var_x * c.var_y;
    assert(da > 0 && db > 0 && dc > 0) by (nonlinear_arith)
        requires
            a.var_x > 0,
            a.var_y > 0,
            b.var_x > 0,
            b.var_y > 0,
            c.var_x > 0,
            c.var_y > 0,
            da == a.var_x * a.var_y,
            db == b.var_x * b.var_y,
            dc == c.var_x * c.var_y,
    ;
    assert(pa >= 0 && pb >= 0 && pc >= 0) by (nonlinear_arith)
        requires
            pa == a.num * a.num,
            pb == b.num * b.num,
            pc == c.num * c.num,
    ;
    assert(pa * dc > pc * da) by (nonlinear_arith)
        requires
            pa * db > pb * da,
            pc * db <= pb * dc,
            da > 0,
            db > 0,
            dc > 0,
            pa >= 0,
            pb >= 0,
            pc >= 0,
    ;
}

impl Correlation {
    /// The value that stands for "no coefficient".
    pub fn undefined() -> (c: Correlation)
        ensures
            c@ == Ratio::undefined(),
    {
        Correlation { num: 0, var_x: 0, var_y: 0 }
    }

    /// Whether the coefficient exists.
    pub fn is_defined(&self) -> (r: bool)
        ensures
            r == self@.defined(),
    {
        self.var_x > 0 && self.var_y > 0
    }

    /// The coefficient if it exists.
    pub fn checked(&self) -> (r: Result<Correlation, CpaError>)
        ensures
            match r {
                Ok(c) => self@.defined() && c == *self,
                Err(e) => e == CpaError::DegenerateStatistics && !self@.defined(),
            },
    {
        if self.is_defined() {
            Ok(*self)
        } else {
            Err(CpaError::DegenerateStatistics)
        }
    }

    /// Whether both coefficients exist and `self` is strictly the greater.
    pub fn is_above(&self, other: &Correlation) -> (r: bool)
        ensures
            r == self@.above(other@),
    {
        if !self.is_defined() || !other.is_defined() {
            return false;
        }
        let num_a = wide::from_u128(self.num);
        let num_b = wide::from_u128(other.num);
        let var_a = wide::multiply(&wide::from_u128(self.var_x), &wide::from_u128(self.var_y));
        let var_b = wide::multiply(&wide::from_u128(other.var_x), &wide::from_u128(other.var_y));
        let square_a = wide::multiply(&num_a, &num_a);
        let square_b = wide::multiply(&num_b, &num_b);
        let left = wide::multiply(&square_a, &var_b);
        let right = wide::multiply(&square_b, &var_a);
        wide::less(&right, &left)
    }

    /// The coefficient of `n` observations from their five sums.
    pub fn from_sums(n: u32, cross: i64, sum_x: i64, sig_x: i64, sum_y: i64, sig_y: i64) -> (c:
        Correlation)
        ensures
            c@ == Ratio::of_sums(
                n as int,
                cross as int,
                sum_x as int,
                sig_x as int,
                sum_y as int,
                sig_y as int,
            ),
    {
        let count: i128 = n as i128;
        assert(-0x4000_0000_0000_0000_0000_0000_0000_0000 <= sum_x * sum_y
            <= 0x4000_0000_0000_0000_0000_0000_0000_0000 && 0 <= sum_x * sum_x
            <= 0x4000_0000_0000_0000_0000_0000_0000_0000 && 0 <= sum_y * sum_y
            <= 0x4000_0000_0000_0000_0000_0000_0000_0000) by (nonlinear_arith)
            requires
                -0x8000_0000_0000_0000 <= sum_x <= 0x8000_0000_0000_0000,
                -0x8000_0000_0000_0000 <= sum_y <= 0x8000_0000_0000_0000,
        ;
        assert(-0x8000_0000_0000_0000_0000_0000 <= count * cross <= 0x8000_0000_0000_0000_0000_0000
            && -0x8000_0000_0000_0000_0000_0000 <= count * sig_x
            <= 0x8000_0000_0000_0000_0000_0000 && -0x8000_0000_0000_0000_0000_0000 <= count
            * sig_y <= 0x8000_0000_0000_0000_0000_0000) by (nonlinear_arith)
            requires
                0 <= count <= 0x1_0000_0000,
                -0x8000_0000_0000_0000 <= cross <= 0x8000_0000_0000_0000,
                -0x8000_0000_0000_0000 <= sig_x <= 0x8000_0000_0000_0000,
                -0x8000_0000_0000_0000 <= sig_y <= 0x8000_0000_0000_0000,
        ;
        let covariance: i128 = count * (cross as i128) - (sum_x as i128) * (sum_y as i128);
        let var_x: i128 = count * (sig_x as i128) - (sum_x as i128) * (sum_x as i128);
        let var_y: i128 = count * (sig_y as i128) - (sum_y as i128) * (sum_y as i128);
        Correlation {
            num: if covariance < 0 {
                (-covariance) as u128
            } else {
                covariance as u128
            },
            var_x: if var_x > 0 {
                var_x as u128
            } else {
                0
            },
            var_y: if var_y > 0 {
                var_y as u128
            } else {
                0
            },
        }
    }
}

/// Index of the first greatest existing entry of a row, if it has one.
pub fn arg_max(row: &Vec<Correlation>) -> (r: Option<usize>)
    ensures
        match r {
            Some(k) => k < row@.len() && k as int == first_maximum(ratios(row@)),
            None => first_maximum(ratios(row@)) == -1,
        },
{
    let mut best: Option<usize> = None;
    let mut i: usize = 0;
    proof {
        assert(ratios(row@).take(0) =~= Seq::<Ratio>::empty());
    }
    while i < row.len()
        invariant
            i <= row@.len(),
            match best {
                Some(k) => k < i && k as int == first_maximum(ratios(row@).take(i as int)),
                None => first_maximum(ratios(row@).take(i as int)) == -1,
            },
        decreases row@.len() - i,
    {
        proof {
            let s = ratios(row@);
            assert(s.take(i + 1).drop_last() =~= s.take(i as int));
            assert(s.take(i + 1).last() == row@[i as int]@);
            if let Some(k) = best {
                assert(s.take(i + 1)[k as int] == row@[k as int]@);
            }
        }
        let take = match best {
            None => row[i].is_defined(),
            Some(k) => row[i].is_above(&row[k]),
        };
        if take {
            best = Some(i);
        }
        i += 1;
    }
    proof {
        assert(ratios(row@).take(i as int) =~= ratios(row@));
    }
    best
}

/// Row `r` of a grid.
pub fn row_of(m: &Grid, r: usize, width: usize) -> (row: Vec<Correlation>)
    requires
        r < grid_rows(*m).len(),
        grid_rows(*m)[r as int].len() == width,
    ensures
        row@ == grid_rows(*m)[r as int],
{
    let mut row: Vec<Correlation> = Vec::new();
    let mut x: usize = 0;
    while x < width
        invariant
            x <= width,
            r < grid_rows(*m).len(),
            grid_rows(*m)[r as int].len() == width,
            row@.len() == x,
            forall|i: int| 0 <= i < x ==> #[trigger] row@[i] == grid_rows(*m)[r as int][i],
        decreases width - x,
    {
        row.push(grid_get(m, r, x));
        x += 1;
    }
    assert(row@ =~= grid_rows(*m)[r as int]);
    row
}

/// The one column of a grid of one column.
pub fn column_of(m: &Grid, rows: usize) -> (column: Vec<Correlation>)
    requires
        grid_shape(grid_rows(*m), rows as nat, 1),
    ensures
        ratios(column@) == column_ratios(grid_rows(*m)),
{
    let mut column: Vec<Correlation> = Vec::new();
    let mut g: usize = 0;
    while g < rows
        invariant
            g <= rows,
            grid_shape(grid_rows(*m), rows as nat, 1),
            column@.len() == g,
            forall|i: int| 0 <= i < g ==> #[trigger] column@[i] == grid_rows(*m)[i][0],
        decreases rows - g,
    {
        assert(grid_rows(*m)[g as int].len() == 1);
        column.push(grid_get(m, g, 0));
        g += 1;
    }
    assert(ratios(column@) =~= column_ratios(grid_rows(*m)));
    column
}

/// The greatest existing entry of each row, as a grid of one column.
pub fn maxima(corr: &Grid, guesses: usize, samples: usize) -> (m: Grid)
    requires
        grid_shape(grid_rows(*corr), guesses as nat, samples as nat),
        guesses * 48 <= isize::MAX,
    ensures
        grid_shape(grid_rows(m), guesses as nat, 1),
        column_ratios(grid_rows(m)) == row_maxima(grid_ratios(grid_rows(*corr))),
{
    let mut m = grid_filled(guesses, 1, Correlation::undefined());
    let mut g: usize = 0;
    while g < guesses
        invariant
            g <= guesses,
            grid_shape(grid_rows(*corr), guesses as nat, samples as nat),
            grid_shape(grid_rows(m), guesses as nat, 1),
            forall|i: int|
                0 <= i < g ==> (#[trigger] grid_rows(m)[i])[0]@ == maximum(
                    ratios(grid_rows(*corr)[i]),
                ),
        decreases guesses - g,
    {
        assert(grid_rows(*corr)[g as int].len() == samples);
        assert(grid_rows(m)[g as int].len() == 1);
        let row = row_of(corr, g, samples);
        let best = match arg_max(&row) {
            Some(k) => row[k],
            None => Correlation::undefined(),
        };
        let ghost before = grid_rows(m);
        grid_set(&mut m, g, 0, best);
        proof {
            assert forall|i: int| 0 <= i < guesses implies (#[trigger] grid_rows(m)[i]).len()
                == 1 by {
                assert(before[i].len() == 1);
            }
            assert forall|i: int| 0 <= i < g + 1 implies (#[trigger] grid_rows(m)[i])[0]@
                == maximum(ratios(grid_rows(*corr)[i])) by {
                if i < g {
                    assert(before[i][0]@ == maximum(ratios(grid_rows(*corr)[i])));
                }
            }
        }
        g += 1;
    }
    assert(column_ratios(grid_rows(m)) =~= row_maxima(grid_ratios(grid_rows(*corr))));
    m
}

/// The guess that a column of per-guess maxima points to.
pub fn guess(max_corr: &Vec<Correlation>) -> (g: usize)
    ensures
        g as int == best_guess(ratios(max_corr@)),
{
    match arg_max(max_corr) {
        Some(k) => {
            if max_corr[k].num > 0 {
                k
            } else {
                0
            }
        },
        None => 0,
    }
}

/// The rows of a grid, each as a vector of its own.
pub fn copy_rows(m: &Grid) -> (copy: Vec<Vec<Correlation>>)
    ensures
        ratio_rows(copy@) == grid_ratios(grid_rows(*m)),
{
    let (rows, width) = grid_dim(m);
    let mut copy: Vec<Vec<Correlation>> = Vec::new();
    let mut g: usize = 0;
    while g < rows
        invariant
            g <= rows,
            grid_shape(grid_rows(*m), rows as nat, width as nat),
            copy@.len() == g,
            forall|i: int| 0 <= i < g ==> (#[trigger] copy@[i])@ == grid_rows(*m)[i],
        decreases rows - g,
    {
        assert(grid_rows(*m)[g as int].len() == width);
        let row = row_of(m, g, width);
        copy.push(row);
        g += 1;
    }
    assert(ratio_rows(copy@) =~= grid_ratios(grid_rows(*m)));
    copy
}

} // verus!
