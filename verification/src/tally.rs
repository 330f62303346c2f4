//! Element-wise arithmetic on the running sums.
//!
//! The accumulators differ in how a trace reaches them; what they then do to
//! their arrays is the same handful of loops, collected here. Each loop says
//! exactly what every element becomes. None of them may overflow, so each
//! asks its caller to show that every new element fits in an `i64`.

use crate::arrays::{
    column, grid_filled, grid_rows, grid_set, magnitudes, matrix_column_dot, matrix_column_sum,
    matrix_get, matrix_rows, matrix_set, matrix_zeros, products, sum, vector_get, vector_items,
    vector_set, vector_zeros, Grid, Matrix, Vector,
};
use crate::correlation::{grid_ratios, grid_shape, Correlation};
use crate::history::Sums;
use crate::leakage::LeakageModel;
use crate::sequences::{has_shape, int_rows, ints, lemma_sum_bounds};
use vstd::prelude::*;

verus! {

/// Whether `x` is an `i64`.
pub open spec fn fits(x: int) -> bool {
    i64::MIN <= x <= i64::MAX
}

/// Whether every element is a 16-bit value.
pub open spec fn narrow(s: Seq<i64>) -> bool {
    forall|i: int| 0 <= i < s.len() ==> -0x8000 <= #[trigger] s[i] < 0x8000
}

/// The samples of a trace in the accumulators' working precision.
pub fn widen(trace: &[i16]) -> (v: Vector)
    requires
        trace@.len() * 8 <= isize::MAX,
    ensures
        vector_items(v).len() == trace@.len(),
        forall|i: int| 0 <= i < trace@.len() ==> #[trigger] vector_items(v)[i] == trace@[i],
        narrow(vector_items(v)),
{
    let n = trace.len();
    let mut v = vector_zeros(n);
    let mut i: usize = 0;
    while i < n
        invariant
            i <= n,
            n == trace@.len(),
            vector_items(v).len() == n,
            forall|j: int| 0 <= j < i ==> #[trigger] vector_items(v)[j] == trace@[j],
        decreases n - i,
    {
        vector_set(&mut v, i, trace[i] as i64);
        i += 1;
    }
    v
}

/// Sets `values[g]` to the model's hypothesis for guess `g`, for every guess
/// below `upto`.
pub fn fill_hypotheses<M: LeakageModel>(
    values: &mut Vector,
    model: &M,
    metadata: &[i32],
    upto: usize,
)
    requires
        upto <= vector_items(*old(values)).len(),
        narrow(vector_items(*old(values))),
    ensures
        vector_items(*final(values)).len() == vector_items(*old(values)).len(),
        forall|g: int|
            0 <= g < upto ==> #[trigger] vector_items(*final(values))[g] == model.hypothesis(
                metadata@,
                g,
            ),
        forall|g: int|
            upto <= g < vector_items(*old(values)).len() ==> #[trigger] vector_items(
                *final(values),
            )[g] == vector_items(*old(values))[g],
        narrow(vector_items(*final(values))),
{
    let mut guess: usize = 0;
    while guess < upto
        invariant
            guess <= upto,
            upto <= vector_items(*values).len(),
            vector_items(*values).len() == vector_items(*old(values)).len(),
            forall|g: int|
                0 <= g < guess ==> #[trigger] vector_items(*values)[g] == model.hypothesis(
                    metadata@,
                    g,
                ),
            forall|g: int|
                guess <= g < vector_items(*values).len() ==> #[trigger] vector_items(*values)[g]
                    == vector_items(*old(values))[g],
            narrow(vector_items(*values)),
        decreases upto - guess,
    {
        let h: i16 = model.leakage(metadata, guess);
        vector_set(values, guess, h as i64);
        guess += 1;
    }
}

/// `acc[i] += term[i]` for every `i` below `n`.
pub fn add_into(acc: &mut Vector, term: &Vector, n: usize)
    requires
        n <= vector_items(*old(acc)).len(),
        n <= vector_items(*term).len(),
        forall|i: int|
            0 <= i < n ==> fits(#[trigger] vector_items(*old(acc))[i] + vector_items(*term)[i]),
    ensures
        vector_items(*final(acc)).len() == vector_items(*old(acc)).len(),
        forall|i: int|
            0 <= i < n ==> #[trigger] vector_items(*final(acc))[i] == vector_items(*old(acc))[i]
                + vector_items(*term)[i],
        forall|i: int|
            n <= i < vector_items(*old(acc)).len() ==> #[trigger] vector_items(*final(acc))[i]
                == vector_items(*old(acc))[i],
{
    let mut i: usize = 0;
    while i < n
        invariant
            i <= n,
            vector_items(*acc).len() == vector_items(*old(acc)).len(),
            n <= vector_items(*acc).len(),
            n <= vector_items(*term).len(),
            forall|j: int|
                0 <= j < i ==> #[trigger] vector_items(*acc)[j] == vector_items(*old(acc))[j]
                    + vector_items(*term)[j],
            forall|j: int|
                i <= j < vector_items(*acc).len() ==> #[trigger] vector_items(*acc)[j]
                    == vector_items(*old(acc))[j],
            forall|j: int|
                0 <= j < n ==> fits(#[trigger] vector_items(*old(acc))[j] + vector_items(*term)[j]),
        decreases n - i,
    {
        let current: i64 = vector_get(acc, i);
        let addend: i64 = vector_get(term, i);
        assert(fits(vector_items(*old(acc))[i as int] + vector_items(*term)[i as int]));
        vector_set(acc, i, current + addend);
        i += 1;
    }
}

/// `acc[i] += term[i] * term[i]` for every `i` below `n`.
pub fn add_squares_into(acc: &mut Vector, term: &Vector, n: usize)
    requires
        n <= vector_items(*old(acc)).len(),
        n <= vector_items(*term).len(),
        narrow(vector_items(*term)),
        forall|i: int|
            0 <= i < n ==> fits(
                #[trigger] vector_items(*old(acc))[i] + vector_items(*term)[i] * vector_items(
                    *term,
                )[i],
            ),
    ensures
        vector_items(*final(acc)).len() == vector_items(*old(acc)).len(),
        forall|i: int|
            0 <= i < n ==> #[trigger] vector_items(*final(acc))[i] == vector_items(*old(acc))[i]
                + vector_items(*term)[i] * vector_items(*term)[i],
        forall|i: int|
            n <= i < vector_items(*old(acc)).len() ==> #[trigger] vector_items(*final(acc))[i]
                == vector_items(*old(acc))[i],
{
    let mut i: usize = 0;
    while i < n
        invariant
            i <= n,
            vector_items(*acc).len() == vector_items(*old(acc)).len(),
            n <= vector_items(*acc).len(),
            n <= vector_items(*term).len(),
            narrow(vector_items(*term)),
            forall|j: int|
                0 <= j < i ==> #[trigger] vector_items(*acc)[j] == vector_items(*old(acc))[j]
                    + vector_items(*term)[j] * vector_items(*term)[j],
            forall|j: int|
                i <= j < vector_items(*acc).len() ==> #[trigger] vector_items(*acc)[j]
                    == vector_items(*old(acc))[j],
            forall|j: int|
                0 <= j < n ==> fits(
                    #[trigger] vector_items(*old(acc))[j] + vector_items(*term)[j] * vector_items(
                        *term,
                    )[j],
                ),
        decreases n - i,
    {
        let current: i64 = vector_get(acc, i);
        let addend: i64 = vector_get(term, i);
        assert(-0x8000 <= vector_items(*term)[i as int] < 0x8000);
        assert(0 <= addend * addend <= 0x4000_0000) by (nonlinear_arith)
            requires
                -0x8000 <= addend < 0x8000,
        ;
        assert(fits(
            vector_items(*old(acc))[i as int] + vector_items(*term)[i as int] * vector_items(
                *term,
            )[i as int],
        ));
        vector_set(acc, i, current + addend * addend);
        i += 1;
    }
}

/// `cov[g][x] += values[g] * trace[x]` for every guess `g` and sample `x`.
pub fn add_outer_into(
    cov: &mut Matrix,
    values: &Vector,
    trace: &Vector,
    guesses: usize,
    samples: usize,
)
    requires
        has_shape(matrix_rows(*old(cov)), guesses as nat, samples as nat),
        vector_items(*values).len() == guesses,
        vector_items(*trace).len() == samples,
        narrow(vector_items(*values)),
        narrow(vector_items(*trace)),
        forall|g: int, x: int|
            0 <= g < guesses && 0 <= x < samples ==> fits(
                #[trigger] matrix_rows(*old(cov))[g][x] + vector_items(*values)[g] * vector_items(
                    *trace,
                )[x],
            ),
    ensures
        has_shape(matrix_rows(*final(cov)), guesses as nat, samples as nat),
        forall|g: int, x: int|
            0 <= g < guesses && 0 <= x < samples ==> #[trigger] matrix_rows(*final(cov))[g][x]
                == matrix_rows(*old(cov))[g][x] + vector_items(*values)[g] * vector_items(
                *trace,
            )[x],
{
    let mut column: usize = 0;
    while column < samples
        invariant
            column <= samples,
            has_shape(matrix_rows(*cov), guesses as nat, samples as nat),
            has_shape(matrix_rows(*old(cov)), guesses as nat, samples as nat),
            vector_items(*values).len() == guesses,
            vector_items(*trace).len() == samples,
            narrow(vector_items(*values)),
            narrow(vector_items(*trace)),
            forall|g: int, x: int|
                0 <= g < guesses && 0 <= x < samples ==> fits(
                    #[trigger] matrix_rows(*old(cov))[g][x] + vector_items(*values)[g]
                        * vector_items(*trace)[x],
                ),
            forall|g: int, x: int|
                0 <= g < guesses && 0 <= x < samples ==> #[trigger] matrix_rows(*cov)[g][x] == (if x
                    < column {
                    matrix_rows(*old(cov))[g][x] + vector_items(*values)[g] * vector_items(
                        *trace,
                    )[x]
                } else {
                    matrix_rows(*old(cov))[g][x] as int
                }),
        decreases samples - column,
    {
        let sample: i64 = vector_get(trace, column);
        let mut row: usize = 0;
        while row < guesses
            invariant
                row <= guesses,
                column < samples,
                sample == vector_items(*trace)[column as int],
                has_shape(matrix_rows(*cov), guesses as nat, samples as nat),
                has_shape(matrix_rows(*old(cov)), guesses as nat, samples as nat),
                vector_items(*values).len() == guesses,
                vector_items(*trace).len() == samples,
                narrow(vector_items(*values)),
                narrow(vector_items(*trace)),
                forall|g: int, x: int|
                    0 <= g < guesses && 0 <= x < samples ==> fits(
                        #[trigger] matrix_rows(*old(cov))[g][x] + vector_items(*values)[g]
                            * vector_items(*trace)[x],
                    ),
                forall|g: int, x: int|
                    0 <= g < guesses && 0 <= x < samples ==> #[trigger] matrix_rows(*cov)[g][x]
                        == (if x < column || (x == column && g < row) {
                        matrix_rows(*old(cov))[g][x] + vector_items(*values)[g] * vector_items(
                            *trace,
                        )[x]
                    } else {
                        matrix_rows(*old(cov))[g][x] as int
                    }),
            decreases guesses - row,
        {
            let current: i64 = matrix_get(cov, row, column);
            let value: i64 = vector_get(values, row);
            assert(-0x8000 <= vector_items(*values)[row as int] < 0x8000);
            assert(-0x8000 <= vector_items(*trace)[column as int] < 0x8000);
            assert(-0x4000_0000 <= value * sample <= 0x4000_0000) by (nonlinear_arith)
                requires
                    -0x8000 <= value < 0x8000,
                    -0x8000 <= sample < 0x8000,
            ;
            assert(fits(
                matrix_rows(*old(cov))[row as int][column as int] + vector_items(
                    *values,
                )[row as int] * vector_items(*trace)[column as int],
            ));
            assert(current == matrix_rows(*old(cov))[row as int][column as int]);
            let ghost before = matrix_rows(*cov);
            matrix_set(cov, row, column, current + value * sample);
            assert forall|g: int, x: int| 0 <= g < guesses && 0 <= x < samples implies (
            #[trigger] matrix_rows(*cov)[g][x]) == (if x < column || (x == column && g < row + 1) {
                matrix_rows(*old(cov))[g][x] + vector_items(*values)[g] * vector_items(*trace)[x]
            } else {
                matrix_rows(*old(cov))[g][x] as int
            }) by {
                assert(before[g].len() == samples);
                if g == row && x == column {
                } else {
                    assert(matrix_rows(*cov)[g][x] == before[g][x]);
                }
            }
            assert(has_shape(matrix_rows(*cov), guesses as nat, samples as nat)) by {
                assert forall|i: int| 0 <= i < guesses implies (#[trigger] matrix_rows(
                    *cov,
                )[i]).len() == samples by {
                    assert(before[i].len() == samples);
                }
            }
            row += 1;
        }
        column += 1;
    }
}

/// The correlation of every guess with every sample, from the sums of
/// `count` traces.
pub fn correlate(
    count: u32,
    sum_leakages: &Vector,
    sig_leakages: &Vector,
    sum_keys: &Vector,
    sig_keys: &Vector,
    cov: &Matrix,
    guesses: usize,
    samples: usize,
) -> (corr: Grid)
    requires
        vector_items(*sum_leakages).len() == samples,
        vector_items(*sig_leakages).len() == samples,
        vector_items(*sum_keys).len() == guesses,
        vector_items(*sig_keys).len() == guesses,
        has_shape(matrix_rows(*cov), guesses as nat, samples as nat),
        guesses <= isize::MAX,
        samples <= isize::MAX,
        guesses * samples * 48 <= isize::MAX,
    ensures
        grid_shape(grid_rows(corr), guesses as nat, samples as nat),
        grid_ratios(grid_rows(corr)) == (Sums {
            count: count as int,
            sum_leakages: ints(vector_items(*sum_leakages)),
            sig_leakages: ints(vector_items(*sig_leakages)),
            sum_keys: ints(vector_items(*sum_keys)),
            sig_keys: ints(vector_items(*sig_keys)),
            cov: int_rows(matrix_rows(*cov)),
        }).correlations(),
{
    let ghost sums = Sums {
        count: count as int,
        sum_leakages: ints(vector_items(*sum_leakages)),
        sig_leakages: ints(vector_items(*sig_leakages)),
        sum_keys: ints(vector_items(*sum_keys)),
        sig_keys: ints(vector_items(*sig_keys)),
        cov: int_rows(matrix_rows(*cov)),
    };
    let mut corr = grid_filled(guesses, samples, Correlation::undefined());
    let mut i: usize = 0;
    while i < guesses
        invariant
            i <= guesses,
            grid_shape(grid_rows(corr), guesses as nat, samples as nat),
            vector_items(*sum_leakages).len() == samples,
            vector_items(*sig_leakages).len() == samples,
            vector_items(*sum_keys).len() == guesses,
            vector_items(*sig_keys).len() == guesses,
            has_shape(matrix_rows(*cov), guesses as nat, samples as nat),
            sums == (Sums {
                count: count as int,
                sum_leakages: ints(vector_items(*sum_leakages)),
                sig_leakages: ints(vector_items(*sig_leakages)),
                sum_keys: ints(vector_items(*sum_keys)),
                sig_keys: ints(vector_items(*sig_keys)),
                cov: int_rows(matrix_rows(*cov)),
            }),
            forall|g: int, j: int|
                0 <= g < i && 0 <= j < samples ==> (#[trigger] grid_rows(corr)[g][j])@
                    == sums.correlation(g, j),
        decreases guesses - i,
    {
        let sum_y: i64 = vector_get(sum_keys, i);
        let sig_y: i64 = vector_get(sig_keys, i);
        let mut x: usize = 0;
        while x < samples
            invariant
                x <= samples,
                i < guesses,
                grid_shape(grid_rows(corr), guesses as nat, samples as nat),
                vector_items(*sum_leakages).len() == samples,
                vector_items(*sig_leakages).len() == samples,
                has_shape(matrix_rows(*cov), guesses as nat, samples as nat),
                sum_y == vector_items(*sum_keys)[i as int],
                sig_y == vector_items(*sig_keys)[i as int],
                vector_items(*sum_keys).len() == guesses,
                vector_items(*sig_keys).len() == guesses,
                sums == (Sums {
                    count: count as int,
                    sum_leakages: ints(vector_items(*sum_leakages)),
                    sig_leakages: ints(vector_items(*sig_leakages)),
                    sum_keys: ints(vector_items(*sum_keys)),
                    sig_keys: ints(vector_items(*sig_keys)),
                    cov: int_rows(matrix_rows(*cov)),
                }),
                forall|g: int, j: int|
                    0 <= g < i && 0 <= j < samples ==> (#[trigger] grid_rows(corr)[g][j])@
                        == sums.correlation(g, j),
                forall|j: int|
                    0 <= j < x ==> (#[trigger] grid_rows(corr)[i as int][j])@ == sums.correlation(
                        i as int,
                        j,
                    ),
            decreases samples - x,
        {
            assert(matrix_rows(*cov)[i as int].len() == samples);
            assert(grid_rows(corr)[i as int].len() == samples);
            let entry = Correlation::from_sums(
                count,
                matrix_get(cov, i, x),
                vector_get(sum_leakages, x),
                vector_get(sig_leakages, x),
                sum_y,
                sig_y,
            );
            let ghost before = grid_rows(corr);
            grid_set(&mut corr, i, x, entry);
            proof {
                assert forall|g: int| 0 <= g < guesses implies (#[trigger] grid_rows(
                    corr,
                )[g]).len() == samples by {
                    assert(before[g].len() == samples);
                }
                assert forall|g: int, j: int| 0 <= g < i && 0 <= j < samples implies (
                #[trigger] grid_rows(corr)[g][j])@ == sums.correlation(g, j) by {
                    assert(grid_rows(corr)[g][j] == before[g][j]);
                }
                assert forall|j: int| 0 <= j < x + 1 implies (#[trigger] grid_rows(
                    corr,
                )[i as int][j])@ == sums.correlation(i as int, j) by {
                    if j < x {
                        assert(grid_rows(corr)[i as int][j] == before[i as int][j]);
                    }
                }
            }
            x += 1;
        }
        i += 1;
    }
    proof {
        let found = grid_ratios(grid_rows(corr));
        let target = sums.correlations();
        assert forall|g: int| 0 <= g < guesses implies (#[trigger] found[g]) =~= target[g] by {
            assert(grid_rows(corr)[g].len() == samples);
            assert forall|j: int| 0 <= j < samples implies found[g][j] == target[g][j] by {
                assert(grid_rows(corr)[g][j]@ == sums.correlation(g, j));
            }
        }
        assert(found =~~= target);
    }
    corr
}

/// Whether every element of a matrix is a 16-bit value.
pub open spec fn narrow_rows(rows: Seq<Seq<i64>>) -> bool {
    forall|r: int, c: int|
        0 <= r < rows.len() && 0 <= c < rows[r].len() ==> -0x8000 <= #[trigger] rows[r][c] < 0x8000
}

/// A patch of traces in the accumulators' working precision: one row per
/// trace.
pub fn widen_patch(patch: &[Vec<i16>], rows: usize, samples: usize) -> (m: Matrix)
    requires
        rows > 0,
        samples > 0,
        patch@.len() == rows,
        forall|r: int| 0 <= r < rows ==> (#[trigger] patch@[r])@.len() == samples,
        rows * samples * 8 <= isize::MAX,
    ensures
        has_shape(matrix_rows(m), rows as nat, samples as nat),
        forall|r: int, x: int|
            0 <= r < rows && 0 <= x < samples ==> #[trigger] matrix_rows(m)[r][x] == patch@[r]@[x],
        narrow_rows(matrix_rows(m)),
{
    let mut m = matrix_zeros(rows, samples);
    let mut r: usize = 0;
    while r < rows
        invariant
            r <= rows,
            patch@.len() == rows,
            forall|i: int| 0 <= i < rows ==> (#[trigger] patch@[i])@.len() == samples,
            has_shape(matrix_rows(m), rows as nat, samples as nat),
            forall|i: int, x: int|
                0 <= i < r && 0 <= x < samples ==> #[trigger] matrix_rows(m)[i][x]
                    == patch@[i]@[x],
            forall|i: int, x: int|
                r <= i < rows && 0 <= x < samples ==> #[trigger] matrix_rows(m)[i][x] == 0,
        decreases rows - r,
    {
        let mut x: usize = 0;
        while x < samples
            invariant
                x <= samples,
                r < rows,
                patch@.len() == rows,
                forall|i: int| 0 <= i < rows ==> (#[trigger] patch@[i])@.len() == samples,
                has_shape(matrix_rows(m), rows as nat, samples as nat),
                forall|i: int, j: int|
                    0 <= i < r && 0 <= j < samples ==> #[trigger] matrix_rows(m)[i][j]
                        == patch@[i]@[j],
                forall|j: int| 0 <= j < x ==> #[trigger] matrix_rows(m)[r as int][j] == patch@[r as int]@[j],
                forall|j: int| x <= j < samples ==> #[trigger] matrix_rows(m)[r as int][j] == 0,
                forall|i: int, j: int|
                    r < i < rows && 0 <= j < samples ==> #[trigger] matrix_rows(m)[i][j] == 0,
            decreases samples - x,
        {
            let ghost before = matrix_rows(m);
            assert(before[r as int].len() == samples);
            matrix_set(&mut m, r, x, patch[r][x] as i64);
            assert(has_shape(matrix_rows(m), rows as nat, samples as nat)) by {
                assert forall|i: int| 0 <= i < rows implies (#[trigger] matrix_rows(m)[i]).len()
                    == samples by {
                    assert(before[i].len() == samples);
                }
            }
            assert forall|i: int, j: int| 0 <= i < r && 0 <= j < samples implies (
            #[trigger] matrix_rows(m)[i][j]) == patch@[i]@[j] by {
                assert(matrix_rows(m)[i][j] == before[i][j]);
            }
            assert forall|i: int, j: int| r < i < rows && 0 <= j < samples implies (
            #[trigger] matrix_rows(m)[i][j]) == 0 by {
                assert(matrix_rows(m)[i][j] == before[i][j]);
            }
            assert forall|j: int| 0 <= j < x + 1 implies #[trigger] matrix_rows(m)[r as int][j]
                == patch@[r as int]@[j] by {
                if j < x {
                    assert(matrix_rows(m)[r as int][j] == before[r as int][j]);
                }
            }
            assert forall|j: int| x + 1 <= j < samples implies #[trigger] matrix_rows(
                m,
            )[r as int][j] == 0 by {
                assert(matrix_rows(m)[r as int][j] == before[r as int][j]);
            }
            x += 1;
        }
        r += 1;
    }
    assert(narrow_rows(matrix_rows(m))) by {
        assert forall|i: int, j: int|
            0 <= i < matrix_rows(m).len() && 0 <= j < matrix_rows(m)[i].len() implies -0x8000
            <= #[trigger] matrix_rows(m)[i][j] < 0x8000 by {
            assert(matrix_rows(m)[i].len() == samples);
            assert(matrix_rows(m)[i][j] == patch@[i]@[j]);
        }
    }
    m
}

/// Sets `values[r][g]` to the model's hypothesis for metadata row `r` and
/// guess `g`, for every row and every guess below `upto`.
pub fn fill_hypotheses_patch<M: LeakageModel>(
    values: &mut Matrix,
    model: &M,
    metadata: &[Vec<i32>],
    rows: usize,
    guesses: usize,
    upto: usize,
)
    requires
        has_shape(matrix_rows(*old(values)), rows as nat, guesses as nat),
        narrow_rows(matrix_rows(*old(values))),
        metadata@.len() == rows,
        upto <= guesses,
    ensures
        has_shape(matrix_rows(*final(values)), rows as nat, guesses as nat),
        forall|r: int, g: int|
            0 <= r < rows && 0 <= g < guesses ==> #[trigger] matrix_rows(*final(values))[r][g]
                == (if g < upto {
                model.hypothesis(metadata@[r]@, g)
            } else {
                matrix_rows(*old(values))[r][g] as int
            }),
        narrow_rows(matrix_rows(*final(values))),
{
    let mut row: usize = 0;
    while row < rows
        invariant
            row <= rows,
            upto <= guesses,
            metadata@.len() == rows,
            has_shape(matrix_rows(*values), rows as nat, guesses as nat),
            has_shape(matrix_rows(*old(values)), rows as nat, guesses as nat),
            narrow_rows(matrix_rows(*old(values))),
            forall|r: int, g: int|
                0 <= r < rows && 0 <= g < guesses ==> #[trigger] matrix_rows(*values)[r][g] == (if r
                    < row && g < upto {
                    model.hypothesis(metadata@[r]@, g)
                } else {
                    matrix_rows(*old(values))[r][g] as int
                }),
            forall|r: int, g: int|
                0 <= r < rows && 0 <= g < guesses ==> -0x8000 <= #[trigger] matrix_rows(
                    *values,
                )[r][g] < 0x8000,
        decreases rows - row,
    {
        let mut guess: usize = 0;
        while guess < upto
            invariant
                guess <= upto,
                upto <= guesses,
                row < rows,
                metadata@.len() == rows,
                has_shape(matrix_rows(*values), rows as nat, guesses as nat),
                has_shape(matrix_rows(*old(values)), rows as nat, guesses as nat),
                narrow_rows(matrix_rows(*old(values))),
                forall|r: int, g: int|
                    0 <= r < rows && 0 <= g < guesses ==> #[trigger] matrix_rows(*values)[r][g]
                        == (if (r < row && g < upto) || (r == row && g < guess) {
                        model.hypothesis(metadata@[r]@, g)
                    } else {
                        matrix_rows(*old(values))[r][g] as int
                    }),
                forall|r: int, g: int|
                    0 <= r < rows && 0 <= g < guesses ==> -0x8000 <= #[trigger] matrix_rows(
                        *values,
                    )[r][g] < 0x8000,
            decreases upto - guess,
        {
            let h: i16 = model.leakage(metadata[row].as_slice(), guess);
            let ghost before = matrix_rows(*values);
            assert(before[row as int].len() == guesses);
            matrix_set(values, row, guess, h as i64);
            assert(has_shape(matrix_rows(*values), rows as nat, guesses as nat)) by {
                assert forall|i: int| 0 <= i < rows implies (#[trigger] matrix_rows(
                    *values,
                )[i]).len() == guesses by {
                    assert(before[i].len() == guesses);
                }
            }
            assert forall|r: int, g: int| 0 <= r < rows && 0 <= g < guesses implies (
            #[trigger] matrix_rows(*values)[r][g]) == (if (r < row && g < upto) || (r == row && g
                < guess + 1) {
                model.hypothesis(metadata@[r]@, g)
            } else {
                matrix_rows(*old(values))[r][g] as int
            }) && -0x8000 <= matrix_rows(*values)[r][g] < 0x8000 by {
                assert(before[r].len() == guesses);
                if r == row && g == guess {
                } else {
                    assert(matrix_rows(*values)[r][g] == before[r][g]);
                    assert(-0x8000 <= before[r][g] < 0x8000);
                }
            }
            guess += 1;
        }
        row += 1;
    }
    assert(narrow_rows(matrix_rows(*values))) by {
        assert forall|i: int, j: int|
            0 <= i < matrix_rows(*values).len() && 0 <= j < matrix_rows(
                *values,
            )[i].len() implies -0x8000 <= #[trigger] matrix_rows(*values)[i][j] < 0x8000 by {
            assert(matrix_rows(*values)[i].len() == guesses);
        }
    }
}

/// The elements of a column of 16-bit values are bounded.
pub proof fn lemma_column_narrow(rows: Seq<Seq<i64>>, n: nat, width: nat, c: int)
    requires
        has_shape(rows, n, width),
        narrow_rows(rows),
        0 <= c < width,
    ensures
        forall|r: int| 0 <= r < n ==> -0x8000 <= #[trigger] column(rows, c)[r] <= 0x8000,
{
    assert forall|r: int| 0 <= r < n implies -0x8000 <= #[trigger] column(rows, c)[r]
        <= 0x8000 by {
        assert(rows[r].len() == width);
        assert(-0x8000 <= rows[r][c] < 0x8000);
    }
}

/// The products of two columns of 16-bit values are bounded.
pub proof fn lemma_column_products(
    a: Seq<Seq<i64>>,
    wa: nat,
    ca: int,
    b: Seq<Seq<i64>>,
    wb: nat,
    cb: int,
    n: nat,
)
    requires
        has_shape(a, n, wa),
        has_shape(b, n, wb),
        narrow_rows(a),
        narrow_rows(b),
        0 <= ca < wa,
        0 <= cb < wb,
    ensures
        forall|r: int|
            0 <= r < n ==> -0x4000_0000 <= #[trigger] products(column(a, ca), column(b, cb))[r]
                <= 0x4000_0000,
        products(column(a, ca), column(b, cb)).len() == n,
{
    lemma_column_narrow(a, n, wa, ca);
    lemma_column_narrow(b, n, wb, cb);
    assert forall|r: int| 0 <= r < n implies -0x4000_0000 <= #[trigger] products(
        column(a, ca),
        column(b, cb),
    )[r] <= 0x4000_0000 by {
        let x = column(a, ca)[r];
        let y = column(b, cb)[r];
        assert(-0x4000_0000 <= x * y <= 0x4000_0000) by (nonlinear_arith)
            requires
                -0x8000 <= x <= 0x8000,
                -0x8000 <= y <= 0x8000,
        ;
    }
}

/// `acc[i] += ` the sum of column `i` of `m`, for every `i` below `upto`.
pub fn add_column_sums_into(acc: &mut Vector, m: &Matrix, rows: usize, width: usize, upto: usize)
    requires
        rows > 0,
        rows <= 0xffff_ffff,
        upto <= width,
        vector_items(*old(acc)).len() == width,
        has_shape(matrix_rows(*m), rows as nat, width as nat),
        narrow_rows(matrix_rows(*m)),
        forall|i: int|
            0 <= i < upto ==> fits(
                #[trigger] vector_items(*old(acc))[i] + sum(column(matrix_rows(*m), i)),
            ),
    ensures
        vector_items(*final(acc)).len() == width,
        forall|i: int|
            0 <= i < upto ==> #[trigger] vector_items(*final(acc))[i] == vector_items(
                *old(acc),
            )[i] + sum(column(matrix_rows(*m), i)),
        forall|i: int|
            upto <= i < width ==> #[trigger] vector_items(*final(acc))[i] == vector_items(
                *old(acc),
            )[i],
{
    let mut i: usize = 0;
    while i < upto
        invariant
            i <= upto,
            upto <= width,
            rows > 0,
            rows <= 0xffff_ffff,
            vector_items(*acc).len() == width,
            has_shape(matrix_rows(*m), rows as nat, width as nat),
            narrow_rows(matrix_rows(*m)),
            forall|j: int|
                0 <= j < upto ==> fits(
                    #[trigger] vector_items(*old(acc))[j] + sum(column(matrix_rows(*m), j)),
                ),
            forall|j: int|
                0 <= j < i ==> #[trigger] vector_items(*acc)[j] == vector_items(*old(acc))[j]
                    + sum(column(matrix_rows(*m), j)),
            forall|j: int|
                i <= j < width ==> #[trigger] vector_items(*acc)[j] == vector_items(*old(acc))[j],
        decreases upto - i,
    {
        proof {
            lemma_column_narrow(matrix_rows(*m), rows as nat, width as nat, i as int);
            lemma_sum_bounds(column(matrix_rows(*m), i as int), 0x8000);
            assert(rows * 0x8000 <= i64::MAX);
            assert(fits(vector_items(*old(acc))[i as int] + sum(column(matrix_rows(*m), i as int))));
        }
        let current: i64 = vector_get(acc, i);
        let addend: i64 = matrix_column_sum(m, i);
        vector_set(acc, i, current + addend);
        i += 1;
    }
}

/// `acc[i] += ` the sum of the squares of column `i` of `m`, for every `i`
/// below `upto`.
pub fn add_column_squares_into(
    acc: &mut Vector,
    m: &Matrix,
    rows: usize,
    width: usize,
    upto: usize,
)
    requires
        rows > 0,
        rows <= 0xffff_ffff,
        upto <= width,
        vector_items(*old(acc)).len() == width,
        has_shape(matrix_rows(*m), rows as nat, width as nat),
        narrow_rows(matrix_rows(*m)),
        forall|i: int|
            0 <= i < upto ==> fits(
                #[trigger] vector_items(*old(acc))[i] + sum(
                    products(column(matrix_rows(*m), i), column(matrix_rows(*m), i)),
                ),
            ),
    ensures
        vector_items(*final(acc)).len() == width,
        forall|i: int|
            0 <= i < upto ==> #[trigger] vector_items(*final(acc))[i] == vector_items(
                *old(acc),
            )[i] + sum(products(column(matrix_rows(*m), i), column(matrix_rows(*m), i))),
        forall|i: int|
            upto <= i < width ==> #[trigger] vector_items(*final(acc))[i] == vector_items(
                *old(acc),
            )[i],
{
    let mut i: usize = 0;
    while i < upto
        invariant
            i <= upto,
            upto <= width,
            rows > 0,
            rows <= 0xffff_ffff,
            vector_items(*acc).len() == width,
            has_shape(matrix_rows(*m), rows as nat, width as nat),
            narrow_rows(matrix_rows(*m)),
            forall|j: int|
                0 <= j < upto ==> fits(
                    #[trigger] vector_items(*old(acc))[j] + sum(
                        products(column(matrix_rows(*m), j), column(matrix_rows(*m), j)),
                    ),
                ),
            forall|j: int|
                0 <= j < i ==> #[trigger] vector_items(*acc)[j] == vector_items(*old(acc))[j]
                    + sum(products(column(matrix_rows(*m), j), column(matrix_rows(*m), j))),
            forall|j: int|
                i <= j < width ==> #[trigger] vector_items(*acc)[j] == vector_items(*old(acc))[j],
        decreases upto - i,
    {
        proof {
            let rs = matrix_rows(*m);
            lemma_column_products(
                rs,
                width as nat,
                i as int,
                rs,
                width as nat,
                i as int,
                rows as nat,
            );
            lemma_sum_bounds(products(column(rs, i as int), column(rs, i as int)), 0x4000_0000);
            assert(rows * 0x4000_0000 <= i64::MAX);
            assert(fits(
                vector_items(*old(acc))[i as int] + sum(
                    products(column(rs, i as int), column(rs, i as int)),
                ),
            ));
        }
        let current: i64 = vector_get(acc, i);
        let addend: i64 = matrix_column_dot(m, i, m, i);
        vector_set(acc, i, current + addend);
        i += 1;
    }
}

/// `cov[g][x] += ` the dot product of column `g` of `values` with column `x`
/// of `trace`, for every guess `g` and sample `x`.
pub fn add_column_dots_into(
    cov: &mut Matrix,
    values: &Matrix,
    trace: &Matrix,
    rows: usize,
    guesses: usize,
    samples: usize,
)
    requires
        rows > 0,
        rows <= 0xffff_ffff,
        has_shape(matrix_rows(*old(cov)), guesses as nat, samples as nat),
        has_shape(matrix_rows(*values), rows as nat, guesses as nat),
        has_shape(matrix_rows(*trace), rows as nat, samples as nat),
        narrow_rows(matrix_rows(*values)),
        narrow_rows(matrix_rows(*trace)),
        forall|g: int, x: int|
            0 <= g < guesses && 0 <= x < samples ==> fits(
                #[trigger] matrix_rows(*old(cov))[g][x] + sum(
                    products(column(matrix_rows(*values), g), column(matrix_rows(*trace), x)),
                ),
            ),
    ensures
        has_shape(matrix_rows(*final(cov)), guesses as nat, samples as nat),
        forall|g: int, x: int|
            0 <= g < guesses && 0 <= x < samples ==> #[trigger] matrix_rows(*final(cov))[g][x]
                == matrix_rows(*old(cov))[g][x] + sum(
                products(column(matrix_rows(*values), g), column(matrix_rows(*trace), x)),
            ),
{
    let mut column_index: usize = 0;
    while column_index < samples
        invariant
            column_index <= samples,
            rows > 0,
            rows <= 0xffff_ffff,
            has_shape(matrix_rows(*cov), guesses as nat, samples as nat),
            has_shape(matrix_rows(*old(cov)), guesses as nat, samples as nat),
            has_shape(matrix_rows(*values), rows as nat, guesses as nat),
            has_shape(matrix_rows(*trace), rows as nat, samples as nat),
            narrow_rows(matrix_rows(*values)),
            narrow_rows(matrix_rows(*trace)),
            forall|g: int, x: int|
                0 <= g < guesses && 0 <= x < samples ==> fits(
                    #[trigger] matrix_rows(*old(cov))[g][x] + sum(
                        products(column(matrix_rows(*values), g), column(matrix_rows(*trace), x)),
                    ),
                ),
            forall|g: int, x: int|
                0 <= g < guesses && 0 <= x < samples ==> #[trigger] matrix_rows(*cov)[g][x] == (if x
                    < column_index {
                    matrix_rows(*old(cov))[g][x] + sum(
                        products(column(matrix_rows(*values), g), column(matrix_rows(*trace), x)),
                    )
                } else {
                    matrix_rows(*old(cov))[g][x] as int
                }),
        decreases samples - column_index,
    {
        let mut row: usize = 0;
        while row < guesses
            invariant
                row <= guesses,
                column_index < samples,
                rows > 0,
                rows <= 0xffff_ffff,
                has_shape(matrix_rows(*cov), guesses as nat, samples as nat),
                has_shape(matrix_rows(*old(cov)), guesses as nat, samples as nat),
                has_shape(matrix_rows(*values), rows as nat, guesses as nat),
                has_shape(matrix_rows(*trace), rows as nat, samples as nat),
                narrow_rows(matrix_rows(*values)),
                narrow_rows(matrix_rows(*trace)),
                forall|g: int, x: int|
                    0 <= g < guesses && 0 <= x < samples ==> fits(
                        #[trigger] matrix_rows(*old(cov))[g][x] + sum(
                            products(
                                column(matrix_rows(*values), g),
                                column(matrix_rows(*trace), x),
                            ),
                        ),
                    ),
                forall|g: int, x: int|
                    0 <= g < guesses && 0 <= x < samples ==> #[trigger] matrix_rows(*cov)[g][x]
                        == (if x < column_index || (x == column_index && g < row) {
                        matrix_rows(*old(cov))[g][x] + sum(
                            products(
                                column(matrix_rows(*values), g),
                                column(matrix_rows(*trace), x),
                            ),
                        )
                    } else {
                        matrix_rows(*old(cov))[g][x] as int
                    }),
            decreases guesses - row,
        {
            proof {
                lemma_column_products(
                    matrix_rows(*values),
                    guesses as nat,
                    row as int,
                    matrix_rows(*trace),
                    samples as nat,
                    column_index as int,
                    rows as nat,
                );
                lemma_sum_bounds(
                    products(
                        column(matrix_rows(*values), row as int),
                        column(matrix_rows(*trace), column_index as int),
                    ),
                    0x4000_0000,
                );
                assert(rows * 0x4000_0000 <= i64::MAX);
                assert(fits(
                    matrix_rows(*old(cov))[row as int][column_index as int] + sum(
                        products(
                            column(matrix_rows(*values), row as int),
                            column(matrix_rows(*trace), column_index as int),
                        ),
                    ),
                ));
            }
            let current: i64 = matrix_get(cov, row, column_index);
            assert(current == matrix_rows(*old(cov))[row as int][column_index as int]);
            let addend: i64 = matrix_column_dot(values, row, trace, column_index);
            let ghost before = matrix_rows(*cov);
            matrix_set(cov, row, column_index, current + addend);
            assert forall|g: int, x: int| 0 <= g < guesses && 0 <= x < samples implies (
            #[trigger] matrix_rows(*cov)[g][x]) == (if x < column_index || (x == column_index && g
                < row + 1) {
                matrix_rows(*old(cov))[g][x] + sum(
                    products(column(matrix_rows(*values), g), column(matrix_rows(*trace), x)),
                )
            } else {
                matrix_rows(*old(cov))[g][x] as int
            }) by {
                assert(before[g].len() == samples);
                if g == row && x == column_index {
                } else {
                    assert(matrix_rows(*cov)[g][x] == before[g][x]);
                }
            }
            assert(has_shape(matrix_rows(*cov), guesses as nat, samples as nat)) by {
                assert forall|i: int| 0 <= i < guesses implies (#[trigger] matrix_rows(
                    *cov,
                )[i]).len() == samples by {
                    assert(before[i].len() == samples);
                }
            }
            row += 1;
        }
        column_index += 1;
    }
}

/// `m[r][x] += term[x]` for every `x`.
pub fn add_row_into(m: &mut Matrix, r: usize, term: &Vector, rows: usize, width: usize)
    requires
        r < rows,
        has_shape(matrix_rows(*old(m)), rows as nat, width as nat),
        vector_items(*term).len() == width,
        forall|x: int|
            0 <= x < width ==> fits(
                #[trigger] matrix_rows(*old(m))[r as int][x] + vector_items(*term)[x],
            ),
    ensures
        has_shape(matrix_rows(*final(m)), rows as nat, width as nat),
        forall|i: int, x: int|
            0 <= i < rows && 0 <= x < width ==> #[trigger] matrix_rows(*final(m))[i][x] == (if i
                == r {
                matrix_rows(*old(m))[i][x] + vector_items(*term)[x]
            } else {
                matrix_rows(*old(m))[i][x] as int
            }),
{
    let mut x: usize = 0;
    while x < width
        invariant
            x <= width,
            r < rows,
            has_shape(matrix_rows(*m), rows as nat, width as nat),
            has_shape(matrix_rows(*old(m)), rows as nat, width as nat),
            vector_items(*term).len() == width,
            forall|j: int|
                0 <= j < width ==> fits(
                    #[trigger] matrix_rows(*old(m))[r as int][j] + vector_items(*term)[j],
                ),
            forall|i: int, j: int|
                0 <= i < rows && 0 <= j < width ==> #[trigger] matrix_rows(*m)[i][j] == (if i == r
                    && j < x {
                    matrix_rows(*old(m))[i][j] + vector_items(*term)[j]
                } else {
                    matrix_rows(*old(m))[i][j] as int
                }),
        decreases width - x,
    {
        let ghost before = matrix_rows(*m);
        assert(before[r as int].len() == width);
        let current: i64 = matrix_get(m, r, x);
        let addend: i64 = vector_get(term, x);
        assert(current == matrix_rows(*old(m))[r as int][x as int]);
        assert(fits(matrix_rows(*old(m))[r as int][x as int] + vector_items(*term)[x as int]));
        matrix_set(m, r, x, current + addend);
        assert forall|i: int, j: int| 0 <= i < rows && 0 <= j < width implies (
        #[trigger] matrix_rows(*m)[i][j]) == (if i == r && j < x + 1 {
            matrix_rows(*old(m))[i][j] + vector_items(*term)[j]
        } else {
            matrix_rows(*old(m))[i][j] as int
        }) by {
            assert(before[i].len() == width);
            if i == r && j == x {
            } else {
                assert(matrix_rows(*m)[i][j] == before[i][j]);
            }
        }
        assert(has_shape(matrix_rows(*m), rows as nat, width as nat)) by {
            assert forall|i: int| 0 <= i < rows implies (#[trigger] matrix_rows(*m)[i]).len()
                == width by {
                assert(before[i].len() == width);
            }
        }
        x += 1;
    }
}

/// The dot product of every column of `a` with every column of `b`:
/// element `[g][x]` of the result is that of column `x` of `a` with column
/// `g` of `b`.
pub fn column_dots(a: &Matrix, b: &Matrix, rows: usize, guesses: usize, samples: usize) -> (m:
    Matrix)
    requires
        rows > 0,
        guesses > 0,
        samples > 0,
        has_shape(matrix_rows(*a), rows as nat, samples as nat),
        has_shape(matrix_rows(*b), rows as nat, guesses as nat),
        guesses * samples * 8 <= isize::MAX,
        forall|g: int, x: int|
            0 <= g < guesses && 0 <= x < samples ==> sum(
                magnitudes(
                    #[trigger] products(column(matrix_rows(*a), x), column(matrix_rows(*b), g)),
                ),
            ) <= i64::MAX,
    ensures
        has_shape(matrix_rows(m), guesses as nat, samples as nat),
        forall|g: int, x: int|
            0 <= g < guesses && 0 <= x < samples ==> #[trigger] matrix_rows(m)[g][x] == sum(
                products(column(matrix_rows(*a), x), column(matrix_rows(*b), g)),
            ),
{
    let mut m = matrix_zeros(guesses, samples);
    let mut g: usize = 0;
    while g < guesses
        invariant
            g <= guesses,
            rows > 0,
            has_shape(matrix_rows(*a), rows as nat, samples as nat),
            has_shape(matrix_rows(*b), rows as nat, guesses as nat),
            has_shape(matrix_rows(m), guesses as nat, samples as nat),
            forall|i: int, x: int|
                0 <= i < guesses && 0 <= x < samples ==> sum(
                    magnitudes(
                        #[trigger] products(column(matrix_rows(*a), x), column(matrix_rows(*b), i)),
                    ),
                ) <= i64::MAX,
            forall|i: int, x: int|
                0 <= i < g && 0 <= x < samples ==> #[trigger] matrix_rows(m)[i][x] == sum(
                    products(column(matrix_rows(*a), x), column(matrix_rows(*b), i)),
                ),
        decreases guesses - g,
    {
        let mut x: usize = 0;
        while x < samples
            invariant
                x <= samples,
                g < guesses,
                rows > 0,
                has_shape(matrix_rows(*a), rows as nat, samples as nat),
                has_shape(matrix_rows(*b), rows as nat, guesses as nat),
                has_shape(matrix_rows(m), guesses as nat, samples as nat),
                forall|i: int, j: int|
                    0 <= i < guesses && 0 <= j < samples ==> sum(
                        magnitudes(
                            #[trigger] products(
                                column(matrix_rows(*a), j),
                                column(matrix_rows(*b), i),
                            ),
                        ),
                    ) <= i64::MAX,
                forall|i: int, j: int|
                    0 <= i < g && 0 <= j < samples ==> #[trigger] matrix_rows(m)[i][j] == sum(
                        products(column(matrix_rows(*a), j), column(matrix_rows(*b), i)),
                    ),
                forall|j: int|
                    0 <= j < x ==> #[trigger] matrix_rows(m)[g as int][j] == sum(
                        products(column(matrix_rows(*a), j), column(matrix_rows(*b), g as int)),
                    ),
            decreases samples - x,
        {
            assert(sum(
                magnitudes(
                    products(column(matrix_rows(*a), x as int), column(matrix_rows(*b), g as int)),
                ),
            ) <= i64::MAX);
            let d: i64 = matrix_column_dot(a, x, b, g);
            let ghost before = matrix_rows(m);
            assert(before[g as int].len() == samples);
            matrix_set(&mut m, g, x, d);
            assert(has_shape(matrix_rows(m), guesses as nat, samples as nat)) by {
                assert forall|i: int| 0 <= i < guesses implies (#[trigger] matrix_rows(m)[i]).len()
                    == samples by {
                    assert(before[i].len() == samples);
                }
            }
            assert forall|i: int, j: int| 0 <= i < g && 0 <= j < samples implies (
            #[trigger] matrix_rows(m)[i][j]) == before[i][j] by {}
            assert forall|j: int| 0 <= j < x implies #[trigger] matrix_rows(m)[g as int][j]
                == before[g as int][j] by {}
            x += 1;
        }
        g += 1;
    }
    m
}

/// One row per value below `n`, holding that value alone.
pub fn single_values(n: usize) -> (rows: Vec<Vec<i32>>)
    requires
        n <= i32::MAX,
    ensures
        rows@.len() == n,
        forall|b: int| 0 <= b < n ==> (#[trigger] rows@[b])@ == seq![b as i32],
{
    let mut rows: Vec<Vec<i32>> = Vec::new();
    let mut b: usize = 0;
    while b < n
        invariant
            b <= n,
            n <= i32::MAX,
            rows@.len() == b,
            forall|i: int| 0 <= i < b ==> (#[trigger] rows@[i])@ == seq![i as i32],
        decreases n - b,
    {
        let mut row: Vec<i32> = Vec::new();
        row.push(b as i32);
        assert(row@ =~= seq![b as i32]);
        rows.push(row);
        b += 1;
    }
    rows
}

} // verus!
