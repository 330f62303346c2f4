//! The accumulator at the heart of the analysis.
//!
//! An [`Accumulator`] owns the running sums of a set of traces, in `ndarray`
//! arrays, and everything derived from them. It can add one trace or a patch
//! of traces to its sums, merge with another accumulator, compute the
//! correlation matrix, and keep a rank curve. The types named `Cpa` wrap it,
//! each with its own way of feeding traces in.
//!
//! The operations that add to the sums do not count the trace; counting is a
//! step of its own. To make sure that no sum overflows, each of them asks
//! that the sums it touches are within what the traces counted so far can
//! have made them, and that one more trace (or patch) may still be counted.

use crate::arrays::{
    column, grid_beside, grid_filled, grid_rows, matrix_add, matrix_rows, matrix_zeros, products,
    sum, vector_add, vector_items, vector_zeros, Grid, Matrix, Vector,
};
use crate::correlation::{
    best_guess, column_of, column_ratios, copy_rows, grid_ratios, grid_shape, guess,
    lemma_first_maximum, maxima, maximum, ratio_rows, row_maxima, Correlation, Ratio,
};
use crate::error::CpaError;
use crate::history::{
    product_bound, valid_history, valid_observation, value_bound, MAX_TRACES, Observation, Sums,
};
use crate::leakage::LeakageModel;
use crate::sequences::{
    has_shape, int_column, int_rows, ints, lemma_column_ints, lemma_sum_bounds,
    lemma_sum_of_squares,
};
use crate::state::{Core, Derived};
use crate::tally::{
    add_column_dots_into, add_column_squares_into, add_column_sums_into, add_into, add_outer_into,
    add_squares_into, correlate, fits, lemma_column_narrow, lemma_column_products, narrow,
    narrow_rows,
};
use vstd::prelude::*;

verus! {

/// Running sums of a set of traces, with the correlations and the rank curve
/// derived from them.
pub struct Accumulator<M: LeakageModel> {
    sum_leakages: Vector,
    sig_leakages: Vector,
    sum_keys: Vector,
    sig_keys: Vector,
    len_leakages: u32,
    guess_range: usize,
    cov: Matrix,
    corr: Grid,
    max_corr: Grid,
    rank_slice: Grid,
    finalized: bool,
    leakage_func: M,
    len_samples: usize,
    rank_traces: usize,
    history: Ghost<Seq<Observation>>,
    scored: Ghost<Sums>,
    checkpoints: Ghost<Seq<Sums>>,
}

impl<M: LeakageModel> View for Accumulator<M> {
    type V = Core;

    closed spec fn view(&self) -> Core {
        Core {
            samples: self.len_samples as nat,
            guesses: self.guess_range as nat,
            history: self.history@,
            sums: Sums {
                count: self.len_leakages as int,
                sum_leakages: ints(vector_items(self.sum_leakages)),
                sig_leakages: ints(vector_items(self.sig_leakages)),
                sum_keys: ints(vector_items(self.sum_keys)),
                sig_keys: ints(vector_items(self.sig_keys)),
                cov: int_rows(matrix_rows(self.cov)),
            },
            rank_traces: self.rank_traces as nat,
            derived: Derived {
                corr: grid_ratios(grid_rows(self.corr)),
                max_corr: column_ratios(grid_rows(self.max_corr)),
                rank_slice: grid_ratios(grid_rows(self.rank_slice)),
                finalized: self.finalized,
                scored: self.scored@,
                checkpoints: self.checkpoints@,
            },
        }
    }
}

impl<M: LeakageModel> Accumulator<M> {
    /// The leakage model of the accumulator.
    pub closed spec fn model(&self) -> M {
        self.leakage_func
    }

    /// An accumulator for traces of `size` samples and `guesses` key
    /// guesses, holding no trace.
    pub fn new(size: usize, guesses: usize, f: M) -> (a: Accumulator<M>)
        requires
            size > 0,
            0 < guesses <= i32::MAX,
            size * guesses * 8 <= isize::MAX,
            size * guesses * 48 <= isize::MAX,
        ensures
            a@ == Core::empty(size as nat, guesses as nat),
            a@.wf(),
            a.model() == f,
    {
        assert(size * 8 <= isize::MAX && guesses * 8 <= isize::MAX) by (nonlinear_arith)
            requires
                size * guesses * 8 <= isize::MAX,
                size >= 1,
                guesses >= 1,
        ;
        assert(guesses * size == size * guesses) by (nonlinear_arith);
        assert(guesses * 1 * 48 <= isize::MAX) by (nonlinear_arith)
            requires
                size * guesses * 48 <= isize::MAX,
                size >= 1,
                guesses >= 1,
        ;
        assert(guesses * 0 * 48 == 0) by (nonlinear_arith);
        let a = Accumulator {
            sum_leakages: vector_zeros(size),
            sig_leakages: vector_zeros(size),
            sum_keys: vector_zeros(guesses),
            sig_keys: vector_zeros(guesses),
            len_leakages: 0,
            guess_range: guesses,
            cov: matrix_zeros(guesses, size),
            corr: grid_filled(guesses, size, Correlation::undefined()),
            max_corr: grid_filled(guesses, 1, Correlation::undefined()),
            rank_slice: grid_filled(guesses, 0, Correlation::undefined()),
            finalized: false,
            leakage_func: f,
            len_samples: size,
            rank_traces: 0,
            history: Ghost(Seq::empty()),
            scored: Ghost(Sums::of(Seq::empty(), size as nat, guesses as nat)),
            checkpoints: Ghost(Seq::empty()),
        };
        proof {
            let s = Core::empty(size as nat, guesses as nat);
            assert(a@.sums =~~= s.sums);
            assert(a@.derived.corr =~~= s.derived.corr);
            assert(a@.derived.max_corr =~= s.derived.max_corr);
            assert(a@.derived.rank_slice =~~= s.derived.rank_slice);
            assert(a@ =~~= s);
            lemma_empty_is_wf(size as nat, guesses as nat);
        }
        a
    }

    /// Samples per trace.
    pub fn samples(&self) -> (n: usize)
        ensures
            n == self@.samples,
    {
        self.len_samples
    }

    /// Number of key guesses.
    pub fn guesses(&self) -> (n: usize)
        ensures
            n == self@.guesses,
    {
        self.guess_range
    }

    /// Number of traces counted.
    pub fn traces(&self) -> (n: u32)
        ensures
            n == self@.sums.count,
    {
        self.len_leakages
    }

    /// Traces between two checkpoints of the rank curve.
    pub fn interval(&self) -> (n: usize)
        ensures
            n == self@.rank_traces,
    {
        self.rank_traces
    }

    /// The leakage model.
    pub fn leakage_model(&self) -> (m: &M)
        ensures
            *m == self.model(),
    {
        &self.leakage_func
    }

    /// Whether a finalisation has succeeded.
    pub fn is_finalized(&self) -> (r: bool)
        ensures
            r == self@.derived.finalized,
    {
        self.finalized
    }

    /// The arrays as `ndarray` holds them have the accumulator's dimensions.
    proof fn lemma_shapes(&self)
        requires
            self@.shaped(),
        ensures
            has_shape(matrix_rows(self.cov), self.guess_range as nat, self.len_samples as nat),
            vector_items(self.sum_leakages).len() == self.len_samples,
            vector_items(self.sig_leakages).len() == self.len_samples,
            vector_items(self.sum_keys).len() == self.guess_range,
            vector_items(self.sig_keys).len() == self.guess_range,
            self.len_leakages == self@.history.len(),
            self.len_samples <= isize::MAX,
            self.guess_range * self.len_samples * 48 <= isize::MAX,
            grid_shape(grid_rows(self.corr), self.guess_range as nat, self.len_samples as nat),
            grid_shape(grid_rows(self.max_corr), self.guess_range as nat, 1),
            grid_shape(
                grid_rows(self.rank_slice),
                self.guess_range as nat,
                self@.derived.checkpoints.len(),
            ),
    {
        let v = self@;
        assert(v.samples <= isize::MAX) by (nonlinear_arith)
            requires
                v.samples * v.guesses * 8 <= isize::MAX,
                v.guesses >= 1,
        ;
        assert(v.guesses * v.samples == v.samples * v.guesses) by (nonlinear_arith);
        assert forall|g: int| 0 <= g < v.guesses implies (#[trigger] grid_rows(
            self.corr,
        )[g]).len() == v.samples by {
            assert(v.derived.corr[g].len() == v.samples);
        }
        assert forall|g: int| 0 <= g < v.guesses implies (#[trigger] grid_rows(
            self.rank_slice,
        )[g]).len() == v.derived.checkpoints.len() by {
            assert(v.derived.rank_slice[g].len() == v.derived.checkpoints.len());
        }
        assert forall|g: int| 0 <= g < v.guesses implies (#[trigger] matrix_rows(
            self.cov,
        )[g]).len() == v.samples by {
            assert(v.sums.cov[g].len() == v.samples);
        }
    }

    /// Adds a trace to the sums of samples and of squared samples, and the
    /// first `upto` of `values` to the sums of hypotheses and of squared
    /// hypotheses.
    pub fn tally(&mut self, trace: &Vector, values: &Vector, upto: usize)
        requires
            old(self)@.shaped(),
            old(self)@.sums.tallies_within(old(self)@.sums.count),
            old(self)@.sums.count < MAX_TRACES,
            vector_items(*trace).len() == old(self)@.samples,
            narrow(vector_items(*trace)),
            vector_items(*values).len() == old(self)@.guesses,
            narrow(vector_items(*values)),
            upto <= old(self)@.guesses,
        ensures
            final(self).model() == old(self).model(),
            final(self)@ == old(self)@.with_arrays(
                ints(vector_items(*trace)),
                ints(vector_items(*values)),
                upto as int,
            ),
            final(self)@.shaped(),
            final(self)@.sums.tallies_within(old(self)@.sums.count + 1),
    {
        proof {
            let v = self@;
            let n = v.sums.count;
            self.lemma_shapes();
            lemma_headroom(n);
            assert forall|i: int| 0 <= i < v.samples implies fits(
                #[trigger] vector_items(self.sum_leakages)[i] + vector_items(*trace)[i],
            ) by {
                assert(v.sums.sum_leakages[i] == vector_items(self.sum_leakages)[i]);
            }
            assert forall|i: int| 0 <= i < v.samples implies fits(
                #[trigger] vector_items(self.sig_leakages)[i] + vector_items(*trace)[i]
                    * vector_items(*trace)[i],
            ) by {
                assert(v.sums.sig_leakages[i] == vector_items(self.sig_leakages)[i]);
                lemma_square(vector_items(*trace)[i] as int);
            }
            assert forall|g: int| 0 <= g < upto implies fits(
                #[trigger] vector_items(self.sum_keys)[g] + vector_items(*values)[g],
            ) by {
                assert(v.sums.sum_keys[g] == vector_items(self.sum_keys)[g]);
            }
            assert forall|g: int| 0 <= g < upto implies fits(
                #[trigger] vector_items(self.sig_keys)[g] + vector_items(*values)[g]
                    * vector_items(*values)[g],
            ) by {
                assert(v.sums.sig_keys[g] == vector_items(self.sig_keys)[g]);
                lemma_square(vector_items(*values)[g] as int);
            }
        }
        add_into(&mut self.sum_leakages, trace, self.len_samples);
        add_squares_into(&mut self.sig_leakages, trace, self.len_samples);
        add_into(&mut self.sum_keys, values, upto);
        add_squares_into(&mut self.sig_keys, values, upto);
        proof {
            let before = old(self)@;
            let n = before.sums.count;
            let target = before.with_arrays(
                ints(vector_items(*trace)),
                ints(vector_items(*values)),
                upto as int,
            );
            assert(self@.sums.sum_leakages =~= target.sums.sum_leakages);
            assert(self@.sums.sig_leakages =~= target.sums.sig_leakages);
            assert(self@.sums.sum_keys =~= target.sums.sum_keys);
            assert(self@.sums.sig_keys =~= target.sums.sig_keys);
            assert(self@.sums =~~= target.sums);
            assert(self@ =~~= target);
            lemma_step(n);
            assert forall|x: int| 0 <= x < self@.sums.sum_leakages.len() implies -(n + 1)
                * value_bound() <= #[trigger] self@.sums.sum_leakages[x] <= (n + 1)
                * value_bound() by {
                assert(-n * value_bound() <= before.sums.sum_leakages[x] <= n * value_bound());
            }
            assert forall|x: int| 0 <= x < self@.sums.sig_leakages.len() implies 0
                <= #[trigger] self@.sums.sig_leakages[x] <= (n + 1) * product_bound() by {
                assert(0 <= before.sums.sig_leakages[x] <= n * product_bound());
                lemma_square(vector_items(*trace)[x] as int);
            }
            assert forall|g: int| 0 <= g < self@.sums.sum_keys.len() implies -(n + 1)
                * value_bound() <= #[trigger] self@.sums.sum_keys[g] <= (n + 1) * value_bound() by {
                assert(-n * value_bound() <= before.sums.sum_keys[g] <= n * value_bound());
            }
            assert forall|g: int| 0 <= g < self@.sums.sig_keys.len() implies 0
                <= #[trigger] self@.sums.sig_keys[g] <= (n + 1) * product_bound() by {
                assert(0 <= before.sums.sig_keys[g] <= n * product_bound());
                lemma_square(vector_items(*values)[g] as int);
            }
        }
    }

    /// Adds, for every guess and sample, the hypothesis times the sample to
    /// the cross sums.
    pub fn cross(&mut self, values: &Vector, trace: &Vector)
        requires
            old(self)@.shaped(),
            old(self)@.sums.cov_within(old(self)@.sums.count, product_bound()),
            old(self)@.sums.count < MAX_TRACES,
            vector_items(*trace).len() == old(self)@.samples,
            narrow(vector_items(*trace)),
            vector_items(*values).len() == old(self)@.guesses,
            narrow(vector_items(*values)),
        ensures
            final(self).model() == old(self).model(),
            final(self)@ == old(self)@.with_cov(
                ints(vector_items(*values)),
                ints(vector_items(*trace)),
            ),
            final(self)@.shaped(),
            final(self)@.sums.cov_within(old(self)@.sums.count + 1, product_bound()),
    {
        proof {
            let v = self@;
            self.lemma_shapes();
            lemma_headroom(v.sums.count);
            assert forall|g: int, x: int| 0 <= g < v.guesses && 0 <= x < v.samples implies fits(
                #[trigger] matrix_rows(self.cov)[g][x] + vector_items(*values)[g] * vector_items(
                    *trace,
                )[x],
            ) by {
                assert(v.sums.cov[g].len() == v.samples);
                assert(v.sums.cov[g][x] == matrix_rows(self.cov)[g][x]);
                lemma_product(vector_items(*values)[g] as int, vector_items(*trace)[x] as int);
            }
        }
        add_outer_into(&mut self.cov, values, trace, self.guess_range, self.len_samples);
        proof {
            let before = old(self)@;
            let n = before.sums.count;
            let target = before.with_cov(ints(vector_items(*values)), ints(vector_items(*trace)));
            assert(self@.sums.cov =~~= target.sums.cov);
            assert(self@.sums =~~= target.sums);
            assert(self@ =~~= target);
            lemma_step(n);
            assert forall|g: int, x: int|
                0 <= g < self@.sums.cov.len() && 0 <= x < self@.sums.cov[g].len() implies -(n + 1)
                * product_bound() <= #[trigger] self@.sums.cov[g][x] <= (n + 1)
                * product_bound() by {
                assert(before.sums.cov[g].len() == before.samples);
                assert(-n * product_bound() <= before.sums.cov[g][x] <= n * product_bound());
                lemma_product(vector_items(*values)[g] as int, vector_items(*trace)[x] as int);
            }
        }
    }

    /// Adds the columns of a patch of traces to the sums of samples and of
    /// squared samples, and the first `upto` columns of a patch of hypotheses
    /// to the sums of hypotheses and of squared hypotheses.
    pub fn tally_patch(&mut self, trace: &Matrix, values: &Matrix, chunk: usize, upto: usize)
        requires
            old(self)@.shaped(),
            old(self)@.sums.tallies_within(old(self)@.sums.count),
            0 < chunk,
            old(self)@.sums.count + chunk <= MAX_TRACES,
            has_shape(matrix_rows(*trace), chunk as nat, old(self)@.samples),
            narrow_rows(matrix_rows(*trace)),
            has_shape(matrix_rows(*values), chunk as nat, old(self)@.guesses),
            narrow_rows(matrix_rows(*values)),
            upto <= old(self)@.guesses,
        ensures
            final(self).model() == old(self).model(),
            final(self)@ == old(self)@.with_patch_arrays(
                int_rows(matrix_rows(*trace)),
                int_rows(matrix_rows(*values)),
                upto as int,
            ),
            final(self)@.shaped(),
            final(self)@.sums.tallies_within(old(self)@.sums.count + chunk),
    {
        let ghost t = matrix_rows(*trace);
        let ghost y = matrix_rows(*values);
        proof {
            let v = self@;
            let n = v.sums.count;
            self.lemma_shapes();
            lemma_patch_room(n, chunk as int);
            assert forall|i: int| 0 <= i < v.samples implies fits(
                #[trigger] vector_items(self.sum_leakages)[i] + sum(column(t, i)),
            ) by {
                assert(v.sums.sum_leakages[i] == vector_items(self.sum_leakages)[i]);
                lemma_column_narrow(t, chunk as nat, v.samples, i);
                lemma_sum_bounds(column(t, i), 0x8000);
            }
            assert forall|i: int| 0 <= i < v.samples implies fits(
                #[trigger] vector_items(self.sig_leakages)[i] + sum(
                    products(column(t, i), column(t, i)),
                ),
            ) by {
                assert(v.sums.sig_leakages[i] == vector_items(self.sig_leakages)[i]);
                lemma_column_products(t, v.samples, i, t, v.samples, i, chunk as nat);
                lemma_sum_bounds(products(column(t, i), column(t, i)), 0x4000_0000);
            }
            assert forall|g: int| 0 <= g < upto implies fits(
                #[trigger] vector_items(self.sum_keys)[g] + sum(column(y, g)),
            ) by {
                assert(v.sums.sum_keys[g] == vector_items(self.sum_keys)[g]);
                lemma_column_narrow(y, chunk as nat, v.guesses, g);
                lemma_sum_bounds(column(y, g), 0x8000);
            }
            assert forall|g: int| 0 <= g < upto implies fits(
                #[trigger] vector_items(self.sig_keys)[g] + sum(
                    products(column(y, g), column(y, g)),
                ),
            ) by {
                assert(v.sums.sig_keys[g] == vector_items(self.sig_keys)[g]);
                lemma_column_products(y, v.guesses, g, y, v.guesses, g, chunk as nat);
                lemma_sum_bounds(products(column(y, g), column(y, g)), 0x4000_0000);
            }
        }
        add_column_sums_into(
            &mut self.sum_leakages,
            trace,
            chunk,
            self.len_samples,
            self.len_samples,
        );
        add_column_squares_into(
            &mut self.sig_leakages,
            trace,
            chunk,
            self.len_samples,
            self.len_samples,
        );
        add_column_sums_into(&mut self.sum_keys, values, chunk, self.guess_range, upto);
        add_column_squares_into(&mut self.sig_keys, values, chunk, self.guess_range, upto);
        proof {
            let before = old(self)@;
            let n = before.sums.count;
            let target = before.with_patch_arrays(int_rows(t), int_rows(y), upto as int);
            assert forall|i: int| 0 <= i < before.samples implies column(t, i) == int_column(
                int_rows(t),
                i,
            ) by {
                lemma_column_ints(t, chunk as nat, before.samples, i);
            }
            assert forall|g: int| 0 <= g < before.guesses implies column(y, g) == int_column(
                int_rows(y),
                g,
            ) by {
                lemma_column_ints(y, chunk as nat, before.guesses, g);
            }
            assert(self@.sums.sum_leakages =~= target.sums.sum_leakages);
            assert(self@.sums.sig_leakages =~= target.sums.sig_leakages);
            assert(self@.sums.sum_keys =~= target.sums.sum_keys);
            assert(self@.sums.sig_keys =~= target.sums.sig_keys);
            assert(self@.sums =~~= target.sums);
            assert(self@ =~~= target);
            lemma_patch_step(n, chunk as int);
            assert forall|x: int| 0 <= x < self@.sums.sum_leakages.len() implies -(n + chunk)
                * value_bound() <= #[trigger] self@.sums.sum_leakages[x] <= (n + chunk)
                * value_bound() by {
                assert(-n * value_bound() <= before.sums.sum_leakages[x] <= n * value_bound());
                lemma_column_narrow(t, chunk as nat, before.samples, x);
                lemma_sum_bounds(column(t, x), 0x8000);
            }
            assert forall|x: int| 0 <= x < self@.sums.sig_leakages.len() implies 0
                <= #[trigger] self@.sums.sig_leakages[x] <= (n + chunk) * product_bound() by {
                assert(0 <= before.sums.sig_leakages[x] <= n * product_bound());
                lemma_column_products(t, before.samples, x, t, before.samples, x, chunk as nat);
                lemma_sum_bounds(products(column(t, x), column(t, x)), 0x4000_0000);
                lemma_sum_of_squares(column(t, x));
            }
            assert forall|g: int| 0 <= g < self@.sums.sum_keys.len() implies -(n + chunk)
                * value_bound() <= #[trigger] self@.sums.sum_keys[g] <= (n + chunk)
                * value_bound() by {
                assert(-n * value_bound() <= before.sums.sum_keys[g] <= n * value_bound());
                lemma_column_narrow(y, chunk as nat, before.guesses, g);
                lemma_sum_bounds(column(y, g), 0x8000);
            }
            assert forall|g: int| 0 <= g < self@.sums.sig_keys.len() implies 0
                <= #[trigger] self@.sums.sig_keys[g] <= (n + chunk) * product_bound() by {
                assert(0 <= before.sums.sig_keys[g] <= n * product_bound());
                lemma_column_products(y, before.guesses, g, y, before.guesses, g, chunk as nat);
                lemma_sum_bounds(products(column(y, g), column(y, g)), 0x4000_0000);
                lemma_sum_of_squares(column(y, g));
            }
        }
    }

    /// Adds, for every guess and sample, the dot product of the guess's
    /// column of a patch of hypotheses with the sample's column of a patch of
    /// traces to the cross sums.
    pub fn cross_patch(&mut self, values: &Matrix, trace: &Matrix, chunk: usize)
        requires
            old(self)@.shaped(),
            old(self)@.sums.cov_within(old(self)@.sums.count, product_bound()),
            0 < chunk,
            old(self)@.sums.count + chunk <= MAX_TRACES,
            has_shape(matrix_rows(*trace), chunk as nat, old(self)@.samples),
            narrow_rows(matrix_rows(*trace)),
            has_shape(matrix_rows(*values), chunk as nat, old(self)@.guesses),
            narrow_rows(matrix_rows(*values)),
        ensures
            final(self).model() == old(self).model(),
            final(self)@ == old(self)@.with_patch_cov(
                int_rows(matrix_rows(*values)),
                int_rows(matrix_rows(*trace)),
            ),
            final(self)@.shaped(),
            final(self)@.sums.cov_within(old(self)@.sums.count + chunk, product_bound()),
    {
        let ghost t = matrix_rows(*trace);
        let ghost y = matrix_rows(*values);
        proof {
            let v = self@;
            let n = v.sums.count;
            self.lemma_shapes();
            lemma_patch_room(n, chunk as int);
            assert forall|g: int, x: int| 0 <= g < v.guesses && 0 <= x < v.samples implies fits(
                #[trigger] matrix_rows(self.cov)[g][x] + sum(products(column(y, g), column(t, x))),
            ) by {
                assert(v.sums.cov[g].len() == v.samples);
                assert(v.sums.cov[g][x] == matrix_rows(self.cov)[g][x]);
                lemma_column_products(y, v.guesses, g, t, v.samples, x, chunk as nat);
                lemma_sum_bounds(products(column(y, g), column(t, x)), 0x4000_0000);
            }
        }
        add_column_dots_into(
            &mut self.cov,
            values,
            trace,
            chunk,
            self.guess_range,
            self.len_samples,
        );
        proof {
            let before = old(self)@;
            let n = before.sums.count;
            let target = before.with_patch_cov(int_rows(y), int_rows(t));
            assert forall|i: int| 0 <= i < before.samples implies column(t, i) == int_column(
                int_rows(t),
                i,
            ) by {
                lemma_column_ints(t, chunk as nat, before.samples, i);
            }
            assert forall|g: int| 0 <= g < before.guesses implies column(y, g) == int_column(
                int_rows(y),
                g,
            ) by {
                lemma_column_ints(y, chunk as nat, before.guesses, g);
            }
            assert(self@.sums.cov =~~= target.sums.cov);
            assert(self@.sums =~~= target.sums);
            assert(self@ =~~= target);
            lemma_patch_step(n, chunk as int);
            assert forall|g: int, x: int|
                0 <= g < self@.sums.cov.len() && 0 <= x < self@.sums.cov[g].len() implies -(n
                + chunk) * product_bound() <= #[trigger] self@.sums.cov[g][x] <= (n + chunk)
                * product_bound() by {
                assert(before.sums.cov[g].len() == before.samples);
                assert(-n * product_bound() <= before.sums.cov[g][x] <= n * product_bound());
                lemma_column_products(y, before.guesses, g, t, before.samples, x, chunk as nat);
                lemma_sum_bounds(products(column(y, g), column(t, x)), 0x4000_0000);
            }
        }
    }

    /// Counts the traces of `batch`, whose share is already in the sums.
    pub fn record(&mut self, n: u32, Ghost(batch): Ghost<Seq<Observation>>)
        requires
            old(self)@.shaped(),
            batch.len() == n,
            old(self)@.sums.count + n <= MAX_TRACES,
            valid_history(batch, old(self)@.samples, old(self)@.guesses),
        ensures
            final(self).model() == old(self).model(),
            final(self)@ == old(self)@.counted(batch),
            final(self)@.shaped(),
    {
        proof {
            self.lemma_shapes();
        }
        self.len_leakages += n;
        self.history = Ghost(self.history@ + batch);
        proof {
            let target = old(self)@.counted(batch);
            assert(self@.sums =~~= target.sums);
            assert(self@ =~~= target);
            lemma_valid_concat(old(self)@.history, batch, self@.samples, self@.guesses);
        }
    }

    /// Computes the correlation of every guess with every sample from the
    /// sums, and the greatest correlation of every guess. An accumulator
    /// without traces is refused and stays as it is.
    pub fn finalize(&mut self) -> (r: Result<(), CpaError>)
        requires
            old(self)@.shaped(),
            old(self)@.derived.consistent(),
        ensures
            final(self).model() == old(self).model(),
            match r {
                Ok(_) => old(self)@.sums.count > 0 && final(self)@ == old(self)@.finalize(),
                Err(e) => e == CpaError::EmptyAccumulator && old(self)@.sums.count == 0
                    && final(self)@ == old(self)@,
            },
            final(self)@.shaped(),
            final(self)@.derived.consistent(),
    {
        if self.len_leakages == 0 {
            return Err(CpaError::EmptyAccumulator);
        }
        proof {
            self.lemma_shapes();
        }
        self.corr = correlate(
            self.len_leakages,
            &self.sum_leakages,
            &self.sig_leakages,
            &self.sum_keys,
            &self.sig_keys,
            &self.cov,
            self.guess_range,
            self.len_samples,
        );
        self.finalized = true;
        self.scored = Ghost(self@.sums);
        proof {
            assert(self@.derived.corr == old(self)@.sums.correlations());
        }
        self.calculation();
        proof {
            assert(self@ =~~= old(self)@.finalize());
        }
        Ok(())
    }

    /// As [`Accumulator::finalize`], with `cross` taken for the sums per
    /// guess and sample.
    pub fn finalize_with(&mut self, cross: &Matrix) -> (r: Result<(), CpaError>)
        requires
            old(self)@.shaped(),
            old(self)@.derived.consistent(),
            has_shape(matrix_rows(*cross), old(self)@.guesses, old(self)@.samples),
        ensures
            final(self).model() == old(self).model(),
            match r {
                Ok(_) => old(self)@.sums.count > 0 && final(self)@ == old(self)@.finalize_with(
                    int_rows(matrix_rows(*cross)),
                ),
                Err(e) => e == CpaError::EmptyAccumulator && old(self)@.sums.count == 0
                    && final(self)@ == old(self)@,
            },
            final(self)@.shaped(),
            final(self)@.derived.consistent(),
    {
        if self.len_leakages == 0 {
            return Err(CpaError::EmptyAccumulator);
        }
        proof {
            self.lemma_shapes();
        }
        self.corr = correlate(
            self.len_leakages,
            &self.sum_leakages,
            &self.sig_leakages,
            &self.sum_keys,
            &self.sig_keys,
            cross,
            self.guess_range,
            self.len_samples,
        );
        self.finalized = true;
        let ghost taken = Sums { cov: int_rows(matrix_rows(*cross)), ..self@.sums };
        self.scored = Ghost(taken);
        proof {
            assert(self@.derived.corr == taken.correlations());
        }
        self.calculation();
        proof {
            assert(self@ =~~= old(self)@.finalize_with(int_rows(matrix_rows(*cross))));
        }
        Ok(())
    }

    /// Recomputes the greatest correlation of every guess from the
    /// correlation matrix.
    pub fn calculation(&mut self)
        requires
            old(self)@.shaped(),
        ensures
            final(self).model() == old(self).model(),
            final(self)@ == old(self)@.calculate(),
            final(self)@.shaped(),
    {
        proof {
            self.lemma_shapes();
            let v = self@;
            assert(v.guesses * 48 <= isize::MAX) by (nonlinear_arith)
                requires
                    v.samples * v.guesses * 48 <= isize::MAX,
                    v.samples >= 1,
                    v.guesses >= 1,
            ;
        }
        self.max_corr = maxima(&self.corr, self.guess_range, self.len_samples);
        proof {
            assert(self@ =~~= old(self)@.calculate());
        }
    }

    /// Sets the number of traces between two checkpoints of the rank curve.
    pub fn success_traces(&mut self, traces_no: usize)
        ensures
            final(self).model() == old(self).model(),
            final(self)@ == (Core { rank_traces: traces_no as nat, ..old(self)@ }),
    {
        self.rank_traces = traces_no;
        proof {
            assert(self@ =~~= (Core { rank_traces: traces_no as nat, ..old(self)@ }));
        }
    }

    /// The rank curve: per guess, its greatest correlation at every
    /// checkpoint.
    pub fn pass_rank(&self) -> (rank: Vec<Vec<Correlation>>)
        ensures
            ratio_rows(rank@) == self@.derived.rank_slice,
    {
        copy_rows(&self.rank_slice)
    }

    /// The correlation matrix of the last finalisation.
    pub fn pass_corr_array(&self) -> (corr: Vec<Vec<Correlation>>)
        ensures
            ratio_rows(corr@) == self@.derived.corr,
    {
        copy_rows(&self.corr)
    }

    /// The best guess of the last finalisation: the first guess whose
    /// greatest correlation is positive and unsurpassed, or guess 0 where no
    /// correlation is positive. Refused until a finalisation has succeeded.
    pub fn pass_guess(&self) -> (r: Result<i32, CpaError>)
        requires
            self@.shaped(),
        ensures
            match r {
                Ok(g) => self@.derived.finalized && g as int == best_guess(self@.derived.max_corr),
                Err(e) => e == CpaError::EmptyAccumulator && !self@.derived.finalized,
            },
    {
        if !self.finalized {
            return Err(CpaError::EmptyAccumulator);
        }
        proof {
            self.lemma_shapes();
            lemma_first_maximum(self@.derived.max_corr);
        }
        let column = column_of(&self.max_corr, self.guess_range);
        let g: usize = guess(&column);
        Ok(g as i32)
    }

    /// Where a checkpoint is due, finalises and appends the greatest
    /// correlations to the rank curve; where none is due, does nothing. A
    /// checkpoint is due when an interval is set and the number of traces is
    /// a positive multiple of it.
    pub fn update_success(&mut self)
        requires
            old(self)@.shaped(),
            old(self)@.derived.consistent(),
            old(self)@.due() ==> old(self)@.room_for_checkpoint(),
        ensures
            final(self).model() == old(self).model(),
            final(self)@ == old(self)@.checkpoint_if_due(),
            final(self)@.shaped(),
            final(self)@.derived.consistent(),
    {
        proof {
            self.lemma_shapes();
        }
        if self.rank_traces > 0 && self.len_leakages > 0 && self.len_leakages as usize
            % self.rank_traces == 0 {
            let done = self.finalize();
            assert(done is Ok);
            self.checkpoint();
        }
    }

    /// Appends the greatest correlations of the last finalisation to the rank
    /// curve, as one more checkpoint.
    pub fn checkpoint(&mut self)
        requires
            old(self)@.shaped(),
            old(self)@.derived.consistent(),
            old(self)@.room_for_checkpoint(),
        ensures
            final(self).model() == old(self).model(),
            final(self)@ == old(self)@.checkpoint(),
            final(self)@.shaped(),
            final(self)@.derived.consistent(),
    {
        proof {
            self.lemma_shapes();
            assert(grid_rows(self.rank_slice)[0].len() == self@.derived.checkpoints.len());
            assert(grid_rows(self.max_corr)[0].len() == 1);
        }
        let rank = grid_beside(&self.rank_slice, &self.max_corr);
        self.rank_slice = rank;
        self.checkpoints = Ghost(self.checkpoints@.push(self.scored@));
        proof {
            let target = old(self)@.checkpoint();
            assert(self@.derived.rank_slice =~~= target.derived.rank_slice) by {
                assert forall|g: int| 0 <= g < self@.guesses implies (
                #[trigger] self@.derived.rank_slice[g]) =~= target.derived.rank_slice[g] by {
                    let before = grid_rows(old(self).rank_slice)[g];
                    let added = grid_rows(old(self).max_corr)[g];
                    assert(grid_rows(self.rank_slice)[g] == before + added);
                    assert(added.len() == 1);
                    assert(before.len() == old(self)@.derived.checkpoints.len());
                    assert(before + added =~= before.push(added[0]));
                }
            }
            assert(self@ =~~= target);
            let d = self@.derived;
            assert forall|g: int, k: int|
                0 <= g < d.rank_slice.len() && 0 <= k < d.checkpoints.len() implies (
            #[trigger] d.rank_slice[g][k]) == maximum(d.checkpoints[k].correlations()[g]) by {
                if k < old(self)@.derived.checkpoints.len() {
                    assert(d.rank_slice[g][k] == old(self)@.derived.rank_slice[g][k]);
                } else {
                    assert(d.rank_slice[g][k] == old(self)@.derived.max_corr[g]);
                }
            }
        }
    }

    /// The rank curve recorded by [`Accumulator::update_success`].
    pub fn pass_succes(&self) -> (rank: Vec<Vec<Correlation>>)
        ensures
            ratio_rows(rank@) == self@.derived.rank_slice,
    {
        copy_rows(&self.rank_slice)
    }

    /// The accumulator of the traces of `self` followed by those of `rhs`.
    /// Where `self` holds no trace and `rhs` holds some, that is `rhs` as it
    /// is; otherwise every sum is the sum of the two and everything else is
    /// that of `self`. Accumulators of different dimensions are refused.
    pub fn merge(self, rhs: Accumulator<M>) -> (r: Result<Accumulator<M>, CpaError>)
        requires
            self@.shaped(),
            rhs@.shaped(),
            self@.sums.tallies_within(self@.sums.count),
            rhs@.sums.tallies_within(rhs@.sums.count),
            self@.sums.cov_within(self@.sums.count, product_bound()),
            rhs@.sums.cov_within(rhs@.sums.count, product_bound()),
            self@.sums.count + rhs@.sums.count <= MAX_TRACES,
        ensures
            match r {
                Ok(c) => self@.samples == rhs@.samples && self@.guesses == rhs@.guesses && c@
                    == self@.merge(rhs@) && c@.shaped() && c.model() == (if self@.yields_to(
                    rhs@,
                ) {
                    rhs.model()
                } else {
                    self.model()
                }),
                Err(e) => e == CpaError::ShapeMismatch && !(self@.samples == rhs@.samples
                    && self@.guesses == rhs@.guesses),
            },
    {
        if self.len_samples != rhs.len_samples || self.guess_range != rhs.guess_range {
            return Err(CpaError::ShapeMismatch);
        }
        if self.len_leakages == 0 && rhs.len_leakages > 0 {
            return Ok(rhs);
        }
        let ghost a = self@;
        let ghost b = rhs@;
        let ghost joined = a.history + b.history;
        proof {
            self.lemma_shapes();
            rhs.lemma_shapes();
            lemma_merge_room(a.sums.count, b.sums.count);
            assert forall|i: int| 0 <= i < a.samples implies i64::MIN <= #[trigger] vector_items(
                self.sum_leakages,
            )[i] + vector_items(rhs.sum_leakages)[i] <= i64::MAX by {
                assert(a.sums.sum_leakages[i] == vector_items(self.sum_leakages)[i]);
                assert(b.sums.sum_leakages[i] == vector_items(rhs.sum_leakages)[i]);
            }
            assert forall|i: int| 0 <= i < a.samples implies i64::MIN <= #[trigger] vector_items(
                self.sig_leakages,
            )[i] + vector_items(rhs.sig_leakages)[i] <= i64::MAX by {
                assert(a.sums.sig_leakages[i] == vector_items(self.sig_leakages)[i]);
                assert(b.sums.sig_leakages[i] == vector_items(rhs.sig_leakages)[i]);
            }
            assert forall|g: int| 0 <= g < a.guesses implies i64::MIN <= #[trigger] vector_items(
                self.sum_keys,
            )[g] + vector_items(rhs.sum_keys)[g] <= i64::MAX by {
                assert(a.sums.sum_keys[g] == vector_items(self.sum_keys)[g]);
                assert(b.sums.sum_keys[g] == vector_items(rhs.sum_keys)[g]);
            }
            assert forall|g: int| 0 <= g < a.guesses implies i64::MIN <= #[trigger] vector_items(
                self.sig_keys,
            )[g] + vector_items(rhs.sig_keys)[g] <= i64::MAX by {
                assert(a.sums.sig_keys[g] == vector_items(self.sig_keys)[g]);
                assert(b.sums.sig_keys[g] == vector_items(rhs.sig_keys)[g]);
            }
            assert forall|g: int, x: int|
                0 <= g < matrix_rows(self.cov).len() && 0 <= x < matrix_rows(
                    self.cov,
                )[g].len() implies i64::MIN <= #[trigger] matrix_rows(self.cov)[g][x]
                + matrix_rows(rhs.cov)[g][x] <= i64::MAX by {
                assert(a.sums.cov[g].len() == a.samples);
                assert(b.sums.cov[g].len() == a.samples);
                assert(a.sums.cov[g][x] == matrix_rows(self.cov)[g][x]);
                assert(b.sums.cov[g][x] == matrix_rows(rhs.cov)[g][x]);
            }
            lemma_valid_concat(a.history, b.history, a.samples, a.guesses);
        }
        let c = Accumulator {
            sum_leakages: vector_add(self.sum_leakages, rhs.sum_leakages),
            sig_leakages: vector_add(self.sig_leakages, rhs.sig_leakages),
            sum_keys: vector_add(self.sum_keys, rhs.sum_keys),
            sig_keys: vector_add(self.sig_keys, rhs.sig_keys),
            len_leakages: self.len_leakages + rhs.len_leakages,
            guess_range: self.guess_range,
            cov: matrix_add(self.cov, rhs.cov),
            corr: self.corr,
            max_corr: self.max_corr,
            rank_slice: self.rank_slice,
            finalized: self.finalized,
            leakage_func: self.leakage_func,
            len_samples: self.len_samples,
            rank_traces: self.rank_traces,
            history: Ghost(joined),
            scored: self.scored,
            checkpoints: self.checkpoints,
        };
        proof {
            let target = a.merge(b);
            assert(c@.sums.sum_leakages =~= target.sums.sum_leakages);
            assert(c@.sums.sig_leakages =~= target.sums.sig_leakages);
            assert(c@.sums.sum_keys =~= target.sums.sum_keys);
            assert(c@.sums.sig_keys =~= target.sums.sig_keys);
            assert(c@.sums.cov =~~= target.sums.cov) by {
                assert forall|g: int| 0 <= g < a.guesses implies (#[trigger] c@.sums.cov[g])
                    =~= target.sums.cov[g] by {
                    assert(a.sums.cov[g].len() == a.samples);
                    assert(matrix_rows(c.cov)[g].len() == a.samples);
                }
            }
            assert(c@.sums =~~= target.sums);
            assert(c@ =~~= target);
        }
        Ok(c)
    }
}

/// The square of a 16-bit value.
pub proof fn lemma_square(a: int)
    requires
        -0x8000 <= a <= 0x8000,
    ensures
        0 <= a * a <= 0x4000_0000,
{
    assert(0 <= a * a <= 0x4000_0000) by (nonlinear_arith)
        requires
            -0x8000 <= a <= 0x8000,
    ;
}

/// The product of two 16-bit values.
pub proof fn lemma_product(a: int, b: int)
    requires
        -0x8000 <= a <= 0x8000,
        -0x8000 <= b <= 0x8000,
    ensures
        -0x4000_0000 <= a * b <= 0x4000_0000,
{
    assert(-0x4000_0000 <= a * b <= 0x4000_0000) by (nonlinear_arith)
        requires
            -0x8000 <= a <= 0x8000,
            -0x8000 <= b <= 0x8000,
    ;
}

/// Sums of fewer than `MAX_TRACES` bounded terms leave room for one more.
pub proof fn lemma_headroom(n: int)
    requires
        0 <= n < MAX_TRACES,
    ensures
        n * value_bound() + value_bound() <= i64::MAX,
        n * product_bound() + product_bound() <= i64::MAX,
        -n * value_bound() - value_bound() >= i64::MIN,
        -n * product_bound() - product_bound() >= i64::MIN,
{
}

/// The bound for `n + 1` terms from the bound for `n`.
pub proof fn lemma_step(n: int)
    ensures
        (n + 1) * value_bound() == n * value_bound() + value_bound(),
        (n + 1) * product_bound() == n * product_bound() + product_bound(),
        -(n + 1) * value_bound() == -n * value_bound() - value_bound(),
        -(n + 1) * product_bound() == -n * product_bound() - product_bound(),
{
}

/// Sums of `n` bounded terms leave room for `chunk` more, as long as both
/// together stay within `MAX_TRACES`.
pub proof fn lemma_patch_room(n: int, chunk: int)
    requires
        0 <= n,
        0 < chunk,
        n + chunk <= MAX_TRACES,
    ensures
        chunk <= 0xffff_ffff,
        n * value_bound() + chunk * 0x8000 <= i64::MAX,
        n * product_bound() + chunk * 0x4000_0000 <= i64::MAX,
        -n * value_bound() - chunk * 0x8000 >= i64::MIN,
        -n * product_bound() - chunk * 0x4000_0000 >= i64::MIN,
{
}

/// The bound for `n + chunk` terms from the bound for `n`.
pub proof fn lemma_patch_step(n: int, chunk: int)
    ensures
        (n + chunk) * value_bound() == n * value_bound() + chunk * 0x8000,
        (n + chunk) * product_bound() == n * product_bound() + chunk * 0x4000_0000,
        -(n + chunk) * value_bound() == -n * value_bound() - chunk * 0x8000,
        -(n + chunk) * product_bound() == -n * product_bound() - chunk * 0x4000_0000,
{
}

/// Two sums within `n` and `m` terms add up within an `i64`, as long as
/// `n + m` stays within `MAX_TRACES`.
pub proof fn lemma_merge_room(n: int, m: int)
    requires
        0 <= n,
        0 <= m,
        n + m <= MAX_TRACES,
    ensures
        n * value_bound() + m * value_bound() <= i64::MAX,
        n * product_bound() + m * product_bound() <= i64::MAX,
        -n * value_bound() - m * value_bound() >= i64::MIN,
        -n * product_bound() - m * product_bound() >= i64::MIN,
{
}

/// The state of a new accumulator is well formed.
pub proof fn lemma_empty_is_wf(samples: nat, guesses: nat)
    requires
        samples > 0,
        0 < guesses <= i32::MAX,
        samples * guesses * 8 <= isize::MAX,
        samples * guesses * 48 <= isize::MAX,
    ensures
        Core::empty(samples, guesses).wf(),
{
    let s = Core::empty(samples, guesses);
    let of = Sums::of(Seq::<Observation>::empty(), samples, guesses);
    assert(s.derived.corr =~~= of.correlations());
    assert(s.derived.max_corr =~= row_maxima(s.derived.corr)) by {
        assert forall|g: int| 0 <= g < guesses implies maximum(#[trigger] s.derived.corr[g])
            == Ratio::undefined() by {
            lemma_first_maximum(s.derived.corr[g]);
        }
    }
}

/// Two valid histories, one after the other, are a valid history.
pub proof fn lemma_valid_concat(
    a: Seq<Observation>,
    b: Seq<Observation>,
    samples: nat,
    guesses: nat,
)
    requires
        valid_history(a, samples, guesses),
        valid_history(b, samples, guesses),
    ensures
        valid_history(a + b, samples, guesses),
{
    let joined = a + b;
    assert forall|t: int| 0 <= t < joined.len() implies valid_observation(
        #[trigger] joined[t],
        samples,
        guesses,
    ) by {
        if t < a.len() {
            assert(joined[t] == a[t]);
        } else {
            assert(joined[t] == b[t - a.len()]);
        }
    }
}

} // verus!
