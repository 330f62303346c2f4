//! The accumulator that takes a patch of traces at a time.
//!
//! A patch is a number of traces, one per row, with one row of metadata
//! each. [`Cpa::update`] adds a whole patch to the running sums with column
//! sums and dot products, which gives the same sums as adding its traces one
//! by one. The patch size given to [`Cpa::new`] is the height the
//! accumulator prepares for; a patch of any other height is taken as well.
//! [`Cpa::update_success`] also records a checkpoint of the rank curve
//! whenever the number of traces reaches a multiple of the checkpoint
//! interval.

use crate::accumulator::Accumulator;
use crate::arrays::{matrix_rows, matrix_zeros, Matrix};
use crate::correlation::{best_guess, ratio_rows, Correlation};
use crate::error::CpaError;
use crate::history::{samples_of, valid_observation, MAX_TRACES, Observation};
use crate::leakage::{hypotheses, LeakageModel};
use crate::sequences::{has_shape, int_rows};
use crate::state::{
    lands, lemma_ingest_patch, lemma_merge_accumulated, lemma_schedule_step, lemma_within, Core,
};
use crate::tally::{fill_hypotheses_patch, narrow_rows, widen_patch};
use vstd::prelude::*;

verus! {

/// Sizes an accumulator can be built with: all positive, a patch no longer
/// than an accumulator can take, and everything small enough to be
/// allocated: the correlation matrix at 48 bytes per entry, the hypotheses
/// of a patch at 8.
pub open spec fn valid_dimensions(size: usize, patch: usize, guess_range: i32) -> bool {
    &&& size > 0
    &&& 0 < patch <= MAX_TRACES
    &&& guess_range > 0
    &&& size * guess_range * 48 <= isize::MAX
    &&& patch * guess_range * 8 <= isize::MAX
}

/// The samples of a patch of traces as mathematical integers.
pub open spec fn patch_samples(patch: Seq<Vec<i16>>) -> Seq<Seq<int>> {
    Seq::new(patch.len(), |r: int| samples_of(patch[r]@))
}

/// The hypotheses of a patch: for every metadata row, those of the guesses
/// below `upto`, followed by what `before` held for the other guesses.
pub open spec fn patch_hypotheses<M: LeakageModel>(
    model: M,
    metadata: Seq<Vec<i32>>,
    guesses: nat,
    upto: int,
    before: Seq<Seq<int>>,
) -> Seq<Seq<int>> {
    Seq::new(
        metadata.len(),
        |r: int|
            Seq::new(
                guesses,
                |g: int|
                    if g < upto {
                        model.hypothesis(metadata[r]@, g)
                    } else {
                        before[r][g]
                    },
            ),
    )
}

/// The observations of a patch.
pub open spec fn batch_of(
    traces: Seq<Seq<int>>,
    metadata: Seq<Vec<i32>>,
    values: Seq<Seq<int>>,
) -> Seq<Observation> {
    Seq::new(
        traces.len(),
        |r: int| Observation { trace: traces[r], metadata: metadata[r]@, model: values[r] },
    )
}

/// The hypotheses of a patch: for every metadata row, those of all guesses.
pub open spec fn patch_models<M: LeakageModel>(
    model: M,
    metadata: Seq<Vec<i32>>,
    guesses: nat,
) -> Seq<Seq<int>> {
    Seq::new(metadata.len(), |r: int| hypotheses(model, metadata[r]@, guesses))
}

/// The observations that a patch of traces and metadata stands for: row by
/// row, what a single trace with its metadata stands for.
pub open spec fn observations<M: LeakageModel>(
    model: M,
    trace_patch: Seq<Vec<i16>>,
    plaintext_patch: Seq<Vec<i32>>,
    guesses: nat,
) -> Seq<Observation> {
    batch_of(
        patch_samples(trace_patch),
        plaintext_patch,
        patch_models(model, plaintext_patch, guesses),
    )
}

/// A patch that can be folded in: at least one trace, every trace of
/// `samples` samples, as many rows of metadata as traces, and no more rows
/// than can be allocated.
pub open spec fn patch_fits(
    trace_patch: Seq<Vec<i16>>,
    plaintext_patch: Seq<Vec<i32>>,
    samples: nat,
    guesses: nat,
) -> bool {
    &&& trace_patch.len() > 0
    &&& plaintext_patch.len() == trace_patch.len()
    &&& forall|r: int|
        0 <= r < trace_patch.len() ==> (#[trigger] trace_patch[r])@.len() == samples
    &&& trace_patch.len() * samples * 8 <= isize::MAX
    &&& trace_patch.len() * guesses * 8 <= isize::MAX
}

/// The state of an accumulator.
#[verifier::ext_equal]
pub struct State {
    /// Dimensions, history, sums, correlations and rank curve.
    pub core: Core,
    /// Height of the patch the accumulator is prepared for: the patch size
    /// it was built with, then the height of the patch folded in last.
    pub chunk: nat,
    /// The hypotheses evaluated last: one row per trace of the patch.
    pub values: Seq<Seq<int>>,
}

impl State {
    /// The state of a new accumulator.
    pub open spec fn empty(samples: nat, chunk: nat, guesses: nat) -> State {
        State {
            core: Core::empty(samples, guesses),
            chunk,
            values: Seq::new(chunk, |r: int| Seq::new(guesses, |g: int| 0int)),
        }
    }

    /// All arrays have the accumulator's dimensions, a patch can be
    /// allocated, and the hypotheses evaluated last are 16-bit values.
    pub open spec fn shaped(self) -> bool {
        &&& self.core.shaped()
        &&& 0 < self.chunk <= MAX_TRACES
        &&& self.chunk * self.core.guesses * 8 <= isize::MAX
        &&& self.values.len() == self.chunk
        &&& forall|r: int|
            0 <= r < self.chunk ==> (#[trigger] self.values[r]).len() == self.core.guesses
        &&& forall|r: int, g: int|
            0 <= r < self.chunk && 0 <= g < self.core.guesses ==> -0x8000
                <= #[trigger] self.values[r][g] < 0x8000
    }

    /// The state of an accumulator between two operations: every sum is that
    /// of the history, and every derived value is what its definition says.
    pub open spec fn wf(self) -> bool {
        &&& self.shaped()
        &&& self.core.wf()
    }

    /// After a finalisation and a checkpoint where a checkpoint is due, and
    /// unchanged where none is.
    pub open spec fn checkpoint_if_due(self) -> State {
        State { core: self.core.checkpoint_if_due(), ..self }
    }

    /// The accumulator of the traces of `self` followed by those of `other`:
    /// `other` where `self` holds no trace and `other` holds some, else
    /// `self` with the merged core.
    pub open spec fn merge(self, other: State) -> State {
        if self.core.yields_to(other.core) {
            other
        } else {
            State { core: self.core.merge(other.core), ..self }
        }
    }

    /// After the observations `batch` were folded in.
    pub open spec fn ingest(self, batch: Seq<Observation>) -> State {
        State {
            core: self.core.ingest(batch),
            chunk: batch.len(),
            values: Seq::new(batch.len(), |r: int| batch[r].model),
        }
    }
}

/// An incremental correlation accumulator fed one patch of traces at a time.
pub struct Cpa<M: LeakageModel> {
    core: Accumulator<M>,
    values: Matrix,
    chunk: usize,
}

impl<M: LeakageModel> View for Cpa<M> {
    type V = State;

    closed spec fn view(&self) -> State {
        State {
            core: self.core@,
            chunk: self.chunk as nat,
            values: int_rows(matrix_rows(self.values)),
        }
    }
}

/// Whether every row of a patch has `n` samples.
pub fn each_has_length(patch: &[Vec<i16>], n: usize) -> (r: bool)
    ensures
        r == forall|i: int| 0 <= i < patch@.len() ==> (#[trigger] patch@[i])@.len() == n,
{
    let mut i: usize = 0;
    while i < patch.len()
        invariant
            i <= patch@.len(),
            forall|j: int| 0 <= j < i ==> (#[trigger] patch@[j])@.len() == n,
        decreases patch@.len() - i,
    {
        if patch[i].len() != n {
            return false;
        }
        i += 1;
    }
    true
}

impl<M: LeakageModel> Cpa<M> {
    /// The leakage model of the accumulator.
    pub closed spec fn model(&self) -> M {
        self.core.model()
    }

    /// The hypotheses evaluated last, as `ndarray` holds them, are a patch of
    /// 16-bit values.
    proof fn lemma_values(&self)
        requires
            self@.shaped(),
        ensures
            has_shape(matrix_rows(self.values), self.chunk as nat, self@.core.guesses),
            narrow_rows(matrix_rows(self.values)),
    {
        let v = self@;
        let rows = matrix_rows(self.values);
        assert forall|r: int| 0 <= r < v.chunk implies (#[trigger] rows[r]).len()
            == v.core.guesses by {
            assert(v.values[r].len() == v.core.guesses);
        }
        assert forall|r: int, g: int| 0 <= r < rows.len() && 0 <= g < rows[r].len() implies -0x8000
            <= #[trigger] rows[r][g] < 0x8000 by {
            assert(v.values[r].len() == v.core.guesses);
            assert(v.values[r][g] == rows[r][g]);
        }
    }

    /// An accumulator for patches of `patch` traces of `size` samples, and
    /// `guess_range` key guesses, holding no trace. Sizes that are not
    /// positive, or too large, are refused.
    pub fn new(size: usize, patch: usize, guess_range: i32, f: M) -> (r: Result<Cpa<M>, CpaError>)
        ensures
            match r {
                Ok(c) => valid_dimensions(size, patch, guess_range) && c@ == State::empty(
                    size as nat,
                    patch as nat,
                    guess_range as nat,
                ) && c@.wf() && c.model() == f,
                Err(e) => e == CpaError::ShapeMismatch && !valid_dimensions(
                    size,
                    patch,
                    guess_range,
                ),
            },
    {
        if size == 0 || patch == 0 || guess_range <= 0 {
            return Err(CpaError::ShapeMismatch);
        }
        if patch > 0xffff_ffff {
            return Err(CpaError::ShapeMismatch);
        }
        let guesses: usize = guess_range as usize;
        let sums_fit = match size.checked_mul(guesses) {
            Some(c) => c <= isize::MAX as usize / 48,
            None => false,
        };
        let values_fit = match patch.checked_mul(guesses) {
            Some(c) => c <= isize::MAX as usize / 8,
            None => false,
        };
        if !sums_fit || !values_fit {
            return Err(CpaError::ShapeMismatch);
        }
        let c = Cpa {
            core: Accumulator::new(size, guesses, f),
            values: matrix_zeros(patch, guesses),
            chunk: patch,
        };
        proof {
            let target = State::empty(size as nat, patch as nat, guesses as nat);
            assert(c@.values =~~= target.values);
            assert(c@ =~~= target);
        }
        Ok(c)
    }

    /// Whether `n` rows of `width` elements can be allocated.
    fn allocatable(n: usize, width: usize) -> (r: bool)
        ensures
            r == (n * width * 8 <= isize::MAX),
    {
        match n.checked_mul(width) {
            Some(c) => c <= isize::MAX as usize / 8,
            None => {
                assert(n * width * 8 > isize::MAX) by (nonlinear_arith)
                    requires
                        n * width > usize::MAX,
                        usize::MAX >= isize::MAX,
                ;
                false
            },
        }
    }

    /// Folds one patch in: evaluates the model for every trace and guess,
    /// adds the patch to the sums, and counts its traces, as folding its
    /// rows in one by one would. A patch may have any number of rows. One
    /// without rows, with a trace of the wrong length, with another number
    /// of metadata rows than traces, or too large to be allocated is refused
    /// and changes nothing.
    pub fn update(&mut self, trace_patch: &[Vec<i16>], plaintext_patch: &[Vec<i32>]) -> (r: Result<
        (),
        CpaError,
    >)
        requires
            old(self)@.wf(),
            old(self)@.core.history.len() + trace_patch@.len() <= MAX_TRACES,
        ensures
            final(self).model() == old(self).model(),
            match r {
                Ok(_) => patch_fits(
                    trace_patch@,
                    plaintext_patch@,
                    old(self)@.core.samples,
                    old(self)@.core.guesses,
                ) && final(self)@ == old(self)@.ingest(
                    observations(
                        old(self).model(),
                        trace_patch@,
                        plaintext_patch@,
                        old(self)@.core.guesses,
                    ),
                ) && final(self)@.wf(),
                Err(e) => e == CpaError::ShapeMismatch && !patch_fits(
                    trace_patch@,
                    plaintext_patch@,
                    old(self)@.core.samples,
                    old(self)@.core.guesses,
                ) && final(self)@ == old(self)@,
            },
    {
        let samples = self.core.samples();
        let guesses = self.core.guesses();
        let n = trace_patch.len();
        if n == 0 || plaintext_patch.len() != n || !each_has_length(trace_patch, samples)
            || !Self::allocatable(n, samples) || !Self::allocatable(n, guesses) {
            return Err(CpaError::ShapeMismatch);
        }
        let ghost before = self@;
        let ghost model = self.model();
        if n != self.chunk {
            self.values = matrix_zeros(n, guesses);
            self.chunk = n;
        }
        let ghost ready = self@;
        proof {
            assert forall|r: int, g: int|
                0 <= r < ready.chunk && 0 <= g < ready.core.guesses implies -0x8000
                <= #[trigger] ready.values[r][g] < 0x8000 by {
                if n != before.chunk {
                    assert(matrix_rows(self.values)[r].len() == ready.core.guesses);
                }
            }
            assert forall|r: int| 0 <= r < ready.chunk implies (#[trigger] ready.values[r]).len()
                == ready.core.guesses by {
                if n != before.chunk {
                    assert(matrix_rows(self.values)[r].len() == ready.core.guesses);
                }
            }
        }
        let trace = widen_patch(trace_patch, n, samples);
        let guess_range: i32 = guesses as i32;
        let ghost values = patch_models(model, plaintext_patch@, before.core.guesses);
        let ghost traces = patch_samples(trace_patch@);
        let ghost batch = batch_of(traces, plaintext_patch@, values);
        proof {
            lemma_within(before.core);
            assert(int_rows(matrix_rows(trace)) =~~= traces) by {
                assert forall|r: int| 0 <= r < n implies (#[trigger] int_rows(
                    matrix_rows(trace),
                )[r]) =~= traces[r] by {
                    assert(matrix_rows(trace)[r].len() == before.core.samples);
                }
            }
        }
        self.update_values(plaintext_patch, &trace, guess_range);
        proof {
            assert(self@.values =~~= values) by {
                assert forall|r: int| 0 <= r < n implies (#[trigger] self@.values[r])
                    =~= values[r] by {}
            }
        }
        self.update_key_leakages(&trace, guess_range);
        proof {
            assert forall|t: int| 0 <= t < batch.len() implies valid_observation(
                #[trigger] batch[t],
                before.core.samples,
                before.core.guesses,
            ) by {
                let o = batch[t];
                assert(matrix_rows(trace)[t].len() == before.core.samples);
                assert forall|x: int| 0 <= x < before.core.samples implies -0x8000
                    <= #[trigger] o.trace[x] < 0x8000 by {
                    assert(o.trace[x] == matrix_rows(trace)[t][x]);
                }
                assert forall|g: int| 0 <= g < before.core.guesses implies -0x8000
                    <= #[trigger] o.model[g] < 0x8000 by {
                    assert(o.model[g] == self@.values[t][g]);
                }
            }
        }
        self.core.record(n as u32, Ghost(batch));
        proof {
            lemma_ingest_patch(before.core, batch, traces, values);
            assert(self@.values =~~= before.ingest(batch).values);
            assert(self@ =~~= before.ingest(batch));
        }
        Ok(())
    }

    /// Evaluates the model for every trace of the patch and every guess
    /// below `guess_range`, and adds the dot products of the hypotheses with
    /// the samples to the cross sums.
    pub fn update_values(&mut self, metadata: &[Vec<i32>], trace: &Matrix, guess_range: i32)
        requires
            old(self)@.shaped(),
            old(self)@.core.crossed(),
            old(self)@.core.history.len() + old(self)@.chunk <= MAX_TRACES,
            metadata@.len() == old(self)@.chunk,
            has_shape(matrix_rows(*trace), old(self)@.chunk, old(self)@.core.samples),
            narrow_rows(matrix_rows(*trace)),
            0 <= guess_range <= old(self)@.core.guesses,
        ensures
            final(self).model() == old(self).model(),
            final(self)@ == (State {
                values: patch_hypotheses(
                    old(self).model(),
                    metadata@,
                    old(self)@.core.guesses,
                    guess_range as int,
                    old(self)@.values,
                ),
                core: old(self)@.core.with_patch_cov(
                    patch_hypotheses(
                        old(self).model(),
                        metadata@,
                        old(self)@.core.guesses,
                        guess_range as int,
                        old(self)@.values,
                    ),
                    int_rows(matrix_rows(*trace)),
                ),
                ..old(self)@
            }),
            final(self)@.shaped(),
    {
        proof {
            self.lemma_values();
            lemma_within(self@.core);
        }
        let guesses = self.core.guesses();
        fill_hypotheses_patch(
            &mut self.values,
            self.core.leakage_model(),
            metadata,
            self.chunk,
            guesses,
            guess_range as usize,
        );
        let ghost values = patch_hypotheses(
            old(self).model(),
            metadata@,
            old(self)@.core.guesses,
            guess_range as int,
            old(self)@.values,
        );
        proof {
            assert(self@.values =~~= values) by {
                assert forall|r: int| 0 <= r < self@.chunk implies (#[trigger] self@.values[r])
                    =~= values[r] by {
                    assert(matrix_rows(self.values)[r].len() == self@.core.guesses);
                    assert(matrix_rows(old(self).values)[r].len() == self@.core.guesses);
                    assert(old(self)@.values[r].len() == self@.core.guesses);
                }
            }
        }
        self.core.cross_patch(&self.values, trace, self.chunk);
        proof {
            assert(self@ =~~= (State {
                values,
                core: old(self)@.core.with_patch_cov(values, int_rows(matrix_rows(*trace))),
                ..old(self)@
            }));
            assert forall|r: int, g: int|
                0 <= r < self@.chunk && 0 <= g < self@.core.guesses implies -0x8000
                <= #[trigger] self@.values[r][g] < 0x8000 by {
                assert(matrix_rows(self.values)[r].len() == self@.core.guesses);
                assert(self@.values[r][g] == matrix_rows(self.values)[r][g]);
            }
        }
    }

    /// Adds the columns of a patch of traces to the sums of samples and of
    /// squared samples, and the columns below `guess_range` of the
    /// hypotheses evaluated last to the sums of hypotheses and of squared
    /// hypotheses.
    pub fn update_key_leakages(&mut self, trace: &Matrix, guess_range: i32)
        requires
            old(self)@.shaped(),
            old(self)@.core.tallied(),
            old(self)@.core.history.len() + old(self)@.chunk <= MAX_TRACES,
            has_shape(matrix_rows(*trace), old(self)@.chunk, old(self)@.core.samples),
            narrow_rows(matrix_rows(*trace)),
            0 <= guess_range <= old(self)@.core.guesses,
        ensures
            final(self).model() == old(self).model(),
            final(self)@ == (State {
                core: old(self)@.core.with_patch_arrays(
                    int_rows(matrix_rows(*trace)),
                    old(self)@.values,
                    guess_range as int,
                ),
                ..old(self)@
            }),
            final(self)@.shaped(),
    {
        proof {
            self.lemma_values();
            lemma_within(self@.core);
        }
        self.core.tally_patch(trace, &self.values, self.chunk, guess_range as usize);
    }

    /// Folds one patch in as [`Cpa::update`] does and then, where an interval
    /// is set and the number of traces is a multiple of it, finalises and
    /// appends the greatest correlation of every guess to the rank curve.
    /// Where the number of traces is no such multiple the rank curve stays
    /// as it is.
    pub fn update_success(
        &mut self,
        trace_patch: &[Vec<i16>],
        plaintext_patch: &[Vec<i32>],
    ) -> (r: Result<(), CpaError>)
        requires
            old(self)@.wf(),
            old(self)@.core.rank_traces > 0 ==> old(self)@.core.room_for_checkpoint(),
            old(self)@.core.history.len() + trace_patch@.len() <= MAX_TRACES,
        ensures
            final(self).model() == old(self).model(),
            match r {
                Ok(_) => patch_fits(
                    trace_patch@,
                    plaintext_patch@,
                    old(self)@.core.samples,
                    old(self)@.core.guesses,
                ) && final(self)@ == old(self)@.ingest(
                    observations(
                        old(self).model(),
                        trace_patch@,
                        plaintext_patch@,
                        old(self)@.core.guesses,
                    ),
                ).checkpoint_if_due() && final(self)@.wf(),
                Err(e) => e == CpaError::ShapeMismatch && !patch_fits(
                    trace_patch@,
                    plaintext_patch@,
                    old(self)@.core.samples,
                    old(self)@.core.guesses,
                ) && final(self)@ == old(self)@,
            },
            old(self)@.core.on_schedule() && lands(
                old(self)@.core.history.len() as int,
                trace_patch@.len() as int,
                old(self)@.core.rank_traces as int,
            ) ==> final(self)@.core.on_schedule(),
    {
        match self.update(trace_patch, plaintext_patch) {
            Ok(_) => {},
            Err(e) => {
                return Err(e);
            },
        }
        let ghost fed = self@;
        self.core.update_success();
        proof {
            if old(self)@.core.on_schedule() && lands(
                old(self)@.core.history.len() as int,
                trace_patch@.len() as int,
                old(self)@.core.rank_traces as int,
            ) {
                assert(fed.core.history.take(old(self)@.core.history.len() as int)
                    =~= old(self)@.core.history);
                lemma_schedule_step(old(self)@.core, fed.core);
            }
        }
        Ok(())
    }

    /// Computes the correlation of every guess with every sample from the
    /// sums, and the greatest correlation of every guess. An accumulator
    /// without traces is refused and stays as it is.
    pub fn finalize(&mut self) -> (r: Result<(), CpaError>)
        requires
            old(self)@.wf(),
        ensures
            final(self).model() == old(self).model(),
            match r {
                Ok(_) => old(self)@.core.history.len() > 0 && final(self)@ == (State {
                    core: old(self)@.core.finalize(),
                    ..old(self)@
                }),
                Err(e) => e == CpaError::EmptyAccumulator && old(self)@.core.history.len() == 0
                    && final(self)@ == old(self)@,
            },
            final(self)@.wf(),
    {
        self.core.finalize()
    }

    /// Recomputes the greatest correlation of every guess from the
    /// correlation matrix.
    pub fn calculation(&mut self)
        requires
            old(self)@.core.shaped(),
        ensures
            final(self).model() == old(self).model(),
            final(self)@ == (State { core: old(self)@.core.calculate(), ..old(self)@ }),
            final(self)@.core.shaped(),
    {
        self.core.calculation();
    }

    /// Sets the number of traces between two checkpoints of the rank curve.
    pub fn success_traces(&mut self, traces_no: usize)
        ensures
            final(self).model() == old(self).model(),
            final(self)@ == (State {
                core: Core { rank_traces: traces_no as nat, ..old(self)@.core },
                ..old(self)@
            }),
    {
        self.core.success_traces(traces_no);
    }

    /// The rank curve: per guess, its greatest correlation at every
    /// checkpoint.
    pub fn pass_rank(&self) -> (rank: Vec<Vec<Correlation>>)
        ensures
            ratio_rows(rank@) == self@.core.derived.rank_slice,
    {
        self.core.pass_rank()
    }

    /// The correlation matrix of the last finalisation.
    pub fn pass_corr_array(&self) -> (corr: Vec<Vec<Correlation>>)
        ensures
            ratio_rows(corr@) == self@.core.derived.corr,
    {
        self.core.pass_corr_array()
    }

    /// The best guess of the last finalisation: the first guess whose
    /// greatest correlation is positive and unsurpassed, or guess 0 where no
    /// correlation is positive. Refused until a finalisation has succeeded.
    pub fn pass_guess(&self) -> (r: Result<i32, CpaError>)
        requires
            self@.wf(),
        ensures
            match r {
                Ok(g) => self@.core.derived.finalized && self@.core.history.len() > 0 && g as int
                    == best_guess(self@.core.derived.max_corr),
                Err(e) => e == CpaError::EmptyAccumulator && !self@.core.derived.finalized,
            },
    {
        self.core.pass_guess()
    }

    /// The accumulator of the traces of `self` followed by those of `rhs`.
    /// Where `self` holds no trace and `rhs` holds some, that is `rhs` as it
    /// is, so that merging into a new accumulator changes nothing; otherwise
    /// every sum is the sum of the two and everything else is that of `self`.
    /// Accumulators of different dimensions are refused.
    pub fn merge(self, rhs: Cpa<M>) -> (r: Result<Cpa<M>, CpaError>)
        requires
            self@.wf(),
            rhs@.wf(),
            self@.core.history.len() + rhs@.core.history.len() <= MAX_TRACES,
        ensures
            match r {
                Ok(c) => self@.core.samples == rhs@.core.samples && self@.core.guesses
                    == rhs@.core.guesses && c@ == self@.merge(rhs@) && c@.wf() && c.model() == (
                if self@.core.yields_to(rhs@.core) {
                    rhs.model()
                } else {
                    self.model()
                }),
                Err(e) => e == CpaError::ShapeMismatch && !(self@.core.samples == rhs@.core.samples
                    && self@.core.guesses == rhs@.core.guesses),
            },
    {
        proof {
            lemma_within(self@.core);
            lemma_within(rhs@.core);
        }
        let yields = self.core.traces() == 0 && rhs.core.traces() > 0;
        let values = if yields {
            rhs.values
        } else {
            self.values
        };
        let chunk = if yields {
            rhs.chunk
        } else {
            self.chunk
        };
        match self.core.merge(rhs.core) {
            Ok(core) => {
                proof {
                    lemma_merge_accumulated(self@.core, rhs@.core);
                }
                Ok(Cpa { core, values, chunk })
            },
            Err(e) => Err(e),
        }
    }

    /// Number of traces folded in.
    pub fn traces(&self) -> (n: u32)
        ensures
            n == self@.core.sums.count,
    {
        self.core.traces()
    }

    /// Whether a finalisation has succeeded.
    pub fn is_finalized(&self) -> (r: bool)
        ensures
            r == self@.core.derived.finalized,
    {
        self.core.is_finalized()
    }
}

impl<M: LeakageModel> core::ops::Add for Cpa<M> {
    type Output = Result<Cpa<M>, CpaError>;

    /// `a + b` is `a.merge(b)`.
    fn add(self, rhs: Cpa<M>) -> (r: Result<Cpa<M>, CpaError>)
        ensures
            match r {
                Ok(c) => self@.core.samples == rhs@.core.samples && self@.core.guesses
                    == rhs@.core.guesses && c@ == self@.merge(rhs@) && c@.wf() && c.model() == (
                if self@.core.yields_to(rhs@.core) {
                    rhs.model()
                } else {
                    self.model()
                }),
                Err(e) => e == CpaError::ShapeMismatch && !(self@.core.samples == rhs@.core.samples
                    && self@.core.guesses == rhs@.core.guesses),
            },
    {
        self.merge(rhs)
    }
}

/// `+` asks what [`Cpa::merge`] asks. What it gives is stated on the
/// operator itself.
impl<M: LeakageModel> vstd::std_specs::ops::AddSpecImpl for Cpa<M> {
    open spec fn obeys_add_spec() -> bool {
        false
    }

    open spec fn add_req(self, rhs: Cpa<M>) -> bool {
        &&& self@.wf()
        &&& rhs@.wf()
        &&& self@.core.history.len() + rhs@.core.history.len() <= MAX_TRACES
    }

    open spec fn add_spec(self, rhs: Cpa<M>) -> Result<Cpa<M>, CpaError> {
        arbitrary()
    }
}

} // verus!
