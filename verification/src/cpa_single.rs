//! The accumulator that takes one trace at a time.
//!
//! [`Cpa::update`] folds a trace into the running sums; [`Cpa::finalize`]
//! turns the sums into the correlation of every key guess with every sample;
//! [`Cpa::pass_guess`] reads the best guess off. Two accumulators of the same
//! dimensions can be merged, and the result is the accumulator of both sets
//! of traces together.

use crate::accumulator::Accumulator;
use crate::arrays::{vector_items, vector_zeros, Vector};
use crate::correlation::{best_guess, ratio_rows, Correlation};
use crate::error::CpaError;
use crate::history::{samples_of, valid_observation, MAX_TRACES, Observation};
use crate::leakage::{hypotheses, LeakageModel};
use crate::sequences::ints;
use crate::state::{lemma_ingest_one, lemma_merge_accumulated, lemma_within, Core};
use crate::tally::{fill_hypotheses, narrow, widen};
use vstd::prelude::*;

verus! {

/// Sizes an accumulator can be built with: both positive, and small enough
/// for the sums and the correlation matrix, of 48 bytes per entry, to be
/// allocated.
pub open spec fn valid_dimensions(size: usize, guess_range: i32) -> bool {
    &&& size > 0
    &&& guess_range > 0
    &&& size * guess_range * 48 <= isize::MAX
}

/// The state of an accumulator.
#[verifier::ext_equal]
pub struct State {
    /// Dimensions, history, sums, correlations and rank curve.
    pub core: Core,
    /// The hypotheses evaluated last.
    pub values: Seq<int>,
}

impl State {
    /// The state of a new accumulator.
    pub open spec fn empty(samples: nat, guesses: nat) -> State {
        State { core: Core::empty(samples, guesses), values: Seq::new(guesses, |g: int| 0int) }
    }

    /// All arrays have the accumulator's dimensions, and the hypotheses
    /// evaluated last are 16-bit values.
    pub open spec fn shaped(self) -> bool {
        &&& self.core.shaped()
        &&& self.values.len() == self.core.guesses
        &&& forall|g: int|
            0 <= g < self.core.guesses ==> -0x8000 <= #[trigger] self.values[g] < 0x8000
    }

    /// The state of an accumulator between two operations: every sum is that
    /// of the history, and every derived value is what its definition says.
    pub open spec fn wf(self) -> bool {
        &&& self.shaped()
        &&& self.core.wf()
    }

    /// The accumulator of the traces of `self` followed by those of `other`:
    /// `other` where `self` holds no trace and `other` holds some, else
    /// `self` with the merged core.
    pub open spec fn merge(self, other: State) -> State {
        if self.core.yields_to(other.core) {
            other
        } else {
            State { core: self.core.merge(other.core), ..self }
        }
    }

    /// After the observation `o` was folded in.
    pub open spec fn ingest(self, o: Observation) -> State {
        State { core: self.core.ingest(seq![o]), values: o.model }
    }
}

/// An incremental correlation accumulator fed one trace at a time.
pub struct Cpa<M: LeakageModel> {
    core: Accumulator<M>,
    values: Vector,
}

impl<M: LeakageModel> View for Cpa<M> {
    type V = State;

    closed spec fn view(&self) -> State {
        State { core: self.core@, values: ints(vector_items(self.values)) }
    }
}

impl<M: LeakageModel> Cpa<M> {
    /// The leakage model of the accumulator.
    pub closed spec fn model(&self) -> M {
        self.core.model()
    }

    /// The hypotheses evaluated last, as `ndarray` holds them, are 16-bit
    /// values.
    proof fn lemma_values(&self)
        requires
            self@.shaped(),
        ensures
            vector_items(self.values).len() == self@.core.guesses,
            narrow(vector_items(self.values)),
    {
        let v = self@;
        assert forall|g: int| 0 <= g < vector_items(self.values).len() implies -0x8000
            <= #[trigger] vector_items(self.values)[g] < 0x8000 by {
            assert(v.values[g] == vector_items(self.values)[g]);
        }
    }

    /// An accumulator for traces of `size` samples and `guess_range` key
    /// guesses, holding no trace. Sizes that are not positive, or too large
    /// for the sums to be allocated, are refused.
    pub fn new(size: usize, guess_range: i32, f: M) -> (r: Result<Cpa<M>, CpaError>)
        ensures
            match r {
                Ok(c) => valid_dimensions(size, guess_range) && c@ == State::empty(
                    size as nat,
                    guess_range as nat,
                ) && c@.wf() && c.model() == f,
                Err(e) => e == CpaError::ShapeMismatch && !valid_dimensions(size, guess_range),
            },
    {
        if size == 0 || guess_range <= 0 {
            return Err(CpaError::ShapeMismatch);
        }
        let guesses: usize = guess_range as usize;
        let cells: usize = match size.checked_mul(guesses) {
            Some(c) => c,
            None => {
                return Err(CpaError::ShapeMismatch);
            },
        };
        let limit: usize = isize::MAX as usize;
        if cells > limit / 48 {
            return Err(CpaError::ShapeMismatch);
        }
        assert(size * guesses * 48 <= isize::MAX);
        assert(size * guesses * 8 <= isize::MAX);
        assert(guesses * 8 <= isize::MAX) by (nonlinear_arith)
            requires
                size * guesses * 8 <= isize::MAX,
                size >= 1,
        ;
        let c = Cpa { core: Accumulator::new(size, guesses, f), values: vector_zeros(guesses) };
        proof {
            assert(c@.values =~= State::empty(size as nat, guesses as nat).values);
            assert(c@ =~~= State::empty(size as nat, guesses as nat));
        }
        Ok(c)
    }

    /// Folds one trace in: evaluates the model for every guess, adds the
    /// trace to the sums, and counts it. A trace of the wrong length is
    /// refused and changes nothing.
    pub fn update(&mut self, trace: &[i16], metadata: &[i32]) -> (r: Result<(), CpaError>)
        requires
            old(self)@.wf(),
            old(self)@.core.history.len() < MAX_TRACES,
        ensures
            final(self).model() == old(self).model(),
            match r {
                Ok(_) => trace@.len() == old(self)@.core.samples && final(self)@ == old(
                    self,
                )@.ingest(
                    Observation {
                        trace: samples_of(trace@),
                        metadata: metadata@,
                        model: hypotheses(old(self).model(), metadata@, old(self)@.core.guesses),
                    },
                ) && final(self)@.wf(),
                Err(e) => e == CpaError::ShapeMismatch && trace@.len() != old(self)@.core.samples
                    && final(self)@ == old(self)@,
            },
    {
        if trace.len() != self.core.samples() {
            return Err(CpaError::ShapeMismatch);
        }
        let ghost before = self@;
        assert(before.core.samples * 8 <= isize::MAX) by (nonlinear_arith)
            requires
                before.core.samples * before.core.guesses * 8 <= isize::MAX,
                before.core.guesses >= 1,
        ;
        let trace_tmp = widen(trace);
        let ghost o = Observation {
            trace: samples_of(trace@),
            metadata: metadata@,
            model: hypotheses(self.model(), metadata@, before.core.guesses),
        };
        assert(ints(vector_items(trace_tmp)) =~= o.trace);
        self.update_values(metadata);
        assert(self@.values =~= o.model);
        self.update_arrays(&trace_tmp);
        self.update_cov(&trace_tmp);
        proof {
            assert(valid_observation(o, before.core.samples, before.core.guesses));
        }
        let ghost batch = seq![o];
        self.core.record(1, Ghost(batch));
        proof {
            lemma_ingest_one(before.core, o);
            assert(self@ =~~= before.ingest(o));
        }
        Ok(())
    }

    /// Evaluates the model for every guess and keeps the hypotheses for the
    /// sums to come.
    pub fn update_values(&mut self, metadata: &[i32])
        requires
            old(self)@.shaped(),
        ensures
            final(self).model() == old(self).model(),
            final(self)@ == (State {
                values: hypotheses(old(self).model(), metadata@, old(self)@.core.guesses),
                ..old(self)@
            }),
            final(self)@.shaped(),
    {
        proof {
            self.lemma_values();
        }
        let guesses = self.core.guesses();
        fill_hypotheses(&mut self.values, self.core.leakage_model(), metadata, guesses);
        proof {
            assert(self@.values =~= hypotheses(
                old(self).model(),
                metadata@,
                old(self)@.core.guesses,
            ));
            assert(self@ =~~= (State {
                values: hypotheses(old(self).model(), metadata@, old(self)@.core.guesses),
                ..old(self)@
            }));
        }
    }

    /// Adds a trace to the sums of samples and of squared samples, and the
    /// hypotheses evaluated last to the sums of hypotheses and of squared
    /// hypotheses.
    pub fn update_arrays(&mut self, sample_trace: &Vector)
        requires
            old(self)@.shaped(),
            old(self)@.core.tallied(),
            old(self)@.core.history.len() < MAX_TRACES,
            vector_items(*sample_trace).len() == old(self)@.core.samples,
            narrow(vector_items(*sample_trace)),
        ensures
            final(self).model() == old(self).model(),
            final(self)@ == (State {
                core: old(self)@.core.with_arrays(
                    ints(vector_items(*sample_trace)),
                    old(self)@.values,
                    old(self)@.core.guesses as int,
                ),
                ..old(self)@
            }),
            final(self)@.shaped(),
    {
        proof {
            self.lemma_values();
            lemma_within(self@.core);
        }
        let guesses = self.core.guesses();
        self.core.tally(sample_trace, &self.values, guesses);
    }

    /// Adds, for every guess and sample, the hypothesis evaluated last times
    /// the sample to the cross sums.
    pub fn update_cov(&mut self, sample_trace: &Vector)
        requires
            old(self)@.shaped(),
            old(self)@.core.crossed(),
            old(self)@.core.history.len() < MAX_TRACES,
            vector_items(*sample_trace).len() == old(self)@.core.samples,
            narrow(vector_items(*sample_trace)),
        ensures
            final(self).model() == old(self).model(),
            final(self)@ == (State {
                core: old(self)@.core.with_cov(
                    old(self)@.values,
                    ints(vector_items(*sample_trace)),
                ),
                ..old(self)@
            }),
            final(self)@.shaped(),
    {
        proof {
            self.lemma_values();
            lemma_within(self@.core);
        }
        self.core.cross(&self.values, sample_trace);
    }

    /// Computes the correlation of every guess with every sample from the
    /// sums, and the greatest correlation of every guess. An accumulator
    /// without traces is refused and stays as it is.
    pub fn finalize(&mut self) -> (r: Result<(), CpaError>)
        requires
            old(self)@.wf(),
        ensures
            final(self).model() == old(self).model(),
            match r {
                Ok(_) => old(self)@.core.history.len() > 0 && final(self)@ == (State {
                    core: old(self)@.core.finalize(),
                    ..old(self)@
                }),
                Err(e) => e == CpaError::EmptyAccumulator && old(self)@.core.history.len() == 0
                    && final(self)@ == old(self)@,
            },
            final(self)@.wf(),
    {
        self.core.finalize()
    }

    /// Recomputes the greatest correlation of every guess from the
    /// correlation matrix.
    pub fn calculation(&mut self)
        requires
            old(self)@.core.shaped(),
        ensures
            final(self).model() == old(self).model(),
            final(self)@ == (State { core: old(self)@.core.calculate(), ..old(self)@ }),
            final(self)@.core.shaped(),
    {
        self.core.calculation();
    }

    /// Sets the number of traces between two checkpoints of the rank curve.
    pub fn success_traces(&mut self, traces_no: usize)
        ensures
            final(self).model() == old(self).model(),
            final(self)@ == (State {
                core: Core { rank_traces: traces_no as nat, ..old(self)@.core },
                ..old(self)@
            }),
    {
        self.core.success_traces(traces_no);
    }

    /// The rank curve: per guess, its greatest correlation at every
    /// checkpoint.
    pub fn pass_rank(&self) -> (rank: Vec<Vec<Correlation>>)
        ensures
            ratio_rows(rank@) == self@.core.derived.rank_slice,
    {
        self.core.pass_rank()
    }

    /// The correlation matrix of the last finalisation.
    pub fn pass_corr_array(&self) -> (corr: Vec<Vec<Correlation>>)
        ensures
            ratio_rows(corr@) == self@.core.derived.corr,
    {
        self.core.pass_corr_array()
    }

    /// The best guess of the last finalisation: the first guess whose
    /// greatest correlation is positive and unsurpassed, or guess 0 where no
    /// correlation is positive. Refused until a finalisation has succeeded.
    pub fn pass_guess(&self) -> (r: Result<i32, CpaError>)
        requires
            self@.wf(),
        ensures
            match r {
                Ok(g) => self@.core.derived.finalized && self@.core.history.len() > 0 && g as int
                    == best_guess(self@.core.derived.max_corr),
                Err(e) => e == CpaError::EmptyAccumulator && !self@.core.derived.finalized,
            },
    {
        self.core.pass_guess()
    }

    /// Records a checkpoint of the rank curve if one is due: where an
    /// interval is set and the number of traces is a positive multiple of
    /// it, finalises and appends the greatest correlation of every guess to
    /// the rank curve. Otherwise nothing changes. Called after every
    /// [`Cpa::update`], it records one column per interval.
    pub fn update_success(&mut self)
        requires
            old(self)@.wf(),
            old(self)@.core.due() ==> old(self)@.core.room_for_checkpoint(),
        ensures
            final(self).model() == old(self).model(),
            final(self)@ == (State { core: old(self)@.core.checkpoint_if_due(), ..old(self)@ }),
            final(self)@.wf(),
    {
        self.core.update_success();
    }

    /// The rank curve recorded by [`Cpa::update_success`].
    pub fn pass_succes(&self) -> (rank: Vec<Vec<Correlation>>)
        ensures
            ratio_rows(rank@) == self@.core.derived.rank_slice,
    {
        self.core.pass_succes()
    }

    /// The accumulator of the traces of `self` followed by those of `rhs`.
    /// Where `self` holds no trace and `rhs` holds some, that is `rhs` as it
    /// is, so that merging into a new accumulator changes nothing; otherwise
    /// every sum is the sum of the two and everything else is that of `self`.
    /// Accumulators of different dimensions are refused.
    pub fn merge(self, rhs: Cpa<M>) -> (r: Result<Cpa<M>, CpaError>)
        requires
            self@.wf(),
            rhs@.wf(),
            self@.core.history.len() + rhs@.core.history.len() <= MAX_TRACES,
        ensures
            match r {
                Ok(c) => self@.core.samples == rhs@.core.samples && self@.core.guesses
                    == rhs@.core.guesses && c@ == self@.merge(rhs@) && c@.wf() && c.model() == (
                if self@.core.yields_to(rhs@.core) {
                    rhs.model()
                } else {
                    self.model()
                }),
                Err(e) => e == CpaError::ShapeMismatch && !(self@.core.samples == rhs@.core.samples
                    && self@.core.guesses == rhs@.core.guesses),
            },
    {
        proof {
            lemma_within(self@.core);
            lemma_within(rhs@.core);
        }
        let yields = self.core.traces() == 0 && rhs.core.traces() > 0;
        let values = if yields {
            rhs.values
        } else {
            self.values
        };
        match self.core.merge(rhs.core) {
            Ok(core) => {
                proof {
                    lemma_merge_accumulated(self@.core, rhs@.core);
                }
                Ok(Cpa { core, values })
            },
            Err(e) => Err(e),
        }
    }

    /// Number of traces folded in.
    pub fn traces(&self) -> (n: u32)
        ensures
            n == self@.core.sums.count,
    {
        self.core.traces()
    }

    /// Whether a finalisation has succeeded.
    pub fn is_finalized(&self) -> (r: bool)
        ensures
            r == self@.core.derived.finalized,
    {
        self.core.is_finalized()
    }
}

impl<M: LeakageModel> core::ops::Add for Cpa<M> {
    type Output = Result<Cpa<M>, CpaError>;

    /// `a + b` is `a.merge(b)`.
    fn add(self, rhs: Cpa<M>) -> (r: Result<Cpa<M>, CpaError>)
        ensures
            match r {
                Ok(c) => self@.core.samples == rhs@.core.samples && self@.core.guesses
                    == rhs@.core.guesses && c@ == self@.merge(rhs@) && c@.wf() && c.model() == (
                if self@.core.yields_to(rhs@.core) {
                    rhs.model()
                } else {
                    self.model()
                }),
                Err(e) => e == CpaError::ShapeMismatch && !(self@.core.samples == rhs@.core.samples
                    && self@.core.guesses == rhs@.core.guesses),
            },
    {
        self.merge(rhs)
    }
}

/// `+` asks what [`Cpa::merge`] asks. What it gives is stated on the
/// operator itself.
impl<M: LeakageModel> vstd::std_specs::ops::AddSpecImpl for Cpa<M> {
    open spec fn obeys_add_spec() -> bool {
        false
    }

    open spec fn add_req(self, rhs: Cpa<M>) -> bool {
        &&& self@.wf()
        &&& rhs@.wf()
        &&& self@.core.history.len() + rhs@.core.history.len() <= MAX_TRACES
    }

    open spec fn add_spec(self, rhs: Cpa<M>) -> Result<Cpa<M>, CpaError> {
        arbitrary()
    }
}

} // verus!
