//! The accumulator that keeps its cross sums per partition.
//!
//! Here the leakage model reads one metadata value, the one at the target
//! position, and that value is the number of a partition. Instead of
//! multiplying every trace with the hypothesis of every guess,
//! [`Cpa::update`] adds the trace to the bucket of its value.
//! [`Cpa::finalize`] evaluates the model once per partition and guess, turns
//! the buckets into cross sums, and goes on as the other accumulators do. The
//! correlations are those of an accumulator that was fed the same traces
//! directly.

use crate::accumulator::Accumulator;
use crate::arrays::{
    column, magnitudes, matrix_add, matrix_rows, matrix_zeros, products, sum, vector_items,
    vector_zeros, Matrix, Vector,
};
use crate::correlation::{best_guess, ratio_rows, Correlation};
use crate::error::CpaError;
use crate::history::{
    lemma_total_push, bucket_sample_at, product_bound, samples_of, valid_history,
    valid_observation, value_bound, Observation, Sums, MAX_TRACES,
};
use crate::leakage::LeakageModel;
use crate::partition::{
    bucket_column, bucketed, in_bucket, lemma_bucket_column_bound, lemma_partition_bound,
    lemma_partition_concat, lemma_resolve, partition_sums, resolve, table, table_row,
};
use crate::sequences::{
    has_shape, int_column, int_rows, ints, lemma_column_ints, lemma_dot_magnitudes,
};
use crate::state::{lemma_ingest_one, lemma_merged_sums, lemma_within, Core};
use crate::tally::{
    add_row_into, column_dots, fill_hypotheses, fill_hypotheses_patch, fits, lemma_column_narrow,
    narrow, single_values, widen,
};
use vstd::prelude::*;

verus! {

/// Sizes an accumulator can be built with: all positive, a target position
/// that is not negative, and everything small enough to be allocated: the
/// correlation matrix at 48 bytes per entry, the sums per partition and the
/// table of the model at 8.
pub open spec fn valid_dimensions(
    size: usize,
    guess_range: i32,
    partitions: i32,
    target_byte: i32,
) -> bool {
    &&& size > 0
    &&& guess_range > 0
    &&& partitions > 0
    &&& target_byte >= 0
    &&& size * guess_range * 48 <= isize::MAX
    &&& partitions * size * 8 <= isize::MAX
    &&& partitions * guess_range * 8 <= isize::MAX
}

/// A matrix of `rows` rows of `width` zeros.
pub open spec fn zero_rows(rows: nat, width: nat) -> Seq<Seq<int>> {
    Seq::new(rows, |r: int| Seq::new(width, |c: int| 0int))
}

/// The state of an accumulator.
#[verifier::ext_equal]
pub struct State {
    /// Dimensions, history, sums per sample and per guess, correlations and
    /// rank curve. Its sums per guess and sample stay zero: the partition
    /// sums stand for them.
    pub core: Core,
    /// Number of partitions.
    pub partitions: nat,
    /// Position of the metadata value that the model reads.
    pub target: nat,
    /// Per partition and sample, the sum of the sample over the traces of
    /// the partition.
    pub al: Seq<Seq<int>>,
    /// The hypotheses evaluated last.
    pub values: Seq<int>,
}

impl State {
    /// The state of a new accumulator.
    pub open spec fn empty(samples: nat, guesses: nat, partitions: nat, target: nat) -> State {
        State {
            core: Core::empty(samples, guesses),
            partitions,
            target,
            al: zero_rows(partitions, samples),
            values: Seq::new(guesses, |g: int| 0int),
        }
    }

    /// All arrays have the accumulator's dimensions, the table of the model
    /// can be allocated, and the hypotheses evaluated last are 16-bit values.
    pub open spec fn shaped(self) -> bool {
        &&& self.core.shaped()
        &&& 0 < self.partitions <= i32::MAX
        &&& self.partitions * self.core.samples * 8 <= isize::MAX
        &&& self.partitions * self.core.guesses * 8 <= isize::MAX
        &&& self.target <= i32::MAX
        &&& self.al.len() == self.partitions
        &&& forall|b: int| 0 <= b < self.partitions ==> (#[trigger] self.al[b]).len() == self.core.samples
        &&& self.values.len() == self.core.guesses
        &&& forall|g: int|
            0 <= g < self.core.guesses ==> -0x8000 <= #[trigger] self.values[g] < 0x8000
    }

    /// The sums per partition are those of the history.
    pub open spec fn partitioned(self) -> bool {
        self.al == partition_sums(
            self.core.history,
            self.target as int,
            self.core.samples,
            self.partitions,
        )
    }

    /// The sums per guess and sample of the core are zero.
    pub open spec fn uncrossed(self) -> bool {
        self.core.sums.cov == zero_rows(self.core.guesses, self.core.samples)
    }

    /// The state of an accumulator with the model `model` between two
    /// operations: every observation is in a bucket, every sum is that of the
    /// history, and every derived value is what its definition says.
    pub open spec fn wf_for<M: LeakageModel>(self, model: M) -> bool {
        &&& self.shaped()
        &&& self.core.tallied()
        &&& self.uncrossed()
        &&& self.partitioned()
        &&& bucketed(
            self.core.history,
            model,
            self.target as int,
            self.partitions,
            self.core.guesses,
        )
        &&& self.core.derived.consistent()
        &&& self.core.settled()
    }

    /// Whether a trace with its metadata can be folded in: the trace has the
    /// right length, and the metadata holds a value at the target position
    /// that is the number of a partition.
    pub open spec fn accepts(self, trace: Seq<i16>, metadata: Seq<i32>) -> bool {
        &&& trace.len() == self.core.samples
        &&& self.target < metadata.len()
        &&& 0 <= metadata[self.target as int] < self.partitions
    }

    /// After `trace` was added to the bucket `bucket`.
    pub open spec fn with_partition(self, bucket: int, trace: Seq<int>) -> State {
        State {
            al: Seq::new(
                self.partitions,
                |b: int|
                    Seq::new(
                        self.core.samples,
                        |x: int|
                            if b == bucket {
                                self.al[b][x] + trace[x]
                            } else {
                                self.al[b][x]
                            },
                    ),
            ),
            ..self
        }
    }

    /// After the observation `o` was folded in.
    pub open spec fn ingest(self, o: Observation) -> State {
        let history = self.core.history + seq![o];
        State {
            core: Core {
                history,
                sums: Sums {
                    cov: self.core.sums.cov,
                    ..Sums::of(history, self.core.samples, self.core.guesses)
                },
                ..self.core
            },
            al: partition_sums(history, self.target as int, self.core.samples, self.partitions),
            values: o.model,
            ..self
        }
    }

    /// After the maxima were recomputed from the correlation matrix.
    pub open spec fn guessed(self) -> State {
        State { core: self.core.calculate(), ..self }
    }

    /// After a finalisation: the correlations are those of the history.
    pub open spec fn finalize(self) -> State {
        State {
            core: self.core.finalize_with(
                Sums::of(self.core.history, self.core.samples, self.core.guesses).cov,
            ),
            ..self
        }
    }

    /// After a finalisation and a checkpoint of the rank curve where a
    /// checkpoint is due, and unchanged where none is.
    pub open spec fn checkpoint_if_due(self) -> State {
        if self.core.due() {
            State { core: self.finalize().core.checkpoint(), ..self }
        } else {
            self
        }
    }

    /// The accumulator of the traces of `self` followed by those of `other`:
    /// `other` where `self` holds no trace and `other` holds some, else
    /// `self` with the merged core and the partition sums of both added up.
    pub open spec fn merge(self, other: State) -> State {
        if self.core.yields_to(other.core) {
            other
        } else {
            State {
                core: self.core.merge(other.core),
                al: Seq::new(
                    self.partitions,
                    |b: int|
                        Seq::new(self.core.samples, |x: int| self.al[b][x] + other.al[b][x]),
                ),
                ..self
            }
        }
    }

    /// Whether two accumulators can be merged: same dimensions, same number
    /// of partitions, same target position.
    pub open spec fn matches(self, other: State) -> bool {
        &&& self.core.samples == other.core.samples
        &&& self.core.guesses == other.core.guesses
        &&& self.partitions == other.partitions
        &&& self.target == other.target
    }
}

/// An incremental correlation accumulator that keeps its cross sums per
/// partition.
pub struct Cpa<M: LeakageModel> {
    core: Accumulator<M>,
    al: Matrix,
    values: Vector,
    target_byte: usize,
    partitions: usize,
}

impl<M: LeakageModel> View for Cpa<M> {
    type V = State;

    closed spec fn view(&self) -> State {
        State {
            core: self.core@,
            partitions: self.partitions as nat,
            target: self.target_byte as nat,
            al: int_rows(matrix_rows(self.al)),
            values: ints(vector_items(self.values)),
        }
    }
}

impl<M: LeakageModel> Cpa<M> {
    /// The leakage model of the accumulator.
    pub closed spec fn model(&self) -> M {
        self.core.model()
    }

    /// The accumulator is one between two operations.
    pub open spec fn wf(&self) -> bool {
        self@.wf_for(self.model())
    }

    /// The hypotheses evaluated last and the partition sums, as `ndarray`
    /// holds them, have the accumulator's dimensions, and the hypotheses are
    /// 16-bit values.
    proof fn lemma_values(&self)
        requires
            self@.shaped(),
        ensures
            vector_items(self.values).len() == self@.core.guesses,
            narrow(vector_items(self.values)),
            has_shape(matrix_rows(self.al), self.partitions as nat, self@.core.samples),
    {
        let v = self@;
        assert forall|g: int| 0 <= g < vector_items(self.values).len() implies -0x8000
            <= #[trigger] vector_items(self.values)[g] < 0x8000 by {
            assert(v.values[g] == vector_items(self.values)[g]);
        }
        assert forall|b: int| 0 <= b < v.partitions implies (#[trigger] matrix_rows(
            self.al,
        )[b]).len() == v.core.samples by {
            assert(v.al[b].len() == v.core.samples);
        }
    }

    /// Whether `n` rows of `width` elements can be allocated, the elements
    /// being sums of 8 bytes or correlations of 48.
    fn allocatable(n: usize, width: usize, correlations: bool) -> (r: bool)
        ensures
            r == (n * width * (if correlations {
                48int
            } else {
                8int
            }) <= isize::MAX),
    {
        let limit: usize = if correlations {
            isize::MAX as usize / 48
        } else {
            isize::MAX as usize / 8
        };
        match n.checked_mul(width) {
            Some(c) => c <= limit,
            None => {
                assert(n * width * 8 > isize::MAX && n * width * 48 > isize::MAX)
                    by (nonlinear_arith)
                    requires
                        n * width > usize::MAX,
                        usize::MAX >= isize::MAX,
                ;
                false
            },
        }
    }

    /// An accumulator for traces of `size` samples, `guess_range` key guesses
    /// and `partitions` partitions, which reads the metadata value at
    /// position `target_byte`. Sizes that are not positive, a negative
    /// position, or sizes too large to be allocated are refused.
    pub fn new(size: usize, guess_range: i32, partitions: i32, target_byte: i32, f: M) -> (r:
        Result<Cpa<M>, CpaError>)
        ensures
            match r {
                Ok(c) => valid_dimensions(size, guess_range, partitions, target_byte) && c@
                    == State::empty(
                    size as nat,
                    guess_range as nat,
                    partitions as nat,
                    target_byte as nat,
                ) && c.wf() && c.model() == f,
                Err(e) => e == CpaError::ShapeMismatch && !valid_dimensions(
                    size,
                    guess_range,
                    partitions,
                    target_byte,
                ),
            },
    {
        if size == 0 || guess_range <= 0 || partitions <= 0 || target_byte < 0 {
            return Err(CpaError::ShapeMismatch);
        }
        let guesses: usize = guess_range as usize;
        let buckets: usize = partitions as usize;
        if !Self::allocatable(size, guesses, true) || !Self::allocatable(buckets, size, false)
            || !Self::allocatable(buckets, guesses, false) {
            return Err(CpaError::ShapeMismatch);
        }
        assert(size * guesses * 8 <= isize::MAX) by (nonlinear_arith)
            requires
                size * guesses * 48 <= isize::MAX,
        ;
        assert(guesses * 8 <= isize::MAX) by (nonlinear_arith)
            requires
                buckets * guesses * 8 <= isize::MAX,
                buckets >= 1,
        ;
        let c = Cpa {
            core: Accumulator::new(size, guesses, f),
            al: matrix_zeros(buckets, size),
            values: vector_zeros(guesses),
            target_byte: target_byte as usize,
            partitions: buckets,
        };
        proof {
            let target = State::empty(
                size as nat,
                guesses as nat,
                buckets as nat,
                target_byte as nat,
            );
            assert(c@.values =~= target.values);
            assert(c@.al =~~= target.al);
            assert(c@ =~~= target);
            assert(c@.al =~~= partition_sums(
                c@.core.history,
                c@.target as int,
                c@.core.samples,
                c@.partitions,
            ));
            assert(c@.core.sums.cov =~~= zero_rows(c@.core.guesses, c@.core.samples));
        }
        Ok(c)
    }

    /// Folds one trace in: evaluates the model for the trace's metadata
    /// value, adds the trace to the sums per sample and to the bucket of the
    /// value, and counts it. A trace of the wrong length, metadata without a
    /// value at the target position, or a value that is no partition's
    /// number is refused and changes nothing.
    pub fn update(&mut self, trace: &[i16], plaintext: &[i32]) -> (r: Result<(), CpaError>)
        requires
            old(self).wf(),
            old(self)@.core.history.len() < MAX_TRACES,
        ensures
            final(self).model() == old(self).model(),
            match r {
                Ok(_) => old(self)@.accepts(trace@, plaintext@) && final(self)@ == old(self)@.ingest(
                    Observation {
                        trace: samples_of(trace@),
                        metadata: plaintext@,
                        model: table_row(
                            old(self).model(),
                            plaintext@[old(self)@.target as int] as int,
                            old(self)@.core.guesses,
                        ),
                    },
                ) && final(self).wf(),
                Err(e) => e == CpaError::ShapeMismatch && !old(self)@.accepts(trace@, plaintext@)
                    && final(self)@ == old(self)@,
            },
    {
        if trace.len() != self.core.samples() || self.target_byte >= plaintext.len() {
            return Err(CpaError::ShapeMismatch);
        }
        let value: i32 = plaintext[self.target_byte];
        if value < 0 || value as usize >= self.partitions {
            return Err(CpaError::ShapeMismatch);
        }
        let ghost before = self@;
        let ghost model = self.model();
        assert(before.core.samples * 8 <= isize::MAX) by (nonlinear_arith)
            requires
                before.core.samples * before.core.guesses * 8 <= isize::MAX,
                before.core.guesses >= 1,
        ;
        let trace_tmp = widen(trace);
        let guess_range: i32 = self.core.guesses() as i32;
        let target_key: i32 = self.target_byte as i32;
        let ghost o = Observation {
            trace: samples_of(trace@),
            metadata: plaintext@,
            model: table_row(model, value as int, before.core.guesses),
        };
        assert(ints(vector_items(trace_tmp)) =~= o.trace);
        self.gen_values(plaintext, guess_range, target_key);
        proof {
            assert(seq![plaintext@[target_key as int]] =~= seq![(value as int) as i32]);
            assert(self@.values =~= o.model);
        }
        self.go(&trace_tmp, plaintext, guess_range);
        proof {
            assert(valid_observation(o, before.core.samples, before.core.guesses));
        }
        let ghost batch = seq![o];
        self.core.record(1, Ghost(batch));
        proof {
            lemma_ingested(before, o, model);
            assert(self@.core.sums =~~= before.ingest(o).core.sums);
            assert(self@.al =~~= before.ingest(o).al);
            assert(self@ =~~= before.ingest(o));
        }
        Ok(())
    }

    /// Evaluates the model for the metadata value at position `target_key`
    /// and every guess below `guess_range`, and keeps the hypotheses for the
    /// sums to come.
    pub fn gen_values(&mut self, metadata: &[i32], guess_range: i32, target_key: i32)
        requires
            old(self)@.shaped(),
            0 <= guess_range <= old(self)@.core.guesses,
            0 <= target_key < metadata@.len(),
        ensures
            final(self).model() == old(self).model(),
            final(self)@ == (State {
                values: Seq::new(
                    old(self)@.core.guesses,
                    |g: int|
                        if g < guess_range {
                            old(self).model().hypothesis(seq![metadata@[target_key as int]], g)
                        } else {
                            old(self)@.values[g]
                        },
                ),
                ..old(self)@
            }),
            final(self)@.shaped(),
    {
        proof {
            self.lemma_values();
        }
        let mut key: Vec<i32> = Vec::new();
        key.push(metadata[target_key as usize]);
        assert(key@ =~= seq![metadata@[target_key as int]]);
        fill_hypotheses(
            &mut self.values,
            self.core.leakage_model(),
            key.as_slice(),
            guess_range as usize,
        );
        proof {
            let values = Seq::new(
                old(self)@.core.guesses,
                |g: int|
                    if g < guess_range {
                        old(self).model().hypothesis(seq![metadata@[target_key as int]], g)
                    } else {
                        old(self)@.values[g]
                    },
            );
            assert(self@.values =~= values);
            assert(self@ =~~= (State { values, ..old(self)@ }));
        }
    }

    /// Adds a trace to the sums of samples and of squared samples, the
    /// hypotheses evaluated last, for the guesses below `guess_range`, to the
    /// sums of hypotheses and of squared hypotheses, and the trace to the
    /// bucket of its metadata value.
    pub fn go(&mut self, trace: &Vector, metadata: &[i32], guess_range: i32)
        requires
            old(self)@.shaped(),
            old(self)@.core.tallied(),
            old(self)@.partitioned(),
            old(self)@.core.history.len() < MAX_TRACES,
            vector_items(*trace).len() == old(self)@.core.samples,
            narrow(vector_items(*trace)),
            0 <= guess_range <= old(self)@.core.guesses,
            old(self)@.target < metadata@.len(),
            0 <= metadata@[old(self)@.target as int] < old(self)@.partitions,
        ensures
            final(self).model() == old(self).model(),
            final(self)@ == (State {
                core: old(self)@.core.with_arrays(
                    ints(vector_items(*trace)),
                    old(self)@.values,
                    guess_range as int,
                ),
                ..old(self)@
            }).with_partition(
                metadata@[old(self)@.target as int] as int,
                ints(vector_items(*trace)),
            ),
            final(self)@.shaped(),
    {
        let partition: usize = metadata[self.target_byte] as usize;
        proof {
            let v = self@;
            self.lemma_values();
            lemma_within(v.core);
            assert forall|x: int| 0 <= x < v.core.samples implies fits(
                #[trigger] matrix_rows(self.al)[partition as int][x] + vector_items(*trace)[x],
            ) by {
                assert(v.al[partition as int].len() == v.core.samples);
                assert(v.al[partition as int][x] == matrix_rows(self.al)[partition as int][x]);
                lemma_partition_bound(
                    v.core.history,
                    v.target as int,
                    v.core.samples,
                    v.core.guesses,
                    partition as int,
                    x,
                );
                crate::accumulator::lemma_headroom(v.core.history.len() as int);
            }
        }
        self.core.tally(trace, &self.values, guess_range as usize);
        add_row_into(&mut self.al, partition, trace, self.partitions, self.core.samples());
        proof {
            let target = (State {
                core: old(self)@.core.with_arrays(
                    ints(vector_items(*trace)),
                    old(self)@.values,
                    guess_range as int,
                ),
                ..old(self)@
            }).with_partition(partition as int, ints(vector_items(*trace)));
            assert(self@.al =~~= target.al) by {
                assert forall|b: int| 0 <= b < self@.partitions implies (#[trigger] self@.al[b])
                    =~= target.al[b] by {
                    assert(matrix_rows(self.al)[b].len() == self@.core.samples);
                    assert(matrix_rows(old(self).al)[b].len() == self@.core.samples);
                }
            }
            assert(self@ =~~= target);
        }
    }

    /// Computes the correlation of every guess with every sample and the
    /// greatest correlation of every guess, and returns the correlation
    /// matrix. An accumulator without traces is refused and stays as it is.
    pub fn finalize(&mut self) -> (r: Result<Vec<Vec<Correlation>>, CpaError>)
        requires
            old(self).wf(),
        ensures
            final(self).model() == old(self).model(),
            match r {
                Ok(corr) => old(self)@.core.history.len() > 0 && final(self)@ == old(
                    self,
                )@.finalize() && ratio_rows(corr@) == Sums::of(
                    old(self)@.core.history,
                    old(self)@.core.samples,
                    old(self)@.core.guesses,
                ).correlations(),
                Err(e) => e == CpaError::EmptyAccumulator && old(self)@.core.history.len() == 0
                    && final(self)@ == old(self)@,
            },
            final(self).wf(),
    {
        if self.core.traces() == 0 {
            return Err(CpaError::EmptyAccumulator);
        }
        let ghost before = self@;
        let ghost model = self.model();
        let guesses = self.core.guesses();
        let samples = self.core.samples();
        let buckets = self.partitions;
        let rows = single_values(buckets);
        let mut p = matrix_zeros(buckets, guesses);
        fill_hypotheses_patch(
            &mut p,
            self.core.leakage_model(),
            rows.as_slice(),
            buckets,
            guesses,
            guesses,
        );
        let ghost al = matrix_rows(self.al);
        let ghost t = matrix_rows(p);
        let ghost h = before.core.history;
        proof {
            self.lemma_values();
            assert(int_rows(t) =~~= table(model, before.partitions, before.core.guesses)) by {
                assert forall|b: int| 0 <= b < before.partitions implies (#[trigger] int_rows(
                    t,
                )[b]) =~= table(model, before.partitions, before.core.guesses)[b] by {
                    assert(t[b].len() == before.core.guesses);
                }
            }
            assert(before.core.guesses * before.core.samples == before.core.samples
                * before.core.guesses) by (nonlinear_arith);
            assert forall|g: int, x: int|
                0 <= g < before.core.guesses && 0 <= x < before.core.samples implies sum(
                magnitudes(#[trigger] products(column(al, x), column(t, g))),
            ) <= i64::MAX by {
                lemma_column_narrow(t, before.partitions, before.core.guesses, g);
                lemma_column_ints(al, before.partitions, before.core.samples, x);
                lemma_bucket_column_bound(
                    h,
                    model,
                    before.target as int,
                    before.core.samples,
                    before.core.guesses,
                    before.partitions,
                    x,
                );
                assert(int_column(before.al, x) =~= bucket_column(
                    h,
                    before.target as int,
                    before.partitions,
                    x,
                ));
                lemma_dot_magnitudes(column(al, x), column(t, g), 0x8000);
                let m = sum(magnitudes(column(al, x)));
                assert(m <= h.len() * value_bound());
                assert(0x8000 * m <= i64::MAX) by (nonlinear_arith)
                    requires
                        m <= h.len() * 0x8000,
                        h.len() <= 0xffff_ffff,
                ;
            }
        }
        let cross = column_dots(&self.al, &p, buckets, guesses, samples);
        proof {
            let of = Sums::of(h, before.core.samples, before.core.guesses);
            lemma_resolve(
                h,
                model,
                before.target as int,
                before.core.samples,
                before.core.guesses,
                before.partitions,
            );
            let found = int_rows(matrix_rows(cross));
            let target = resolve(
                before.al,
                int_rows(t),
                before.core.guesses,
                before.core.samples,
            );
            assert forall|g: int| 0 <= g < before.core.guesses implies (#[trigger] found[g])
                =~= target[g] by {
                assert(matrix_rows(cross)[g].len() == before.core.samples);
                assert forall|x: int| 0 <= x < before.core.samples implies found[g][x]
                    == target[g][x] by {
                    lemma_column_ints(al, before.partitions, before.core.samples, x);
                    lemma_column_ints(t, before.partitions, before.core.guesses, g);
                    assert(found[g][x] == matrix_rows(cross)[g][x]);
                }
            }
            assert(found =~~= target);
            assert(found == of.cov);
        }
        match self.core.finalize_with(&cross) {
            Ok(_) => {},
            Err(e) => {
                return Err(e);
            },
        }
        proof {
            let of = Sums::of(before.core.history, before.core.samples, before.core.guesses);
            assert(self@.core.derived =~~= before.finalize().core.derived);
            assert(self@ =~~= before.finalize());
            assert((Sums { cov: of.cov, ..before.core.sums }) =~~= of);
        }
        Ok(self.core.pass_corr_array())
    }

    /// Recomputes the greatest correlation of every guess from the
    /// correlation matrix; [`Cpa::pass_guess`] reads the guess off them.
    pub fn find_guess(&mut self)
        requires
            old(self)@.core.shaped(),
        ensures
            final(self).model() == old(self).model(),
            final(self)@ == old(self)@.guessed(),
            final(self)@.core.shaped(),
    {
        self.core.calculation();
    }

    /// Sets the number of traces between two checkpoints of the rank curve.
    pub fn success_traces(&mut self, traces_no: usize)
        ensures
            final(self).model() == old(self).model(),
            final(self)@ == (State {
                core: Core { rank_traces: traces_no as nat, ..old(self)@.core },
                ..old(self)@
            }),
    {
        self.core.success_traces(traces_no);
    }

    /// Records a checkpoint of the rank curve if one is due: where an
    /// interval is set and the number of traces is a positive multiple of
    /// it, finalises and appends the greatest correlation of every guess to
    /// the rank curve. Otherwise nothing changes.
    pub fn update_success(&mut self)
        requires
            old(self).wf(),
            old(self)@.core.due() ==> old(self)@.core.room_for_checkpoint(),
        ensures
            final(self).model() == old(self).model(),
            final(self)@ == old(self)@.checkpoint_if_due(),
            final(self).wf(),
    {
        let count = self.core.traces();
        let interval = self.core.interval();
        if interval > 0 && count > 0 && count as usize % interval == 0 {
            let done = self.finalize();
            assert(done is Ok);
            self.core.checkpoint();
        }
    }

    /// The rank curve: per guess, its greatest correlation at every
    /// checkpoint.
    pub fn pass_rank(&self) -> (rank: Vec<Vec<Correlation>>)
        ensures
            ratio_rows(rank@) == self@.core.derived.rank_slice,
    {
        self.core.pass_rank()
    }

    /// The best guess of the last finalisation: the first guess whose
    /// greatest correlation is positive and unsurpassed, or guess 0 where no
    /// correlation is positive. Refused until a finalisation has succeeded.
    pub fn pass_guess(&self) -> (r: Result<i32, CpaError>)
        requires
            self.wf(),
        ensures
            match r {
                Ok(g) => self@.core.derived.finalized && self@.core.history.len() > 0 && g as int
                    == best_guess(self@.core.derived.max_corr),
                Err(e) => e == CpaError::EmptyAccumulator && !self@.core.derived.finalized,
            },
    {
        self.core.pass_guess()
    }

    /// The accumulator of the traces of `self` followed by those of `rhs`.
    /// Where `self` holds no trace and `rhs` holds some, that is `rhs` as it
    /// is, so that merging into a new accumulator changes nothing; otherwise
    /// every sum is the sum of the two and everything else is that of `self`.
    /// Both must have been built with the same model. Accumulators of
    /// different dimensions, numbers of partitions or target positions are
    /// refused.
    pub fn merge(self, rhs: Cpa<M>) -> (r: Result<Cpa<M>, CpaError>)
        requires
            self.wf(),
            rhs.wf(),
            self@.core.history.len() + rhs@.core.history.len() <= MAX_TRACES,
            table(self.model(), self@.partitions, self@.core.guesses) == table(
                rhs.model(),
                self@.partitions,
                self@.core.guesses,
            ),
        ensures
            match r {
                Ok(c) => self@.matches(rhs@) && c@ == self@.merge(rhs@) && c.wf() && c.model() == (
                if self@.core.yields_to(rhs@.core) {
                    rhs.model()
                } else {
                    self.model()
                }),
                Err(e) => e == CpaError::ShapeMismatch && !self@.matches(rhs@),
            },
    {
        if self.target_byte != rhs.target_byte || self.partitions != rhs.partitions
            || self.core.samples() != rhs.core.samples() || self.core.guesses()
            != rhs.core.guesses() {
            return Err(CpaError::ShapeMismatch);
        }
        if self.core.traces() == 0 && rhs.core.traces() > 0 {
            return Ok(rhs);
        }
        let ghost a = self@;
        let ghost b = rhs@;
        let ghost model = self.model();
        let ghost other = rhs.model();
        let ghost samples = a.core.samples;
        let ghost guesses = a.core.guesses;
        let ghost buckets = a.partitions;
        let ghost target = a.target as int;
        proof {
            self.lemma_values();
            rhs.lemma_values();
            lemma_within(a.core);
            lemma_within(b.core);
            assert(a.core.sums.cov_within(a.core.sums.count, product_bound())) by {
                assert forall|g: int, x: int|
                    0 <= g < a.core.sums.cov.len() && 0 <= x < a.core.sums.cov[g].len() implies
                    #[trigger] a.core.sums.cov[g][x] == 0 by {}
                assert(a.core.sums.count * product_bound() >= 0) by (nonlinear_arith)
                    requires
                        a.core.sums.count >= 0,
                ;
            }
            assert(b.core.sums.cov_within(b.core.sums.count, product_bound())) by {
                assert forall|g: int, x: int|
                    0 <= g < b.core.sums.cov.len() && 0 <= x < b.core.sums.cov[g].len() implies
                    #[trigger] b.core.sums.cov[g][x] == 0 by {}
                assert(b.core.sums.count * product_bound() >= 0) by (nonlinear_arith)
                    requires
                        b.core.sums.count >= 0,
                ;
            }
            assert forall|k: int, x: int|
                0 <= k < matrix_rows(self.al).len() && 0 <= x < matrix_rows(
                    self.al,
                )[k].len() implies i64::MIN <= #[trigger] matrix_rows(self.al)[k][x] + matrix_rows(
                rhs.al,
            )[k][x] <= i64::MAX by {
                assert(a.al[k].len() == samples);
                assert(b.al[k].len() == samples);
                assert(a.al[k][x] == matrix_rows(self.al)[k][x]);
                assert(b.al[k][x] == matrix_rows(rhs.al)[k][x]);
                lemma_partition_bound(a.core.history, target, samples, guesses, k, x);
                lemma_partition_bound(b.core.history, target, samples, guesses, k, x);
                crate::accumulator::lemma_merge_room(
                    a.core.history.len() as int,
                    b.core.history.len() as int,
                );
            }
        }
        let al = matrix_add(self.al, rhs.al);
        match self.core.merge(rhs.core) {
            Ok(core) => {
                let c = Cpa {
                    core,
                    al,
                    values: self.values,
                    target_byte: self.target_byte,
                    partitions: self.partitions,
                };
                proof {
                    let joined = a.core.history + b.core.history;
                    lemma_merged_sums(a.core.history, b.core.history, samples, guesses);
                    lemma_partition_concat(a.core.history, b.core.history, target, samples, buckets);
                    let plus = Sums::of(a.core.history, samples, guesses).plus(
                        Sums::of(b.core.history, samples, guesses),
                    );
                    assert(c@.core.sums.sum_leakages =~= plus.sum_leakages);
                    assert(c@.core.sums.sig_leakages =~= plus.sig_leakages);
                    assert(c@.core.sums.sum_keys =~= plus.sum_keys);
                    assert(c@.core.sums.sig_keys =~= plus.sig_keys);
                    assert(c@.core.sums.cov =~~= zero_rows(guesses, samples)) by {
                        assert forall|g: int| 0 <= g < guesses implies (
                        #[trigger] c@.core.sums.cov[g]) =~= zero_rows(guesses, samples)[g] by {
                            assert(a.core.sums.cov[g].len() == samples);
                        }
                    }
                    let merged = a.merge(b);
                    assert(c@.al =~~= merged.al) by {
                        assert forall|k: int| 0 <= k < buckets implies (#[trigger] c@.al[k])
                            =~= merged.al[k] by {
                            assert(matrix_rows(c.al)[k].len() == samples);
                            assert(a.al[k].len() == samples);
                            assert(b.al[k].len() == samples);
                        }
                    }
                    assert(c@ =~~= merged);
                    assert(c@.al =~~= partition_sums(joined, target, samples, buckets)) by {
                        assert forall|k: int| 0 <= k < buckets implies (#[trigger] c@.al[k])
                            =~= partition_sums(joined, target, samples, buckets)[k] by {
                            assert(a.al[k].len() == samples);
                            assert forall|x: int| 0 <= x < samples implies c@.al[k][x]
                                == #[trigger] partition_sums(joined, target, samples, buckets)[k][x] by {
                                assert(a.al[k][x] == partition_sums(
                                    a.core.history,
                                    target,
                                    samples,
                                    buckets,
                                )[k][x]);
                                assert(b.al[k][x] == partition_sums(
                                    b.core.history,
                                    target,
                                    samples,
                                    buckets,
                                )[k][x]);
                            }
                        }
                    }
                    assert(bucketed(joined, model, target, buckets, guesses)) by {
                        assert forall|t: int| 0 <= t < joined.len() implies in_bucket(
                            #[trigger] joined[t],
                            model,
                            target,
                            buckets,
                            guesses,
                        ) by {
                            if t < a.core.history.len() {
                                assert(joined[t] == a.core.history[t]);
                            } else {
                                let o = b.core.history[t - a.core.history.len()];
                                assert(joined[t] == o);
                                assert(in_bucket(o, other, target, buckets, guesses));
                                let k = o.metadata[target] as int;
                                assert(table(model, buckets, guesses)[k] == table(
                                    other,
                                    buckets,
                                    guesses,
                                )[k]);
                            }
                        }
                    }
                }
                Ok(c)
            },
            Err(e) => Err(e),
        }
    }

    /// Number of traces folded in.
    pub fn traces(&self) -> (n: u32)
        ensures
            n == self@.core.sums.count,
    {
        self.core.traces()
    }

    /// Whether a finalisation has succeeded.
    pub fn is_finalized(&self) -> (r: bool)
        ensures
            r == self@.core.derived.finalized,
    {
        self.core.is_finalized()
    }
}

impl<M: LeakageModel> core::ops::Add for Cpa<M> {
    type Output = Result<Cpa<M>, CpaError>;

    /// `a + b` is `a.merge(b)`.
    fn add(self, rhs: Cpa<M>) -> (r: Result<Cpa<M>, CpaError>)
        ensures
            match r {
                Ok(c) => self@.matches(rhs@) && c@ == self@.merge(rhs@) && c.wf() && c.model() == (
                if self@.core.yields_to(rhs@.core) {
                    rhs.model()
                } else {
                    self.model()
                }),
                Err(e) => e == CpaError::ShapeMismatch && !self@.matches(rhs@),
            },
    {
        self.merge(rhs)
    }
}

/// `+` asks what [`Cpa::merge`] asks. What it gives is stated on the
/// operator itself.
impl<M: LeakageModel> vstd::std_specs::ops::AddSpecImpl for Cpa<M> {
    open spec fn obeys_add_spec() -> bool {
        false
    }

    open spec fn add_req(self, rhs: Cpa<M>) -> bool {
        &&& self.wf()
        &&& rhs.wf()
        &&& self@.core.history.len() + rhs@.core.history.len() <= MAX_TRACES
        &&& table(self.model(), self@.partitions, self@.core.guesses) == table(
            rhs.model(),
            self@.partitions,
            self@.core.guesses,
        )
    }

    open spec fn add_spec(self, rhs: Cpa<M>) -> Result<Cpa<M>, CpaError> {
        arbitrary()
    }
}

/// Adding one observation's share to the sums per sample, per guess and per
/// partition, and counting it, gives the sums of the history with that
/// observation appended.
pub proof fn lemma_ingested<M: LeakageModel>(s: State, o: Observation, model: M)
    requires
        s.wf_for(model),
        s.core.history.len() < MAX_TRACES,
        valid_observation(o, s.core.samples, s.core.guesses),
        in_bucket(o, model, s.target as int, s.partitions, s.core.guesses),
    ensures
        s.core.with_arrays(o.trace, o.model, s.core.guesses as int).counted(seq![o]).sums
            == s.ingest(o).core.sums,
        (State { values: o.model, ..s }).with_partition(
            o.metadata[s.target as int] as int,
            o.trace,
        ).al == s.ingest(o).al,
        s.ingest(o).wf_for(model),
{
    let h = s.core.history;
    let samples = s.core.samples;
    let guesses = s.core.guesses;
    let buckets = s.partitions;
    let target = s.target as int;
    let k = o.metadata[target] as int;
    let left = s.core.with_arrays(o.trace, o.model, guesses as int).counted(seq![o]).sums;
    let right = s.ingest(o).core.sums;
    let plain = Core { sums: Sums::of(h, samples, guesses), ..s.core };
    lemma_ingest_one(plain, o);
    let direct = plain.ingest(seq![o]).sums;
    assert(h + seq![o] =~= h.push(o));
    assert(left.sum_leakages =~= direct.sum_leakages);
    assert(left.sig_leakages =~= direct.sig_leakages);
    assert(left.sum_keys =~= direct.sum_keys);
    assert(left.sig_keys =~= direct.sig_keys);
    assert(left =~~= right);
    let after = s.ingest(o);
    let added = (State { values: o.model, ..s }).with_partition(k, o.trace).al;
    assert forall|b: int, x: int| 0 <= b < buckets && 0 <= x < samples implies (
    #[trigger] added[b][x]) == after.al[b][x] by {
        lemma_total_push(h, o, bucket_sample_at(target, b, x));
        assert(s.al[b][x] == partition_sums(h, target, samples, buckets)[b][x]);
    }
    assert(added =~~= after.al);
    assert(bucketed(after.core.history, model, target, buckets, guesses)) by {
        assert forall|t: int| 0 <= t < after.core.history.len() implies in_bucket(
            #[trigger] after.core.history[t],
            model,
            target,
            buckets,
            guesses,
        ) by {
            if t < h.len() {
                assert(after.core.history[t] == h[t]);
            }
        }
    }
    assert(valid_history(after.core.history, samples, guesses)) by {
        assert forall|t: int| 0 <= t < after.core.history.len() implies valid_observation(
            #[trigger] after.core.history[t],
            samples,
            guesses,
        ) by {
            if t < h.len() {
                assert(after.core.history[t] == h[t]);
            }
        }
    }
}

} // verus!
