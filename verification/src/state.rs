//! The state of an accumulator as contracts see it.
//!
//! Every accumulator of this crate has the same core: dimensions, the traces
//! folded in so far, the running sums, and what has been derived from them.
//! [`Core`] describes that state; the operations on accumulators are stated as
//! functions from one `Core` to the next.

use crate::arrays::{products, sum};
use crate::correlation::{maximum, row_maxima, Ratio};
use crate::history::{
    hypothesis_at, hypothesis_square_at, lemma_sums_within, lemma_total_concat, lemma_total_push,
    product_at, product_bound, sample_at, sample_square_at, total, valid_history,
    valid_observation, MAX_TRACES, Observation, Sums,
};
use crate::sequences::int_column;
use vstd::prelude::*;

verus! {

/// The derived part of an accumulator's state: the correlation matrix of its
/// last finalisation and the rank curve recorded so far.
#[verifier::ext_equal]
pub struct Derived {
    /// Correlation of every guess (row) with every sample (column).
    pub corr: Seq<Seq<Ratio>>,
    /// Per guess, the greatest correlation of its row.
    pub max_corr: Seq<Ratio>,
    /// Per guess, its greatest correlation at every checkpoint so far.
    pub rank_slice: Seq<Seq<Ratio>>,
    /// Whether a finalisation has succeeded.
    pub finalized: bool,
    /// The sums that `corr` was computed from.
    pub scored: Sums,
    /// For every checkpoint, the sums its column was computed from.
    pub checkpoints: Seq<Sums>,
}

impl Derived {
    /// The derived state of a new accumulator: no correlation exists yet and
    /// no checkpoint has been recorded.
    pub open spec fn empty(samples: nat, guesses: nat) -> Derived {
        Derived {
            corr: Seq::new(guesses, |g: int| Seq::new(samples, |x: int| Ratio::undefined())),
            max_corr: Seq::new(guesses, |g: int| Ratio::undefined()),
            rank_slice: Seq::new(guesses, |g: int| Seq::<Ratio>::empty()),
            finalized: false,
            scored: Sums::of(Seq::empty(), samples, guesses),
            checkpoints: Seq::empty(),
        }
    }

    /// The arrays have the dimensions of the accumulator.
    pub open spec fn shaped(self, samples: nat, guesses: nat) -> bool {
        &&& self.corr.len() == guesses
        &&& forall|g: int| 0 <= g < guesses ==> (#[trigger] self.corr[g]).len() == samples
        &&& self.max_corr.len() == guesses
        &&& self.rank_slice.len() == guesses
        &&& forall|g: int|
            0 <= g < guesses ==> (#[trigger] self.rank_slice[g]).len() == self.checkpoints.len()
    }

    /// Every derived value is what its definition says: the matrix is the
    /// correlation of the scored sums, the maxima are those of its rows, and
    /// every column of the rank curve holds the maxima of its checkpoint.
    pub open spec fn consistent(self) -> bool {
        &&& self.corr == self.scored.correlations()
        &&& self.max_corr == row_maxima(self.corr)
        &&& self.finalized ==> self.scored.count > 0
        &&& forall|g: int, k: int|
            0 <= g < self.rank_slice.len() && 0 <= k < self.checkpoints.len() ==> (
            #[trigger] self.rank_slice[g][k]) == maximum(self.checkpoints[k].correlations()[g])
    }

    /// After the maxima were recomputed from the correlation matrix.
    pub open spec fn calculate(self) -> Derived {
        Derived { max_corr: row_maxima(self.corr), ..self }
    }

    /// After a finalisation on the sums `sums`.
    pub open spec fn finalize(self, sums: Sums) -> Derived {
        Derived {
            corr: sums.correlations(),
            max_corr: row_maxima(sums.correlations()),
            finalized: true,
            scored: sums,
            ..self
        }
    }

    /// After the current maxima were appended to the rank curve.
    pub open spec fn checkpoint(self) -> Derived {
        Derived {
            rank_slice: Seq::new(
                self.rank_slice.len(),
                |g: int| self.rank_slice[g].push(self.max_corr[g]),
            ),
            checkpoints: self.checkpoints.push(self.scored),
            ..self
        }
    }
}

/// The state that all accumulators share.
#[verifier::ext_equal]
pub struct Core {
    /// Samples per trace.
    pub samples: nat,
    /// Number of key guesses.
    pub guesses: nat,
    /// The traces folded in so far.
    pub history: Seq<Observation>,
    /// The running sums.
    pub sums: Sums,
    /// Traces between two checkpoints of the rank curve, as set by the
    /// caller.
    pub rank_traces: nat,
    /// Correlations and rank curve.
    pub derived: Derived,
}

impl Core {
    /// The state of a new accumulator.
    pub open spec fn empty(samples: nat, guesses: nat) -> Core {
        Core {
            samples,
            guesses,
            history: Seq::empty(),
            sums: Sums::of(Seq::empty(), samples, guesses),
            rank_traces: 0,
            derived: Derived::empty(samples, guesses),
        }
    }

    /// Dimensions are positive and allocatable, every array has them, and
    /// the history is one of valid observations, no longer than an
    /// accumulator can take.
    pub open spec fn shaped(self) -> bool {
        &&& self.samples > 0
        &&& 0 < self.guesses <= i32::MAX
        &&& self.samples * self.guesses * 8 <= isize::MAX
        &&& self.samples * self.guesses * 48 <= isize::MAX
        &&& self.sums.shaped(self.samples, self.guesses)
        &&& self.sums.count == self.history.len()
        &&& self.history.len() <= MAX_TRACES
        &&& valid_history(self.history, self.samples, self.guesses)
        &&& self.derived.shaped(self.samples, self.guesses)
    }

    /// The four sums per sample and per guess are those of the history.
    pub open spec fn tallied(self) -> bool {
        let of = Sums::of(self.history, self.samples, self.guesses);
        &&& self.sums.sum_leakages == of.sum_leakages
        &&& self.sums.sig_leakages == of.sig_leakages
        &&& self.sums.sum_keys == of.sum_keys
        &&& self.sums.sig_keys == of.sig_keys
    }

    /// The cross sums are those of the history.
    pub open spec fn crossed(self) -> bool {
        self.sums.cov == Sums::of(self.history, self.samples, self.guesses).cov
    }

    /// All sums are those of the history.
    pub open spec fn accumulated(self) -> bool {
        self.sums == Sums::of(self.history, self.samples, self.guesses)
    }

    /// A finalisation can only have succeeded on an accumulator that holds
    /// traces.
    pub open spec fn settled(self) -> bool {
        self.derived.finalized ==> self.sums.count > 0
    }

    /// The state of an accumulator between two operations.
    pub open spec fn wf(self) -> bool {
        &&& self.shaped()
        &&& self.accumulated()
        &&& self.derived.consistent()
        &&& self.settled()
    }

    /// After `trace` was added to the sums per sample, and the first `upto`
    /// of `values` to the sums per guess.
    pub open spec fn with_arrays(self, trace: Seq<int>, values: Seq<int>, upto: int) -> Core {
        Core {
            sums: Sums {
                sum_leakages: Seq::new(self.samples, |x: int| self.sums.sum_leakages[x] + trace[x]),
                sig_leakages: Seq::new(
                    self.samples,
                    |x: int| self.sums.sig_leakages[x] + trace[x] * trace[x],
                ),
                sum_keys: Seq::new(
                    self.guesses,
                    |g: int|
                        if g < upto {
                            self.sums.sum_keys[g] + values[g]
                        } else {
                            self.sums.sum_keys[g]
                        },
                ),
                sig_keys: Seq::new(
                    self.guesses,
                    |g: int|
                        if g < upto {
                            self.sums.sig_keys[g] + values[g] * values[g]
                        } else {
                            self.sums.sig_keys[g]
                        },
                ),
                ..self.sums
            },
            ..self
        }
    }

    /// After the products of `values` and `trace` were added to the cross
    /// sums.
    pub open spec fn with_cov(self, values: Seq<int>, trace: Seq<int>) -> Core {
        Core {
            sums: Sums {
                cov: Seq::new(
                    self.guesses,
                    |g: int|
                        Seq::new(self.samples, |x: int| self.sums.cov[g][x] + values[g] * trace[x]),
                ),
                ..self.sums
            },
            ..self
        }
    }

    /// After the columns of a patch of traces were added to the sums per
    /// sample, and the first `upto` columns of a patch of hypotheses to the
    /// sums per guess.
    pub open spec fn with_patch_arrays(
        self,
        trace: Seq<Seq<int>>,
        values: Seq<Seq<int>>,
        upto: int,
    ) -> Core {
        Core {
            sums: Sums {
                sum_leakages: Seq::new(
                    self.samples,
                    |x: int| self.sums.sum_leakages[x] + sum(int_column(trace, x)),
                ),
                sig_leakages: Seq::new(
                    self.samples,
                    |x: int|
                        self.sums.sig_leakages[x] + sum(
                            products(int_column(trace, x), int_column(trace, x)),
                        ),
                ),
                sum_keys: Seq::new(
                    self.guesses,
                    |g: int|
                        if g < upto {
                            self.sums.sum_keys[g] + sum(int_column(values, g))
                        } else {
                            self.sums.sum_keys[g]
                        },
                ),
                sig_keys: Seq::new(
                    self.guesses,
                    |g: int|
                        if g < upto {
                            self.sums.sig_keys[g] + sum(
                                products(int_column(values, g), int_column(values, g)),
                            )
                        } else {
                            self.sums.sig_keys[g]
                        },
                ),
                ..self.sums
            },
            ..self
        }
    }

    /// After the dot products of the columns of a patch of hypotheses with
    /// the columns of a patch of traces were added to the cross sums.
    pub open spec fn with_patch_cov(self, values: Seq<Seq<int>>, trace: Seq<Seq<int>>) -> Core {
        Core {
            sums: Sums {
                cov: Seq::new(
                    self.guesses,
                    |g: int|
                        Seq::new(
                            self.samples,
                            |x: int|
                                self.sums.cov[g][x] + sum(
                                    products(int_column(values, g), int_column(trace, x)),
                                ),
                        ),
                ),
                ..self.sums
            },
            ..self
        }
    }

    /// After the observations `batch`, whose share is in the sums already,
    /// were counted.
    pub open spec fn counted(self, batch: Seq<Observation>) -> Core {
        Core {
            history: self.history + batch,
            sums: Sums { count: self.sums.count + batch.len(), ..self.sums },
            ..self
        }
    }

    /// After a finalisation that took `cross` for the cross sums.
    pub open spec fn finalize_with(self, cross: Seq<Seq<int>>) -> Core {
        Core { derived: self.derived.finalize(Sums { cov: cross, ..self.sums }), ..self }
    }

    /// After the observations `batch` were counted, the sums being those of
    /// the longer history.
    pub open spec fn ingest(self, batch: Seq<Observation>) -> Core {
        Core {
            history: self.history + batch,
            sums: Sums::of(self.history + batch, self.samples, self.guesses),
            ..self
        }
    }

    /// After the maxima were recomputed from the correlation matrix.
    pub open spec fn calculate(self) -> Core {
        Core { derived: self.derived.calculate(), ..self }
    }

    /// After a finalisation.
    pub open spec fn finalize(self) -> Core {
        Core { derived: self.derived.finalize(self.sums), ..self }
    }

    /// After the current maxima were appended to the rank curve.
    pub open spec fn checkpoint(self) -> Core {
        Core { derived: self.derived.checkpoint(), ..self }
    }

    /// The rank curve can take one more column: its elements, of three
    /// 128-bit integers each, stay within what can be allocated.
    pub open spec fn room_for_checkpoint(self) -> bool {
        self.guesses * (self.derived.checkpoints.len() + 1) * 48 <= isize::MAX
    }

    /// Whether a checkpoint of the rank curve is due: an interval is set, and
    /// the number of traces is a positive multiple of it.
    pub open spec fn due(self) -> bool {
        &&& self.rank_traces > 0
        &&& self.history.len() > 0
        &&& self.history.len() % self.rank_traces == 0
    }

    /// After a finalisation and a checkpoint where a checkpoint is due, and
    /// unchanged where none is.
    pub open spec fn checkpoint_if_due(self) -> Core {
        if self.due() {
            self.finalize().checkpoint()
        } else {
            self
        }
    }

    /// The rank curve has followed the history: one column was recorded for
    /// every full interval of traces, and every column was computed from the
    /// traces up to its checkpoint.
    pub open spec fn on_schedule(self) -> bool {
        let interval = self.rank_traces as int;
        let checkpoints = self.derived.checkpoints;
        &&& interval > 0
        &&& checkpoints.len() == self.history.len() / self.rank_traces
        &&& forall|k: int|
            0 <= k < checkpoints.len() ==> #[trigger] checkpoints[k] == Sums::of(
                self.history.take((k + 1) * interval),
                self.samples,
                self.guesses,
            )
    }

    /// Whether `self` holds no trace while `other` holds some, so that a
    /// merge of the two is `other`.
    pub open spec fn yields_to(self, other: Core) -> bool {
        self.history.len() == 0 && other.history.len() > 0
    }

    /// The accumulator of the traces of `self` followed by those of `other`.
    /// Where `self` holds no trace and `other` holds some, that is `other`,
    /// with all it has derived. Otherwise every sum is the sum of the two,
    /// and everything that is not a sum is taken from `self`.
    pub open spec fn merge(self, other: Core) -> Core {
        if self.yields_to(other) {
            other
        } else {
            Core {
                history: self.history + other.history,
                sums: self.sums.plus(other.sums),
                ..self
            }
        }
    }
}

/// The sums of a well-formed state are within what its traces allow.
pub proof fn lemma_within(c: Core)
    requires
        c.shaped(),
    ensures
        c.tallied() ==> c.sums.tallies_within(c.sums.count),
        c.crossed() ==> c.sums.cov_within(c.sums.count, product_bound()),
{
    lemma_sums_within(c.history, c.samples, c.guesses);
}

/// Adding one observation's share to every sum and counting it gives the
/// sums of the history with that observation appended.
pub proof fn lemma_ingest_one(c: Core, o: Observation)
    requires
        c.shaped(),
        c.accumulated(),
        valid_observation(o, c.samples, c.guesses),
    ensures
        c.with_arrays(o.trace, o.model, c.guesses as int).with_cov(o.model, o.trace).counted(
            seq![o],
        ) == c.ingest(seq![o]),
{
    let h = c.history;
    let samples = c.samples;
    let guesses = c.guesses;
    let left = c.with_arrays(o.trace, o.model, guesses as int).with_cov(o.model, o.trace).counted(
        seq![o],
    );
    let right = c.ingest(seq![o]);
    assert(h + seq![o] =~= h.push(o));
    assert forall|x: int| 0 <= x < samples implies total(h.push(o), sample_at(x)) == total(
        h,
        sample_at(x),
    ) + o.trace[x] && total(h.push(o), sample_square_at(x)) == total(h, sample_square_at(x))
        + o.trace[x] * o.trace[x] by {
        lemma_total_push(h, o, sample_at(x));
        lemma_total_push(h, o, sample_square_at(x));
    }
    assert forall|g: int| 0 <= g < guesses implies total(h.push(o), hypothesis_at(g)) == total(
        h,
        hypothesis_at(g),
    ) + o.model[g] && total(h.push(o), hypothesis_square_at(g)) == total(
        h,
        hypothesis_square_at(g),
    ) + o.model[g] * o.model[g] by {
        lemma_total_push(h, o, hypothesis_at(g));
        lemma_total_push(h, o, hypothesis_square_at(g));
    }
    assert forall|g: int, x: int| 0 <= g < guesses && 0 <= x < samples implies total(
        h.push(o),
        product_at(g, x),
    ) == total(h, product_at(g, x)) + o.model[g] * o.trace[x] by {
        lemma_total_push(h, o, product_at(g, x));
    }
    assert(left.sums.sum_leakages =~= right.sums.sum_leakages);
    assert(left.sums.sig_leakages =~= right.sums.sig_leakages);
    assert(left.sums.sum_keys =~= right.sums.sum_keys);
    assert(left.sums.sig_keys =~= right.sums.sig_keys);
    assert(left.sums.cov =~~= right.sums.cov);
    assert(left.sums =~~= right.sums);
    assert(left =~~= right);
}

/// The sums of two histories, added up, are the sums of the histories put
/// one after the other.
pub proof fn lemma_merged_sums(
    a: Seq<Observation>,
    b: Seq<Observation>,
    samples: nat,
    guesses: nat,
)
    ensures
        Sums::of(a, samples, guesses).plus(Sums::of(b, samples, guesses)) == Sums::of(
            a + b,
            samples,
            guesses,
        ),
{
    let left = Sums::of(a, samples, guesses).plus(Sums::of(b, samples, guesses));
    let right = Sums::of(a + b, samples, guesses);
    assert forall|x: int| 0 <= x < samples implies total(a + b, sample_at(x)) == total(
        a,
        sample_at(x),
    ) + total(b, sample_at(x)) && total(a + b, sample_square_at(x)) == total(
        a,
        sample_square_at(x),
    ) + total(b, sample_square_at(x)) by {
        lemma_total_concat(a, b, sample_at(x));
        lemma_total_concat(a, b, sample_square_at(x));
    }
    assert forall|g: int| 0 <= g < guesses implies total(a + b, hypothesis_at(g)) == total(
        a,
        hypothesis_at(g),
    ) + total(b, hypothesis_at(g)) && total(a + b, hypothesis_square_at(g)) == total(
        a,
        hypothesis_square_at(g),
    ) + total(b, hypothesis_square_at(g)) by {
        lemma_total_concat(a, b, hypothesis_at(g));
        lemma_total_concat(a, b, hypothesis_square_at(g));
    }
    assert forall|g: int, x: int| 0 <= g < guesses && 0 <= x < samples implies total(
        a + b,
        product_at(g, x),
    ) == total(a, product_at(g, x)) + total(b, product_at(g, x)) by {
        lemma_total_concat(a, b, product_at(g, x));
    }
    assert(left.sum_leakages =~= right.sum_leakages);
    assert(left.sig_leakages =~= right.sig_leakages);
    assert(left.sum_keys =~= right.sum_keys);
    assert(left.sig_keys =~= right.sig_keys);
    assert(left.cov =~~= right.cov);
    assert(left =~~= right);
}

/// Merging two well-formed states gives a state whose sums are those of its
/// history.
pub proof fn lemma_merge_accumulated(a: Core, b: Core)
    requires
        a.accumulated(),
        b.accumulated(),
        a.samples == b.samples,
        a.guesses == b.guesses,
    ensures
        a.merge(b).accumulated(),
        a.merge(b).history == a.history + b.history,
        a.merge(b).sums == a.sums.plus(b.sums),
{
    lemma_merged_sums(a.history, b.history, a.samples, a.guesses);
    if a.yields_to(b) {
        assert(a.history + b.history =~= b.history);
    }
}

/// A total over a history, as the sum of a sequence of its terms.
pub proof fn lemma_total_as_sum(
    b: Seq<Observation>,
    f: spec_fn(Observation) -> int,
    terms: Seq<int>,
)
    requires
        terms.len() == b.len(),
        forall|t: int| 0 <= t < b.len() ==> #[trigger] terms[t] == f(b[t]),
    ensures
        total(b, f) == sum(terms),
    decreases b.len(),
{
    if b.len() > 0 {
        let front = b.drop_last();
        let fewer = terms.drop_last();
        assert forall|t: int| 0 <= t < front.len() implies #[trigger] fewer[t] == f(front[t]) by {
            assert(fewer[t] == terms[t]);
            assert(front[t] == b[t]);
        }
        lemma_total_as_sum(front, f, fewer);
        assert(terms.last() == terms[b.len() - 1]);
    }
}

/// Adding the share of a patch of observations to every sum and counting
/// them gives the sums of the history with the patch appended.
pub proof fn lemma_ingest_patch(
    c: Core,
    batch: Seq<Observation>,
    traces: Seq<Seq<int>>,
    values: Seq<Seq<int>>,
)
    requires
        c.shaped(),
        c.accumulated(),
        traces.len() == batch.len(),
        values.len() == batch.len(),
        forall|r: int| 0 <= r < batch.len() ==> (#[trigger] batch[r]).trace == traces[r],
        forall|r: int| 0 <= r < batch.len() ==> (#[trigger] batch[r]).model == values[r],
    ensures
        c.with_patch_arrays(traces, values, c.guesses as int).with_patch_cov(
            values,
            traces,
        ).counted(batch) == c.ingest(batch),
{
    let h = c.history;
    let samples = c.samples;
    let guesses = c.guesses;
    let left = c.with_patch_arrays(traces, values, guesses as int).with_patch_cov(
        values,
        traces,
    ).counted(batch);
    let right = c.ingest(batch);
    assert forall|x: int| 0 <= x < samples implies total(h + batch, sample_at(x)) == total(
        h,
        sample_at(x),
    ) + sum(int_column(traces, x)) && total(h + batch, sample_square_at(x)) == total(
        h,
        sample_square_at(x),
    ) + sum(products(int_column(traces, x), int_column(traces, x))) by {
        lemma_total_concat(h, batch, sample_at(x));
        lemma_total_concat(h, batch, sample_square_at(x));
        lemma_total_as_sum(batch, sample_at(x), int_column(traces, x));
        lemma_total_as_sum(
            batch,
            sample_square_at(x),
            products(int_column(traces, x), int_column(traces, x)),
        );
    }
    assert forall|g: int| 0 <= g < guesses implies total(h + batch, hypothesis_at(g)) == total(
        h,
        hypothesis_at(g),
    ) + sum(int_column(values, g)) && total(h + batch, hypothesis_square_at(g)) == total(
        h,
        hypothesis_square_at(g),
    ) + sum(products(int_column(values, g), int_column(values, g))) by {
        lemma_total_concat(h, batch, hypothesis_at(g));
        lemma_total_concat(h, batch, hypothesis_square_at(g));
        lemma_total_as_sum(batch, hypothesis_at(g), int_column(values, g));
        lemma_total_as_sum(
            batch,
            hypothesis_square_at(g),
            products(int_column(values, g), int_column(values, g)),
        );
    }
    assert forall|g: int, x: int| 0 <= g < guesses && 0 <= x < samples implies total(
        h + batch,
        product_at(g, x),
    ) == total(h, product_at(g, x)) + sum(
        products(int_column(values, g), int_column(traces, x)),
    ) by {
        lemma_total_concat(h, batch, product_at(g, x));
        lemma_total_as_sum(
            batch,
            product_at(g, x),
            products(int_column(values, g), int_column(traces, x)),
        );
    }
    assert(left.sums.sum_leakages =~= right.sums.sum_leakages);
    assert(left.sums.sig_leakages =~= right.sums.sig_leakages);
    assert(left.sums.sum_keys =~= right.sums.sum_keys);
    assert(left.sums.sig_keys =~= right.sums.sig_keys);
    assert(left.sums.cov =~~= right.sums.cov);
    assert(left.sums =~~= right.sums);
    assert(left =~~= right);
}

/// Whether `n` more traces after `len` reach the next multiple of `interval`
/// at most, and pass none.
pub open spec fn lands(len: int, n: int, interval: int) -> bool {
    (len + n - 1) / interval == len / interval
}

/// How the number of full intervals grows when `n` traces are added that
/// pass no multiple of the interval: by one when the new number of traces is
/// a multiple, else not at all.
pub proof fn lemma_interval_step(len: int, n: int, interval: int)
    requires
        len >= 0,
        n >= 1,
        interval > 0,
        lands(len, n, interval),
    ensures
        (len + n) % interval == 0 ==> (len + n) / interval == len / interval + 1,
        (len + n) % interval != 0 ==> (len + n) / interval == len / interval,
        (len / interval) * interval <= len,
        len / interval >= 0,
{
    let q = len / interval;
    let r = len % interval;
    let last = len + n - 1;
    let rest = last % interval;
    vstd::arithmetic::div_mod::lemma_fundamental_div_mod(len, interval);
    vstd::arithmetic::div_mod::lemma_fundamental_div_mod(last, interval);
    assert(len == interval * q + r);
    assert(last == interval * q + rest);
    assert(0 <= r < interval);
    assert(0 <= rest < interval);
    assert(q * interval == interval * q) by (nonlinear_arith);
    assert(q >= 0) by (nonlinear_arith)
        requires
            len == interval * q + r,
            len >= 0,
            r < interval,
            interval > 0,
    ;
    if rest + 1 == interval {
        assert(len + n == (q + 1) * interval + 0) by (nonlinear_arith)
            requires
                len + n - 1 == interval * q + rest,
                rest + 1 == interval,
        ;
        vstd::arithmetic::div_mod::lemma_fundamental_div_mod_converse(
            len + n,
            interval,
            q + 1,
            0,
        );
    } else {
        assert(len + n == q * interval + (rest + 1)) by (nonlinear_arith)
            requires
                len + n - 1 == interval * q + rest,
        ;
        vstd::arithmetic::div_mod::lemma_fundamental_div_mod_converse(
            len + n,
            interval,
            q,
            rest + 1,
        );
    }
}

/// A rank curve that has followed the history still does after more traces
/// were folded in, none of them past the next checkpoint, and a checkpoint
/// was taken if it was due.
pub proof fn lemma_schedule_step(before: Core, fed: Core)
    requires
        before.on_schedule(),
        fed.accumulated(),
        fed.history.len() > before.history.len(),
        fed.history.take(before.history.len() as int) == before.history,
        fed.samples == before.samples,
        fed.guesses == before.guesses,
        fed.rank_traces == before.rank_traces,
        fed.derived.checkpoints == before.derived.checkpoints,
        lands(
            before.history.len() as int,
            fed.history.len() - before.history.len(),
            before.rank_traces as int,
        ),
    ensures
        fed.checkpoint_if_due().on_schedule(),
{
    let h = before.history;
    let h1 = fed.history;
    let len = h.len() as int;
    let n = h1.len() - h.len();
    let interval = before.rank_traces as int;
    let after = fed.checkpoint_if_due();
    let old_points = before.derived.checkpoints;
    lemma_interval_step(len, n, interval);
    let new_points = after.derived.checkpoints;
    if fed.due() {
        assert(new_points =~= old_points.push(fed.sums));
    }
    assert forall|k: int| 0 <= k < new_points.len() implies #[trigger] new_points[k] == Sums::of(
        h1.take((k + 1) * interval),
        fed.samples,
        fed.guesses,
    ) by {
        if k < old_points.len() {
            assert((k + 1) * interval <= len) by (nonlinear_arith)
                requires
                    k + 1 <= len / interval,
                    (len / interval) * interval <= len,
                    interval > 0,
            ;
            assert(h1.take(len).take((k + 1) * interval) =~= h1.take((k + 1) * interval));
            assert(new_points[k] == old_points[k]);
        } else {
            assert((k + 1) * interval == len + n) by {
                vstd::arithmetic::div_mod::lemma_fundamental_div_mod(len + n, interval);
                assert(interval * (k + 1) == (k + 1) * interval) by (nonlinear_arith);
            }
            assert(h1.take(h1.len() as int) =~= h1);
        }
    }
}

} // verus!
