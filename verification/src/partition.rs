//! Sums per partition, and what they are worth.
//!
//! Where the leakage model reads a single metadata value, traces that share
//! the value share their hypotheses. It is then enough to add each trace to
//! the bucket of its value: the cross sum of a guess and a sample is the sum,
//! over the buckets, of the bucket's sample sum times the guess's hypothesis
//! for the bucket's value:
//!
//! ```text
//! Σ_traces model(value(trace), g) · trace[x]
//!     = Σ_b (Σ_{traces with value b} trace[x]) · model(b, g)
//! ```
//!
//! This module states that identity and proves it, together with the bounds
//! that keep the products within an `i64`.

use crate::arrays::{magnitudes, products, sum};
use crate::history::{
    bucket_sample_at, lemma_total_bounds, lemma_total_concat, lemma_total_push, product_at, total,
    valid_history, valid_observation, value_bound, Observation, Sums,
};
use crate::leakage::LeakageModel;
use crate::sequences::{int_column, lemma_dot_update, lemma_magnitudes_update, lemma_sum_zeros};
use vstd::prelude::*;

verus! {

/// The value that decides the bucket of an observation.
pub open spec fn bucket_of(o: Observation, target: int) -> int {
    o.metadata[target] as int
}

/// The hypotheses of all guesses for the metadata value `b` alone.
pub open spec fn table_row<M: LeakageModel>(model: M, b: int, guesses: nat) -> Seq<int> {
    Seq::new(guesses, |g: int| model.hypothesis(seq![b as i32], g))
}

/// The hypotheses of all guesses for every value below `buckets`.
pub open spec fn table<M: LeakageModel>(model: M, buckets: nat, guesses: nat) -> Seq<Seq<int>> {
    Seq::new(buckets, |b: int| table_row(model, b, guesses))
}

/// An observation whose bucket exists and whose hypotheses are those of its
/// bucket.
pub open spec fn in_bucket<M: LeakageModel>(
    o: Observation,
    model: M,
    target: int,
    buckets: nat,
    guesses: nat,
) -> bool {
    &&& 0 <= target < o.metadata.len()
    &&& 0 <= bucket_of(o, target) < buckets
    &&& o.model == table_row(model, bucket_of(o, target), guesses)
}

/// Every observation of the history is in a bucket.
pub open spec fn bucketed<M: LeakageModel>(
    h: Seq<Observation>,
    model: M,
    target: int,
    buckets: nat,
    guesses: nat,
) -> bool {
    forall|t: int| 0 <= t < h.len() ==> in_bucket(#[trigger] h[t], model, target, buckets, guesses)
}

/// Per bucket and sample, the sum of the sample over the traces of the
/// bucket.
pub open spec fn partition_sums(h: Seq<Observation>, target: int, samples: nat, buckets: nat) -> Seq<
    Seq<int>,
> {
    Seq::new(
        buckets,
        |b: int| Seq::new(samples, |x: int| total(h, bucket_sample_at(target, b, x))),
    )
}

/// The cross sums that partition sums stand for: per guess and sample, the
/// dot product of the sample's column of the partition sums with the guess's
/// column of the table.
pub open spec fn resolve(al: Seq<Seq<int>>, table: Seq<Seq<int>>, guesses: nat, samples: nat) -> Seq<
    Seq<int>,
> {
    Seq::new(
        guesses,
        |g: int|
            Seq::new(
                samples,
                |x: int| sum(products(int_column(al, x), int_column(table, g))),
            ),
    )
}

/// The column of sample `x` of the partition sums of a history.
pub open spec fn bucket_column(h: Seq<Observation>, target: int, buckets: nat, x: int) -> Seq<int> {
    Seq::new(buckets, |b: int| total(h, bucket_sample_at(target, b, x)))
}

/// One more observation adds its sample to the element of its bucket.
pub proof fn lemma_bucket_column_push(
    h: Seq<Observation>,
    o: Observation,
    target: int,
    buckets: nat,
    x: int,
)
    requires
        0 <= bucket_of(o, target) < buckets,
    ensures
        bucket_column(h.push(o), target, buckets, x) == bucket_column(h, target, buckets, x).update(
            bucket_of(o, target),
            bucket_column(h, target, buckets, x)[bucket_of(o, target)] + o.trace[x],
        ),
{
    let before = bucket_column(h, target, buckets, x);
    let after = bucket_column(h.push(o), target, buckets, x);
    let k = bucket_of(o, target);
    assert forall|b: int| 0 <= b < buckets implies #[trigger] after[b] == before.update(
        k,
        before[k] + o.trace[x],
    )[b] by {
        lemma_total_push(h, o, bucket_sample_at(target, b, x));
    }
    assert(after =~= before.update(k, before[k] + o.trace[x]));
}

/// The magnitudes of the partition sums of one sample add up to no more than
/// the traces can make them.
pub proof fn lemma_bucket_column_bound<M: LeakageModel>(
    h: Seq<Observation>,
    model: M,
    target: int,
    samples: nat,
    guesses: nat,
    buckets: nat,
    x: int,
)
    requires
        valid_history(h, samples, guesses),
        bucketed(h, model, target, buckets, guesses),
        0 <= x < samples,
    ensures
        sum(magnitudes(bucket_column(h, target, buckets, x))) <= h.len() * value_bound(),
    decreases h.len(),
{
    if h.len() == 0 {
        let c = bucket_column(h, target, buckets, x);
        lemma_sum_zeros(magnitudes(c));
    } else {
        let front = h.drop_last();
        let o = h.last();
        assert(h =~= front.push(o));
        assert forall|t: int| 0 <= t < front.len() implies valid_observation(
            #[trigger] front[t],
            samples,
            guesses,
        ) && in_bucket(front[t], model, target, buckets, guesses) by {
            assert(front[t] == h[t]);
        }
        lemma_bucket_column_bound(front, model, target, samples, guesses, buckets, x);
        assert(valid_observation(o, samples, guesses));
        assert(in_bucket(o, model, target, buckets, guesses));
        lemma_bucket_column_push(front, o, target, buckets, x);
        lemma_magnitudes_update(
            bucket_column(front, target, buckets, x),
            bucket_of(o, target),
            o.trace[x],
            value_bound(),
        );
        let n = front.len() as int;
        assert((n + 1) * value_bound() == n * value_bound() + value_bound()) by (nonlinear_arith);
    }
}

/// The identity behind the partitioned accumulator: resolved against the
/// table of the model, the partition sums of a history are its cross sums.
pub proof fn lemma_resolve_cell<M: LeakageModel>(
    h: Seq<Observation>,
    model: M,
    target: int,
    samples: nat,
    guesses: nat,
    buckets: nat,
    g: int,
    x: int,
)
    requires
        valid_history(h, samples, guesses),
        bucketed(h, model, target, buckets, guesses),
        0 <= g < guesses,
        0 <= x < samples,
    ensures
        sum(
            products(
                bucket_column(h, target, buckets, x),
                int_column(table(model, buckets, guesses), g),
            ),
        ) == total(h, product_at(g, x)),
    decreases h.len(),
{
    let column = int_column(table(model, buckets, guesses), g);
    if h.len() == 0 {
        let c = bucket_column(h, target, buckets, x);
        assert forall|i: int| 0 <= i < products(c, column).len() implies #[trigger] products(
            c,
            column,
        )[i] == 0 by {
            assert(c[i] == 0);
        }
        lemma_sum_zeros(products(c, column));
    } else {
        let front = h.drop_last();
        let o = h.last();
        assert(h =~= front.push(o));
        assert forall|t: int| 0 <= t < front.len() implies valid_observation(
            #[trigger] front[t],
            samples,
            guesses,
        ) && in_bucket(front[t], model, target, buckets, guesses) by {
            assert(front[t] == h[t]);
        }
        lemma_resolve_cell(front, model, target, samples, guesses, buckets, g, x);
        assert(in_bucket(o, model, target, buckets, guesses));
        let k = bucket_of(o, target);
        lemma_bucket_column_push(front, o, target, buckets, x);
        lemma_dot_update(bucket_column(front, target, buckets, x), column, k, o.trace[x]);
        lemma_total_push(front, o, product_at(g, x));
        assert(column[k] == table_row(model, k, guesses)[g]);
        assert(o.model[g] == column[k]);
        assert(o.trace[x] * column[k] == o.model[g] * o.trace[x]) by (nonlinear_arith)
            requires
                o.model[g] == column[k],
        ;
    }
}

/// Resolved against the table of the model, the partition sums of a history
/// are its cross sums.
pub proof fn lemma_resolve<M: LeakageModel>(
    h: Seq<Observation>,
    model: M,
    target: int,
    samples: nat,
    guesses: nat,
    buckets: nat,
)
    requires
        valid_history(h, samples, guesses),
        bucketed(h, model, target, buckets, guesses),
    ensures
        resolve(
            partition_sums(h, target, samples, buckets),
            table(model, buckets, guesses),
            guesses,
            samples,
        ) == Sums::of(h, samples, guesses).cov,
{
    let al = partition_sums(h, target, samples, buckets);
    let t = table(model, buckets, guesses);
    let left = resolve(al, t, guesses, samples);
    let right = Sums::of(h, samples, guesses).cov;
    assert forall|g: int, x: int| 0 <= g < guesses && 0 <= x < samples implies (
    #[trigger] left[g][x]) == right[g][x] by {
        lemma_resolve_cell(h, model, target, samples, guesses, buckets, g, x);
        assert(int_column(al, x) =~= bucket_column(h, target, buckets, x));
    }
    assert(left =~~= right);
}

/// No partition sum is larger than the traces can make it.
pub proof fn lemma_partition_bound(
    h: Seq<Observation>,
    target: int,
    samples: nat,
    guesses: nat,
    b: int,
    x: int,
)
    requires
        valid_history(h, samples, guesses),
        0 <= x < samples,
    ensures
        -h.len() * value_bound() <= total(h, bucket_sample_at(target, b, x)) <= h.len()
            * value_bound(),
{
    let f = bucket_sample_at(target, b, x);
    assert forall|t: int| 0 <= t < h.len() implies -value_bound() <= f(#[trigger] h[t])
        <= value_bound() by {
        assert(valid_observation(h[t], samples, guesses));
    }
    lemma_total_bounds(h, f, -value_bound(), value_bound());
    let n = h.len() as int;
    assert(n * (-value_bound()) == -n * value_bound()) by (nonlinear_arith);
}

/// The partition sums of two histories, added up, are those of the
/// histories put one after the other.
pub proof fn lemma_partition_concat(
    a: Seq<Observation>,
    b: Seq<Observation>,
    target: int,
    samples: nat,
    buckets: nat,
)
    ensures
        forall|k: int, x: int|
            0 <= k < buckets && 0 <= x < samples ==> #[trigger] partition_sums(
                a + b,
                target,
                samples,
                buckets,
            )[k][x] == partition_sums(a, target, samples, buckets)[k][x] + partition_sums(
                b,
                target,
                samples,
                buckets,
            )[k][x],
{
    assert forall|k: int, x: int| 0 <= k < buckets && 0 <= x < samples implies #[trigger] partition_sums(
        a + b,
        target,
        samples,
        buckets,
    )[k][x] == partition_sums(a, target, samples, buckets)[k][x] + partition_sums(
        b,
        target,
        samples,
        buckets,
    )[k][x] by {
        lemma_total_concat(a, b, bucket_sample_at(target, k, x));
    }
}

} // verus!
