//! What holds of the accumulators whatever they are fed.
//!
//! The contracts of the accumulators say what each operation does to the
//! state. The statements here relate several operations: that it does not
//! matter how traces are split into batches or in which order they come, that
//! merging with an empty accumulator changes nothing, that the partitioned
//! accumulator computes what the direct one computes, that a sample without
//! variance never wins, and that the rank curve holds what finalisations at
//! its checkpoints would have given.

use crate::correlation::{
    best_guess, first_maximum, lemma_first_maximum, maximum, row_maxima, Ratio,
};
use crate::cpa;
use crate::history::{
    hypothesis_at, hypothesis_square_at, lemma_covariance_bound, lemma_total_permutation,
    lemma_variance_not_negative, product_at, sample_at, sample_square_at, total, Observation, Sums,
};
use crate::leakage::LeakageModel;
use crate::partition::{lemma_resolve, resolve, table};
use crate::state::{
    lands, lemma_merge_accumulated, lemma_merged_sums, lemma_schedule_step, Core,
};
use vstd::prelude::*;

verus! {

/// All the traces of a sequence of batches, batch after batch.
pub open spec fn joined(batches: Seq<Seq<Observation>>) -> Seq<Observation>
    decreases batches.len(),
{
    if batches.len() == 0 {
        Seq::empty()
    } else {
        joined(batches.drop_last()) + batches.last()
    }
}

/// The sums of a sequence of batches, each accumulated on its own and
/// merged into the sums of the batches before it.
pub open spec fn merged(batches: Seq<Seq<Observation>>, samples: nat, guesses: nat) -> Sums
    decreases batches.len(),
{
    if batches.len() == 0 {
        Sums::of(Seq::empty(), samples, guesses)
    } else {
        merged(batches.drop_last(), samples, guesses).plus(
            Sums::of(batches.last(), samples, guesses),
        )
    }
}

/// Merging the accumulators of two sets of traces gives the accumulator of
/// both sets: the sums of `a` plus the sums of `b` are the sums of `a`
/// followed by `b`.
pub proof fn law_merge_is_union(
    a: Seq<Observation>,
    b: Seq<Observation>,
    samples: nat,
    guesses: nat,
)
    ensures
        Sums::of(a, samples, guesses).plus(Sums::of(b, samples, guesses)) == Sums::of(
            a + b,
            samples,
            guesses,
        ),
{
    lemma_merged_sums(a, b, samples, guesses);
}

/// Merging is commutative over the sums.
pub proof fn law_merge_commutes(a: Sums, b: Sums, samples: nat, guesses: nat)
    requires
        a.shaped(samples, guesses),
        b.shaped(samples, guesses),
    ensures
        a.plus(b) == b.plus(a),
{
    let left = a.plus(b);
    let right = b.plus(a);
    assert(left.sum_leakages =~= right.sum_leakages);
    assert(left.sig_leakages =~= right.sig_leakages);
    assert(left.sum_keys =~= right.sum_keys);
    assert(left.sig_keys =~= right.sig_keys);
    assert(left.cov =~~= right.cov);
    assert(left =~~= right);
}

/// Merging is associative over the sums: a chain and a tree of merges give
/// the same sums.
pub proof fn law_merge_associates(a: Sums, b: Sums, c: Sums, samples: nat, guesses: nat)
    requires
        a.shaped(samples, guesses),
        b.shaped(samples, guesses),
        c.shaped(samples, guesses),
    ensures
        a.plus(b).plus(c) == a.plus(b.plus(c)),
{
    let left = a.plus(b).plus(c);
    let right = a.plus(b.plus(c));
    assert(left.sum_leakages =~= right.sum_leakages);
    assert(left.sig_leakages =~= right.sig_leakages);
    assert(left.sum_keys =~= right.sum_keys);
    assert(left.sig_keys =~= right.sig_keys);
    assert(left.cov =~~= right.cov);
    assert(left =~~= right);
}

/// The sums, and with them the correlation matrix, do not depend on the
/// order in which the traces were folded in.
pub proof fn law_order_is_immaterial(
    a: Seq<Observation>,
    b: Seq<Observation>,
    samples: nat,
    guesses: nat,
)
    requires
        a.to_multiset() == b.to_multiset(),
    ensures
        Sums::of(a, samples, guesses) == Sums::of(b, samples, guesses),
        Sums::of(a, samples, guesses).correlations() == Sums::of(
            b,
            samples,
            guesses,
        ).correlations(),
{
    broadcast use vstd::seq_lib::group_to_multiset_ensures;

    let left = Sums::of(a, samples, guesses);
    let right = Sums::of(b, samples, guesses);
    assert(a.len() == b.len()) by {
        a.to_multiset_ensures();
        b.to_multiset_ensures();
    }
    assert forall|x: int| 0 <= x < samples implies total(a, sample_at(x)) == total(
        b,
        sample_at(x),
    ) && total(a, sample_square_at(x)) == total(b, sample_square_at(x)) by {
        lemma_total_permutation(a, b, sample_at(x));
        lemma_total_permutation(a, b, sample_square_at(x));
    }
    assert forall|g: int| 0 <= g < guesses implies total(a, hypothesis_at(g)) == total(
        b,
        hypothesis_at(g),
    ) && total(a, hypothesis_square_at(g)) == total(b, hypothesis_square_at(g)) by {
        lemma_total_permutation(a, b, hypothesis_at(g));
        lemma_total_permutation(a, b, hypothesis_square_at(g));
    }
    assert forall|g: int, x: int| 0 <= g < guesses && 0 <= x < samples implies total(
        a,
        product_at(g, x),
    ) == total(b, product_at(g, x)) by {
        lemma_total_permutation(a, b, product_at(g, x));
    }
    assert(left.sum_leakages =~= right.sum_leakages);
    assert(left.sig_leakages =~= right.sig_leakages);
    assert(left.sum_keys =~= right.sum_keys);
    assert(left.sig_keys =~= right.sig_keys);
    assert(left.cov =~~= right.cov);
    assert(left =~~= right);
}

/// Accumulating batches on their own and merging them gives the sums of all
/// their traces accumulated in one go.
pub proof fn law_batches_merge_to_the_whole(
    batches: Seq<Seq<Observation>>,
    samples: nat,
    guesses: nat,
)
    ensures
        merged(batches, samples, guesses) == Sums::of(joined(batches), samples, guesses),
    decreases batches.len(),
{
    if batches.len() > 0 {
        law_batches_merge_to_the_whole(batches.drop_last(), samples, guesses);
        lemma_merged_sums(joined(batches.drop_last()), batches.last(), samples, guesses);
    }
}

/// However a set of traces is split into batches, and in whatever order
/// batches and traces come, accumulating the batches and merging them gives
/// the correlation matrix of the traces accumulated one after the other.
pub proof fn law_batching_is_immaterial(
    batches: Seq<Seq<Observation>>,
    whole: Seq<Observation>,
    samples: nat,
    guesses: nat,
)
    requires
        whole.to_multiset() == joined(batches).to_multiset(),
    ensures
        merged(batches, samples, guesses) == Sums::of(whole, samples, guesses),
        merged(batches, samples, guesses).correlations() == Sums::of(
            whole,
            samples,
            guesses,
        ).correlations(),
{
    law_batches_merge_to_the_whole(batches, samples, guesses);
    law_order_is_immaterial(whole, joined(batches), samples, guesses);
}

/// Merging with a new accumulator changes nothing, on whichever side the
/// new accumulator stands.
pub proof fn law_merge_identity(a: Core)
    requires
        a.shaped(),
    ensures
        a.merge(Core::empty(a.samples, a.guesses)) == a,
        a.history.len() > 0 ==> Core::empty(a.samples, a.guesses).merge(a) == a,
        Core::empty(a.samples, a.guesses).merge(a).sums == a.sums,
        Core::empty(a.samples, a.guesses).merge(a).history == a.history,
{
    let empty = Core::empty(a.samples, a.guesses);
    let right = a.merge(empty);
    assert(right.history =~= a.history);
    assert(right.sums.sum_leakages =~= a.sums.sum_leakages);
    assert(right.sums.sig_leakages =~= a.sums.sig_leakages);
    assert(right.sums.sum_keys =~= a.sums.sum_keys);
    assert(right.sums.sig_keys =~= a.sums.sig_keys);
    assert(right.sums.cov =~~= a.sums.cov);
    assert(right.sums =~~= a.sums);
    assert(right =~~= a);
    if a.history.len() == 0 {
        let left = empty.merge(a);
        assert(left.history =~= a.history);
        assert(left.sums.sum_leakages =~= a.sums.sum_leakages);
        assert(left.sums.sig_leakages =~= a.sums.sig_leakages);
        assert(left.sums.sum_keys =~= a.sums.sum_keys);
        assert(left.sums.sig_keys =~= a.sums.sig_keys);
        assert(left.sums.cov =~~= a.sums.cov) by {
            assert forall|g: int| 0 <= g < a.guesses implies (#[trigger] left.sums.cov[g])
                =~= a.sums.cov[g] by {
                assert(a.sums.cov[g].len() == a.samples);
            }
        }
        assert(left.sums =~~= a.sums);
    }
}

/// Merged either way round, two accumulators hold the same number of traces
/// and the same sums, and so finalise to the same correlation matrix.
pub proof fn law_merged_accumulators_commute(a: Core, b: Core)
    requires
        a.wf(),
        b.wf(),
        a.samples == b.samples,
        a.guesses == b.guesses,
    ensures
        a.merge(b).sums == b.merge(a).sums,
        a.merge(b).finalize().derived.corr == b.merge(a).finalize().derived.corr,
        a.merge(b).history.to_multiset() == b.merge(a).history.to_multiset(),
{
    lemma_merge_accumulated(a, b);
    lemma_merge_accumulated(b, a);
    law_merge_commutes(a.sums, b.sums, a.samples, a.guesses);
    vstd::seq_lib::lemma_multiset_commutative(a.history, b.history);
    vstd::seq_lib::lemma_multiset_commutative(b.history, a.history);
}

/// A chain and a tree of merges give accumulators with the same traces in
/// the same order and the same sums.
pub proof fn law_merged_accumulators_associate(a: Core, b: Core, c: Core)
    requires
        a.wf(),
        b.wf(),
        c.wf(),
        a.samples == b.samples,
        a.guesses == b.guesses,
        a.samples == c.samples,
        a.guesses == c.guesses,
    ensures
        a.merge(b).merge(c).sums == a.merge(b.merge(c)).sums,
        a.merge(b).merge(c).history == a.merge(b.merge(c)).history,
{
    lemma_merge_accumulated(a, b);
    lemma_merge_accumulated(b, c);
    let ab = a.merge(b);
    let bc = b.merge(c);
    assert(ab.samples == a.samples && ab.guesses == a.guesses);
    assert(bc.samples == a.samples && bc.guesses == a.guesses);
    lemma_merge_accumulated(ab, c);
    lemma_merge_accumulated(a, bc);
    assert((a.history + b.history) + c.history =~= a.history + (b.history + c.history));
    assert(ab.merge(c).sums == Sums::of(ab.merge(c).history, a.samples, a.guesses));
    assert(a.merge(bc).sums == Sums::of(a.merge(bc).history, a.samples, a.guesses));
}

/// Folding a patch in is folding its parts in one after the other: a patch
/// of several traces gives what its traces give one by one.
pub proof fn law_ingest_composes(c: Core, first: Seq<Observation>, second: Seq<Observation>)
    ensures
        c.ingest(first).ingest(second) == c.ingest(first + second),
{
    assert((c.history + first) + second =~= c.history + (first + second));
}

/// Fed the same traces, the partitioned accumulator and a direct one compute
/// the same correlation matrix, the same maxima, and the same guess.
pub proof fn law_partitioned_agrees_with_direct<M: LeakageModel>(
    partitioned: cpa::State,
    direct: Core,
    model: M,
)
    requires
        partitioned.wf_for(model),
        direct.wf(),
        direct.history == partitioned.core.history,
        direct.samples == partitioned.core.samples,
        direct.guesses == partitioned.core.guesses,
    ensures
        partitioned.finalize().core.derived.corr == direct.finalize().derived.corr,
        partitioned.finalize().core.derived.max_corr == direct.finalize().derived.max_corr,
        best_guess(partitioned.finalize().core.derived.max_corr) == best_guess(
            direct.finalize().derived.max_corr,
        ),
{
    let of = Sums::of(direct.history, direct.samples, direct.guesses);
    assert((Sums { cov: of.cov, ..partitioned.core.sums }) =~~= of);
}

/// Resolved against the table of the model, the sums per partition are the
/// cross sums of the same traces.
pub proof fn law_partition_sums_resolve<M: LeakageModel>(partitioned: cpa::State, model: M)
    requires
        partitioned.wf_for(model),
    ensures
        resolve(
            partitioned.al,
            table(model, partitioned.partitions, partitioned.core.guesses),
            partitioned.core.guesses,
            partitioned.core.samples,
        ) == Sums::of(
            partitioned.core.history,
            partitioned.core.samples,
            partitioned.core.guesses,
        ).cov,
{
    lemma_resolve(
        partitioned.core.history,
        model,
        partitioned.target as int,
        partitioned.core.samples,
        partitioned.core.guesses,
        partitioned.partitions,
    );
}

/// The totals of a sample that is the same in every trace.
proof fn lemma_constant_totals(h: Seq<Observation>, x: int, c: int)
    requires
        forall|t: int| 0 <= t < h.len() ==> (#[trigger] h[t]).trace[x] == c,
    ensures
        total(h, sample_at(x)) == h.len() * c,
        total(h, sample_square_at(x)) == h.len() * (c * c),
    decreases h.len(),
{
    if h.len() == 0 {
        assert(0 * c == 0 && 0 * (c * c) == 0);
    } else {
        let front = h.drop_last();
        assert forall|t: int| 0 <= t < front.len() implies (#[trigger] front[t]).trace[x] == c by {
            assert(front[t] == h[t]);
        }
        lemma_constant_totals(front, x, c);
        assert(h.last() == h[h.len() - 1]);
        let n = front.len() as int;
        assert((n + 1) * c == n * c + c && (n + 1) * (c * c) == n * (c * c) + c * c)
            by (nonlinear_arith);
    }
}

/// A sample that is the same in every trace has no correlation with any
/// guess, and is never the maximum of a guess's row.
pub proof fn law_constant_sample_never_wins(
    h: Seq<Observation>,
    samples: nat,
    guesses: nat,
    g: int,
    x: int,
    c: int,
)
    requires
        0 <= g < guesses,
        0 <= x < samples,
        forall|t: int| 0 <= t < h.len() ==> (#[trigger] h[t]).trace[x] == c,
    ensures
        !Sums::of(h, samples, guesses).correlations()[g][x].defined(),
        first_maximum(Sums::of(h, samples, guesses).correlations()[g]) != x,
{
    lemma_constant_totals(h, x, c);
    let n = h.len() as int;
    assert(n * (n * (c * c)) - (n * c) * (n * c) == 0) by (nonlinear_arith);
    lemma_first_maximum(Sums::of(h, samples, guesses).correlations()[g]);
}

/// No correlation that does not exist is the maximum of its row, and no
/// guess but guess 0 is the best guess unless its maximum exists and is
/// positive.
pub proof fn law_undefined_never_wins(row: Seq<Ratio>, maxima: Seq<Ratio>)
    ensures
        first_maximum(row) >= 0 ==> row[first_maximum(row)].defined(),
        maximum(row).defined() <==> exists|x: int| 0 <= x < row.len() && (#[trigger] row[x]).defined(),
        0 <= best_guess(maxima),
        maxima.len() > 0 ==> best_guess(maxima) < maxima.len(),
        best_guess(maxima) != 0 ==> maxima[best_guess(maxima)].positive(),
{
    lemma_first_maximum(row);
    lemma_first_maximum(maxima);
    if first_maximum(row) >= 0 {
        assert(row[first_maximum(row)].defined());
    }
}

/// The totals of a sample that is, in every trace, the hypothesis of one
/// guess.
proof fn lemma_leaked_totals(h: Seq<Observation>, t: int, x: int)
    requires
        forall|i: int| 0 <= i < h.len() ==> (#[trigger] h[i]).trace[x] == h[i].model[t],
    ensures
        total(h, sample_at(x)) == total(h, hypothesis_at(t)),
        total(h, sample_square_at(x)) == total(h, hypothesis_square_at(t)),
        total(h, product_at(t, x)) == total(h, hypothesis_square_at(t)),
    decreases h.len(),
{
    if h.len() > 0 {
        let front = h.drop_last();
        assert forall|i: int| 0 <= i < front.len() implies (#[trigger] front[i]).trace[x]
            == front[i].model[t] by {
            assert(front[i] == h[i]);
        }
        lemma_leaked_totals(front, t, x);
        assert(h.last() == h[h.len() - 1]);
    }
}

/// A perfect correlation is above every existing one that is not perfect,
/// and none is above it, as long as no correlation exceeds one.
proof fn lemma_perfect_is_greatest(p: Ratio, r: Ratio)
    requires
        p.perfect(),
        r.defined(),
        r.num * r.num <= r.var_x * r.var_y,
    ensures
        !r.above(p),
        !r.perfect() ==> p.above(r),
        !p.above(r) ==> r.perfect(),
{
    let v = p.var_x * p.var_y;
    let w = r.var_x * r.var_y;
    let a = r.num * r.num;
    assert(v > 0) by (nonlinear_arith)
        requires
            v == p.var_x * p.var_y,
            p.var_x > 0,
            p.var_y > 0,
    ;
    assert(p.num * p.num == v);
    assert(a * v <= v * w) by (nonlinear_arith)
        requires
            a <= w,
            v > 0,
    ;
    if a < w {
        assert(v * w > a * v) by (nonlinear_arith)
            requires
                a < w,
                v > 0,
        ;
    }
}

/// Where one sample of every trace is exactly what the model predicts for
/// one guess, the prediction varies over the traces, and no other guess
/// correlates perfectly with any sample, the best guess is that guess.
pub proof fn law_exact_leak_is_found(
    h: Seq<Observation>,
    samples: nat,
    guesses: nat,
    t: int,
    x: int,
)
    requires
        0 <= t < guesses,
        0 <= x < samples,
        forall|i: int| 0 <= i < h.len() ==> (#[trigger] h[i]).trace[x] == h[i].model[t],
        Sums::of(h, samples, guesses).correlation(t, x).defined(),
        forall|g: int, y: int|
            0 <= g < guesses && g != t && 0 <= y < samples ==> !(#[trigger] Sums::of(
                h,
                samples,
                guesses,
            ).correlation(g, y)).perfect(),
    ensures
        Sums::of(h, samples, guesses).correlation(t, x).perfect(),
        best_guess(row_maxima(Sums::of(h, samples, guesses).correlations())) == t,
{
    let s = Sums::of(h, samples, guesses);
    let rows = s.correlations();
    let m = row_maxima(rows);
    let p = s.correlation(t, x);
    lemma_leaked_totals(h, t, x);
    law_variances_are_not_negative(h, samples, guesses, t, x);
    assert(p.num == p.var_x && p.var_x == p.var_y);
    assert(p.perfect());
    assert forall|g: int, y: int| 0 <= g < guesses && 0 <= y < samples implies (
    #[trigger] rows[g][y]).num * rows[g][y].num <= rows[g][y].var_x * rows[g][y].var_y by {
        law_correlation_is_at_most_one(h, samples, guesses, g, y);
    }
    // The maximum of the row of `t` is perfect.
    lemma_first_maximum(rows[t]);
    assert(rows[t][x] == p);
    let k = first_maximum(rows[t]);
    assert(k >= 0);
    assert(!rows[t][x].above(rows[t][k]));
    lemma_perfect_is_greatest(p, rows[t][k]);
    assert(m[t].perfect());
    // The maximum of every other row is not.
    assert forall|g: int| 0 <= g < guesses && g != t implies !(#[trigger] m[g]).perfect() by {
        lemma_first_maximum(rows[g]);
        let j = first_maximum(rows[g]);
        if j >= 0 {
            assert(rows[g][j] == s.correlation(g, j));
        }
    }
    lemma_first_maximum(m);
    let best = first_maximum(m);
    assert(m[t].defined());
    assert(best >= 0);
    if best != t {
        lemma_first_maximum(rows[best]);
        let j = first_maximum(rows[best]);
        assert(j >= 0);
        assert(m[best] == rows[best][j]);
        lemma_perfect_is_greatest(m[t], m[best]);
        assert(m[t].above(m[best]));
    }
    assert(m[t].num > 0) by (nonlinear_arith)
        requires
            m[t].num * m[t].num == m[t].var_x * m[t].var_y,
            m[t].var_x > 0,
            m[t].var_y > 0,
            m[t].num >= 0,
    ;
}

/// A new accumulator with a checkpoint interval set is on schedule.
pub proof fn law_new_is_on_schedule(samples: nat, guesses: nat, interval: nat)
    requires
        interval > 0,
    ensures
        (Core { rank_traces: interval, ..Core::empty(samples, guesses) }).on_schedule(),
{
    vstd::arithmetic::div_mod::lemma_fundamental_div_mod_converse(0, interval as int, 0, 0);
}

/// An accumulator on schedule stays on schedule when more traces are folded
/// in and a checkpoint is taken if it is due, as long as the traces do not
/// pass a multiple of the interval. A single trace never does.
pub proof fn law_checkpoints_stay_on_schedule(c: Core, batch: Seq<Observation>)
    requires
        c.on_schedule(),
        batch.len() > 0,
        batch.len() == 1 || lands(c.history.len() as int, batch.len() as int, c.rank_traces as int),
    ensures
        c.ingest(batch).checkpoint_if_due().on_schedule(),
{
    let fed = c.ingest(batch);
    assert(fed.history.take(c.history.len() as int) =~= c.history);
    lemma_schedule_step(c, fed);
}

/// The accumulator that keeps its sums per partition stays on schedule in the
/// same way: with every trace folded in and a checkpoint taken if it is due,
/// its rank curve follows the history.
pub proof fn law_partitioned_checkpoints_stay_on_schedule(s: cpa::State, o: Observation)
    requires
        s.core.on_schedule(),
    ensures
        s.ingest(o).checkpoint_if_due().core.on_schedule(),
{
    let direct = Core {
        sums: Sums::of(s.core.history, s.core.samples, s.core.guesses),
        ..s.core
    };
    let fed = direct.ingest(seq![o]);
    assert(fed.history.take(direct.history.len() as int) =~= direct.history);
    lemma_schedule_step(direct, fed);
    let after = s.ingest(o).checkpoint_if_due().core;
    let of = Sums::of(fed.history, s.core.samples, s.core.guesses);
    assert((Sums { cov: of.cov, ..s.ingest(o).core.sums }) =~~= of);
    assert(after.derived.checkpoints =~= fed.checkpoint_if_due().derived.checkpoints);
    assert(after.history == fed.checkpoint_if_due().history);
}

/// On schedule, the rank curve has one column for every full checkpoint
/// interval of traces, and column `k` holds, for every guess, the greatest
/// correlation that a finalisation after `(k + 1)` intervals gives.
pub proof fn law_rank_curve(c: Core)
    requires
        c.wf(),
        c.on_schedule(),
    ensures
        forall|g: int|
            0 <= g < c.guesses ==> (#[trigger] c.derived.rank_slice[g]).len() == c.history.len()
                / c.rank_traces,
        forall|g: int, k: int|
            0 <= g < c.guesses && 0 <= k < c.history.len() / c.rank_traces ==> (
            #[trigger] c.derived.rank_slice[g][k]) == row_maxima(
                Sums::of(
                    c.history.take((k + 1) * (c.rank_traces as int)),
                    c.samples,
                    c.guesses,
                ).correlations(),
            )[g],
{
    assert forall|g: int, k: int|
        0 <= g < c.guesses && 0 <= k < c.history.len() / c.rank_traces implies (
    #[trigger] c.derived.rank_slice[g][k]) == row_maxima(
        Sums::of(
            c.history.take((k + 1) * (c.rank_traces as int)),
            c.samples,
            c.guesses,
        ).correlations(),
    )[g] by {
        let sums = c.derived.checkpoints[k];
        assert(c.derived.rank_slice[g][k] == maximum(sums.correlations()[g]));
    }
}

/// The variances behind a correlation are never negative: a correlation is
/// undefined exactly where the samples or the hypotheses have no variance at
/// all.
pub proof fn law_variances_are_not_negative(
    h: Seq<Observation>,
    samples: nat,
    guesses: nat,
    g: int,
    x: int,
)
    requires
        0 <= g < guesses,
        0 <= x < samples,
    ensures
        ({
            let s = Sums::of(h, samples, guesses);
            &&& s.count * s.sig_leakages[x] - s.sum_leakages[x] * s.sum_leakages[x] >= 0
            &&& s.count * s.sig_keys[g] - s.sum_keys[g] * s.sum_keys[g] >= 0
            &&& s.correlation(g, x).var_x == s.count * s.sig_leakages[x] - s.sum_leakages[x]
                * s.sum_leakages[x]
            &&& s.correlation(g, x).var_y == s.count * s.sig_keys[g] - s.sum_keys[g]
                * s.sum_keys[g]
        }),
{
    lemma_variance_not_negative(h, sample_at(x), sample_square_at(x));
    lemma_variance_not_negative(h, hypothesis_at(g), hypothesis_square_at(g));
}

/// No correlation exceeds one: the square of the covariance is at most the
/// product of the variances.
pub proof fn law_correlation_is_at_most_one(
    h: Seq<Observation>,
    samples: nat,
    guesses: nat,
    g: int,
    x: int,
)
    requires
        0 <= g < guesses,
        0 <= x < samples,
    ensures
        ({
            let r = Sums::of(h, samples, guesses).correlation(g, x);
            r.num * r.num <= r.var_x * r.var_y
        }),
{
    law_variances_are_not_negative(h, samples, guesses, g, x);
    lemma_covariance_bound(
        h,
        sample_at(x),
        hypothesis_at(g),
        sample_square_at(x),
        hypothesis_square_at(g),
        product_at(g, x),
    );
    let s = Sums::of(h, samples, guesses);
    let c = s.count * s.cov[g][x] - s.sum_leakages[x] * s.sum_keys[g];
    let r = s.correlation(g, x);
    assert(r.num * r.num == c * c) by (nonlinear_arith)
        requires
            r.num == c || r.num == -c,
    ;
}

} // verus!
