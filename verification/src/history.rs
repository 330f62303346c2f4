//! What an accumulator has seen, and the sums that follow from it.
//!
//! An accumulator is described by the sequence of observations folded into
//! it. Every running sum is a total over that sequence, so the sums of a
//! concatenation are the sums of the parts added up, and they do not depend
//! on the order of the observations. The accumulators keep their arrays equal
//! to these totals; the correlation matrix is a function of the totals alone.

use crate::correlation::Ratio;
use vstd::prelude::*;

verus! {

/// One trace as it was folded in: its samples, the public metadata that came
/// with it, and the leakage hypothesis of every key guess for that metadata.
pub struct Observation {
    pub trace: Seq<int>,
    pub metadata: Seq<i32>,
    pub model: Seq<int>,
}

/// The most traces one accumulator takes. With 16-bit samples and
/// hypotheses, every sum of that many terms fits in an `i64`.
pub const MAX_TRACES: u32 = 0xffff_ffff;

/// Largest magnitude of a sample or of a hypothesis.
pub open spec fn value_bound() -> int {
    0x8000
}

/// Largest magnitude of a product of two such values.
pub open spec fn product_bound() -> int {
    0x4000_0000
}

/// Sample `x` of an observation.
pub open spec fn sample_at(x: int) -> spec_fn(Observation) -> int {
    |o: Observation| o.trace[x]
}

/// Square of sample `x`.
pub open spec fn sample_square_at(x: int) -> spec_fn(Observation) -> int {
    |o: Observation| o.trace[x] * o.trace[x]
}

/// Hypothesis of guess `g`.
pub open spec fn hypothesis_at(g: int) -> spec_fn(Observation) -> int {
    |o: Observation| o.model[g]
}

/// Square of the hypothesis of guess `g`.
pub open spec fn hypothesis_square_at(g: int) -> spec_fn(Observation) -> int {
    |o: Observation| o.model[g] * o.model[g]
}

/// Hypothesis of guess `g` times sample `x`.
pub open spec fn product_at(g: int, x: int) -> spec_fn(Observation) -> int {
    |o: Observation| o.model[g] * o.trace[x]
}

/// Sample `x` where metadata byte `target` has the value `b`, else zero.
pub open spec fn bucket_sample_at(target: int, b: int, x: int) -> spec_fn(Observation) -> int {
    |o: Observation|
        if o.metadata[target] == b {
            o.trace[x]
        } else {
            0
        }
}

/// The samples of a trace as mathematical integers.
pub open spec fn samples_of(trace: Seq<i16>) -> Seq<int> {
    Seq::new(trace.len(), |x: int| trace[x] as int)
}

/// The sum of `f` over a sequence of observations.
pub open spec fn total(h: Seq<Observation>, f: spec_fn(Observation) -> int) -> int
    decreases h.len(),
{
    if h.len() == 0 {
        0
    } else {
        total(h.drop_last(), f) + f(h.last())
    }
}

/// An observation of `samples` samples and `guesses` hypotheses, all of them
/// 16-bit values.
pub open spec fn valid_observation(o: Observation, samples: nat, guesses: nat) -> bool {
    &&& o.trace.len() == samples
    &&& o.model.len() == guesses
    &&& forall|x: int| 0 <= x < samples ==> -value_bound() <= #[trigger] o.trace[x] < value_bound()
    &&& forall|g: int| 0 <= g < guesses ==> -value_bound() <= #[trigger] o.model[g] < value_bound()
}

/// Every observation of the history is valid.
pub open spec fn valid_history(h: Seq<Observation>, samples: nat, guesses: nat) -> bool {
    forall|t: int| 0 <= t < h.len() ==> valid_observation(#[trigger] h[t], samples, guesses)
}

/// The additive state of an accumulator.
#[verifier::ext_equal]
pub struct Sums {
    /// Number of traces.
    pub count: int,
    /// Per sample, the sum of the samples.
    pub sum_leakages: Seq<int>,
    /// Per sample, the sum of the squared samples.
    pub sig_leakages: Seq<int>,
    /// Per guess, the sum of the hypotheses.
    pub sum_keys: Seq<int>,
    /// Per guess, the sum of the squared hypotheses.
    pub sig_keys: Seq<int>,
    /// Per guess and sample, the sum of hypothesis times sample.
    pub cov: Seq<Seq<int>>,
}

impl Sums {
    /// The sums of a history.
    pub open spec fn of(h: Seq<Observation>, samples: nat, guesses: nat) -> Sums {
        Sums {
            count: h.len() as int,
            sum_leakages: Seq::new(samples, |x: int| total(h, sample_at(x))),
            sig_leakages: Seq::new(samples, |x: int| total(h, sample_square_at(x))),
            sum_keys: Seq::new(guesses, |g: int| total(h, hypothesis_at(g))),
            sig_keys: Seq::new(guesses, |g: int| total(h, hypothesis_square_at(g))),
            cov: Seq::new(guesses, |g: int| Seq::new(samples, |x: int| total(h, product_at(g, x)))),
        }
    }

    /// All sums are of the given dimensions.
    pub open spec fn shaped(self, samples: nat, guesses: nat) -> bool {
        &&& self.sum_leakages.len() == samples
        &&& self.sig_leakages.len() == samples
        &&& self.sum_keys.len() == guesses
        &&& self.sig_keys.len() == guesses
        &&& self.cov.len() == guesses
        &&& forall|g: int| 0 <= g < guesses ==> (#[trigger] self.cov[g]).len() == samples
    }

    /// Element-wise sum of two states of one shape.
    pub open spec fn plus(self, other: Sums) -> Sums {
        Sums {
            count: self.count + other.count,
            sum_leakages: Seq::new(
                self.sum_leakages.len(),
                |x: int| self.sum_leakages[x] + other.sum_leakages[x],
            ),
            sig_leakages: Seq::new(
                self.sig_leakages.len(),
                |x: int| self.sig_leakages[x] + other.sig_leakages[x],
            ),
            sum_keys: Seq::new(self.sum_keys.len(), |g: int| self.sum_keys[g] + other.sum_keys[g]),
            sig_keys: Seq::new(self.sig_keys.len(), |g: int| self.sig_keys[g] + other.sig_keys[g]),
            cov: Seq::new(
                self.cov.len(),
                |g: int| Seq::new(self.cov[g].len(), |x: int| self.cov[g][x] + other.cov[g][x]),
            ),
        }
    }

    /// The sums per sample and per guess are no larger than `n` traces can
    /// make them.
    pub open spec fn tallies_within(self, n: int) -> bool {
        &&& forall|x: int|
            0 <= x < self.sum_leakages.len() ==> -n * value_bound() <= #[trigger] self.sum_leakages[x]
                <= n * value_bound()
        &&& forall|x: int|
            0 <= x < self.sig_leakages.len() ==> 0 <= #[trigger] self.sig_leakages[x] <= n
                * product_bound()
        &&& forall|g: int|
            0 <= g < self.sum_keys.len() ==> -n * value_bound() <= #[trigger] self.sum_keys[g] <= n
                * value_bound()
        &&& forall|g: int|
            0 <= g < self.sig_keys.len() ==> 0 <= #[trigger] self.sig_keys[g] <= n
                * product_bound()
    }

    /// The sums per guess and sample are no larger than `n` terms of
    /// magnitude `bound` can make them.
    pub open spec fn cov_within(self, n: int, bound: int) -> bool {
        forall|g: int, x: int|
            0 <= g < self.cov.len() && 0 <= x < self.cov[g].len() ==> -n * bound
                <= #[trigger] self.cov[g][x] <= n * bound
    }

    /// The correlation of guess `g` with sample `x`.
    pub open spec fn correlation(self, g: int, x: int) -> Ratio {
        Ratio::of_sums(
            self.count,
            self.cov[g][x],
            self.sum_leakages[x],
            self.sig_leakages[x],
            self.sum_keys[g],
            self.sig_keys[g],
        )
    }

    /// The correlation matrix, one row per guess.
    pub open spec fn correlations(self) -> Seq<Seq<Ratio>> {
        Seq::new(
            self.sum_keys.len(),
            |g: int| Seq::new(self.sum_leakages.len(), |x: int| self.correlation(g, x)),
        )
    }
}

/// Folding one more observation in adds its term.
pub proof fn lemma_total_push(h: Seq<Observation>, o: Observation, f: spec_fn(Observation) -> int)
    ensures
        total(h.push(o), f) == total(h, f) + f(o),
{
    assert(h.push(o).drop_last() =~= h);
}

/// The total over a concatenation is the sum of the totals.
pub proof fn lemma_total_concat(
    a: Seq<Observation>,
    b: Seq<Observation>,
    f: spec_fn(Observation) -> int,
)
    ensures
        total(a + b, f) == total(a, f) + total(b, f),
    decreases b.len(),
{
    if b.len() == 0 {
        assert(a + b =~= a);
    } else {
        assert((a + b).drop_last() =~= a + b.drop_last());
        lemma_total_concat(a, b.drop_last(), f);
    }
}

/// A total of bounded terms is bounded by the bound times the number of
/// terms.
pub proof fn lemma_total_bounds(
    h: Seq<Observation>,
    f: spec_fn(Observation) -> int,
    low: int,
    high: int,
)
    requires
        forall|t: int| 0 <= t < h.len() ==> low <= f(#[trigger] h[t]) <= high,
    ensures
        h.len() * low <= total(h, f) <= h.len() * high,
    decreases h.len(),
{
    if h.len() > 0 {
        let front = h.drop_last();
        assert forall|t: int| 0 <= t < front.len() implies low <= f(#[trigger] front[t]) <= high by {
            assert(front[t] == h[t]);
        }
        lemma_total_bounds(front, f, low, high);
        let n = front.len() as int;
        assert((n + 1) * low == n * low + low && (n + 1) * high == n * high + high)
            by (nonlinear_arith);
        assert(low <= f(h[h.len() - 1]) <= high);
    } else {
        assert(0 * low == 0 && 0 * high == 0);
    }
}

/// Removing one observation removes its term.
pub proof fn lemma_total_remove(h: Seq<Observation>, i: int, f: spec_fn(Observation) -> int)
    requires
        0 <= i < h.len(),
    ensures
        total(h, f) == total(h.remove(i), f) + f(h[i]),
{
    let left = h.subrange(0, i);
    let right = h.subrange(i + 1, h.len() as int);
    assert(h =~= left.push(h[i]) + right);
    lemma_total_concat(left.push(h[i]), right, f);
    lemma_total_push(left, h[i], f);
    lemma_total_concat(left, right, f);
}

/// A total does not depend on the order of the observations.
pub proof fn lemma_total_permutation(
    a: Seq<Observation>,
    b: Seq<Observation>,
    f: spec_fn(Observation) -> int,
)
    requires
        a.to_multiset() == b.to_multiset(),
    ensures
        total(a, f) == total(b, f),
    decreases a.len(),
{
    broadcast use vstd::seq_lib::group_to_multiset_ensures;

    a.to_multiset_ensures();
    b.to_multiset_ensures();
    if a.len() == 0 {
        assert(b.len() == 0);
    } else {
        let o = a.last();
        assert(a.to_multiset().count(o) > 0) by {
            assert(a.contains(o));
        }
        assert(b.contains(o));
        let i = choose|i: int| 0 <= i < b.len() && b[i] == o;
        let front = a.drop_last();
        assert(a =~= front.push(o));
        assert(front.to_multiset() =~= a.to_multiset().remove(o)) by {
            assert(a.remove(a.len() - 1) =~= front);
            vstd::seq_lib::to_multiset_remove(a, a.len() - 1);
        }
        assert(b.remove(i).to_multiset() =~= b.to_multiset().remove(o)) by {
            vstd::seq_lib::to_multiset_remove(b, i);
        }
        lemma_total_permutation(front, b.remove(i), f);
        lemma_total_remove(b, i, f);
    }
}

/// Bounds of the five totals of a valid history.
pub proof fn lemma_sums_bounded(h: Seq<Observation>, samples: nat, guesses: nat, g: int, x: int)
    requires
        valid_history(h, samples, guesses),
        0 <= g < guesses,
        0 <= x < samples,
    ensures
        -h.len() * value_bound() <= total(h, sample_at(x)) <= h.len() * value_bound(),
        0 <= total(h, sample_square_at(x)) <= h.len() * product_bound(),
        -h.len() * value_bound() <= total(h, hypothesis_at(g)) <= h.len() * value_bound(),
        0 <= total(h, hypothesis_square_at(g)) <= h.len() * product_bound(),
        -h.len() * product_bound() <= total(h, product_at(g, x)) <= h.len() * product_bound(),
{
    let n = h.len() as int;
    assert forall|t: int| 0 <= t < h.len() implies -value_bound() <= sample_at(x)(#[trigger] h[t])
        <= value_bound() && -value_bound() <= hypothesis_at(g)(h[t]) <= value_bound() && 0
        <= sample_square_at(x)(h[t]) <= product_bound() && 0 <= hypothesis_square_at(g)(h[t])
        <= product_bound() && -product_bound() <= product_at(g, x)(h[t]) <= product_bound() by {
        let o = h[t];
        assert(valid_observation(o, samples, guesses));
        let a = o.trace[x];
        let b = o.model[g];
        assert(0 <= a * a <= 0x4000_0000 && 0 <= b * b <= 0x4000_0000 && -0x4000_0000 <= b * a
            <= 0x4000_0000) by (nonlinear_arith)
            requires
                -0x8000 <= a <= 0x8000,
                -0x8000 <= b <= 0x8000,
        ;
    }
    lemma_total_bounds(h, sample_at(x), -value_bound(), value_bound());
    lemma_total_bounds(h, sample_square_at(x), 0, product_bound());
    lemma_total_bounds(h, hypothesis_at(g), -value_bound(), value_bound());
    lemma_total_bounds(h, hypothesis_square_at(g), 0, product_bound());
    lemma_total_bounds(h, product_at(g, x), -product_bound(), product_bound());
    assert(n * (-value_bound()) == -n * value_bound() && n * (-product_bound()) == -n
        * product_bound() && n * 0 == 0) by (nonlinear_arith);
}

/// The sums of a valid history are within what its length allows.
pub proof fn lemma_sums_within(h: Seq<Observation>, samples: nat, guesses: nat)
    requires
        valid_history(h, samples, guesses),
        samples > 0,
        guesses > 0,
    ensures
        Sums::of(h, samples, guesses).tallies_within(h.len() as int),
        Sums::of(h, samples, guesses).cov_within(h.len() as int, product_bound()),
{
    let s = Sums::of(h, samples, guesses);
    let n = h.len() as int;
    assert forall|x: int| 0 <= x < samples implies -n * value_bound() <= #[trigger] s.sum_leakages[x]
        <= n * value_bound() by {
        lemma_sums_bounded(h, samples, guesses, 0, x);
    }
    assert forall|x: int| 0 <= x < samples implies 0 <= #[trigger] s.sig_leakages[x] <= n
        * product_bound() by {
        lemma_sums_bounded(h, samples, guesses, 0, x);
    }
    assert forall|g: int| 0 <= g < guesses implies -n * value_bound() <= #[trigger] s.sum_keys[g]
        <= n * value_bound() by {
        lemma_sums_bounded(h, samples, guesses, g, 0);
    }
    assert forall|g: int| 0 <= g < guesses implies 0 <= #[trigger] s.sig_keys[g] <= n
        * product_bound() by {
        lemma_sums_bounded(h, samples, guesses, g, 0);
    }
    assert forall|g: int, x: int| 0 <= g < s.cov.len() && 0 <= x < s.cov[g].len() implies -n
        * product_bound() <= #[trigger] s.cov[g][x] <= n * product_bound() by {
        lemma_sums_bounded(h, samples, guesses, g, x);
    }
}

/// The squared distance of `f` from `a`.
pub open spec fn distance_square(f: spec_fn(Observation) -> int, a: int) -> spec_fn(
    Observation,
) -> int {
    |o: Observation| (f(o) - a) * (f(o) - a)
}

/// A total of terms that are not negative is not negative.
pub proof fn lemma_total_not_negative(h: Seq<Observation>, f: spec_fn(Observation) -> int)
    requires
        forall|t: int| 0 <= t < h.len() ==> f(#[trigger] h[t]) >= 0,
    ensures
        total(h, f) >= 0,
    decreases h.len(),
{
    if h.len() > 0 {
        let front = h.drop_last();
        assert forall|t: int| 0 <= t < front.len() implies f(#[trigger] front[t]) >= 0 by {
            assert(front[t] == h[t]);
        }
        lemma_total_not_negative(front, f);
        assert(f(h[h.len() - 1]) >= 0);
    }
}

/// The squared distances from `a` add up to `Σf² − 2a·Σf + n·a²`.
pub proof fn lemma_total_distance(
    h: Seq<Observation>,
    f: spec_fn(Observation) -> int,
    squares: spec_fn(Observation) -> int,
    a: int,
)
    requires
        forall|t: int| 0 <= t < h.len() ==> squares(#[trigger] h[t]) == f(h[t]) * f(h[t]),
    ensures
        total(h, distance_square(f, a)) == total(h, squares) - 2 * a * total(h, f) + h.len() * (a
            * a),
    decreases h.len(),
{
    if h.len() == 0 {
        assert(0 * (a * a) == 0);
        assert(2 * a * 0 == 0);
    } else {
        let front = h.drop_last();
        let o = h.last();
        assert forall|t: int| 0 <= t < front.len() implies squares(#[trigger] front[t]) == f(
            front[t],
        ) * f(front[t]) by {
            assert(front[t] == h[t]);
        }
        lemma_total_distance(front, f, squares, a);
        assert(o == h[h.len() - 1]);
        let n = front.len() as int;
        let s = total(front, f);
        let q = total(front, squares);
        let v = f(o);
        assert(squares(o) == v * v);
        assert((q - 2 * a * s + n * (a * a)) + (v - a) * (v - a) == (q + v * v) - 2 * a * (s + v)
            + (n + 1) * (a * a)) by (nonlinear_arith);
    }
}

/// The variance numerator `n·Σf² − (Σf)²` of any history is not negative.
pub proof fn lemma_variance_not_negative(
    h: Seq<Observation>,
    f: spec_fn(Observation) -> int,
    squares: spec_fn(Observation) -> int,
)
    requires
        forall|t: int| 0 <= t < h.len() ==> squares(#[trigger] h[t]) == f(h[t]) * f(h[t]),
    ensures
        h.len() * total(h, squares) - total(h, f) * total(h, f) >= 0,
    decreases h.len(),
{
    if h.len() == 0 {
        assert(0 * total(h, squares) - 0 * 0 >= 0) by (nonlinear_arith);
    } else {
        let front = h.drop_last();
        let o = h.last();
        assert forall|t: int| 0 <= t < front.len() implies squares(#[trigger] front[t]) == f(
            front[t],
        ) * f(front[t]) by {
            assert(front[t] == h[t]);
        }
        lemma_variance_not_negative(front, f, squares);
        assert(o == h[h.len() - 1]);
        let n = front.len() as int;
        let s = total(front, f);
        let q = total(front, squares);
        let a = f(o);
        assert(squares(o) == a * a);
        // What the new observation adds is the sum of its squared distances
        // from the others.
        lemma_total_distance(front, f, squares, a);
        let d = total(front, distance_square(f, a));
        assert(d >= 0) by {
            assert forall|t: int| 0 <= t < front.len() implies distance_square(f, a)(
                #[trigger] front[t],
            ) >= 0 by {
                let x = f(front[t]) - a;
                assert(x * x >= 0) by (nonlinear_arith);
            }
            lemma_total_not_negative(front, distance_square(f, a));
        }
        assert((n + 1) * (q + a * a) - (s + a) * (s + a) == (n * q - s * s) + (q - 2 * a * s + n
            * (a * a))) by (nonlinear_arith);
    }
}

/// `m` times `f` less `l` times `g`.
pub open spec fn combination(
    f: spec_fn(Observation) -> int,
    g: spec_fn(Observation) -> int,
    m: int,
    l: int,
) -> spec_fn(Observation) -> int {
    |o: Observation| m * f(o) - l * g(o)
}

/// The square of `m` times `f` less `l` times `g`.
pub open spec fn combination_square(
    f: spec_fn(Observation) -> int,
    g: spec_fn(Observation) -> int,
    m: int,
    l: int,
) -> spec_fn(Observation) -> int {
    |o: Observation| (m * f(o) - l * g(o)) * (m * f(o) - l * g(o))
}

/// Totals are linear, and the total of the squares of a combination of `f`
/// and `g` follows from the totals of `f²`, `g²` and `f·g`.
pub proof fn lemma_total_combination(
    h: Seq<Observation>,
    f: spec_fn(Observation) -> int,
    g: spec_fn(Observation) -> int,
    ff: spec_fn(Observation) -> int,
    gg: spec_fn(Observation) -> int,
    fg: spec_fn(Observation) -> int,
    m: int,
    l: int,
)
    requires
        forall|t: int| 0 <= t < h.len() ==> ff(#[trigger] h[t]) == f(h[t]) * f(h[t]),
        forall|t: int| 0 <= t < h.len() ==> gg(#[trigger] h[t]) == g(h[t]) * g(h[t]),
        forall|t: int| 0 <= t < h.len() ==> fg(#[trigger] h[t]) == g(h[t]) * f(h[t]),
    ensures
        total(h, combination(f, g, m, l)) == m * total(h, f) - l * total(h, g),
        total(h, combination_square(f, g, m, l)) == (m * m) * total(h, ff) - (2 * l * m) * total(
            h,
            fg,
        ) + (l * l) * total(h, gg),
    decreases h.len(),
{
    if h.len() == 0 {
        assert(m * 0 - l * 0 == 0);
        assert((m * m) * 0 - (2 * l * m) * 0 + (l * l) * 0 == 0);
    } else {
        let front = h.drop_last();
        let o = h.last();
        assert forall|t: int| 0 <= t < front.len() implies ff(#[trigger] front[t]) == f(front[t])
            * f(front[t]) && gg(front[t]) == g(front[t]) * g(front[t]) && fg(front[t]) == g(
            front[t],
        ) * f(front[t]) by {
            assert(front[t] == h[t]);
        }
        lemma_total_combination(front, f, g, ff, gg, fg, m, l);
        assert(o == h[h.len() - 1]);
        let a = f(o);
        let b = g(o);
        let sf = total(front, f);
        let sg = total(front, g);
        let qf = total(front, ff);
        let qg = total(front, gg);
        let p = total(front, fg);
        assert(ff(o) == a * a && gg(o) == b * b && fg(o) == b * a);
        assert(m * (sf + a) == m * sf + m * a && l * (sg + b) == l * sg + l * b)
            by (nonlinear_arith);
        let u = m * a;
        let v = l * b;
        assert((u - v) * (u - v) == u * u - 2 * (u * v) + v * v) by (nonlinear_arith);
        assert(u * u == (m * m) * (a * a)) by (nonlinear_arith)
            requires
                u == m * a,
        ;
        assert(v * v == (l * l) * (b * b)) by (nonlinear_arith)
            requires
                v == l * b,
        ;
        assert(2 * (u * v) == (2 * l * m) * (b * a)) by (nonlinear_arith)
            requires
                u == m * a,
                v == l * b,
        ;
        assert((m * m) * (qf + a * a) == (m * m) * qf + (m * m) * (a * a)) by (nonlinear_arith);
        assert((l * l) * (qg + b * b) == (l * l) * qg + (l * l) * (b * b)) by (nonlinear_arith);
        assert((2 * l * m) * (p + b * a) == (2 * l * m) * p + (2 * l * m) * (b * a))
            by (nonlinear_arith);
    }
}

/// The inequality of Cauchy and Schwarz for totals: the square of the
/// covariance numerator is at most the product of the variance numerators.
pub proof fn lemma_covariance_bound(
    h: Seq<Observation>,
    f: spec_fn(Observation) -> int,
    g: spec_fn(Observation) -> int,
    ff: spec_fn(Observation) -> int,
    gg: spec_fn(Observation) -> int,
    fg: spec_fn(Observation) -> int,
)
    requires
        forall|t: int| 0 <= t < h.len() ==> ff(#[trigger] h[t]) == f(h[t]) * f(h[t]),
        forall|t: int| 0 <= t < h.len() ==> gg(#[trigger] h[t]) == g(h[t]) * g(h[t]),
        forall|t: int| 0 <= t < h.len() ==> fg(#[trigger] h[t]) == g(h[t]) * f(h[t]),
    ensures
        ({
            let n = h.len() as int;
            let covariance = n * total(h, fg) - total(h, f) * total(h, g);
            let var_f = n * total(h, ff) - total(h, f) * total(h, f);
            let var_g = n * total(h, gg) - total(h, g) * total(h, g);
            covariance * covariance <= var_f * var_g
        }),
{
    let n = h.len() as int;
    let sf = total(h, f);
    let sg = total(h, g);
    let qf = total(h, ff);
    let qg = total(h, gg);
    let p = total(h, fg);
    let c = n * p - sf * sg;
    let vf = n * qf - sf * sf;
    let vg = n * qg - sg * sg;
    lemma_variance_not_negative(h, f, ff);
    lemma_variance_not_negative(h, g, gg);
    // The variance of `m·f − l·g` is `m²·vf − 2·l·m·c + l²·vg`, and it is
    // not negative, whatever `m` and `l`.
    let m = if vg > 0 {
        vg
    } else {
        1
    };
    let l = if vg > 0 {
        c
    } else {
        c * (vf + 1)
    };
    lemma_total_combination(h, f, g, ff, gg, fg, m, l);
    let z = combination(f, g, m, l);
    let zz = combination_square(f, g, m, l);
    assert forall|t: int| 0 <= t < h.len() implies zz(#[trigger] h[t]) == z(h[t]) * z(h[t]) by {}
    lemma_variance_not_negative(h, z, zz);
    let sz = total(h, z);
    let qz = total(h, zz);
    let mm = m * m;
    let ll = l * l;
    let lm = 2 * l * m;
    let variance = mm * vf - lm * c + ll * vg;
    assert(n * qz - sz * sz == variance) by {
        let u = m * sf;
        let v = l * sg;
        assert(sz * sz == u * u - 2 * (u * v) + v * v) by (nonlinear_arith)
            requires
                sz == u - v,
        ;
        assert(u * u == mm * (sf * sf)) by (nonlinear_arith)
            requires
                u == m * sf,
                mm == m * m,
        ;
        assert(v * v == ll * (sg * sg)) by (nonlinear_arith)
            requires
                v == l * sg,
                ll == l * l,
        ;
        assert(2 * (u * v) == lm * (sf * sg)) by (nonlinear_arith)
            requires
                u == m * sf,
                v == l * sg,
                lm == 2 * l * m,
        ;
        assert(n * (mm * qf) == mm * (n * qf)) by (nonlinear_arith);
        assert(n * (lm * p) == lm * (n * p)) by (nonlinear_arith);
        assert(n * (ll * qg) == ll * (n * qg)) by (nonlinear_arith);
        assert(n * qz == n * (mm * qf) - n * (lm * p) + n * (ll * qg)) by (nonlinear_arith)
            requires
                qz == mm * qf - lm * p + ll * qg,
        ;
        assert(mm * vf == mm * (n * qf) - mm * (sf * sf)) by (nonlinear_arith)
            requires
                vf == n * qf - sf * sf,
        ;
        assert(lm * c == lm * (n * p) - lm * (sf * sg)) by (nonlinear_arith)
            requires
                c == n * p - sf * sg,
        ;
        assert(ll * vg == ll * (n * qg) - ll * (sg * sg)) by (nonlinear_arith)
            requires
                vg == n * qg - sg * sg,
        ;
    }
    assert(variance >= 0);
    let cc = c * c;
    assert(cc >= 0) by (nonlinear_arith)
        requires
            cc == c * c,
    ;
    if vg > 0 {
        // With `m = vg` and `l = c` the variance is `vg·(vf·vg − c²)`.
        assert(variance == vg * (vf * vg - cc)) by (nonlinear_arith)
            requires
                variance == (vg * vg) * vf - (2 * c * vg) * c + cc * vg,
                cc == c * c,
        ;
        assert(vf * vg - cc >= 0) by (nonlinear_arith)
            requires
                vg * (vf * vg - cc) >= 0,
                vg > 0,
        ;
    } else {
        // With `m = 1` and `l = c·(vf + 1)` the variance is
        // `vf − 2·c²·(vf + 1)`, which is negative unless `c` is zero.
        assert(ll * vg == 0) by (nonlinear_arith)
            requires
                vg == 0,
        ;
        assert(lm * c == 2 * (cc * (vf + 1))) by (nonlinear_arith)
            requires
                lm == 2 * (c * (vf + 1)) * 1,
                cc == c * c,
        ;
        assert(mm * vf == vf) by (nonlinear_arith)
            requires
                mm == 1 * 1,
        ;
        assert(vf - 2 * (cc * (vf + 1)) >= 0);
        assert(cc == 0) by (nonlinear_arith)
            requires
                vf - 2 * (cc * (vf + 1)) >= 0,
                cc >= 0,
                vf >= 0,
        ;
        assert(vf * vg == 0) by (nonlinear_arith)
            requires
                vg == 0,
        ;
    }
}

} // verus!
