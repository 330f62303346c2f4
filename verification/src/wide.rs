//! Natural numbers wider than any machine integer.
//!
//! Correlations are compared exactly, as fractions, by cross-multiplication.
//! The products involved outgrow `u128`, so they are held as little-endian
//! sequences of 32-bit limbs. Only what that comparison needs is here:
//! widening a `u128`, multiplying, and ordering.

use vstd::prelude::*;

verus! {

/// The limb base, `2^32`.
pub open spec fn base() -> int {
    0x1_0000_0000
}

/// The weight of limb `k`: `base()` to the power `k`.
pub open spec fn weight(k: nat) -> int
    decreases k,
{
    if k == 0 {
        1
    } else {
        base() * weight((k - 1) as nat)
    }
}

/// The number that little-endian limbs stand for.
pub open spec fn value(limbs: Seq<u32>) -> int
    decreases limbs.len(),
{
    if limbs.len() == 0 {
        0
    } else {
        value(limbs.drop_last()) + limbs.last() as int * weight((limbs.len() - 1) as nat)
    }
}

pub proof fn lemma_weight_positive(k: nat)
    ensures
        weight(k) >= 1,
    decreases k,
{
    if k > 0 {
        lemma_weight_positive((k - 1) as nat);
        assert(base() * weight((k - 1) as nat) >= 1) by (nonlinear_arith)
            requires
                weight((k - 1) as nat) >= 1,
                base() == 0x1_0000_0000,
        ;
    }
}

pub proof fn lemma_weight_sum(a: nat, b: nat)
    ensures
        weight(a + b) == weight(a) * weight(b),
    decreases a,
{
    if a == 0 {
        assert(weight(0) == 1);
        assert(weight(a + b) == 1 * weight(b));
    } else {
        lemma_weight_sum((a - 1) as nat, b);
        let wa = weight((a - 1) as nat);
        let wb = weight(b);
        assert(weight(a + b) == base() * weight((a - 1 + b) as nat));
        assert(base() * (wa * wb) == (base() * wa) * wb) by (nonlinear_arith);
    }
}

/// A number of `n` limbs is below `weight(n)` and not negative.
pub proof fn lemma_value_bounds(limbs: Seq<u32>)
    ensures
        0 <= value(limbs) < weight(limbs.len()),
    decreases limbs.len(),
{
    if limbs.len() > 0 {
        let n = (limbs.len() - 1) as nat;
        lemma_value_bounds(limbs.drop_last());
        lemma_weight_positive(n);
        let w = weight(n);
        let d = limbs.last() as int;
        assert(0 <= d * w && d * w + w <= base() * w) by (nonlinear_arith)
            requires
                0 <= d <= base() - 1,
                w >= 1,
        ;
    }
}

/// Replacing limb `k` changes the number by the difference times the limb's
/// weight.
pub proof fn lemma_value_update(limbs: Seq<u32>, k: int, d: u32)
    requires
        0 <= k < limbs.len(),
    ensures
        value(limbs.update(k, d)) == value(limbs) + (d as int - limbs[k] as int) * weight(k as nat),
    decreases limbs.len(),
{
    let n = limbs.len() - 1;
    let after = limbs.update(k, d);
    if k == n {
        assert(after.drop_last() =~= limbs.drop_last());
        let w = weight(k as nat);
        assert(d as int * w == limbs[k] as int * w + (d as int - limbs[k] as int) * w)
            by (nonlinear_arith);
    } else {
        assert(after.drop_last() =~= limbs.drop_last().update(k, d));
        lemma_value_update(limbs.drop_last(), k, d);
    }
}

/// The number held by the first `k + 1` limbs, from that of the first `k`.
pub proof fn lemma_value_take(limbs: Seq<u32>, k: int)
    requires
        0 <= k < limbs.len(),
    ensures
        value(limbs.take(k + 1)) == value(limbs.take(k)) + limbs[k] as int * weight(k as nat),
{
    assert(limbs.take(k + 1).drop_last() =~= limbs.take(k));
}

proof fn lemma_value_zeros(limbs: Seq<u32>)
    requires
        forall|i: int| 0 <= i < limbs.len() ==> limbs[i] == 0,
    ensures
        value(limbs) == 0,
    decreases limbs.len(),
{
    if limbs.len() > 0 {
        lemma_value_zeros(limbs.drop_last());
        assert(0 * weight((limbs.len() - 1) as nat) == 0);
    }
}

/// The four limbs of a `u128`.
pub fn from_u128(x: u128) -> (limbs: Vec<u32>)
    ensures
        limbs@.len() == 4,
        value(limbs@) == x,
{
    let l0: u32 = (x % 0x1_0000_0000) as u32;
    let x1: u128 = x / 0x1_0000_0000;
    let l1: u32 = (x1 % 0x1_0000_0000) as u32;
    let x2: u128 = x1 / 0x1_0000_0000;
    let l2: u32 = (x2 % 0x1_0000_0000) as u32;
    let l3: u32 = (x2 / 0x1_0000_0000) as u32;
    let mut limbs: Vec<u32> = Vec::new();
    limbs.push(l0);
    limbs.push(l1);
    limbs.push(l2);
    limbs.push(l3);
    proof {
        let s = limbs@;
        assert(s.take(4) =~= s);
        assert(s.take(0) =~= Seq::<u32>::empty());
        lemma_value_take(s, 0);
        lemma_value_take(s, 1);
        lemma_value_take(s, 2);
        lemma_value_take(s, 3);
        assert(weight(0) == 1);
        assert(weight(1) == 0x1_0000_0000) by {
            reveal_with_fuel(weight, 2);
        }
        assert(weight(2) == 0x1_0000_0000_0000_0000) by {
            reveal_with_fuel(weight, 3);
        }
        assert(weight(3) == 0x1_0000_0000_0000_0000_0000_0000) by {
            reveal_with_fuel(weight, 4);
        }
        assert(value(s.take(0)) == 0);
        assert(value(s.take(1)) == l0 as int);
        assert(value(s.take(2)) == l0 as int + l1 as int * 0x1_0000_0000);
        assert(value(s.take(3)) == l0 as int + l1 as int * 0x1_0000_0000 + l2 as int
            * 0x1_0000_0000_0000_0000);
        assert(x == l0 as int + x1 as int * 0x1_0000_0000);
        assert(x1 == l1 as int + x2 as int * 0x1_0000_0000);
        assert(x2 == l2 as int + l3 as int * 0x1_0000_0000);
        assert(value(s) == l0 as int + l1 as int * 0x1_0000_0000 + l2 as int
            * 0x1_0000_0000_0000_0000 + l3 as int * 0x1_0000_0000_0000_0000_0000_0000);
        assert(x == l0 as int + (l1 as int + (l2 as int + l3 as int * 0x1_0000_0000)
            * 0x1_0000_0000) * 0x1_0000_0000);
    }
    limbs
}

/// The product of two numbers, in as many limbs as both have together.
pub fn multiply(a: &Vec<u32>, b: &Vec<u32>) -> (p: Vec<u32>)
    requires
        a@.len() + b@.len() <= usize::MAX,
    ensures
        p@.len() == a@.len() + b@.len(),
        value(p@) == value(a@) * value(b@),
{
    let n = a.len();
    let m = b.len();
    let mut p: Vec<u32> = Vec::new();
    let mut k: usize = 0;
    while k < n + m
        invariant
            k <= n + m,
            n + m <= usize::MAX,
            p@.len() == k,
            forall|i: int| 0 <= i < k ==> p@[i] == 0,
        decreases n + m - k,
    {
        p.push(0);
        k += 1;
    }
    proof {
        lemma_value_zeros(p@);
        assert(a@.take(0) =~= Seq::<u32>::empty());
        assert(value(a@.take(0)) * value(b@) == 0) by (nonlinear_arith)
            requires
                value(a@.take(0)) == 0,
        ;
    }
    let mut i: usize = 0;
    while i < n
        invariant
            i <= n,
            n + m <= usize::MAX,
            n == a@.len(),
            m == b@.len(),
            p@.len() == n + m,
            value(p@) == value(a@.take(i as int)) * value(b@),
            forall|t: int| i + m <= t < n + m ==> p@[t] == 0,
        decreases n - i,
    {
        let ghost before = value(p@);
        let ai: u64 = a[i] as u64;
        let mut carry: u64 = 0;
        let mut j: usize = 0;
        proof {
            assert(b@.take(0) =~= Seq::<u32>::empty());
            assert(ai as int * weight(i as nat) * value(b@.take(0)) == 0) by (nonlinear_arith)
                requires
                    value(b@.take(0)) == 0,
            ;
            assert(carry as int * weight((i + j) as nat) == 0) by (nonlinear_arith)
                requires
                    carry == 0,
            ;
        }
        while j < m
            invariant
                j <= m,
                i < n,
                n + m <= usize::MAX,
                n == a@.len(),
                m == b@.len(),
                p@.len() == n + m,
                ai == a@[i as int],
                carry <= 0xffff_ffff,
                value(p@) + carry as int * weight((i + j) as nat) == before + ai as int * weight(
                    i as nat,
                ) * value(b@.take(j as int)),
                forall|t: int| i + m <= t < n + m ==> p@[t] == 0,
            decreases m - j,
        {
            let bj: u64 = b[j] as u64;
            let cur: u64 = p[i + j] as u64;
            assert(ai * bj <= 0xffff_ffff * 0xffff_ffff) by (nonlinear_arith)
                requires
                    ai <= 0xffff_ffff,
                    bj <= 0xffff_ffff,
            ;
            let t: u64 = cur + ai * bj + carry;
            let low: u32 = (t % 0x1_0000_0000) as u32;
            let high: u64 = t / 0x1_0000_0000;
            proof {
                let w = weight((i + j) as nat);
                let wi = weight(i as nat);
                let wj = weight(j as nat);
                lemma_weight_sum(i as nat, j as nat);
                lemma_value_update(p@, (i + j) as int, low);
                lemma_value_take(b@, j as int);
                assert(weight((i + j + 1) as nat) == base() * w);
                let vb = value(b@.take(j as int));
                let c = carry as int;
                let x = ai as int;
                let y = bj as int;
                let lo = low as int;
                let hi = high as int;
                let old_limb = cur as int;
                assert((lo - old_limb) * w + hi * (base() * w) == (x * y + c) * w)
                    by (nonlinear_arith)
                    requires
                        old_limb + x * y + c == lo + hi * base(),
                ;
                assert(x * wi * (vb + y * wj) == x * wi * vb + (x * y) * w) by (nonlinear_arith)
                    requires
                        w == wi * wj,
                ;
                assert((x * y + c) * w == (x * y) * w + c * w) by (nonlinear_arith);
            }
            p.set(i + j, low);
            carry = high;
            j += 1;
        }
        proof {
            lemma_value_update(p@, (i + m) as int, carry as u32);
            lemma_value_take(a@, i as int);
            assert(b@.take(m as int) =~= b@);
            let va = value(a@.take(i as int));
            let vb = value(b@);
            let x = ai as int;
            let wi = weight(i as nat);
            assert((va + x * wi) * vb == va * vb + x * wi * vb) by (nonlinear_arith);
        }
        p.set(i + m, carry as u32);
        i += 1;
    }
    proof {
        assert(a@.take(n as int) =~= a@);
    }
    p
}

/// Whether the first of two numbers of equal length is the smaller.
pub fn less(a: &Vec<u32>, b: &Vec<u32>) -> (r: bool)
    requires
        a@.len() == b@.len(),
    ensures
        r == (value(a@) < value(b@)),
{
    let mut i: usize = a.len();
    proof {
        assert(a@.take(i as int) =~= a@);
        assert(b@.take(i as int) =~= b@);
    }
    while i > 0
        invariant
            i <= a@.len(),
            a@.len() == b@.len(),
            value(a@) - value(a@.take(i as int)) == value(b@) - value(b@.take(i as int)),
        decreases i,
    {
        i -= 1;
        let x = a[i];
        let y = b[i];
        proof {
            lemma_value_take(a@, i as int);
            lemma_value_take(b@, i as int);
            lemma_value_bounds(a@.take(i as int));
            lemma_value_bounds(b@.take(i as int));
            let w = weight(i as nat);
            if x < y {
                assert(x as int * w + w <= y as int * w) by (nonlinear_arith)
                    requires
                        x < y,
                        w >= 0,
                ;
            }
            if y < x {
                assert(y as int * w + w <= x as int * w) by (nonlinear_arith)
                    requires
                        y < x,
                        w >= 0,
                ;
            }
        }
        if x < y {
            return true;
        }
        if y < x {
            return false;
        }
    }
    proof {
        assert(a@.take(0) =~= Seq::<u32>::empty());
        assert(b@.take(0) =~= Seq::<u32>::empty());
    }
    false
}

} // verus!
