//! Aggregation strategies of the federated learning layer (their
//! floating-point aggregation runs alongside, with the callers).
use vstd::prelude::*;
use vstd::relations::{sorted_by, total_ordering};
use vstd::seq_lib::{group_to_multiset_ensures, lemma_sorted_unique};
use crate::fixed_point::{i16f16_div, i16f16_from_int, i16f16_saturating_mul};
use crate::multimodal::{sat_add_i32, sat_add_i32_spec};
use crate::predictors::clamp_int;

verus! {

/// Plain federated averaging.
#[derive(Clone, Debug, Default)]
pub struct FedAvgAggregator;

/// Krum selection, optionally multi-Krum with `k` survivors.
#[derive(Clone, Debug)]
pub struct KrumAggregator {
    pub expected_byz: usize,
    pub multi_k: Option<usize>,
}

impl Default for KrumAggregator {
    fn default() -> (a: Self)
        ensures
            a.expected_byz == 1,
            a.multi_k is None,
    {
        KrumAggregator { expected_byz: 1, multi_k: None }
    }
}

/// Coordinate-wise trimmed mean discarding `f` values at each end.
#[derive(Clone, Debug)]
pub struct TrimmedMeanByzAggregator {
    pub f: usize,
}

impl Default for TrimmedMeanByzAggregator {
    fn default() -> (a: Self)
        ensures
            a.f == 1,
    {
        TrimmedMeanByzAggregator { f: 1 }
    }
}

/// The order of Q16.16 patterns (that of their values).
pub open spec fn fixed_le() -> spec_fn(i32, i32) -> bool {
    |a: i32, b: i32| a <= b
}

/// Entry `dim` of every update, a missing entry read as zero.
pub open spec fn column(updates: Seq<Vec<i32>>, dim: int) -> Seq<i32> {
    Seq::new(updates.len(), |i: int| if dim < updates[i]@.len() { updates[i]@[dim] } else { 0i32 })
}

/// Saturating sum, left to right from zero.
pub open spec fn saturating_sum(s: Seq<i32>) -> i32
    decreases s.len(),
{
    if s.len() == 0 {
        0
    } else {
        sat_add_i32_spec(saturating_sum(s.drop_last()), s.last())
    }
}

/// The Q16.16 average of a sorted column with `f` values dropped at each
/// end: the saturating sum of the rest times the Q16.16 reciprocal of
/// their count (`1 / count` truncated), saturating.
pub open spec fn trimmed_average(sorted: Seq<i32>, f: int) -> i32 {
    let kept = sorted.subrange(f, sorted.len() - f);
    let inv = 65536int / (kept.len() as int);
    clamp_int((saturating_sum(kept) as int * inv) / 65536, i32::MIN as int, i32::MAX as int) as i32
}

proof fn lemma_fixed_le_total()
    ensures
        total_ordering(fixed_le()),
{
}

/// The column sorted ascending.
fn sorted_column(updates: &[Vec<i32>], dim: usize) -> (v: Vec<i32>)
    ensures
        v@ == column(updates@, dim as int).sort_by(fixed_le()),
{
    broadcast use group_to_multiset_ensures;

    let ghost col = column(updates@, dim as int);
    let mut v: Vec<i32> = Vec::new();
    let mut i: usize = 0;
    while i < updates.len()
        invariant
            col == column(updates@, dim as int),
            i <= updates@.len(),
            sorted_by(v@, fixed_le()),
            v@.to_multiset() == col.subrange(0, i as int).to_multiset(),
        decreases updates@.len() - i,
    {
        let x = if dim < updates[i].len() {
            updates[i][dim]
        } else {
            0i32
        };
        assert(x == col[i as int]);
        let mut pos: usize = 0;
        while pos < v.len() && v[pos] <= x
            invariant
                pos <= v@.len(),
                forall|k: int| 0 <= k < pos ==> v@[k] <= x,
            decreases v@.len() - pos,
        {
            pos = pos + 1;
        }
        let ghost before = v@;
        v.insert(pos, x);
        proof {
            assert(v@ == before.insert(pos as int, x));
            assert forall|a: int, b: int| 0 <= a < b < v@.len() implies #[trigger] (fixed_le())(
                v@[a],
                v@[b],
            ) by {
                if b < pos {
                    assert((fixed_le())(before[a], before[b]));
                } else if a > pos {
                    assert((fixed_le())(before[a - 1], before[b - 1]));
                } else if a == pos {
                    if pos < before.len() {
                        assert(!(before[pos as int] <= x));
                        assert((fixed_le())(before[pos as int], before[b - 1]));
                    }
                } else if b == pos {
                    assert(before[a] <= x);
                } else {
                    assert((fixed_le())(before[a], before[b - 1]));
                }
            }
            assert(col.subrange(0, i + 1) =~= col.subrange(0, i as int).push(x));
            vstd::seq_lib::to_multiset_insert(before, pos as int, x);
            vstd::seq_lib::to_multiset_build(col.subrange(0, i as int), x);
        }
        i = i + 1;
    }
    proof {
        assert(col.subrange(0, updates@.len() as int) =~= col);
        lemma_fixed_le_total();
        col.lemma_sort_by_ensures(fixed_le());
        lemma_sorted_unique(v@, col.sort_by(fixed_le()), fixed_le());
    }
    v
}

/// Byzantine-tolerant trimmed mean of Q16.16 updates: for every entry of
/// the first update, the values of that entry across the updates are
/// sorted, the `f` smallest and `f` largest dropped, and the rest averaged
/// in saturating Q16.16 arithmetic.
pub fn trimmed_mean_byz_fixed(updates: &[Vec<i32>], f: usize) -> (r: Vec<i32>)
    requires
        updates@.len() > 2 * f,
        updates@.len() - 2 * f < 32768,
    ensures
        r@.len() == updates@[0]@.len(),
        forall|dim: int|
            0 <= dim < r@.len() ==> r@[dim] == trimmed_average(
                column(updates@, dim).sort_by(fixed_le()),
                f as int,
            ),
{
    let n = updates.len();
    let d = updates[0].len();
    let remaining = (n - 2 * f) as i32;
    let remaining_fixed = i16f16_from_int(remaining);
    assert(65536int * 65536 / (remaining as int * 65536) == 65536int / (remaining as int)) by (nonlinear_arith)
        requires
            remaining > 0,
    ;
    let remaining_inv = i16f16_div(65536, remaining_fixed);
    let mut result: Vec<i32> = Vec::new();
    let mut dim: usize = 0;
    while dim < d
        invariant
            n == updates@.len(),
            d == updates@[0]@.len(),
            n > 2 * f,
            remaining == n - 2 * f,
            remaining_inv == 65536int / ((n - 2 * f) as int),
            dim <= d,
            result@.len() == dim,
            forall|k: int|
                0 <= k < dim ==> result@[k] == trimmed_average(
                    column(updates@, k).sort_by(fixed_le()),
                    f as int,
                ),
        decreases d - dim,
    {
        let values = sorted_column(updates, dim);
        proof {
            broadcast use group_to_multiset_ensures;

            let col = column(updates@, dim as int);
            col.lemma_sort_by_ensures(fixed_le());
            assert(values@.to_multiset().len() == values@.len());
            assert(col.to_multiset().len() == col.len());
            assert(values@.len() == n);
        }
        let ghost kept = values@.subrange(f as int, (n - f) as int);
        let mut sum: i32 = 0;
        let mut j: usize = f;
        while j < n - f
            invariant
                values@.len() == n,
                n > 2 * f,
                f <= j <= n - f,
                kept == values@.subrange(f as int, (n - f) as int),
                sum == saturating_sum(values@.subrange(f as int, j as int)),
            decreases n - f - j,
        {
            assert(values@.subrange(f as int, j + 1).drop_last() =~= values@.subrange(f as int, j as int));
            sum = sat_add_i32(sum, values[j]);
            j = j + 1;
        }
        let avg = i16f16_saturating_mul(sum, remaining_inv);
        result.push(avg);
        dim = dim + 1;
    }
    result
}


/// Number of entries of `s` that satisfy `p`.
pub open spec fn count_where(s: Seq<i32>, p: spec_fn(i32) -> bool) -> nat
    decreases s.len(),
{
    if s.len() == 0 {
        0
    } else {
        count_where(s.drop_last(), p) + if p(s.last()) {
            1nat
        } else {
            0nat
        }
    }
}

proof fn lemma_count_concat(a: Seq<i32>, b: Seq<i32>, p: spec_fn(i32) -> bool)
    ensures
        count_where(a + b, p) == count_where(a, p) + count_where(b, p),
    decreases b.len(),
{
    if b.len() == 0 {
        assert(a + b =~= a);
    } else {
        lemma_count_concat(a, b.drop_last(), p);
        assert((a + b).drop_last() =~= a + b.drop_last());
        assert((a + b).last() == b.last());
    }
}

proof fn lemma_count_single(x: i32, p: spec_fn(i32) -> bool)
    ensures
        count_where(seq![x], p) == if p(x) {
            1nat
        } else {
            0nat
        },
{
    let s = seq![x];
    assert(s.drop_last() =~= Seq::<i32>::empty());
    assert(s.last() == x);
    assert(count_where(s.drop_last(), p) == 0);
}

proof fn lemma_count_remove(s: Seq<i32>, i: int, p: spec_fn(i32) -> bool)
    requires
        0 <= i < s.len(),
    ensures
        count_where(s, p) == count_where(s.remove(i), p) + if p(s[i]) {
            1nat
        } else {
            0nat
        },
{
    let a = s.subrange(0, i);
    let b = s.subrange(i + 1, s.len() as int);
    assert(s =~= (a + seq![s[i]]) + b);
    assert(s.remove(i) =~= a + b);
    lemma_count_concat(a + seq![s[i]], b, p);
    lemma_count_concat(a, seq![s[i]], p);
    lemma_count_concat(a, b, p);
    lemma_count_single(s[i], p);
}

proof fn lemma_count_permutation(s1: Seq<i32>, s2: Seq<i32>, p: spec_fn(i32) -> bool)
    requires
        s1.to_multiset() == s2.to_multiset(),
    ensures
        count_where(s1, p) == count_where(s2, p),
    decreases s1.len(),
{
    broadcast use group_to_multiset_ensures;

    if s1.len() == 0 {
        assert(s2.to_multiset().len() == 0);
    } else {
        let x = s1.last();
        let init = s1.drop_last();
        assert(s1 =~= init.push(x));
        assert(s1[s1.len() - 1] == x);
        assert(s1.contains(x));
        assert(s2.to_multiset().count(x) > 0);
        assert(s2.contains(x));
        let i = choose|i: int| 0 <= i < s2.len() && s2[i] == x;
        assert(init.to_multiset() =~= s1.to_multiset().remove(x));
        assert(s2.remove(i).to_multiset() =~= s2.to_multiset().remove(x));
        lemma_count_permutation(init, s2.remove(i), p);
        lemma_count_remove(s2, i, p);
    }
}

proof fn lemma_count_within(s: Seq<i32>, p: spec_fn(i32) -> bool, bad: Set<int>)
    requires
        bad.finite(),
        forall|i: int| 0 <= i < s.len() && p(#[trigger] s[i]) ==> bad.contains(i),
    ensures
        count_where(s, p) <= bad.len(),
    decreases s.len(),
{
    if s.len() > 0 {
        let n = s.len() - 1;
        let init = s.drop_last();
        assert forall|i: int| 0 <= i < init.len() && p(#[trigger] init[i]) implies bad.remove(n).contains(i) by {
            assert(init[i] == s[i]);
        }
        lemma_count_within(init, p, bad.remove(n));
        if p(s.last()) {
            assert(s[n] == s.last());
            assert(bad.contains(n));
        }
    }
}

proof fn lemma_count_at_least(s: Seq<i32>, p: spec_fn(i32) -> bool, a: int, b: int)
    requires
        0 <= a <= b <= s.len(),
        forall|k: int| a <= k < b ==> p(#[trigger] s[k]),
    ensures
        count_where(s, p) >= b - a,
{
    let left = s.subrange(0, b);
    let right = s.subrange(b, s.len() as int);
    assert(s =~= left + right);
    lemma_count_concat(left, right, p);
    lemma_count_at_least_prefix(s, p, a, b);
}

proof fn lemma_count_at_least_prefix(s: Seq<i32>, p: spec_fn(i32) -> bool, a: int, b: int)
    requires
        0 <= a <= b <= s.len(),
        forall|k: int| a <= k < b ==> p(#[trigger] s[k]),
    ensures
        count_where(s.subrange(0, b), p) >= b - a,
    decreases b - a,
{
    if a < b {
        let t = s.subrange(0, b);
        assert(t.drop_last() =~= s.subrange(0, b - 1));
        assert(t.last() == s[b - 1]);
        lemma_count_at_least_prefix(s, p, a, b - 1);
    }
}

/// Byzantine tolerance of the trimmed mean: when all values of a column
/// but those at at most `f` positions (`byzantine`) lie in `[lo, hi]`,
/// every value kept after sorting and dropping `f` values at each end lies
/// in `[lo, hi]`, so the outliers cannot pull the average outside the range
/// of the others.
pub proof fn lemma_trimmed_values_within_honest_range(col: Seq<i32>, f: int, byzantine: Set<int>, lo: i32, hi: i32)
    requires
        0 <= f,
        col.len() > 2 * f,
        byzantine.finite(),
        byzantine.len() <= f,
        forall|i: int| 0 <= i < col.len() && !byzantine.contains(i) ==> lo <= #[trigger] col[i] <= hi,
    ensures
        forall|k: int| f <= k < col.len() - f ==> lo <= #[trigger] col.sort_by(fixed_le())[k] <= hi,
{
    broadcast use group_to_multiset_ensures;

    let sorted = col.sort_by(fixed_le());
    lemma_fixed_le_total();
    col.lemma_sort_by_ensures(fixed_le());
    assert(sorted.len() == col.len()) by {
        assert(sorted.to_multiset().len() == col.to_multiset().len());
    }
    let n = col.len() as int;
    let below = |x: i32| x < lo;
    let above = |x: i32| x > hi;
    lemma_count_within(col, below, byzantine);
    lemma_count_within(col, above, byzantine);
    lemma_count_permutation(col, sorted, below);
    lemma_count_permutation(col, sorted, above);
    if sorted[f] < lo {
        assert forall|k: int| 0 <= k < f + 1 implies below(#[trigger] sorted[k]) by {
            if k < f {
                assert((fixed_le())(sorted[k], sorted[f]));
            }
        }
        lemma_count_at_least(sorted, below, 0, f + 1);
    }
    if sorted[n - 1 - f] > hi {
        assert forall|k: int| n - 1 - f <= k < n implies above(#[trigger] sorted[k]) by {
            if k > n - 1 - f {
                assert((fixed_le())(sorted[n - 1 - f], sorted[k]));
            }
        }
        lemma_count_at_least(sorted, above, n - 1 - f, n);
    }
    assert forall|k: int| f <= k < n - f implies lo <= #[trigger] sorted[k] <= hi by {
        if k > f {
            assert((fixed_le())(sorted[f], sorted[k]));
        }
        if k < n - 1 - f {
            assert((fixed_le())(sorted[k], sorted[n - 1 - f]));
        }
    }
}

} // verus!
