//! Adaptive frequency model for arithmetic coding.
use vstd::prelude::*;

verus! {

/// Number of symbols tracked by the model (one per byte value).
pub const NUM_SYMBOLS: usize = 256;

/// Total count at which the model halves all counts.
pub const MAX_TOTAL: u32 = 16384;

/// Sum of the first `n` entries of `s`.
pub open spec fn prefix_sum(s: Seq<u32>, n: int) -> int
    decreases n,
{
    if n <= 0 {
        0
    } else {
        prefix_sum(s, n - 1) + s[n - 1] as int
    }
}

/// Cumulative count up to and including symbol `i`.
pub open spec fn cum_end(s: Seq<u32>, i: int) -> int {
    prefix_sum(s, i + 1)
}

/// The counts after one rescaling step: every count halved, never below one.
pub open spec fn halved_counts(s: Seq<u32>) -> Seq<u32> {
    Seq::new(s.len(), |i: int| if s[i] / 2 >= 1 { (s[i] / 2) as u32 } else { 1u32 })
}

/// The decoder's answer for a cumulative target: the first symbol whose
/// cumulative range ends above `target`, or 255 when there is none.
pub open spec fn symbol_for_target(s: Seq<u32>, target: int) -> u8 {
    if exists|i: int| 0 <= i < 256 && #[trigger] cum_end(s, i) > target {
        (choose|i: int| 0 <= i < 256 && cum_end(s, i) > target && forall|j: int|
            0 <= j < i ==> cum_end(s, j) <= target) as u8
    } else {
        255u8
    }
}

/// Adaptive probability model with Laplace smoothing.
///
/// Every symbol starts with count one; each update increments the symbol's
/// count and, once the total reaches `MAX_TOTAL`, all counts are halved
/// (keeping a minimum of one) so that the total never overflows.
pub struct AdaptiveModel {
    counts: [u32; 256],
    total: u32,
}

impl AdaptiveModel {
    /// Frequency counts, one per byte value.
    pub closed spec fn counts(&self) -> Seq<u32> {
        self.counts@
    }

    /// Total of all counts as stored by the model.
    pub closed spec fn spec_total(&self) -> u32 {
        self.total
    }

    /// Well-formedness: 256 positive counts whose sum is the stored total,
    /// which stays below the rescaling limit.
    pub open spec fn wf(&self) -> bool {
        &&& self.counts().len() == 256
        &&& forall|i: int| 0 <= i < 256 ==> #[trigger] self.counts()[i] >= 1
        &&& prefix_sum(self.counts(), 256) == self.spec_total() as int
        &&& self.spec_total() < MAX_TOTAL
    }

    /// Creates a model where every symbol has count one.
    pub fn new() -> (m: Self)
        ensures
            m.wf(),
            m.counts() == Seq::new(256, |i: int| 1u32),
            m.spec_total() == 256,
    {
        let m = AdaptiveModel { counts: [1u32; 256], total: 256 };
        proof {
            assert(m.counts@ =~= Seq::new(256, |i: int| 1u32));
            lemma_prefix_sum_ones(m.counts@, 256);
        }
        m
    }

    /// Counts `symbol` once; halves all counts when the total reaches the limit.
    pub fn update(&mut self, symbol: u8)
        requires
            old(self).wf(),
        ensures
            final(self).wf(),
            ({
                let bumped = old(self).counts().update(symbol as int, (old(self).counts()[symbol as int] + 1) as u32);
                if old(self).spec_total() + 1 >= MAX_TOTAL {
                    final(self).counts() == halved_counts(bumped)
                } else {
                    final(self).counts() == bumped && final(self).spec_total() == old(self).spec_total() + 1
                }
            }),
    {
        let ghost before = self.counts@;
        let s = symbol as usize;
        proof {
            lemma_prefix_sum_ge_one(before, s as int);
            lemma_elem_le_sum(before, s as int, 256);
            lemma_prefix_sum_update(before, s as int, (before[s as int] + 1) as u32, 256);
        }
        self.counts[s] = self.counts[s] + 1;
        self.total = self.total + 1;
        if self.total >= MAX_TOTAL {
            self.rescale();
        }
    }

    /// Halves every count (minimum one) and recomputes the total.
    fn rescale(&mut self)
        requires
            old(self).counts().len() == 256,
            forall|i: int| 0 <= i < 256 ==> #[trigger] old(self).counts()[i] >= 1,
            prefix_sum(old(self).counts(), 256) <= MAX_TOTAL,
        ensures
            final(self).counts() == halved_counts(old(self).counts()),
            final(self).wf(),
    {
        let ghost orig = self.counts@;
        self.total = 0;
        let mut i: usize = 0;
        while i < 256
            invariant
                0 <= i <= 256,
                orig.len() == 256,
                forall|k: int| 0 <= k < 256 ==> #[trigger] orig[k] >= 1,
                prefix_sum(orig, 256) <= MAX_TOTAL,
                self.counts@.len() == 256,
                forall|k: int| 0 <= k < i ==> #[trigger] self.counts@[k] == halved_counts(orig)[k],
                forall|k: int| i <= k < 256 ==> #[trigger] self.counts@[k] == orig[k],
                self.total as int == prefix_sum(halved_counts(orig), i as int),
                prefix_sum(halved_counts(orig), i as int) <= prefix_sum(orig, i as int) / 2 + i,
            decreases 256 - i,
        {
            let c = self.counts[i];
            let h = if c / 2 >= 1 { c / 2 } else { 1 };
            proof {
                lemma_prefix_sum_mono(orig, i as int, 256);
                lemma_prefix_sum_ge_one(orig, i as int + 1);
                assert(prefix_sum(halved_counts(orig), i as int + 1) == prefix_sum(halved_counts(orig), i as int) + h);
                assert(prefix_sum(orig, i as int + 1) == prefix_sum(orig, i as int) + c);
            }
            self.counts[i] = h;
            self.total = self.total + h;
            i = i + 1;
        }
        proof {
            assert(self.counts@ =~= halved_counts(orig));
        }
    }

    /// The cumulative start, the count of `symbol`, and the total.
    pub fn get_probability(&self, symbol: u8) -> (r: (u32, u32, u32))
        requires
            self.wf(),
        ensures
            r.0 as int == prefix_sum(self.counts(), symbol as int),
            r.1 == self.counts()[symbol as int],
            r.2 == self.spec_total(),
    {
        let mut cumulative: u32 = 0;
        let mut i: usize = 0;
        while i < symbol as usize
            invariant
                self.wf(),
                i <= symbol,
                cumulative as int == prefix_sum(self.counts(), i as int),
            decreases symbol - i,
        {
            proof {
                lemma_prefix_sum_mono(self.counts(), i as int + 1, 256);
            }
            cumulative = cumulative + self.counts[i];
            i = i + 1;
        }
        (cumulative, self.counts[symbol as usize], self.total)
    }

    /// The symbol whose cumulative range contains `target` (255 if none does).
    pub fn symbol_from_count(&self, target: u32) -> (s: u8)
        requires
            self.wf(),
        ensures
            s == symbol_for_target(self.counts(), target as int),
    {
        let mut cumulative: u32 = 0;
        let mut i: usize = 0;
        while i < 256
            invariant
                self.wf(),
                i <= 256,
                cumulative as int == prefix_sum(self.counts(), i as int),
                forall|j: int| 0 <= j < i ==> cum_end(self.counts(), j) <= target,
            decreases 256 - i,
        {
            proof {
                lemma_prefix_sum_mono(self.counts(), i as int + 1, 256);
            }
            cumulative = cumulative + self.counts[i];
            if cumulative > target {
                proof {
                    let w = i as int;
                    assert(0 <= w < 256 && cum_end(self.counts(), w) > target);
                    lemma_first_index_unique(self.counts(), target as int, w);
                }
                return i as u8;
            }
            i = i + 1;
        }
        proof {
            assert forall|k: int| 0 <= k < 256 implies !(cum_end(self.counts(), k) > target) by {}
        }
        255
    }

    /// The total of all counts.
    pub fn total(&self) -> (t: u32)
        ensures
            t == self.spec_total(),
    {
        self.total
    }
}

/// Prefix sums of a sequence of ones count their length.
proof fn lemma_prefix_sum_ones(s: Seq<u32>, n: int)
    requires
        0 <= n <= s.len(),
        forall|i: int| 0 <= i < s.len() ==> s[i] == 1,
    ensures
        prefix_sum(s, n) == n,
    decreases n,
{
    if n > 0 {
        lemma_prefix_sum_ones(s, n - 1);
    }
}

/// Prefix sums of non-negative entries grow with the prefix.
pub proof fn lemma_prefix_sum_mono(s: Seq<u32>, a: int, b: int)
    requires
        0 <= a <= b <= s.len(),
    ensures
        prefix_sum(s, a) <= prefix_sum(s, b),
    decreases b - a,
{
    if a < b {
        lemma_prefix_sum_mono(s, a, b - 1);
    }
}

/// With positive entries, a prefix of length `n` sums to at least `n`.
proof fn lemma_prefix_sum_ge_one(s: Seq<u32>, n: int)
    requires
        0 <= n <= s.len(),
        forall|i: int| 0 <= i < s.len() ==> #[trigger] s[i] >= 1,
    ensures
        prefix_sum(s, n) >= n,
        forall|m: int| 0 <= m <= n ==> prefix_sum(s, n) - prefix_sum(s, m) >= n - m,
    decreases n,
{
    if n > 0 {
        lemma_prefix_sum_ge_one(s, n - 1);
    }
}

/// Each entry is bounded by any prefix sum that contains it.
proof fn lemma_elem_le_sum(s: Seq<u32>, k: int, n: int)
    requires
        0 <= k < n <= s.len(),
    ensures
        s[k] <= prefix_sum(s, n),
    decreases n,
{
    if k < n - 1 {
        lemma_elem_le_sum(s, k, n - 1);
    } else {
        lemma_prefix_sum_mono(s, 0, n - 1);
    }
}

/// Updating entry `k` shifts every prefix that contains it by the difference.
proof fn lemma_prefix_sum_update(s: Seq<u32>, k: int, v: u32, n: int)
    requires
        0 <= k < s.len(),
        0 <= n <= s.len(),
    ensures
        prefix_sum(s.update(k, v), n) == prefix_sum(s, n) + if k < n { v - s[k] } else { 0 },
    decreases n,
{
    if n > 0 {
        lemma_prefix_sum_update(s, k, v, n - 1);
    }
}

/// When all entries are positive, the first index whose prefix exceeds
/// `target` is determined by the strict monotonicity of prefix sums.
proof fn lemma_first_index_unique(s: Seq<u32>, target: int, w: int)
    requires
        s.len() == 256,
        forall|i: int| 0 <= i < 256 ==> #[trigger] s[i] >= 1,
        0 <= w < 256,
        cum_end(s, w) > target,
        forall|j: int| 0 <= j < w ==> cum_end(s, j) <= target,
    ensures
        symbol_for_target(s, target) == w as u8,
{
    let c = choose|i: int| 0 <= i < 256 && cum_end(s, i) > target && forall|j: int|
        0 <= j < i ==> cum_end(s, j) <= target;
    assert(0 <= w < 256 && cum_end(s, w) > target && forall|j: int|
        0 <= j < w ==> cum_end(s, j) <= target);
    if c < w {
        assert(cum_end(s, c) <= target);
    } else if c > w {
        assert(cum_end(s, w) <= target);
    }
}

/// Decoding inverts encoding: for every symbol `sym` and every offset below
/// its count, the decoder maps the cumulative position `start + offset` back
/// to `sym`.
pub proof fn lemma_decode_inverts_encode(m: &AdaptiveModel, sym: u8, offset: u32)
    requires
        m.wf(),
        offset < m.counts()[sym as int],
    ensures
        symbol_for_target(m.counts(), prefix_sum(m.counts(), sym as int) + offset) == sym,
{
    let s = m.counts();
    let target = prefix_sum(s, sym as int) + offset;
    assert forall|j: int| 0 <= j < sym as int implies cum_end(s, j) <= target by {
        lemma_prefix_sum_mono(s, j + 1, sym as int);
    }
    lemma_first_index_unique(s, target, sym as int);
}

} // verus!
