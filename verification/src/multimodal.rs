//! Multimodal fusion state: per-modality observation history, prediction
//! surprise with event-driven spike detection, cross-modal bias, learned
//! attention and counter-based learning-rate scaling, all in integer
//! (Q16.16) arithmetic.
use vstd::prelude::*;

verus! {

/// One in Q16.16.
pub const FIXED_SCALE: i32 = 65536;

/// Maximum number of modalities.
pub const MAX_MODALITIES: usize = 4;

/// Number of past timesteps kept per modality.
pub const ATTENTION_WINDOW: usize = 8;

/// Spike threshold multiplier (1.5 encoded as 3 / 2).
pub const SPIKE_THRESHOLD_MULTIPLIER: u64 = 3;

/// Learning-rate decay factor 0.95 in Q16.16 (truncated).
pub const LR_DECAY: i32 = 62259;

/// Learning-rate floor 0.6 in Q16.16 (truncated).
pub const LR_FLOOR: i32 = 39321;

/// Attention learning rate 0.025 in Q16.16 (truncated).
pub const ATTENTION_LR: i32 = 1638;

/// Block floating-point vector: a shared exponent and 16-bit mantissas.
#[derive(Clone, Debug, PartialEq, Eq)]
pub struct Bfp16Vec {
    pub exponent: i8,
    pub mantissas: Vec<i16>,
}

impl Bfp16Vec {
    /// The empty vector with exponent zero.
    pub fn empty() -> (v: Self)
        ensures
            v.exponent == 0,
            v.mantissas@.len() == 0,
    {
        Bfp16Vec { exponent: 0, mantissas: Vec::new() }
    }
}

/// Sensor modality of an observation.
#[derive(Clone, Copy, Debug, PartialEq, Eq, Structural)]
pub enum Modality {
    Temperature,
    Humidity,
    AirQuality,
    TrafficDensity,
}

/// Index of a modality.
pub open spec fn modality_index(m: Modality) -> int {
    match m {
        Modality::Temperature => 0,
        Modality::Humidity => 1,
        Modality::AirQuality => 2,
        Modality::TrafficDensity => 3,
    }
}

/// Index of a modality.
pub fn modality_idx(m: Modality) -> (i: usize)
    ensures
        i == modality_index(m),
{
    match m {
        Modality::Temperature => 0,
        Modality::Humidity => 1,
        Modality::AirQuality => 2,
        Modality::TrafficDensity => 3,
    }
}

/// Saturating product of two `u64` values.
pub open spec fn sat_mul_spec(x: u64, y: u64) -> int {
    if x * y > u64::MAX {
        u64::MAX as int
    } else {
        x * y
    }
}

/// Saturating multiplication of two `u64` values.
pub fn sat_mul(x: u64, y: u64) -> (r: u64)
    ensures
        r == sat_mul_spec(x, y),
{
    match x.checked_mul(y) {
        Some(v) => v,
        None => u64::MAX,
    }
}

/// Sum of the squares of the mantissas.
pub open spec fn squares_sum(m: Seq<i16>) -> int
    decreases m.len(),
{
    if m.len() == 0 {
        0
    } else {
        squares_sum(m.drop_last()) + m.last() as int * m.last() as int
    }
}

proof fn lemma_squares_sum_mono(m: Seq<i16>, k: int)
    requires
        0 <= k <= m.len(),
    ensures
        0 <= squares_sum(m.subrange(0, k)) <= squares_sum(m),
    decreases m.len() - k,
{
    if k < m.len() {
        lemma_squares_sum_mono(m, k + 1);
        lemma_squares_sum_nonneg(m.subrange(0, k));
        assert(m.subrange(0, k + 1).drop_last() =~= m.subrange(0, k));
        assert(m.subrange(0, k + 1).last() == m[k]);
        assert(m[k] as int * m[k] as int >= 0) by (nonlinear_arith);
    } else {
        assert(m.subrange(0, k) =~= m);
        lemma_squares_sum_nonneg(m);
    }
}

proof fn lemma_squares_sum_nonneg(m: Seq<i16>)
    ensures
        squares_sum(m) >= 0,
    decreases m.len(),
{
    if m.len() > 0 {
        lemma_squares_sum_nonneg(m.drop_last());
        assert(m.last() as int * m.last() as int >= 0) by (nonlinear_arith);
    }
}

/// The squared L2 norm of the mantissas, scaled by 10^6, saturating.
pub fn compute_norm_sq_scaled(mantissas: &[i16]) -> (r: u64)
    requires
        squares_sum(mantissas@) <= u64::MAX,
    ensures
        r == sat_mul_spec(squares_sum(mantissas@) as u64, 1_000_000),
{
    let mut sum_sq: u64 = 0;
    let mut i: usize = 0;
    while i < mantissas.len()
        invariant
            i <= mantissas@.len(),
            squares_sum(mantissas@) <= u64::MAX,
            sum_sq == squares_sum(mantissas@.subrange(0, i as int)),
        decreases mantissas@.len() - i,
    {
        let m = mantissas[i] as i64;
        proof {
            lemma_squares_sum_mono(mantissas@, i + 1);
            assert(mantissas@.subrange(0, i + 1).drop_last() =~= mantissas@.subrange(0, i as int));
            assert(0 <= m * m <= 1073741824) by (nonlinear_arith)
                requires
                    -32768 <= m <= 32767,
            ;
        }
        sum_sq = sum_sq + (m * m) as u64;
        i = i + 1;
    }
    proof {
        assert(mantissas@.subrange(0, mantissas@.len() as int) =~= mantissas@);
    }
    sat_mul(sum_sq, 1_000_000)
}

/// Saturating sum of two `i32` values.
pub open spec fn sat_add_i32_spec(x: i32, y: i32) -> i32 {
    if x + y > i32::MAX {
        i32::MAX
    } else if x + y < i32::MIN {
        i32::MIN
    } else {
        (x + y) as i32
    }
}

/// Saturating addition of two `i32` values.
pub fn sat_add_i32(x: i32, y: i32) -> (r: i32)
    ensures
        r == sat_add_i32_spec(x, y),
{
    let s = x as i64 + y as i64;
    if s > i32::MAX as i64 {
        i32::MAX
    } else if s < i32::MIN as i64 {
        i32::MIN
    } else {
        s as i32
    }
}

/// Integer square root by four Newton steps from `(x, y)`.
pub open spec fn isqrt_steps(n: u64, x: u64, y: u64, k: nat) -> u64
    decreases k,
{
    if k == 0 || y >= x {
        x
    } else {
        let d = if y >= 1 { y } else { 1 };
        isqrt_steps(n, y, ((y + n / d) / 2) as u64, (k - 1) as nat)
    }
}

/// Approximate integer square root: four Newton iterations starting from
/// `n` and `ceil(n / 2)`.
pub open spec fn isqrt_spec(n: u64) -> u64 {
    if n == 0 {
        0
    } else {
        isqrt_steps(n, n, (n / 2 + n % 2) as u64, 4)
    }
}

/// Approximate integer square root (four Newton iterations).
pub fn isqrt_u64(n: u64) -> (r: u64)
    ensures
        r == isqrt_spec(n),
{
    if n == 0 {
        return 0;
    }
    let mut x = n;
    let mut y = n / 2 + n % 2;
    let mut k: u32 = 0;
    while k < 4 && y < x
        invariant
            n >= 1,
            k <= 4,
            1 <= x <= n,
            y >= 1,
            x == 1 ==> n <= 8,
            y == 1 ==> n <= 8,
            y < x ==> y <= n / 2 + n % 2,
            isqrt_steps(n, x, y, (4 - k) as nat) == isqrt_spec(n),
        decreases 4 - k,
    {
        x = y;
        let d = if x >= 1 { x } else { 1 };
        let q = n / d;
        if x >= 2 {
            assert(q <= n / 2) by (nonlinear_arith)
                requires
                    x >= 2,
                    q == n / x,
            ;
        }
        let s = x + q;
        y = s / 2;
        assert(y >= 1) by (nonlinear_arith)
            requires
                x >= 1,
                n >= 1,
                q == n / x,
                y == (x + q) / 2,
        ;
        if y == 1 {
            assert(n <= 8) by (nonlinear_arith)
                requires
                    x >= 1,
                    q == n / x,
                    (x + q) / 2 == 1,
            ;
        }
        k = k + 1;
    }
    x
}

/// Cross-modal contribution of `source` to `target`: attention times the
/// source surprise (in whole units), in Q16.16.
pub open spec fn bias_term(attention: int, surprise: u64) -> int {
    (attention * ((surprise / 1_000_000) as int)) / 65536
}

/// Sum of the contributions of sources `0 .. k` other than `target`.
pub open spec fn bias_sum(att: Seq<Seq<i32>>, surprise: Seq<u64>, target: int, k: int) -> int
    decreases k,
{
    if k <= 0 {
        0
    } else {
        bias_sum(att, surprise, target, k - 1) + if k - 1 == target {
            0
        } else {
            bias_term(att[k - 1][target] as int, surprise[k - 1])
        }
    }
}

/// Cross-modal bias of a target: the contributions summed and clamped to
/// the `i32` range.
pub open spec fn cross_modal_bias(att: Seq<Seq<i32>>, surprise: Seq<u64>, n: int, target: int) -> i32 {
    let s = bias_sum(att, surprise, target, n);
    (if s < i32::MIN {
        i32::MIN as int
    } else if s > i32::MAX {
        i32::MAX as int
    } else {
        s
    }) as i32
}

/// The learning-rate scale after one reduction: times 0.95 in Q16.16
/// (the product rounded down), floored at 0.6.
pub open spec fn lr_reduced(lr: i32) -> i32 {
    let r = (lr as int * LR_DECAY as int) / 65536;
    if r < LR_FLOOR {
        LR_FLOOR
    } else {
        r as i32
    }
}

/// A reduction keeps a scale within `[0.6, 1.0]`.
proof fn lemma_lr_reduced_bounds(lr: i32)
    requires
        LR_FLOOR <= lr <= FIXED_SCALE,
    ensures
        LR_FLOOR <= lr_reduced(lr) <= lr,
{
    assert(0 <= (lr as int * LR_DECAY as int) / 65536 <= lr) by (nonlinear_arith)
        requires
            LR_FLOOR <= lr <= FIXED_SCALE,
            LR_DECAY == 62259,
    ;
}

/// Imbalance counter and learning-rate scale after comparing with one other
/// modality.
pub open spec fn lr_pair_step(my: u64, other: u64, counter: u32, lr: i32) -> (u32, i32) {
    let c = if my as int > sat_mul_spec(other, 2) {
        counter.saturating_add(1)
    } else if counter > 0 {
        (counter - 1) as u32
    } else {
        counter
    };
    if c > 5 {
        (0u32, lr_reduced(lr))
    } else {
        (c, lr)
    }
}

/// Counters and scale after comparing modality `m` with others `0 .. k`.
pub open spec fn lr_scan(surprise: Seq<u64>, m: int, row: Seq<u32>, lr: i32, k: int) -> (Seq<u32>, i32)
    decreases k,
{
    if k <= 0 {
        (row, lr)
    } else {
        let prev = lr_scan(surprise, m, row, lr, k - 1);
        if k - 1 == m {
            prev
        } else {
            let step = lr_pair_step(surprise[m], surprise[k - 1], prev.0[k - 1], prev.1);
            (prev.0.update(k - 1, step.0), step.1)
        }
    }
}

/// Estimated heap bytes of the history rows `0 .. k`.
pub open spec fn rows_bytes(h: Seq<Seq<Bfp16Vec>>, k: int) -> int
    decreases k,
{
    if k <= 0 {
        0
    } else {
        rows_bytes(h, k - 1) + row_bytes(h[k - 1], h[k - 1].len() as int)
    }
}

/// Estimated heap bytes of the first `k` vectors of one row: one exponent
/// byte, two bytes per mantissa and 24 bytes of vector header each.
pub open spec fn row_bytes(r: Seq<Bfp16Vec>, k: int) -> int
    decreases k,
{
    if k <= 0 {
        0
    } else {
        row_bytes(r, k - 1) + 1 + 2 * r[k - 1].mantissas@.len() + 24
    }
}

/// Estimated heap bytes of the per-modality tables for `n` modalities.
pub open spec fn tables_bytes(n: int) -> int {
    n * 8 + n * 4 + n * n * 4 + n * n * 4 + n * 4 + n * 8 + n * 8 + n * 4 + n
}

proof fn lemma_row_bytes_bound(r: Seq<Bfp16Vec>, k: int, m: nat)
    requires
        0 <= k <= r.len(),
        forall|t: int| 0 <= t < k ==> (#[trigger] r[t]).mantissas@.len() <= m,
    ensures
        row_bytes(r, k) <= k * (25 + 2 * m),
        (forall|t: int| 0 <= t < k ==> (#[trigger] r[t]).mantissas@.len() == 0) ==> row_bytes(r, k) == 25 * k,
    decreases k,
{
    if k > 0 {
        lemma_row_bytes_bound(r, k - 1, m);
        assert(k * (25 + 2 * m) == (k - 1) * (25 + 2 * m) + 25 + 2 * m) by (nonlinear_arith);
    }
}

proof fn lemma_rows_bytes_bound(h: Seq<Seq<Bfp16Vec>>, k: int, m: nat)
    requires
        0 <= k <= h.len(),
        forall|i: int| 0 <= i < k ==> (#[trigger] h[i]).len() == ATTENTION_WINDOW,
        forall|i: int, t: int|
            0 <= i < k && 0 <= t < ATTENTION_WINDOW ==> (#[trigger] h[i][t]).mantissas@.len() <= m,
    ensures
        rows_bytes(h, k) <= k * (ATTENTION_WINDOW * (25 + 2 * m)),
        (forall|i: int, t: int| 0 <= i < k && 0 <= t < ATTENTION_WINDOW ==> (#[trigger] h[i][t]).mantissas@.len() == 0)
            ==> rows_bytes(h, k) == k * (25 * ATTENTION_WINDOW),
    decreases k,
{
    if k > 0 {
        lemma_rows_bytes_bound(h, k - 1, m);
        let r = h[k - 1];
        assert forall|t: int| 0 <= t < r.len() implies (#[trigger] r[t]).mantissas@.len() <= m by {
            assert(r[t] == h[k - 1][t]);
        }
        lemma_row_bytes_bound(r, r.len() as int, m);
        if forall|i: int, t: int| 0 <= i < k && 0 <= t < ATTENTION_WINDOW ==> (#[trigger] h[i][t]).mantissas@.len() == 0 {
            assert forall|t: int| 0 <= t < r.len() implies (#[trigger] r[t]).mantissas@.len() == 0 by {
                assert(r[t] == h[k - 1][t]);
            }
        }
        assert(k * (ATTENTION_WINDOW * (25 + 2 * m)) == (k - 1) * (ATTENTION_WINDOW * (25 + 2 * m)) + ATTENTION_WINDOW * (
        25 + 2 * m)) by (nonlinear_arith);
    }
}

/// Partial sums of row sizes grow with the number of vectors.
proof fn lemma_row_bytes_mono(r: Seq<Bfp16Vec>, a: int, b: int)
    requires
        0 <= a <= b,
    ensures
        row_bytes(r, a) <= row_bytes(r, b),
    decreases b - a,
{
    if a < b {
        lemma_row_bytes_mono(r, a, b - 1);
    }
}

/// Partial sums of history sizes grow with the number of rows.
proof fn lemma_rows_bytes_mono(h: Seq<Seq<Bfp16Vec>>, a: int, b: int)
    requires
        0 <= a <= b,
    ensures
        rows_bytes(h, a) <= rows_bytes(h, b),
    decreases b - a,
{
    if a < b {
        lemma_rows_bytes_mono(h, a, b - 1);
        lemma_row_bytes_nonneg(h[b - 1], h[b - 1].len() as int);
    }
}

/// Row sizes are non-negative.
proof fn lemma_row_bytes_nonneg(r: Seq<Bfp16Vec>, k: int)
    ensures
        row_bytes(r, k) >= 0,
    decreases k,
{
    if k > 0 {
        lemma_row_bytes_nonneg(r, k - 1);
    }
}

/// Absolute difference of two `u64` values.
pub open spec fn abs_diff_u64(a: u64, b: u64) -> u64 {
    if a >= b {
        (a - b) as u64
    } else {
        (b - a) as u64
    }
}

/// Spike detection for a new surprise: the first sample always counts as a
/// spike; later ones update a halving mean and spread, and are spikes when
/// above the mean plus 1.5 standard deviations. Returns the new mean,
/// spread accumulator and spike flag.
pub open spec fn spike_update(count: u32, old_mean: u64, old_m2: u64, new_s: u64) -> (u64, u64, bool) {
    if count <= 1 {
        (new_s, 0u64, true)
    } else {
        let delta = abs_diff_u64(new_s, old_mean);
        let mean = (old_mean / 2 + new_s / 2) as u64;
        let m2 = (old_m2 / 2).saturating_add(delta / 2);
        let sigma = isqrt_spec(m2 / (count as u64));
        let threshold = mean.saturating_add((sat_mul_spec(sigma, SPIKE_THRESHOLD_MULTIPLIER) / 2) as u64);
        (mean, m2, new_s > threshold)
    }
}

/// Cached biases after a spike of modality `m`: every other modality's bias
/// is recomputed.
pub open spec fn refreshed_biases(cached: Seq<i32>, att: Seq<Seq<i32>>, surprise: Seq<u64>, n: int, m: int) -> Seq<i32> {
    Seq::new(
        n as nat,
        |t: int|
            if t != m {
                cross_modal_bias(att, surprise, n, t)
            } else {
                cached[t]
            },
    )
}

/// Temporal attention-guided fusion of up to four sensor modalities.
#[derive(Clone, Debug)]
pub struct MultimodalFusion {
    num_modalities: usize,
    history: Vec<Vec<Bfp16Vec>>,
    cursor: usize,
    surprise: Vec<u64>,
    lr_scales: Vec<i32>,
    attention_weights: Vec<Vec<i32>>,
    imbalance_counters: Vec<Vec<u32>>,
    cached_cross_modal_bias: Vec<i32>,
    surprise_mean: Vec<u64>,
    surprise_m2: Vec<u64>,
    surprise_count: Vec<u32>,
    spike_active: Vec<bool>,
}

impl MultimodalFusion {
    /// Number of modalities.
    pub closed spec fn spec_n(&self) -> int {
        self.num_modalities as int
    }

    /// History rows, one per modality.
    pub closed spec fn spec_history(&self) -> Seq<Seq<Bfp16Vec>> {
        self.history@.map_values(|r: Vec<Bfp16Vec>| r@)
    }

    /// Next write slot of the history ring.
    pub closed spec fn spec_cursor(&self) -> int {
        self.cursor as int
    }

    /// Latest squared prediction error per modality (scaled by 10^12).
    pub closed spec fn spec_surprise(&self) -> Seq<u64> {
        self.surprise@
    }

    /// Learning-rate scales (Q16.16).
    pub closed spec fn spec_lr_scales(&self) -> Seq<i32> {
        self.lr_scales@
    }

    /// Attention weights, `[source][target]` (Q16.16).
    pub closed spec fn spec_attention(&self) -> Seq<Seq<i32>> {
        self.attention_weights@.map_values(|r: Vec<i32>| r@)
    }

    /// Imbalance counters, `[modality][other]`.
    pub closed spec fn spec_imbalance(&self) -> Seq<Seq<u32>> {
        self.imbalance_counters@.map_values(|r: Vec<u32>| r@)
    }

    /// Cached cross-modal bias per modality (Q16.16).
    pub closed spec fn spec_cached_bias(&self) -> Seq<i32> {
        self.cached_cross_modal_bias@
    }

    /// Running surprise mean per modality.
    pub closed spec fn spec_mean(&self) -> Seq<u64> {
        self.surprise_mean@
    }

    /// Running surprise spread accumulator per modality.
    pub closed spec fn spec_m2(&self) -> Seq<u64> {
        self.surprise_m2@
    }

    /// Surprise samples per modality.
    pub closed spec fn spec_count(&self) -> Seq<u32> {
        self.surprise_count@
    }

    /// Spike flags per modality.
    pub closed spec fn spec_spike(&self) -> Seq<bool> {
        self.spike_active@
    }

    /// Consistent shapes: one entry per modality everywhere, rows of the
    /// window length, square tables, attention weights within `[0, 1]`.
    pub closed spec fn wf(&self) -> bool {
        let n = self.num_modalities as int;
        &&& 1 <= n <= MAX_MODALITIES
        &&& self.cursor < ATTENTION_WINDOW
        &&& self.history@.len() == n
        &&& forall|i: int| 0 <= i < n ==> (#[trigger] self.history@[i])@.len() == ATTENTION_WINDOW
        &&& self.surprise@.len() == n
        &&& self.lr_scales@.len() == n
        &&& forall|i: int| 0 <= i < n ==> LR_FLOOR <= #[trigger] self.lr_scales@[i] <= FIXED_SCALE
        &&& self.attention_weights@.len() == n
        &&& forall|i: int| 0 <= i < n ==> (#[trigger] self.attention_weights@[i])@.len() == n
        &&& forall|i: int, j: int|
            0 <= i < n && 0 <= j < n ==> 0 <= #[trigger] self.attention_weights@[i]@[j] <= FIXED_SCALE
        &&& self.imbalance_counters@.len() == n
        &&& forall|i: int| 0 <= i < n ==> (#[trigger] self.imbalance_counters@[i])@.len() == n
        &&& self.cached_cross_modal_bias@.len() == n
        &&& self.surprise_mean@.len() == n
        &&& self.surprise_m2@.len() == n
        &&& self.surprise_count@.len() == n
        &&& self.spike_active@.len() == n
    }

    /// The shape of the tables: one history row of `ATTENTION_WINDOW`
    /// vectors per modality, `n`-by-`n` attention and imbalance tables, and
    /// one entry per modality in every other table.
    pub open spec fn shaped(&self) -> bool {
        let n = self.spec_n();
        &&& 1 <= n <= MAX_MODALITIES
        &&& 0 <= self.spec_cursor() < ATTENTION_WINDOW
        &&& self.spec_history().len() == n
        &&& forall|i: int| 0 <= i < n ==> (#[trigger] self.spec_history()[i]).len() == ATTENTION_WINDOW
        &&& self.spec_attention().len() == n
        &&& forall|i: int| 0 <= i < n ==> (#[trigger] self.spec_attention()[i]).len() == n
        &&& self.spec_imbalance().len() == n
        &&& forall|i: int| 0 <= i < n ==> (#[trigger] self.spec_imbalance()[i]).len() == n
        &&& self.spec_surprise().len() == n
        &&& self.spec_lr_scales().len() == n
        &&& self.spec_cached_bias().len() == n
        &&& self.spec_mean().len() == n
        &&& self.spec_m2().len() == n
        &&& self.spec_count().len() == n
        &&& self.spec_spike().len() == n
    }

    /// A consistent engine has the shape of `shaped`; since every operation
    /// keeps it consistent, the shape holds throughout.
    pub proof fn lemma_shaped(&self)
        requires
            self.wf(),
        ensures
            self.shaped(),
    {
        assert forall|i: int| 0 <= i < self.spec_n() implies (#[trigger] self.spec_history()[i]).len()
            == ATTENTION_WINDOW by {
            assert(self.spec_history()[i] == self.history@[i]@);
        }
        assert forall|i: int| 0 <= i < self.spec_n() implies (#[trigger] self.spec_attention()[i]).len()
            == self.spec_n() by {
            assert(self.spec_attention()[i] == self.attention_weights@[i]@);
        }
        assert forall|i: int| 0 <= i < self.spec_n() implies (#[trigger] self.spec_imbalance()[i]).len()
            == self.spec_n() by {
            assert(self.spec_imbalance()[i] == self.imbalance_counters@[i]@);
        }
    }

    /// A fresh engine for `num_modalities` modalities (one to four): empty
    /// history, zero surprise, unit learning rates, uniform attention.
    pub fn new(num_modalities: usize) -> (f: Self)
        requires
            1 <= num_modalities <= MAX_MODALITIES,
        ensures
            f.wf(),
            f.shaped(),
            f.spec_n() == num_modalities,
            f.spec_cursor() == 0,
            forall|i: int, t: int|
                0 <= i < num_modalities && 0 <= t < ATTENTION_WINDOW ==> (#[trigger] f.spec_history()[i][t]).mantissas@.len()
                    == 0,
            f.spec_surprise() == Seq::new(num_modalities as nat, |i: int| 0u64),
            f.spec_lr_scales() == Seq::new(num_modalities as nat, |i: int| FIXED_SCALE),
            forall|i: int, j: int|
                0 <= i < num_modalities && 0 <= j < num_modalities ==> #[trigger] f.spec_attention()[i][j] == FIXED_SCALE
                    / (num_modalities as i32),
            forall|i: int, j: int|
                0 <= i < num_modalities && 0 <= j < num_modalities ==> #[trigger] f.spec_imbalance()[i][j] == 0,
            f.spec_cached_bias() == Seq::new(num_modalities as nat, |i: int| 0i32),
            f.spec_mean() == Seq::new(num_modalities as nat, |i: int| 0u64),
            f.spec_m2() == Seq::new(num_modalities as nat, |i: int| 0u64),
            f.spec_count() == Seq::new(num_modalities as nat, |i: int| 0u32),
            f.spec_spike() == Seq::new(num_modalities as nat, |i: int| false),
    {
        let n = num_modalities;
        let uniform = FIXED_SCALE / (n as i32);
        let mut history: Vec<Vec<Bfp16Vec>> = Vec::new();
        let mut attention_weights: Vec<Vec<i32>> = Vec::new();
        let mut imbalance_counters: Vec<Vec<u32>> = Vec::new();
        let mut i: usize = 0;
        while i < n
            invariant
                i <= n,
                1 <= n <= 4,
                uniform == FIXED_SCALE / (n as i32),
                history@.len() == i,
                attention_weights@.len() == i,
                imbalance_counters@.len() == i,
                forall|a: int| 0 <= a < i ==> (#[trigger] history@[a])@.len() == ATTENTION_WINDOW,
                forall|a: int, t: int|
                    0 <= a < i && 0 <= t < ATTENTION_WINDOW ==> (#[trigger] history@[a]@[t]).mantissas@.len() == 0,
                forall|a: int| 0 <= a < i ==> (#[trigger] attention_weights@[a])@.len() == n,
                forall|a: int, j: int| 0 <= a < i && 0 <= j < n ==> #[trigger] attention_weights@[a]@[j] == uniform,
                forall|a: int| 0 <= a < i ==> (#[trigger] imbalance_counters@[a])@.len() == n,
                forall|a: int, j: int| 0 <= a < i && 0 <= j < n ==> #[trigger] imbalance_counters@[a]@[j] == 0,
            decreases n - i,
        {
            let mut row: Vec<Bfp16Vec> = Vec::new();
            let mut t: usize = 0;
            while t < ATTENTION_WINDOW
                invariant
                    t <= ATTENTION_WINDOW,
                    row@.len() == t,
                    forall|b: int| 0 <= b < t ==> (#[trigger] row@[b]).mantissas@.len() == 0,
                decreases ATTENTION_WINDOW - t,
            {
                row.push(Bfp16Vec::empty());
                t = t + 1;
            }
            history.push(row);
            attention_weights.push(vec![uniform; n]);
            imbalance_counters.push(vec![0u32; n]);
            i = i + 1;
        }
        let f = MultimodalFusion {
            num_modalities: n,
            history,
            cursor: 0,
            surprise: vec![0u64; n],
            lr_scales: vec![FIXED_SCALE; n],
            attention_weights,
            imbalance_counters,
            cached_cross_modal_bias: vec![0i32; n],
            surprise_mean: vec![0u64; n],
            surprise_m2: vec![0u64; n],
            surprise_count: vec![0u32; n],
            spike_active: vec![false; n],
        };
        proof {
            assert(0 <= uniform <= FIXED_SCALE);
            assert(f.surprise@ =~= Seq::new(n as nat, |i: int| 0u64));
            assert(f.lr_scales@ =~= Seq::new(n as nat, |i: int| FIXED_SCALE));
            assert(f.cached_cross_modal_bias@ =~= Seq::new(n as nat, |i: int| 0i32));
            assert(f.surprise_mean@ =~= Seq::new(n as nat, |i: int| 0u64));
            assert(f.surprise_m2@ =~= Seq::new(n as nat, |i: int| 0u64));
            assert(f.surprise_count@ =~= Seq::new(n as nat, |i: int| 0u32));
            assert(f.spike_active@ =~= Seq::new(n as nat, |i: int| false));
        }
        f
    }

    /// Number of modalities.
    pub fn num_modalities(&self) -> (n: usize)
        ensures
            n == self.spec_n(),
    {
        self.num_modalities
    }

    /// Next write slot of the history ring.
    pub fn cursor(&self) -> (c: usize)
        ensures
            c == self.spec_cursor(),
    {
        self.cursor
    }

    /// Latest surprise per modality.
    pub fn surprise(&self) -> (s: &[u64])
        ensures
            s@ == self.spec_surprise(),
    {
        self.surprise.as_slice()
    }

    /// Learning-rate scales (Q16.16).
    pub fn lr_scales(&self) -> (s: &[i32])
        ensures
            s@ == self.spec_lr_scales(),
    {
        self.lr_scales.as_slice()
    }

    /// Cached cross-modal bias per modality (Q16.16).
    pub fn cached_cross_modal_bias(&self) -> (s: &[i32])
        ensures
            s@ == self.spec_cached_bias(),
    {
        self.cached_cross_modal_bias.as_slice()
    }

    /// The stored observation of modality `m` at ring slot `t`.
    pub fn history_slot(&self, m: usize, t: usize) -> (v: &Bfp16Vec)
        requires
            self.wf(),
            m < self.spec_n(),
            t < ATTENTION_WINDOW,
        ensures
            *v == self.spec_history()[m as int][t as int],
    {
        &self.history[m][t]
    }

    /// Attention weight of `source` on `target` (Q16.16).
    pub fn attention_weight(&self, source: usize, target: usize) -> (w: i32)
        requires
            self.wf(),
            source < self.spec_n(),
            target < self.spec_n(),
        ensures
            w == self.spec_attention()[source as int][target as int],
    {
        self.attention_weights[source][target]
    }

    /// Overwrites the surprise of one modality.
    pub fn set_surprise(&mut self, m: usize, value: u64)
        requires
            old(self).wf(),
            m < old(self).spec_n(),
        ensures
            final(self).wf(),
            final(self).spec_surprise() == old(self).spec_surprise().update(m as int, value),
            final(self).spec_n() == old(self).spec_n(),
            final(self).spec_attention() == old(self).spec_attention(),
            final(self).spec_imbalance() == old(self).spec_imbalance(),
            final(self).spec_lr_scales() == old(self).spec_lr_scales(),
    {
        self.surprise.set(m, value);
    }

    /// Whether modality `modality` has an active surprise spike.
    pub fn is_spike_active(&self, modality: Modality) -> (b: bool)
        requires
            self.wf(),
            modality_index(modality) < self.spec_n(),
        ensures
            b == self.spec_spike()[modality_index(modality)],
    {
        self.spike_active[modality_idx(modality)]
    }

    /// Cross-modal bias of `target_idx`: the other modalities' surprise (in
    /// whole units) weighted by their attention on the target, summed in
    /// Q16.16 and clamped to the `i32` range.
    pub fn compute_cross_modal_bias(&self, target_idx: usize) -> (b: i32)
        requires
            self.wf(),
            target_idx < self.spec_n(),
        ensures
            b == cross_modal_bias(self.spec_attention(), self.spec_surprise(), self.spec_n(), target_idx as int),
    {
        let mut total_bias: i64 = 0;
        let mut s: usize = 0;
        while s < self.num_modalities
            invariant
                self.wf(),
                target_idx < self.num_modalities,
                s <= self.num_modalities,
                total_bias == bias_sum(self.spec_attention(), self.spec_surprise(), target_idx as int, s as int),
                0 <= total_bias <= (s as int) * 281_474_976_710_655,
            decreases self.num_modalities - s,
        {
            if s != target_idx {
                proof {
                    assert(self.attention_weights@[s as int]@.len() == self.num_modalities);
                    assert(0 <= self.attention_weights@[s as int]@[target_idx as int] <= FIXED_SCALE);
                }
                let attention = self.attention_weights[s][target_idx] as i64;
                let normalized = (self.surprise[s] / 1_000_000) as i64;
                assert(normalized <= 18_446_744_073_709);
                let scaled = normalized * (FIXED_SCALE as i64);
                let fixed = scaled >> 16u32;
                assert(fixed == normalized) by (bit_vector)
                    requires
                        0 <= normalized <= 18_446_744_073_709i64,
                        scaled == normalized * 65536,
                        fixed == scaled >> 16u32,
                ;
                assert(0 <= attention <= 65536);
                assert(0 <= attention * fixed <= 65536 * 18_446_744_073_709) by (nonlinear_arith)
                    requires
                        0 <= attention <= 65536,
                        0 <= fixed <= 18_446_744_073_709,
                ;
                let prod = attention * fixed;
                let term = prod >> 16u32;
                assert(term == prod / 65536 && term <= 18_446_744_073_709) by (bit_vector)
                    requires
                        0 <= prod <= 1_208_925_819_614_593_024i64,
                        term == prod >> 16u32,
                ;
                proof {
                    assert(self.spec_attention()[s as int][target_idx as int] == attention);
                    assert(bias_term(attention as int, self.spec_surprise()[s as int]) == term);
                }
                total_bias = total_bias + term;
            }
            s = s + 1;
        }
        if total_bias < (i32::MIN as i64) {
            i32::MIN
        } else if total_bias > (i32::MAX as i64) {
            i32::MAX
        } else {
            total_bias as i32
        }
    }

    /// Compares modality `modality_idx`'s surprise with every other one:
    /// an imbalance counter rises while it is more than twice the other's and
    /// decays otherwise; past five, the learning-rate scale is reduced (times
    /// 0.95, wrapping, floored at 0.6) and the counter restarts.
    pub fn update_lr_scale(&mut self, modality_idx: usize)
        requires
            old(self).wf(),
            modality_idx < old(self).spec_n(),
        ensures
            final(self).wf(),
            final(self).shaped(),
            ({
                let r = lr_scan(
                    old(self).spec_surprise(),
                    modality_idx as int,
                    old(self).spec_imbalance()[modality_idx as int],
                    old(self).spec_lr_scales()[modality_idx as int],
                    old(self).spec_n(),
                );
                &&& final(self).spec_imbalance() == old(self).spec_imbalance().update(modality_idx as int, r.0)
                &&& final(self).spec_lr_scales() == old(self).spec_lr_scales().update(modality_idx as int, r.1)
            }),
            final(self).spec_n() == old(self).spec_n(),
            final(self).spec_history() == old(self).spec_history(),
            final(self).spec_cursor() == old(self).spec_cursor(),
            final(self).spec_surprise() == old(self).spec_surprise(),
            final(self).spec_attention() == old(self).spec_attention(),
            final(self).spec_cached_bias() == old(self).spec_cached_bias(),
            final(self).spec_mean() == old(self).spec_mean(),
            final(self).spec_m2() == old(self).spec_m2(),
            final(self).spec_count() == old(self).spec_count(),
            final(self).spec_spike() == old(self).spec_spike(),
    {
        let n = self.num_modalities;
        let my = self.surprise[modality_idx];
        let ghost row0 = self.imbalance_counters@[modality_idx as int]@;
        let ghost lr0 = self.lr_scales@[modality_idx as int];
        let mut row = self.imbalance_counters[modality_idx].clone();
        let mut lr = self.lr_scales[modality_idx];
        proof {
            assert(row@ == row0);
        }
        let mut o: usize = 0;
        while o < n
            invariant
                self.wf(),
                n == self.num_modalities,
                modality_idx < n,
                o <= n,
                my == self.surprise@[modality_idx as int],
                row@.len() == n,
                LR_FLOOR <= lr <= FIXED_SCALE,
                (row@, lr) == lr_scan(self.surprise@, modality_idx as int, row0, lr0, o as int),
            decreases n - o,
        {
            if o != modality_idx {
                let other = self.surprise[o];
                let doubled = sat_mul(other, 2);
                let mut c = row[o];
                if my > doubled {
                    c = c.saturating_add(1);
                } else if c > 0 {
                    c = c - 1;
                }
                if c > 5 {
                    proof {
                        lemma_lr_reduced_bounds(lr);
                    }
                    let w: u64 = (lr as u64) * (LR_DECAY as u64);
                    let shifted: u64 = w >> 16u64;
                    assert(shifted == w / 65536) by (bit_vector)
                        requires
                            shifted == w >> 16u64,
                    ;
                    lr = shifted as i32;
                    if lr < LR_FLOOR {
                        lr = LR_FLOOR;
                    }
                    c = 0;
                }
                row.set(o, c);
            }
            o = o + 1;
        }
        let ghost old_counters = self.imbalance_counters@;
        let ghost old_lrs = self.lr_scales@;
        self.imbalance_counters.set(modality_idx, row);
        self.lr_scales.set(modality_idx, lr);
        proof {
            assert(self.spec_imbalance() =~= old(self).spec_imbalance().update(modality_idx as int, row@));
        }
    }

    /// Moves the attention of `source` on `target` by
    /// `0.025 * correlation` (wrapping Q16.16), saturating, then clamped to
    /// `[0, 1]`.
    pub fn train_attention_fixed(&mut self, source: Modality, target: Modality, correlation_fixed: i32)
        requires
            old(self).wf(),
            modality_index(source) < old(self).spec_n(),
            modality_index(target) < old(self).spec_n(),
        ensures
            final(self).wf(),
            ({
                let s = modality_index(source);
                let t = modality_index(target);
                let g = ATTENTION_LR.wrapping_mul(correlation_fixed) >> 16u32;
                let w = sat_add_i32_spec(old(self).spec_attention()[s][t], g);
                let c = if w < 0 { 0i32 } else if w > FIXED_SCALE { FIXED_SCALE } else { w };
                final(self).spec_attention() == old(self).spec_attention().update(
                    s,
                    old(self).spec_attention()[s].update(t, c),
                )
            }),
            final(self).spec_n() == old(self).spec_n(),
            final(self).spec_surprise() == old(self).spec_surprise(),
            final(self).spec_lr_scales() == old(self).spec_lr_scales(),
            final(self).spec_imbalance() == old(self).spec_imbalance(),
    {
        let s = modality_idx(source);
        let t = modality_idx(target);
        let product = ATTENTION_LR.wrapping_mul(correlation_fixed);
        let gradient = product >> 16u32;
        let mut row = self.attention_weights[s].clone();
        let w = sat_add_i32(row[t], gradient);
        let c = if w < 0 { 0 } else if w > FIXED_SCALE { FIXED_SCALE } else { w };
        row.set(t, c);
        let ghost before = self.attention_weights@;
        self.attention_weights.set(s, row);
        proof {
            assert(self.spec_attention() =~= old(self).spec_attention().update(
                s as int,
                old(self).spec_attention()[s as int].update(t as int, c),
            ));
        }
    }

    /// Estimated heap footprint in bytes: every stored vector (exponent,
    /// mantissas, vector header) plus the per-modality tables.
    pub fn estimated_heap_bytes(&self) -> (b: usize)
        requires
            self.wf(),
            rows_bytes(self.spec_history(), self.spec_n()) + tables_bytes(self.spec_n()) <= usize::MAX,
        ensures
            b == rows_bytes(self.spec_history(), self.spec_n()) + tables_bytes(self.spec_n()),
    {
        let n = self.num_modalities;
        let ghost h = self.spec_history();
        let mut total: usize = 0;
        let mut i: usize = 0;
        while i < n
            invariant
                self.wf(),
                n == self.num_modalities,
                h == self.spec_history(),
                i <= n,
                total == rows_bytes(h, i as int),
                rows_bytes(h, n as int) + tables_bytes(n as int) <= usize::MAX,
            decreases n - i,
        {
            proof {
                lemma_rows_bytes_mono(h, i as int + 1, n as int);
            }
            let row = &self.history[i];
            let mut t: usize = 0;
            while t < row.len()
                invariant
                    self.wf(),
                    i < n,
                    n == self.num_modalities,
                    h == self.spec_history(),
                    row@ == h[i as int],
                    t <= row@.len(),
                    total == rows_bytes(h, i as int) + row_bytes(h[i as int], t as int),
                    rows_bytes(h, i + 1) <= usize::MAX,
                decreases row@.len() - t,
            {
                proof {
                    lemma_row_bytes_mono(h[i as int], t as int + 1, row@.len() as int);
                }
                total = total + 1 + row[t].mantissas.len() * 2 + 24;
                t = t + 1;
            }
            i = i + 1;
        }
        total = total + n * 8;
        total = total + n * 4;
        total = total + n * n * 4;
        total = total + n * n * 4;
        total = total + n * 4;
        total = total + n * 8;
        total = total + n * 8;
        total = total + n * 4;
        total = total + n;
        total
    }

    /// Stores an observation in the current ring slot of modality `m`.
    fn store_observation(&mut self, m: usize, observation: Bfp16Vec)
        requires
            old(self).wf(),
            m < old(self).spec_n(),
        ensures
            final(self).wf(),
            final(self).spec_history() == old(self).spec_history().update(
                m as int,
                old(self).spec_history()[m as int].update(old(self).spec_cursor(), observation),
            ),
            final(self).spec_n() == old(self).spec_n(),
            final(self).spec_cursor() == old(self).spec_cursor(),
            final(self).spec_surprise() == old(self).spec_surprise(),
            final(self).spec_lr_scales() == old(self).spec_lr_scales(),
            final(self).spec_attention() == old(self).spec_attention(),
            final(self).spec_imbalance() == old(self).spec_imbalance(),
            final(self).spec_cached_bias() == old(self).spec_cached_bias(),
            final(self).spec_mean() == old(self).spec_mean(),
            final(self).spec_m2() == old(self).spec_m2(),
            final(self).spec_count() == old(self).spec_count(),
            final(self).spec_spike() == old(self).spec_spike(),
    {
        let cursor = self.cursor;
        let ghost old_history = self.spec_history();
        let mut row = self.history.remove(m);
        row.set(cursor, observation);
        self.history.insert(m, row);
        proof {
            assert(self.spec_history() =~= old_history.update(m as int, old_history[m as int].update(cursor as int, observation)));
            assert forall|i: int| 0 <= i < self.num_modalities implies (#[trigger] self.history@[i])@.len() == ATTENTION_WINDOW by {
                if i != m {
                    assert(self.spec_history()[i] == old_history[i]);
                }
            }
        }
    }

    /// Records the squared error as modality `m`'s surprise and runs spike
    /// detection.
    fn record_surprise(&mut self, m: usize, error_scaled: u64)
        requires
            old(self).wf(),
            m < old(self).spec_n(),
        ensures
            final(self).wf(),
            ({
                let new_s = sat_mul_spec(error_scaled, error_scaled) as u64;
                let count = old(self).spec_count()[m as int].saturating_add(1);
                let su = spike_update(count, old(self).spec_mean()[m as int], old(self).spec_m2()[m as int], new_s);
                &&& final(self).spec_surprise() == old(self).spec_surprise().update(m as int, new_s)
                &&& final(self).spec_count() == old(self).spec_count().update(m as int, count)
                &&& final(self).spec_mean() == old(self).spec_mean().update(m as int, su.0)
                &&& final(self).spec_m2() == old(self).spec_m2().update(m as int, su.1)
                &&& final(self).spec_spike() == old(self).spec_spike().update(m as int, su.2)
            }),
            final(self).spec_n() == old(self).spec_n(),
            final(self).spec_history() == old(self).spec_history(),
            final(self).spec_cursor() == old(self).spec_cursor(),
            final(self).spec_lr_scales() == old(self).spec_lr_scales(),
            final(self).spec_attention() == old(self).spec_attention(),
            final(self).spec_imbalance() == old(self).spec_imbalance(),
            final(self).spec_cached_bias() == old(self).spec_cached_bias(),
    {
        let new_surprise = sat_mul(error_scaled, error_scaled);
        self.surprise.set(m, new_surprise);
        let count32 = self.surprise_count[m].saturating_add(1);
        self.surprise_count.set(m, count32);
        let count = count32 as u64;
        let old_mean = self.surprise_mean[m];
        if count <= 1 {
            self.surprise_mean.set(m, new_surprise);
            self.surprise_m2.set(m, 0);
            self.spike_active.set(m, true);
        } else {
            let delta = if new_surprise >= old_mean { new_surprise - old_mean } else { old_mean - new_surprise };
            let new_mean = old_mean / 2 + new_surprise / 2;
            self.surprise_mean.set(m, new_mean);
            let m2 = (self.surprise_m2[m] / 2).saturating_add(delta / 2);
            self.surprise_m2.set(m, m2);
            let variance = m2 / count;
            let sigma = isqrt_u64(variance);
            let threshold = new_mean.saturating_add(sat_mul(sigma, SPIKE_THRESHOLD_MULTIPLIER) / 2);
            self.spike_active.set(m, new_surprise > threshold);
        }
    }

    /// Recomputes the cached bias of every modality other than `m`.
    fn refresh_biases(&mut self, m: usize)
        requires
            old(self).wf(),
            m < old(self).spec_n(),
        ensures
            final(self).wf(),
            final(self).spec_cached_bias() == refreshed_biases(
                old(self).spec_cached_bias(),
                old(self).spec_attention(),
                old(self).spec_surprise(),
                old(self).spec_n(),
                m as int,
            ),
            final(self).spec_n() == old(self).spec_n(),
            final(self).spec_history() == old(self).spec_history(),
            final(self).spec_cursor() == old(self).spec_cursor(),
            final(self).spec_surprise() == old(self).spec_surprise(),
            final(self).spec_lr_scales() == old(self).spec_lr_scales(),
            final(self).spec_attention() == old(self).spec_attention(),
            final(self).spec_imbalance() == old(self).spec_imbalance(),
            final(self).spec_mean() == old(self).spec_mean(),
            final(self).spec_m2() == old(self).spec_m2(),
            final(self).spec_count() == old(self).spec_count(),
            final(self).spec_spike() == old(self).spec_spike(),
    {
        let n = self.num_modalities;
        let ghost cached0 = self.cached_cross_modal_bias@;
        let mut t: usize = 0;
        while t < n
            invariant
                self.wf(),
                n == self.num_modalities,
                m < n,
                t <= n,
                self.num_modalities == old(self).num_modalities,
                self.history == old(self).history,
                self.cursor == old(self).cursor,
                self.surprise == old(self).surprise,
                self.lr_scales == old(self).lr_scales,
                self.attention_weights == old(self).attention_weights,
                self.imbalance_counters == old(self).imbalance_counters,
                self.surprise_mean == old(self).surprise_mean,
                self.surprise_m2 == old(self).surprise_m2,
                self.surprise_count == old(self).surprise_count,
                self.spike_active == old(self).spike_active,
                cached0 == old(self).cached_cross_modal_bias@,
                cached0.len() == n,
                self.cached_cross_modal_bias@.len() == n,
                forall|j: int|
                    0 <= j < n ==> #[trigger] self.cached_cross_modal_bias@[j] == if j < t && j != m {
                        cross_modal_bias(self.spec_attention(), self.surprise@, n as int, j)
                    } else {
                        cached0[j]
                    },
            decreases n - t,
        {
            if t != m {
                let b = self.compute_cross_modal_bias(t);
                self.cached_cross_modal_bias.set(t, b);
            }
            t = t + 1;
        }
        proof {
            assert(self.cached_cross_modal_bias@ =~= refreshed_biases(
                cached0,
                old(self).spec_attention(),
                old(self).spec_surprise(),
                n as int,
                m as int,
            ));
        }
    }

    /// Records an observation of `modality` with its scaled prediction error
    /// (the absolute error times 10^6): the observation fills the current
    /// ring slot, the squared error becomes the modality's surprise, spike
    /// detection runs, a spike refreshes the other modalities' cached bias,
    /// the ring advances and the learning-rate scale is updated.
    pub fn observe_scaled(&mut self, modality: Modality, observation: Bfp16Vec, error_scaled: u64)
        requires
            old(self).wf(),
            modality_index(modality) < old(self).spec_n(),
        ensures
            final(self).wf(),
            final(self).spec_n() == old(self).spec_n(),
            final(self).spec_history() == old(self).spec_history().update(
                modality_index(modality),
                old(self).spec_history()[modality_index(modality)].update(old(self).spec_cursor(), observation),
            ),
            final(self).spec_surprise() == old(self).spec_surprise().update(
                modality_index(modality),
                sat_mul_spec(error_scaled, error_scaled) as u64,
            ),
            final(self).spec_count() == old(self).spec_count().update(
                modality_index(modality),
                old(self).spec_count()[modality_index(modality)].saturating_add(1),
            ),
            final(self).spec_mean() == old(self).spec_mean().update(
                modality_index(modality),
                observe_spike(*old(self), modality, error_scaled).0,
            ),
            final(self).spec_m2() == old(self).spec_m2().update(
                modality_index(modality),
                observe_spike(*old(self), modality, error_scaled).1,
            ),
            final(self).spec_spike() == old(self).spec_spike().update(
                modality_index(modality),
                observe_spike(*old(self), modality, error_scaled).2,
            ),
            final(self).spec_cached_bias() == if observe_spike(*old(self), modality, error_scaled).2 {
                refreshed_biases(
                    old(self).spec_cached_bias(),
                    old(self).spec_attention(),
                    final(self).spec_surprise(),
                    old(self).spec_n(),
                    modality_index(modality),
                )
            } else {
                old(self).spec_cached_bias()
            },
            final(self).spec_cursor() == (old(self).spec_cursor() + 1) % (ATTENTION_WINDOW as int),
            final(self).spec_imbalance() == old(self).spec_imbalance().update(
                modality_index(modality),
                observe_lr(*old(self), modality, error_scaled).0,
            ),
            final(self).spec_lr_scales() == old(self).spec_lr_scales().update(
                modality_index(modality),
                observe_lr(*old(self), modality, error_scaled).1,
            ),
            final(self).spec_attention() == old(self).spec_attention(),
    {
        let m = modality_idx(modality);
        self.store_observation(m, observation);
        self.record_surprise(m, error_scaled);
        if self.spike_active[m] {
            self.refresh_biases(m);
        }
        self.cursor = (self.cursor + 1) % ATTENTION_WINDOW;
        self.update_lr_scale(m);
    }
}

/// Spike detection outcome of an observation: new mean, spread and flag.
pub open spec fn observe_spike(f: MultimodalFusion, modality: Modality, error_scaled: u64) -> (u64, u64, bool) {
    let m = modality_index(modality);
    spike_update(
        f.spec_count()[m].saturating_add(1),
        f.spec_mean()[m],
        f.spec_m2()[m],
        sat_mul_spec(error_scaled, error_scaled) as u64,
    )
}

/// Learning-rate outcome of an observation: the modality's new imbalance
/// counters and scale.
pub open spec fn observe_lr(f: MultimodalFusion, modality: Modality, error_scaled: u64) -> (Seq<u32>, i32) {
    let m = modality_index(modality);
    lr_scan(
        f.spec_surprise().update(m, sat_mul_spec(error_scaled, error_scaled) as u64),
        m,
        f.spec_imbalance()[m],
        f.spec_lr_scales()[m],
        f.spec_n(),
    )
}


/// Heap estimate of an engine whose stored vectors hold at most `m`
/// mantissas each: at most `n * ATTENTION_WINDOW * (25 + 2m)` bytes for
/// the history, exactly 25 bytes per slot when every vector is empty (as
/// in a fresh engine).
pub proof fn lemma_heap_bytes_bound(f: MultimodalFusion, m: nat)
    requires
        f.wf(),
        forall|i: int, t: int|
            0 <= i < f.spec_n() && 0 <= t < ATTENTION_WINDOW ==> (#[trigger] f.spec_history()[i][t]).mantissas@.len()
                <= m,
    ensures
        rows_bytes(f.spec_history(), f.spec_n() as int) <= f.spec_n() * (ATTENTION_WINDOW * (25 + 2 * m)),
        (forall|i: int, t: int|
            0 <= i < f.spec_n() && 0 <= t < ATTENTION_WINDOW ==> (#[trigger] f.spec_history()[i][t]).mantissas@.len()
                == 0) ==> rows_bytes(f.spec_history(), f.spec_n() as int) == f.spec_n() * (25 * ATTENTION_WINDOW),
{
    let h = f.spec_history();
    assert forall|i: int| 0 <= i < f.spec_n() implies (#[trigger] h[i]).len() == ATTENTION_WINDOW by {
        assert(h[i] == f.history@[i]@);
    }
    lemma_rows_bytes_bound(h, f.spec_n(), m);
}

/// The learning-rate scales stay within `[0.6, 1.0]`: a fresh engine
/// starts at 1.0, and every operation keeps them there.
pub proof fn lemma_lr_scales_bounded(f: MultimodalFusion)
    requires
        f.wf(),
    ensures
        forall|i: int| 0 <= i < f.spec_n() ==> LR_FLOOR <= #[trigger] f.spec_lr_scales()[i] <= FIXED_SCALE,
{
}

} // verus!
