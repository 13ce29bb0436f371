//! Deterministic Q16.16 mixer: blends six model predictions with learned
//! weights and an AR(2) model of the signal, locks on to a model that keeps
//! winning, and adapts its weights with a multiplicative LMS rule.
use vstd::prelude::*;
use crate::predictors::clamp_int;

verus! {

/// Number of mixed models.
pub const NUM_MODELS: usize = 6;

/// One in Q16.16.
pub const Q16_ONE: i32 = 65536;

/// One half in Q16.16.
pub const Q16_HALF: i32 = 32768;

/// Variance below which the AR(2) model joins the blend (45^2 in Q16.16).
pub const VAR_THRESH: i32 = 132710400;

/// Variance above which the fast learning rate is used (40^2 in Q16.16).
pub const LR_THRESH: i32 = 104857600;

/// Q16.16 product: the exact product shifted right by 16 (floor), truncated
/// to 32 bits.
pub open spec fn mul_q16_spec(a: i32, b: i32) -> i32 {
    ((a as int * b as int) / 65536) as i32
}

/// Integer division truncating toward zero, for any nonzero divisor.
pub open spec fn trunc_quot(a: int, b: int) -> int {
    let q = (if a >= 0 { a } else { -a }) / (if b > 0 { b } else { -b });
    if (a >= 0) == (b > 0) || a == 0 {
        q
    } else {
        -q
    }
}

/// Q16.16 quotient: `(a << 16) / b` truncated toward zero and to 32 bits;
/// zero for a zero divisor.
pub open spec fn div_q16_spec(a: i32, b: i32) -> i32 {
    if b == 0 {
        0
    } else {
        trunc_quot(a as int * 65536, b as int) as i32
    }
}

/// Floor division by 2^16 via an arithmetic right shift of an `i64`.
proof fn lemma_shr16_i64(x: i64)
    ensures
        (x >> 16u32) as int == (x as int) / 65536,
{
    let y = x >> 16u32;
    assert((y as int) * 65536 <= (x as int) && (x as int) < (y as int) * 65536 + 65536) by (bit_vector)
        requires
            y == x >> 16u32,
    ;
}

/// Q16.16 multiplication.
pub fn mul_q16(a: i32, b: i32) -> (r: i32)
    ensures
        r == mul_q16_spec(a, b),
{
    assert(-0x4000_0000_0000_0000 <= (a as int) * (b as int) <= 0x4000_0000_0000_0000) by (nonlinear_arith)
        requires
            i32::MIN <= a <= i32::MAX,
            i32::MIN <= b <= i32::MAX,
    ;
    let p = (a as i64) * (b as i64);
    let s = p >> 16u32;
    proof {
        lemma_shr16_i64(p);
    }
    #[verifier::truncate]
    (s as i32)
}

/// Q16.16 division (zero for a zero divisor).
pub fn div_q16(a: i32, b: i32) -> (r: i32)
    ensures
        r == div_q16_spec(a, b),
{
    if b == 0 {
        return 0;
    }
    let n = (a as i64) * 65536;
    let d = b as i64;
    let na = if n >= 0 { n } else { -n };
    let da = if d > 0 { d } else { -d };
    let q = na / da;
    let t = if (n >= 0) == (d > 0) || n == 0 { q } else { -q };
    #[verifier::truncate]
    (t as i32)
}

/// Mixer weights before any learning: 0.4, 0.2, 0.1, 0.1, 0.1, 0.1, 0, 0.
pub open spec fn default_weights() -> Seq<i32> {
    seq![26214i32, 13107, 6554, 6554, 6554, 6554, 0, 0]
}

/// The first eight values of `s`, padded with zeros.
pub open spec fn take8(s: Seq<i32>) -> Seq<i32> {
    Seq::new(8, |i: int| if i < s.len() { s[i] } else { 0i32 })
}

/// Sum of the first `k` ensemble terms `w[i] * pred[i]` (Q16.16).
pub open spec fn ensemble_partial(w: Seq<i32>, preds: Seq<u8>, k: int) -> int
    decreases k,
{
    if k <= 0 {
        0
    } else {
        ensemble_partial(w, preds, k - 1) + mul_q16_spec(w[k - 1], (preds[k - 1] as int * 65536) as i32)
    }
}

/// Sum of the first `k` weights.
pub open spec fn weight_sum(w: Seq<i32>, k: int) -> int
    decreases k,
{
    if k <= 0 {
        0
    } else {
        weight_sum(w, k - 1) + w[k - 1]
    }
}


/// The index and error of the closest of the first `k` predictions to the
/// target (first one on ties), starting from index 0 and error `i32::MAX`.
pub open spec fn closest(preds: Seq<u8>, y: int, k: int) -> (int, int)
    decreases k,
{
    if k <= 0 {
        (0, i32::MAX as int)
    } else {
        let prev = closest(preds, y, k - 1);
        let err = abs_int(preds[k - 1] as int * 65536 - y);
        if err < prev.1 {
            (k - 1, err)
        } else {
            prev
        }
    }
}

/// Absolute value.
pub open spec fn abs_int(x: int) -> int {
    if x >= 0 {
        x
    } else {
        -x
    }
}

/// Weights after the multiplicative LMS step: each model weight shrinks by
/// `lr * min(error / 255, 1)`.
pub open spec fn lms_weights(w: Seq<i32>, preds: Seq<u8>, y: int, lr: i32) -> Seq<i32> {
    Seq::new(
        8,
        |i: int|
            if i < 6 {
                let err = abs_int(preds[i] as int * 65536 - y) as i32;
                let en = clamp_int(mul_q16_spec(err, 257) as int, 0, 65536) as i32;
                mul_q16_spec(w[i], (65536 - mul_q16_spec(lr, en)) as i32)
            } else {
                w[i]
            },
    )
}

/// Weights pulled toward the global weights by 0.001 (FedProx).
pub open spec fn prox_weights(w: Seq<i32>, g: Seq<i32>) -> Seq<i32> {
    Seq::new(8, |i: int| (w[i] + mul_q16_spec((g[i] - w[i]) as i32, 66)) as i32)
}

/// Weights after regeneration: +0.001 on each model weight.
pub open spec fn regen_weights(w: Seq<i32>) -> Seq<i32> {
    Seq::new(8, |i: int| if i < 6 { (w[i] + 66) as i32 } else { w[i] })
}

/// Weights normalized by their sum when the sum exceeds 10.
pub open spec fn normalized_weights(w: Seq<i32>) -> Seq<i32> {
    let sum = weight_sum(w, 6);
    if sum > 10 {
        Seq::new(8, |i: int| if i < 6 { div_q16_spec(w[i], sum as i32) } else { w[i] })
    } else {
        w
    }
}

/// Weights after a prox step when global weights are set.
pub open spec fn maybe_prox(w: Seq<i32>, g: Option<Seq<i32>>) -> Seq<i32> {
    match g {
        Some(gw) => prox_weights(w, gw),
        None => w,
    }
}

/// Whether every difference between a global and a local weight fits an
/// `i32`.
pub open spec fn prox_diffs_fit(w: Seq<i32>, g: Seq<i32>) -> bool {
    forall|i: int| 0 <= i < 8 ==> i32::MIN <= #[trigger] g[i] - w[i] <= i32::MAX
}

/// Whether the weight update stays within 32-bit arithmetic: every
/// difference to the global weights, every regenerated weight and every
/// partial sum of the regenerated weights fits an `i32`.
pub open spec fn weights_fit(w: Seq<i32>, g: Option<Seq<i32>>) -> bool {
    &&& (g is Some ==> prox_diffs_fit(w, g.unwrap()))
    &&& forall|i: int| 0 <= i < 6 ==> #[trigger] maybe_prox(w, g)[i] + 66 <= i32::MAX
    &&& forall|k: int|
        0 <= k <= 6 ==> i32::MIN <= #[trigger] weight_sum(regen_weights(maybe_prox(w, g)), k) <= i32::MAX
}

/// Moving a weight toward a target by a small fraction stays between them.
proof fn lemma_prox_between(w: i32, g: i32)
    requires
        i32::MIN <= g - w <= i32::MAX,
    ensures
        i32::MIN <= w + mul_q16_spec((g - w) as i32, 66) <= i32::MAX,
        mul_q16_spec((g - w) as i32, 66) as int == ((g - w) * 66) / 65536,
{
    let d = g - w;
    assert(-0x8000_0000 * 66 <= d * 66 <= 0x7fff_ffff * 66) by (nonlinear_arith)
        requires
            i32::MIN <= d <= i32::MAX,
    ;
    if d >= 0 {
        assert(0 <= (d * 66) / 65536 <= d) by (nonlinear_arith)
            requires
                d >= 0,
        ;
    } else {
        assert(d <= (d * 66) / 65536 <= 0) by (nonlinear_arith)
            requires
                d < 0,
        ;
    }
}


/// Running statistics after a target `y`: count, mean moved 1% toward `y`,
/// variance as 0.95 of the old plus 0.05 of the squared deviation.
pub open spec fn stats_step(count: i32, mean: i32, var: i32, batch: usize, y: int) -> (int, int, int) {
    let delta = y - mean;
    let mean2 = mean + mul_q16_spec(delta as i32, 655);
    let delta2 = y - mean2;
    let sq = mul_q16_spec(delta as i32, delta2 as i32);
    (count + (batch as i32), mean2, mul_q16_spec(var, 62259) + mul_q16_spec(sq, 3277))
}

/// Learning rate for a variance and a win streak: fast (0.05) above the
/// variance threshold, slow (0.005) otherwise, times 2.5 while locked on.
pub open spec fn lr_for(var: int, streak: int) -> i32 {
    let base: i32 = if var > LR_THRESH { 3277 } else { 328 };
    if streak > 32 {
        (base * 5 / 2) as i32
    } else {
        base
    }
}

/// AR(2) velocity after an error: momentum 0.9 plus 0.05 of the gradient
/// `err * h * 0.0001`.
pub open spec fn ar_velocity(v: i32, err: int, h: i32) -> int {
    mul_q16_spec(58982, v) + mul_q16_spec(3277, mul_q16_spec(mul_q16_spec(err as i32, h), 7))
}

/// The moving mean stays between its old value and the target.
proof fn lemma_mean_step(mean: i32, y: int)
    requires
        0 <= mean <= 16711680,
        0 <= y <= 16711680,
    ensures
        0 <= mean + mul_q16_spec((y - mean) as i32, 655) <= 16711680,
        mul_q16_spec((y - mean) as i32, 655) as int == ((y - mean) * 655) / 65536,
{
    let d = y - mean;
    if d >= 0 {
        assert(0 <= (d * 655) / 65536 <= d) by (nonlinear_arith)
            requires
                0 <= d <= 16711680,
        ;
    } else {
        assert(d <= (d * 655) / 65536 <= 0) by (nonlinear_arith)
            requires
                -16711680 <= d < 0,
        ;
    }
}

/// Bounds of an AR velocity update.
proof fn lemma_velocity_bound(v: i32, err: int, h: i32)
    requires
        i32::MIN <= err <= i32::MAX,
    ensures
        -1932733646 <= ar_velocity(v, err, h) <= 1932733646,
{
    let a = mul_q16_spec(err as i32, h);
    let g = mul_q16_spec(a, 7);
    assert(-0x8000_0000 * 7 <= (a as int) * 7 <= 0x7fff_ffff * 7) by (nonlinear_arith)
        requires
            i32::MIN <= a <= i32::MAX,
    ;
    assert(-229376 <= g <= 229376);
    assert(-3277 * 229376 <= 3277 * (g as int) <= 3277 * 229376) by (nonlinear_arith)
        requires
            -229376 <= g <= 229376,
    ;
    assert(-1932722176 * 65536 <= 58982 * (v as int) <= 1932722176 * 65536) by (nonlinear_arith)
        requires
            i32::MIN <= v <= i32::MAX,
    ;
}

/// Deterministic ensemble mixer in Q16.16.
pub struct Mixer {
    /// Model weights (Q16.16); the last two are unused.
    pub weights: [i32; 8],
    learning_rate: i32,
    ar_coeffs: [i32; 2],
    history: [i32; 2],
    ar_learning_rate: i32,
    ar_velocities: [i32; 2],
    running_mean: i32,
    running_var: i32,
    count: i32,
    current_winner: usize,
    win_streak: usize,
    global_weights: Option<[i32; 8]>,
}

/// Copies the first eight values of a slice, padding with zeros.
fn copy8(s: &[i32]) -> (a: [i32; 8])
    ensures
        a@ == take8(s@),
{
    let mut a = [0i32; 8];
    let mut i: usize = 0;
    while i < 8 && i < s.len()
        invariant
            i <= 8,
            i <= s@.len(),
            forall|k: int| 0 <= k < 8 ==> a@[k] == if k < i { s@[k] } else { 0i32 },
        decreases 8 - i,
    {
        a[i] = s[i];
        i = i + 1;
    }
    proof {
        assert(a@ =~= take8(s@));
    }
    a
}

impl Mixer {
    /// Model weights (Q16.16).
    pub closed spec fn spec_weights(&self) -> Seq<i32> {
        self.weights@
    }

    /// Learning rate of the weights (Q16.16).
    pub closed spec fn spec_learning_rate(&self) -> i32 {
        self.learning_rate
    }

    /// AR(2) coefficients (Q16.16).
    pub closed spec fn spec_ar_coeffs(&self) -> Seq<i32> {
        self.ar_coeffs@
    }

    /// The last two targets (Q16.16), most recent first.
    pub closed spec fn spec_history(&self) -> Seq<i32> {
        self.history@
    }

    /// AR(2) momentum terms.
    pub closed spec fn spec_ar_velocities(&self) -> Seq<i32> {
        self.ar_velocities@
    }

    /// Running mean and variance of the target (Q16.16).
    pub closed spec fn spec_stats(&self) -> (i32, i32) {
        (self.running_mean, self.running_var)
    }

    /// Samples counted so far.
    pub closed spec fn spec_count(&self) -> i32 {
        self.count
    }

    /// The model that won last, and its winning streak.
    pub closed spec fn spec_lock(&self) -> (usize, usize) {
        (self.current_winner, self.win_streak)
    }

    /// Global weights the local weights are pulled toward, if any.
    pub closed spec fn spec_global(&self) -> Option<Seq<i32>> {
        match self.global_weights {
            Some(g) => Some(g@),
            None => None,
        }
    }

    /// Consistent state: the winner is one of the six models, the AR
    /// coefficients are within their clamps, the history holds byte targets
    /// and the running mean lies between byte targets.
    pub closed spec fn wf(&self) -> bool {
        &&& self.current_winner < NUM_MODELS
        &&& -124518 <= self.ar_coeffs@[0] <= 124518
        &&& -124518 <= self.ar_coeffs@[1] <= 124518
        &&& 0 <= self.history@[0] <= 16711680
        &&& 0 <= self.history@[1] <= 16711680
        &&& 0 <= self.running_mean <= 16711680
        &&& self.ar_learning_rate == 3277
        &&& 0 <= self.learning_rate <= 8192
    }

    /// A mixer with the given initial weights (first eight values, zero
    /// padded; the defaults when none are given) and optional global
    /// weights (likewise).
    pub fn new(init: Option<&[i32]>, global: Option<&[i32]>) -> (m: Self)
        ensures
            m.wf(),
            m.spec_weights() == match init {
                Some(w) => take8(w@),
                None => default_weights(),
            },
            m.spec_global() == match global {
                Some(g) => Some(take8(g@)),
                None => None,
            },
            m.spec_learning_rate() == 655,
            m.spec_ar_coeffs() == seq![65536i32, 0],
            m.spec_history() == seq![0i32, 0],
            m.spec_ar_velocities() == seq![0i32, 0],
            m.spec_stats() == (8388608i32, 65536000i32),
            m.spec_count() == 0,
            m.spec_lock() == (0usize, 0usize),
    {
        let weights = match init {
            Some(w) => copy8(w),
            None => [26214, 13107, 6554, 6554, 6554, 6554, 0, 0],
        };
        let global_weights = match global {
            Some(g) => Some(copy8(g)),
            None => None,
        };
        let m = Mixer {
            weights,
            learning_rate: 655,
            ar_coeffs: [Q16_ONE, 0],
            history: [0, 0],
            ar_learning_rate: 3277,
            ar_velocities: [0, 0],
            running_mean: 8388608,
            running_var: 65536000,
            count: 0,
            current_winner: 0,
            win_streak: 0,
            global_weights,
        };
        proof {
            assert(m.ar_coeffs@ =~= seq![65536i32, 0]);
            assert(m.history@ =~= seq![0i32, 0]);
            assert(m.ar_velocities@ =~= seq![0i32, 0]);
            if init is None {
                assert(m.weights@ =~= default_weights());
            }
        }
        m
    }

    /// The AR(2) estimate of the next target.
    pub open spec fn ar_estimate(&self) -> int {
        mul_q16_spec(self.spec_ar_coeffs()[0], self.spec_history()[0]) + mul_q16_spec(
            self.spec_ar_coeffs()[1],
            self.spec_history()[1],
        )
    }

    /// The blended prediction before rounding (Q16.16): the locked-on model
    /// after a streak over 32, else 0.6 AR + 0.4 ensemble when the variance
    /// is low, else the ensemble.
    pub open spec fn blended(&self, preds: Seq<u8>) -> int {
        let ens = ensemble_partial(self.spec_weights(), preds, 6);
        if self.spec_lock().1 > 32 {
            preds[self.spec_lock().0 as int] as int * 65536
        } else if self.spec_stats().1 < VAR_THRESH {
            mul_q16_spec(39322, self.ar_estimate() as i32) + mul_q16_spec(26214, ens as i32)
        } else {
            ens
        }
    }

    /// Whether `mix` stays within 32-bit arithmetic on these predictions:
    /// every partial ensemble sum, the blend and its rounding fit an `i32`.
    pub open spec fn mix_fits(&self, preds: Seq<u8>) -> bool {
        &&& forall|k: int|
            0 <= k <= 6 ==> i32::MIN <= #[trigger] ensemble_partial(self.spec_weights(), preds, k) <= i32::MAX
        &&& i32::MIN <= self.blended(preds) && self.blended(preds) + 32768 <= i32::MAX
    }

    /// The mixed byte: the blend rounded to the nearest unit and clamped.
    pub open spec fn mix_spec(&self, preds: Seq<u8>) -> int {
        clamp_int((self.blended(preds) + 32768) / 65536, 0, 255)
    }

    /// Mixes the six model predictions into one byte.
    pub fn mix(&self, preds: &[u8; NUM_MODELS]) -> (b: u8)
        requires
            self.wf(),
            self.mix_fits(preds@),
        ensures
            b as int == self.mix_spec(preds@),
    {
        let mut ensemble_sum: i32 = 0;
        let mut i: usize = 0;
        while i < NUM_MODELS
            invariant
                i <= NUM_MODELS,
                self.mix_fits(preds@),
                ensemble_sum == ensemble_partial(self.weights@, preds@, i as int),
            decreases NUM_MODELS - i,
        {
            let p = (preds[i] as i32) * 65536;
            let term = mul_q16(self.weights[i], p);
            proof {
                assert(i32::MIN <= ensemble_partial(self.spec_weights(), preds@, i + 1) <= i32::MAX);
            }
            ensemble_sum = ensemble_sum + term;
            i = i + 1;
        }
        let term1 = mul_q16(self.ar_coeffs[0], self.history[0]);
        let term2 = mul_q16(self.ar_coeffs[1], self.history[1]);
        proof {
            lemma_ar_term_bound(self.ar_coeffs@[0], self.history@[0]);
            lemma_ar_term_bound(self.ar_coeffs@[1], self.history@[1]);
        }
        let ar_pred = term1 + term2;
        let prediction = if self.win_streak > 32 {
            (preds[self.current_winner] as i32) * 65536
        } else if self.running_var < VAR_THRESH {
            let p1 = mul_q16(39322, ar_pred);
            let p2 = mul_q16(26214, ensemble_sum);
            p1 + p2
        } else {
            ensemble_sum
        };
        let rounded = prediction + Q16_HALF;
        let byte_val = rounded >> 16u32;
        proof {
            crate::predictors::lemma_shr16(rounded);
        }
        if byte_val < 0 {
            0
        } else if byte_val > 255 {
            255
        } else {
            byte_val as u8
        }
    }

    /// Every field but the weights is the same.
    closed spec fn same_but_weights(&self, other: &Self) -> bool {
        &&& self.learning_rate == other.learning_rate
        &&& self.ar_coeffs == other.ar_coeffs
        &&& self.history == other.history
        &&& self.ar_learning_rate == other.ar_learning_rate
        &&& self.ar_velocities == other.ar_velocities
        &&& self.running_mean == other.running_mean
        &&& self.running_var == other.running_var
        &&& self.count == other.count
        &&& self.current_winner == other.current_winner
        &&& self.win_streak == other.win_streak
        &&& self.global_weights == other.global_weights
    }

    /// Adapts the weights toward the models that predicted `y` well
    /// (multiplicative LMS), then applies FedProx, regeneration and
    /// normalization.
    fn update_weights(&mut self, y: i32, preds: &[u8; NUM_MODELS])
        requires
            0 <= y <= 16711680,
            0 <= old(self).learning_rate <= 8192,
            weights_fit(
                lms_weights(old(self).weights@, preds@, y as int, old(self).learning_rate),
                old(self).spec_global(),
            ),
        ensures
            final(self).weights@ == normalized_weights(
                regen_weights(
                    maybe_prox(lms_weights(old(self).weights@, preds@, y as int, old(self).learning_rate), old(self).spec_global()),
                ),
            ),
            final(self).learning_rate == old(self).learning_rate,
            final(self).ar_coeffs == old(self).ar_coeffs,
            final(self).history == old(self).history,
            final(self).ar_learning_rate == old(self).ar_learning_rate,
            final(self).ar_velocities == old(self).ar_velocities,
            final(self).running_mean == old(self).running_mean,
            final(self).running_var == old(self).running_var,
            final(self).count == old(self).count,
            final(self).current_winner == old(self).current_winner,
            final(self).win_streak == old(self).win_streak,
            final(self).global_weights == old(self).global_weights,
    {
        let ghost w0 = self.weights@;
        let lr = self.learning_rate;
        let mut i: usize = 0;
        while i < NUM_MODELS
            invariant
                i <= NUM_MODELS,
                0 <= y <= 16711680,
                lr == old(self).learning_rate,
                0 <= lr <= 8192,
                w0 == old(self).weights@,
                forall|k: int|
                    0 <= k < 8 ==> #[trigger] self.weights@[k] == if k < i {
                        lms_weights(w0, preds@, y as int, lr)[k]
                    } else {
                        w0[k]
                    },
                self.learning_rate == old(self).learning_rate,
                self.ar_coeffs == old(self).ar_coeffs,
                self.history == old(self).history,
                self.ar_learning_rate == old(self).ar_learning_rate,
                self.ar_velocities == old(self).ar_velocities,
                self.running_mean == old(self).running_mean,
                self.running_var == old(self).running_var,
                self.count == old(self).count,
                self.current_winner == old(self).current_winner,
                self.win_streak == old(self).win_streak,
                self.global_weights == old(self).global_weights,
            decreases NUM_MODELS - i,
        {
            let p_q16 = (preds[i] as i32) * 65536;
            let diff = p_q16 - y;
            let error = if diff >= 0 { diff } else { -diff };
            let scaled = mul_q16(error, 257);
            let err_norm = if scaled < 0 { 0 } else if scaled > Q16_ONE { Q16_ONE } else { scaled };
            let penalty = mul_q16(lr, err_norm);
            assert(0 <= lr * err_norm <= 8192 * 65536) by (nonlinear_arith)
                requires
                    0 <= lr <= 8192,
                    0 <= err_norm <= 65536,
            ;
            let factor = Q16_ONE - penalty;
            let w = mul_q16(self.weights[i], factor);
            self.weights[i] = w;
            i = i + 1;
        }
        proof {
            assert(self.weights@ =~= lms_weights(w0, preds@, y as int, lr));
        }
        let ghost w1 = self.weights@;
        match self.global_weights {
            Some(global) => {
                let mut j: usize = 0;
                while j < 8
                    invariant
                        j <= 8,
                        w1 == lms_weights(w0, preds@, y as int, lr),
                        old(self).spec_global() == Some(global@),
                        weights_fit(w1, old(self).spec_global()),
                        self.same_but_weights(old(self)),
                        forall|k: int|
                            0 <= k < 8 ==> #[trigger] self.weights@[k] == if k < j {
                                prox_weights(w1, global@)[k]
                            } else {
                                w1[k]
                            },
                    decreases 8 - j,
                {
                    let g = global[j];
                    let wj = self.weights[j];
                    proof {
                        assert(prox_diffs_fit(w1, global@));
                        assert(i32::MIN <= global@[j as int] - w1[j as int] <= i32::MAX);
                        lemma_prox_between(wj, g);
                    }
                    let diff_g = g - wj;
                    let step = mul_q16(diff_g, 66);
                    self.weights[j] = wj + step;
                    j = j + 1;
                }
                proof {
                    assert(self.weights@ =~= prox_weights(w1, global@));
                }
            },
            None => {},
        }
        let ghost w2 = self.weights@;
        proof {
            assert(w2 == maybe_prox(w1, old(self).spec_global()));
        }
        let mut k: usize = 0;
        while k < NUM_MODELS
            invariant
                k <= NUM_MODELS,
                w2 == maybe_prox(w1, old(self).spec_global()),
                weights_fit(w1, old(self).spec_global()),
                self.same_but_weights(old(self)),
                forall|a: int| 0 <= a < 8 ==> #[trigger] self.weights@[a] == if a < k { regen_weights(w2)[a] } else { w2[a] },
            decreases NUM_MODELS - k,
        {
            proof {
                assert(w2[k as int] + 66 <= i32::MAX);
            }
            self.weights[k] = self.weights[k] + 66;
            k = k + 1;
        }
        proof {
            assert(self.weights@ =~= regen_weights(w2));
        }
        let ghost w3 = self.weights@;
        let mut sum: i32 = 0;
        let mut a: usize = 0;
        while a < NUM_MODELS
            invariant
                a <= NUM_MODELS,
                w3 == self.weights@,
                w3 == regen_weights(w2),
                w2 == maybe_prox(w1, old(self).spec_global()),
                weights_fit(w1, old(self).spec_global()),
                self.same_but_weights(old(self)),
                sum == weight_sum(w3, a as int),
            decreases NUM_MODELS - a,
        {
            proof {
                assert(i32::MIN <= weight_sum(w3, a + 1) <= i32::MAX);
            }
            sum = sum + self.weights[a];
            a = a + 1;
        }
        if sum > 10 {
            let mut b: usize = 0;
            while b < NUM_MODELS
                invariant
                    b <= NUM_MODELS,
                    sum == weight_sum(w3, 6),
                    sum > 10,
                    self.same_but_weights(old(self)),
                    forall|c: int|
                        0 <= c < 8 ==> #[trigger] self.weights@[c] == if c < b {
                            div_q16_spec(w3[c], sum)
                        } else {
                            w3[c]
                        },
                decreases NUM_MODELS - b,
            {
                let v = div_q16(self.weights[b], sum);
                self.weights[b] = v;
                b = b + 1;
            }
        }
        proof {
            assert(self.weights@ =~= normalized_weights(w3));
        }
    }

    /// The weights after learning from target `y` at learning rate `lr`.
    pub open spec fn learned_weights(&self, preds: Seq<u8>, y: int, lr: i32) -> Seq<i32> {
        normalized_weights(regen_weights(maybe_prox(lms_weights(self.spec_weights(), preds, y, lr), self.spec_global())))
    }

    /// Whether `update_lazy` stays within machine arithmetic: the sample
    /// count, the variance and the win streak fit, and so does the weight
    /// update.
    pub open spec fn update_fits(&self, batch_size: usize, actual: u8, preds: Seq<u8>) -> bool {
        let y = actual as int * 65536;
        let st = stats_step(self.spec_count(), self.spec_stats().0, self.spec_stats().1, batch_size, y);
        let best = closest(preds, y, 6).0;
        let streak = if best == self.spec_lock().0 { self.spec_lock().1 + batch_size } else { 0 };
        &&& i32::MIN <= st.0 <= i32::MAX
        &&& i32::MIN <= st.2 <= i32::MAX
        &&& streak <= usize::MAX
        &&& weights_fit(lms_weights(self.spec_weights(), preds, y, lr_for(st.2, streak)), self.spec_global())
    }

    /// Learns from one sample of a batch: updates the running statistics,
    /// the lock-on winner (the model closest to the target, first on ties)
    /// and its streak, the learning rate, the weights and the AR(2) model,
    /// and shifts the target into the AR history.
    pub fn update_lazy(&mut self, batch_size: usize, sample_actual: u8, sample_preds: &[u8; NUM_MODELS])
        requires
            old(self).wf(),
            old(self).update_fits(batch_size, sample_actual, sample_preds@),
        ensures
            final(self).wf(),
            ({
                let y = sample_actual as int * 65536;
                let st = stats_step(old(self).spec_count(), old(self).spec_stats().0, old(self).spec_stats().1, batch_size, y);
                let best = closest(sample_preds@, y, 6).0;
                let lock = if best == old(self).spec_lock().0 {
                    (old(self).spec_lock().0 as int, old(self).spec_lock().1 + batch_size)
                } else {
                    (best, 0int)
                };
                let lr = lr_for(st.2, lock.1);
                let est = old(self).ar_estimate();
                let c = old(self).spec_ar_coeffs();
                let h = old(self).spec_history();
                let v = old(self).spec_ar_velocities();
                let v0 = ar_velocity(v[0], y - est, h[0]);
                let v1 = ar_velocity(v[1], y - est, h[1]);
                &&& final(self).spec_count() == st.0
                &&& final(self).spec_stats() == (st.1 as i32, st.2 as i32)
                &&& final(self).spec_lock() == (lock.0 as usize, lock.1 as usize)
                &&& final(self).spec_learning_rate() == lr
                &&& final(self).spec_weights() == old(self).learned_weights(sample_preds@, y, lr)
                &&& final(self).spec_ar_velocities() == seq![v0 as i32, v1 as i32]
                &&& final(self).spec_ar_coeffs() == seq![
                    clamp_int(c[0] + v0, -124518, 124518) as i32,
                    clamp_int(c[1] + v1, -64880, 64880) as i32,
                ]
                &&& final(self).spec_history() == seq![y as i32, h[0]]
                &&& final(self).spec_global() == old(self).spec_global()
            }),
    {
        let y = (sample_actual as i32) * 65536;
        let batch = #[verifier::truncate] (batch_size as i32);
        self.count = self.count + batch;
        let delta = y - self.running_mean;
        proof {
            lemma_mean_step(self.running_mean, y as int);
        }
        self.running_mean = self.running_mean + mul_q16(delta, 655);
        let delta2 = y - self.running_mean;
        let sq_term = mul_q16(delta, delta2);
        self.running_var = mul_q16(self.running_var, 62259) + mul_q16(sq_term, 3277);
        let mut best_idx: usize = 0;
        let mut min_err: i32 = i32::MAX;
        let mut i: usize = 0;
        while i < NUM_MODELS
            invariant
                i <= NUM_MODELS,
                0 <= y <= 16711680,
                (best_idx as int, min_err as int) == closest(sample_preds@, y as int, i as int),
                best_idx < NUM_MODELS,
            decreases NUM_MODELS - i,
        {
            let p_q16 = (sample_preds[i] as i32) * 65536;
            let d = p_q16 - y;
            let err = if d >= 0 { d } else { -d };
            if err < min_err {
                min_err = err;
                best_idx = i;
            }
            i = i + 1;
        }
        if best_idx == self.current_winner {
            self.win_streak = self.win_streak + batch_size;
        } else {
            self.current_winner = best_idx;
            self.win_streak = 0;
        }
        let base_lr: i32 = if self.running_var > LR_THRESH { 3277 } else { 328 };
        self.learning_rate = if self.win_streak > 32 { (base_lr * 5) / 2 } else { base_lr };
        self.update_weights(y, sample_preds);
        let term1 = mul_q16(self.ar_coeffs[0], self.history[0]);
        let term2 = mul_q16(self.ar_coeffs[1], self.history[1]);
        proof {
            lemma_ar_term_bound(self.ar_coeffs@[0], self.history@[0]);
            lemma_ar_term_bound(self.ar_coeffs@[1], self.history@[1]);
        }
        let ar_est = term1 + term2;
        let ar_error = y - ar_est;
        let grad0 = mul_q16(mul_q16(ar_error, self.history[0]), 7);
        let grad1 = mul_q16(mul_q16(ar_error, self.history[1]), 7);
        proof {
            lemma_velocity_bound(self.ar_velocities@[0], ar_error as int, self.history@[0]);
            lemma_velocity_bound(self.ar_velocities@[1], ar_error as int, self.history@[1]);
        }
        let v0 = mul_q16(58982, self.ar_velocities[0]) + mul_q16(self.ar_learning_rate, grad0);
        let v1 = mul_q16(58982, self.ar_velocities[1]) + mul_q16(self.ar_learning_rate, grad1);
        self.ar_velocities[0] = v0;
        self.ar_velocities[1] = v1;
        let c0 = self.ar_coeffs[0] + v0;
        let c1 = self.ar_coeffs[1] + v1;
        self.ar_coeffs[0] = if c0 < -124518 { -124518 } else if c0 > 124518 { 124518 } else { c0 };
        self.ar_coeffs[1] = if c1 < -64880 { -64880 } else if c1 > 64880 { 64880 } else { c1 };
        self.history[1] = self.history[0];
        self.history[0] = y;
        proof {
            assert(self.ar_velocities@ =~= seq![v0, v1]);
            assert(self.ar_coeffs@ =~= seq![self.ar_coeffs@[0], self.ar_coeffs@[1]]);
            assert(self.history@ =~= seq![y, old(self).history@[0]]);
        }
    }
}

/// With weights between 0 and one, the first `k` ensemble terms are each a
/// weight times a prediction, so their sum is at most `k` full bytes.
proof fn lemma_ensemble_bound(w: Seq<i32>, preds: Seq<u8>, k: int)
    requires
        0 <= k <= 6,
        forall|i: int| 0 <= i < 6 ==> 0 <= #[trigger] w[i] <= 65536,
    ensures
        0 <= ensemble_partial(w, preds, k) <= k * 16711680,
    decreases k,
{
    if k > 0 {
        lemma_ensemble_bound(w, preds, k - 1);
        let wi = w[k - 1];
        let p = preds[k - 1];
        assert(0 <= wi <= 65536);
        let pq = (p as int * 65536) as i32;
        assert(pq as int == p as int * 65536);
        let t = wi as int * p as int;
        assert(wi as int * pq as int == t * 65536 && 0 <= t <= 16711680) by (nonlinear_arith)
            requires
                pq as int == p as int * 65536,
                t == wi as int * p as int,
                0 <= wi <= 65536,
                0 <= p <= 255,
        ;
        assert((t * 65536) / 65536 == t);
    }
}

/// With every model weight between 0 and one (Q16.16), mixing any
/// predictions stays within 32-bit arithmetic, so `mix` may be called.
pub proof fn lemma_mix_fits(m: &Mixer, preds: Seq<u8>)
    requires
        m.wf(),
        forall|i: int| 0 <= i < 6 ==> 0 <= #[trigger] m.spec_weights()[i] <= 65536,
    ensures
        m.mix_fits(preds),
{
    let w = m.spec_weights();
    assert forall|k: int| 0 <= k <= 6 implies i32::MIN <= #[trigger] ensemble_partial(w, preds, k) <= i32::MAX by {
        lemma_ensemble_bound(w, preds, k);
    }
    lemma_ensemble_bound(w, preds, 6);
    let ens = ensemble_partial(w, preds, 6);
    lemma_ar_term_bound(m.ar_coeffs@[0], m.history@[0]);
    lemma_ar_term_bound(m.ar_coeffs@[1], m.history@[1]);
    let ar = m.ar_estimate();
    assert(-63504180 <= ar <= 63504180);
    assert(-39322 * 63504180 <= 39322 * ar <= 39322 * 63504180) by (nonlinear_arith)
        requires
            -63504180 <= ar <= 63504180,
    ;
    assert(0 <= 26214 * ens <= 26214 * 100270080) by (nonlinear_arith)
        requires
            0 <= ens <= 100270080,
    ;
}

/// Once a model has won more than 32 samples in a row, mixing returns that
/// model's prediction unchanged, whatever the other models predict.
pub proof fn lemma_locked_on_mix(m: &Mixer, preds: Seq<u8>)
    requires
        m.spec_lock().1 > 32,
    ensures
        m.mix_spec(preds) == preds[m.spec_lock().0 as int],
{
    let p = preds[m.spec_lock().0 as int] as int;
    assert((p * 65536 + 32768) / 65536 == p);
}

/// The learning rate is never above 0.125 (Q16.16).
proof fn lemma_lr_for_bound(var: int, streak: int)
    ensures
        0 <= lr_for(var, streak) <= 8192,
{
}

/// One LMS step keeps a weight between 0 and its old value.
proof fn lemma_lms_entry(w: i32, pred: u8, y: int, lr: i32)
    requires
        0 <= w <= 65536,
        0 <= lr <= 8192,
    ensures
        ({
            let err = abs_int(pred as int * 65536 - y) as i32;
            let en = clamp_int(mul_q16_spec(err, 257) as int, 0, 65536) as i32;
            let nw = mul_q16_spec(w, (65536 - mul_q16_spec(lr, en)) as i32);
            0 <= nw <= w
        }),
{
    let err = abs_int(pred as int * 65536 - y) as i32;
    let en = clamp_int(mul_q16_spec(err, 257) as int, 0, 65536) as i32;
    assert(0 <= en <= 65536);
    assert(0 <= lr as int * en as int <= 8192 * 65536) by (nonlinear_arith)
        requires
            0 <= lr <= 8192,
            0 <= en <= 65536,
    ;
    let pen = mul_q16_spec(lr, en);
    assert(0 <= pen <= 8192);
    let f = (65536 - pen) as i32;
    assert(57344 <= f <= 65536);
    let prod = w as int * f as int;
    assert(0 <= prod <= w as int * 65536) by (nonlinear_arith)
        requires
            0 <= w <= 65536,
            57344 <= f <= 65536,
            prod == w as int * f as int,
    ;
    assert(prod / 65536 <= w);
}

/// Partial sums of six weights each between 0 and `b`.
proof fn lemma_weight_sum_bound(r: Seq<i32>, k: int, b: int)
    requires
        0 <= k <= 6,
        forall|i: int| 0 <= i < 6 ==> 0 <= #[trigger] r[i] <= b,
    ensures
        0 <= weight_sum(r, k) <= k * b,
    decreases k,
{
    if k > 0 {
        lemma_weight_sum_bound(r, k - 1, b);
        assert(0 <= r[k - 1] <= b);
        assert((k - 1) * b + b == k * b) by (nonlinear_arith);
    } else {
        assert(k * b == 0) by (nonlinear_arith)
            requires
                k == 0,
        ;
    }
}

/// The weights learned with any learning rate of `lr_for`, without global
/// weights, from weights between 0 and one.
proof fn lemma_lms_bounded(w0: Seq<i32>, preds: Seq<u8>, y: int, lr: i32)
    requires
        0 <= lr <= 8192,
        forall|i: int| 0 <= i < 6 ==> 0 <= #[trigger] w0[i] <= 65536,
    ensures
        forall|i: int| 0 <= i < 6 ==> 0 <= #[trigger] lms_weights(w0, preds, y, lr)[i] <= 65536,
        forall|i: int| 0 <= i < 6 ==> 66 <= #[trigger] regen_weights(lms_weights(w0, preds, y, lr))[i] <= 65602,
{
    let w1 = lms_weights(w0, preds, y, lr);
    assert forall|i: int| 0 <= i < 6 implies 0 <= #[trigger] w1[i] <= 65536 by {
        lemma_lms_entry(w0[i], preds[i], y, lr);
    }
    assert forall|i: int| 0 <= i < 6 implies 66 <= #[trigger] regen_weights(w1)[i] <= 65602 by {
        assert(0 <= w1[i] <= 65536);
    }
}

/// With every model weight between 0 and one and no global weights, the
/// weight update of `update_lazy` stays within 32-bit arithmetic; what
/// `update_fits` asks beyond that is that the sample count, the variance and
/// the winning streak fit.
pub proof fn lemma_update_fits(m: &Mixer, batch_size: usize, actual: u8, preds: Seq<u8>)
    requires
        m.spec_global() is None,
        forall|i: int| 0 <= i < 6 ==> 0 <= #[trigger] m.spec_weights()[i] <= 65536,
        ({
            let st = stats_step(m.spec_count(), m.spec_stats().0, m.spec_stats().1, batch_size, actual as int * 65536);
            i32::MIN <= st.0 <= i32::MAX && i32::MIN <= st.2 <= i32::MAX
        }),
        m.spec_lock().1 + batch_size <= usize::MAX,
    ensures
        m.update_fits(batch_size, actual, preds),
{
    let y = actual as int * 65536;
    let st = stats_step(m.spec_count(), m.spec_stats().0, m.spec_stats().1, batch_size, y);
    let best = closest(preds, y, 6).0;
    let streak = if best == m.spec_lock().0 { m.spec_lock().1 + batch_size } else { 0 };
    let lr = lr_for(st.2, streak);
    lemma_lr_for_bound(st.2, streak);
    let w0 = m.spec_weights();
    lemma_lms_bounded(w0, preds, y, lr);
    let w1 = lms_weights(w0, preds, y, lr);
    assert(maybe_prox(w1, m.spec_global()) == w1);
    assert forall|k: int| 0 <= k <= 6 implies i32::MIN <= #[trigger] weight_sum(
        regen_weights(maybe_prox(w1, m.spec_global())),
        k,
    ) <= i32::MAX by {
        lemma_weight_sum_bound(regen_weights(w1), k, 65602);
    }
}

/// A weight's share of a positive sum, in Q16.16 and floored, with the
/// remainder of that division.
proof fn lemma_share(r: int, s: int)
    requires
        0 <= r <= s,
        0 < s,
    ensures
        0 <= (r * 65536) / s <= 65536,
        r * 65536 == s * ((r * 65536) / s) + (r * 65536) % s,
        0 <= (r * 65536) % s < s,
{
    vstd::arithmetic::div_mod::lemma_fundamental_div_mod(r * 65536, s);
    vstd::arithmetic::div_mod::lemma_mod_pos_bound(r * 65536, s);
    vstd::arithmetic::div_mod::lemma_div_pos_is_pos(r * 65536, s);
    assert(r * 65536 <= s * 65536) by (nonlinear_arith)
        requires
            0 <= r <= s,
    ;
    vstd::arithmetic::div_mod::lemma_div_is_ordered(r * 65536, s * 65536, s);
    vstd::arithmetic::div_mod::lemma_div_multiples_vanish(65536, s);
}

/// Without global weights, learning from a sample keeps every model weight
/// between 0 and one (Q16.16), brings their sum to within 5 of one, and
/// leaves the two unused weights as they were, whatever the learning rate
/// that `update_lazy` picks.
pub proof fn lemma_learning_keeps_weights_normalized(
    m: &Mixer,
    preds: Seq<u8>,
    actual: u8,
    var: int,
    streak: int,
)
    requires
        m.spec_global() is None,
        forall|i: int| 0 <= i < 6 ==> 0 <= #[trigger] m.spec_weights()[i] <= 65536,
    ensures
        ({
            let w = m.learned_weights(preds, actual as int * 65536, lr_for(var, streak));
            &&& forall|i: int| 0 <= i < 6 ==> 0 <= #[trigger] w[i] <= 65536
            &&& 65531 <= weight_sum(w, 6) <= 65536
            &&& w[6] == m.spec_weights()[6]
            &&& w[7] == m.spec_weights()[7]
        }),
{
    let w0 = m.spec_weights();
    let y = actual as int * 65536;
    let lr = lr_for(var, streak);
    lemma_lr_for_bound(var, streak);
    lemma_lms_bounded(w0, preds, y, lr);
    let w1 = lms_weights(w0, preds, y, lr);
    assert(maybe_prox(w1, m.spec_global()) == w1);
    let r = regen_weights(w1);
    let s = weight_sum(r, 6);
    assert(s == r[0] + r[1] + r[2] + r[3] + r[4] + r[5]) by {
        reveal_with_fuel(weight_sum, 7);
    }
    assert(66 <= r[0] <= 65602 && 66 <= r[1] <= 65602 && 66 <= r[2] <= 65602);
    assert(66 <= r[3] <= 65602 && 66 <= r[4] <= 65602 && 66 <= r[5] <= 65602);
    assert(10 < s <= 393612);
    lemma_share(r[0] as int, s);
    lemma_share(r[1] as int, s);
    lemma_share(r[2] as int, s);
    lemma_share(r[3] as int, s);
    lemma_share(r[4] as int, s);
    lemma_share(r[5] as int, s);
    let n = normalized_weights(r);
    assert(n == m.learned_weights(preds, y, lr));
    assert forall|i: int| 0 <= i < 6 implies #[trigger] n[i] as int == (r[i] * 65536) / s by {
        assert(div_q16_spec(r[i], s as i32) == trunc_quot(r[i] * 65536, s) as i32);
        assert(0 <= r[i] <= s);
        assert(0 <= (r[i] * 65536) / s <= 65536) by {
            lemma_share(r[i] as int, s);
        }
    }
    let q0 = (r[0] * 65536) / s;
    let q1 = (r[1] * 65536) / s;
    let q2 = (r[2] * 65536) / s;
    let q3 = (r[3] * 65536) / s;
    let q4 = (r[4] * 65536) / s;
    let q5 = (r[5] * 65536) / s;
    let e = (r[0] * 65536) % s + (r[1] * 65536) % s + (r[2] * 65536) % s + (r[3] * 65536) % s + (r[4]
        * 65536) % s + (r[5] * 65536) % s;
    let qs = q0 + q1 + q2 + q3 + q4 + q5;
    assert(weight_sum(n, 6) == n[0] + n[1] + n[2] + n[3] + n[4] + n[5]) by {
        reveal_with_fuel(weight_sum, 7);
    }
    assert(n[0] == q0 && n[1] == q1 && n[2] == q2 && n[3] == q3 && n[4] == q4 && n[5] == q5);
    assert(s * 65536 == s * qs + e) by (nonlinear_arith)
        requires
            s == r[0] + r[1] + r[2] + r[3] + r[4] + r[5],
            r[0] * 65536 == s * q0 + (r[0] * 65536) % s,
            r[1] * 65536 == s * q1 + (r[1] * 65536) % s,
            r[2] * 65536 == s * q2 + (r[2] * 65536) % s,
            r[3] * 65536 == s * q3 + (r[3] * 65536) % s,
            r[4] * 65536 == s * q4 + (r[4] * 65536) % s,
            r[5] * 65536 == s * q5 + (r[5] * 65536) % s,
            qs == q0 + q1 + q2 + q3 + q4 + q5,
            e == (r[0] * 65536) % s + (r[1] * 65536) % s + (r[2] * 65536) % s + (r[3] * 65536) % s + (r[4]
                * 65536) % s + (r[5] * 65536) % s,
    ;
    assert(0 <= e < 6 * s);
    assert(0 <= 65536 - qs < 6) by (nonlinear_arith)
        requires
            s > 0,
            s * 65536 == s * qs + e,
            0 <= e < 6 * s,
    ;
}

/// An AR term stays small: a clamped coefficient times a byte target.
proof fn lemma_ar_term_bound(c: i32, h: i32)
    requires
        -124518 <= c <= 124518,
        0 <= h <= 16711680,
    ensures
        -31752090 <= mul_q16_spec(c, h) <= 31752090,
        mul_q16_spec(c, h) as int == (c as int * h as int) / 65536,
{
    assert(-124518 * 16711680 <= c as int * h as int <= 124518 * 16711680) by (nonlinear_arith)
        requires
            -124518 <= c <= 124518,
            0 <= h <= 16711680,
    ;
}

} // verus!
