//! Spiking-neuron events and persistence interfaces.
use vstd::prelude::*;
use crate::fixed_point::{i16f16_div, i16f16_from_int, i16f16_mul, i16f16_to_i32, i16f16_to_u8};
use crate::mixer::trunc_quot;
use crate::dedup::{le_u32_bytes, push_u32_le};
use crate::predictors::clamp_int;

verus! {

/// Operational regime of a neuron.
#[derive(Clone, Copy, Debug, PartialEq, Eq, Structural)]
pub enum Regime {
    /// Stable: high surprise threshold, slow learning.
    Calm,
    /// Elevated uncertainty.
    Alert,
    /// Disruption: low surprise threshold, fast learning.
    Storm,
}

/// A spike: the neuron detected surprise and broadcasts it.
#[derive(Clone, Copy, Debug, PartialEq, Eq, Structural)]
pub struct SpikeEvent {
    /// Local tick count.
    pub tick: u32,
    /// Prediction error that triggered the spike.
    pub error: u8,
    /// Surprise magnitude.
    pub surprise: u8,
    /// Regime at the time of the spike.
    pub regime: Regime,
}

impl SpikeEvent {
    /// A spike with the given fields.
    pub fn new(tick: u32, error: u8, surprise: u8, regime: Regime) -> (e: Self)
        ensures
            e == (SpikeEvent { tick, error, surprise, regime }),
    {
        SpikeEvent { tick, error, surprise, regime }
    }
}


/// Surprise threshold of a regime (Q16.16 bits of 0.3, 0.15, 0.05).
pub open spec fn surprise_threshold_spec(r: Regime) -> i32 {
    match r {
        Regime::Calm => 19661,
        Regime::Alert => 9830,
        Regime::Storm => 3277,
    }
}

/// Learning rate of a regime (Q16.16 bits of 0.01, 0.05, 0.2).
pub open spec fn learning_rate_spec(r: Regime) -> i32 {
    match r {
        Regime::Calm => 655,
        Regime::Alert => 3277,
        Regime::Storm => 13107,
    }
}

impl Regime {
    /// Surprise threshold (Q16.16 bits): higher is harder to spike.
    pub fn surprise_threshold(self) -> (t: i32)
        ensures
            t == surprise_threshold_spec(self),
    {
        match self {
            Regime::Calm => 19661,
            Regime::Alert => 9830,
            Regime::Storm => 3277,
        }
    }

    /// Learning rate (Q16.16 bits): higher adapts faster.
    pub fn learning_rate(self) -> (r: i32)
        ensures
            r == learning_rate_spec(self),
    {
        match self {
            Regime::Calm => 655,
            Regime::Alert => 3277,
            Regime::Storm => 13107,
        }
    }
}

/// Ticks during which a neuron cannot spike again.
pub const REFRACTORY_PERIOD_TICKS: u32 = 10;

/// Length of a gene: eight lags, eight weights, bias and learning rate.
pub const GENE_LEN: usize = 48;

/// A neuron of the swarm: predicts, detects surprise, learns from peers
/// and exchanges its state as a gene.
pub trait SwarmNeuron {
    /// Internal consistency of the neuron's state.
    spec fn neuron_wf(&self) -> bool;

    /// Whether predicting on `history` stays within the fixed-point range.
    spec fn predict_fits(&self, history: Seq<u8>) -> bool;

    /// Whether adapting to these signals stays within the fixed-point range.
    spec fn adapt_fits(&self, signals: Seq<SpikeEvent>, reputation: Seq<i32>) -> bool;

    /// Predicts the next value from a history window.
    fn predict(&self, history: &[u8]) -> u8
        requires
            self.neuron_wf(),
            self.predict_fits(history@),
    ;

    /// Emits a spike when the prediction error exceeds the regime's
    /// threshold and the neuron is not refractory.
    fn check_surprise(&mut self, actual: u8, predicted: u8, regime: Regime, tick: u32) -> (r: Option<SpikeEvent>)
        requires
            old(self).neuron_wf(),
        ensures
            final(self).neuron_wf(),
    ;

    /// Learns from peer spikes weighted by the peers' reputation (Q16.16).
    fn adapt(&mut self, signals: &[SpikeEvent], reputation: &[i32])
        requires
            old(self).neuron_wf(),
            old(self).adapt_fits(signals@, reputation@),
        ensures
            final(self).neuron_wf(),
    ;

    /// The neuron's state as a gene.
    fn export_gene(&self) -> Vec<u8>
        requires
            self.neuron_wf(),
    ;

    /// Installs a gene; `false` (and no change) when it is malformed.
    fn install_gene(&mut self, gene: &[u8]) -> (ok: bool)
        requires
            old(self).neuron_wf(),
        ensures
            final(self).neuron_wf(),
    ;

    /// Ticks left before the neuron can spike again.
    fn refractory_remaining(&self) -> u32;

    /// Advances the neuron's clock by one tick.
    fn tick(&mut self)
        requires
            old(self).neuron_wf(),
        ensures
            final(self).neuron_wf(),
    ;
}

/// Index of the first zero lag (lags after it are unused), or 8.
pub open spec fn active_lags(lags: Seq<usize>, k: int) -> int
    decreases 8 - k,
{
    if k >= 8 {
        8
    } else if lags[k] == 0 {
        k
    } else {
        active_lags(lags, k + 1)
    }
}

/// The first zero lag is at or after any starting point.
proof fn lemma_active_lags_ge(lags: Seq<usize>, k: int)
    requires
        0 <= k <= 8,
    ensures
        active_lags(lags, k) >= k,
    decreases 8 - k,
{
    if k < 8 && lags[k] != 0 {
        lemma_active_lags_ge(lags, k + 1);
    }
}

/// Contribution of lag `i`: its weight times the value `lag` steps back
/// (nothing when the history is too short).
pub open spec fn lag_term(lags: Seq<usize>, w: Seq<i32>, h: Seq<u8>, i: int) -> int {
    if lags[i] >= h.len() {
        0
    } else {
        w[i] * h[h.len() - lags[i]] as int
    }
}

/// Bias plus the contributions of the first `k` lags (Q16.16).
pub open spec fn linear_sum(lags: Seq<usize>, w: Seq<i32>, bias: i32, h: Seq<u8>, k: int) -> int
    decreases k,
{
    if k <= 0 {
        bias as int
    } else {
        linear_sum(lags, w, bias, h, k - 1) + lag_term(lags, w, h, k - 1)
    }
}

/// Entropy estimate after an error: 0.9 of the old plus 0.1 of error/256.
pub open spec fn entropy_step(ent: i32, error: u8) -> int {
    (ent as int * 58982) / 65536 + (error as int * 256 * 6554) / 65536
}

/// Adaptation step of one signal: reputation times error / 256, times the
/// learning rate (Q16.16).
pub open spec fn signal_step(rep: i32, error: u8, lr: i32) -> int {
    let sw = trunc_quot((rep as int * error as int) * 65536, 16777216);
    (sw * lr as int) / 65536
}

/// Sum of the adaptation steps of the first `k` signals.
pub open spec fn signal_sum(signals: Seq<SpikeEvent>, rep: Seq<i32>, lr: i32, k: int) -> int
    decreases k,
{
    if k <= 0 {
        0
    } else {
        signal_sum(signals, rep, lr, k - 1) + signal_step(rep[k - 1], signals[k - 1].error, lr)
    }
}

/// Little-endian bytes of an `i32`.
pub open spec fn le_i32_bytes(x: i32) -> Seq<u8> {
    le_u32_bytes(x as u32)
}

/// The `i32` whose little-endian bytes are `b[o .. o + 4]`.
pub open spec fn le_i32_at(b: Seq<u8>, o: int) -> i32 {
    (b[o] as int + 256 * b[o + 1] as int + 65536 * b[o + 2] as int + 16777216 * b[o + 3] as int) as u32 as i32
}

/// The gene of a neuron: lags as bytes, then weights, bias and learning
/// rate as little-endian `i32` bit patterns.
pub open spec fn gene_spec(lags: Seq<usize>, w: Seq<i32>, bias: i32, lr: i32) -> Seq<u8> {
    Seq::new(8, |i: int| lags[i] as u8) + le_i32_bytes(w[0]) + le_i32_bytes(w[1]) + le_i32_bytes(w[2])
        + le_i32_bytes(w[3]) + le_i32_bytes(w[4]) + le_i32_bytes(w[5]) + le_i32_bytes(w[6]) + le_i32_bytes(
        w[7],
    ) + le_i32_bytes(bias) + le_i32_bytes(lr)
}

/// Linear predictor neuron over lagged history values, in Q16.16, with a
/// refractory period after each spike.
#[derive(Clone, Debug)]
pub struct LinearNeuron {
    lags: [usize; 8],
    weights: [i32; 8],
    bias: i32,
    history: Vec<u8>,
    cursor: usize,
    learning_rate: i32,
    refractory_counter: u32,
    entropy_estimate: i32,
}

impl LinearNeuron {
    /// Lag intervals (zero ends the list).
    pub closed spec fn spec_lags(&self) -> Seq<usize> {
        self.lags@
    }

    /// Weights (Q16.16 bits).
    pub closed spec fn spec_weights(&self) -> Seq<i32> {
        self.weights@
    }

    /// Bias (Q16.16 bits).
    pub closed spec fn spec_bias(&self) -> i32 {
        self.bias
    }

    /// Learning rate (Q16.16 bits).
    pub closed spec fn spec_learning_rate(&self) -> i32 {
        self.learning_rate
    }

    /// Refractory ticks left.
    pub closed spec fn spec_refractory(&self) -> u32 {
        self.refractory_counter
    }

    /// Entropy estimate (Q16.16 bits).
    pub closed spec fn spec_entropy(&self) -> i32 {
        self.entropy_estimate
    }

    /// Length of the history buffer.
    pub closed spec fn spec_history_len(&self) -> nat {
        self.history@.len()
    }

    /// A neuron with lags 1, 2, 4, 8 weighted 0.5, 0.25, 0.15, 0.1, bias
    /// 128, learning rate 0.01, entropy 0.5 and a zero history of the given
    /// size.
    pub fn new(history_size: usize) -> (n: Self)
        ensures
            n.neuron_wf(),
            n.spec_lags() == seq![1usize, 2, 4, 8, 0, 0, 0, 0],
            n.spec_weights() == seq![32768i32, 16384, 9830, 6554, 0, 0, 0, 0],
            n.spec_bias() == 8388608,
            n.spec_learning_rate() == 655,
            n.spec_refractory() == 0,
            n.spec_entropy() == 32768,
            n.spec_history_len() == history_size,
    {
        let n = LinearNeuron {
            lags: [1, 2, 4, 8, 0, 0, 0, 0],
            weights: [32768, 16384, 9830, 6554, 0, 0, 0, 0],
            bias: 8388608,
            history: vec![0u8; history_size],
            cursor: 0,
            learning_rate: 655,
            refractory_counter: 0,
            entropy_estimate: 32768,
        };
        proof {
            assert(n.lags@ =~= seq![1usize, 2, 4, 8, 0, 0, 0, 0]);
            assert(n.weights@ =~= seq![32768i32, 16384, 9830, 6554, 0, 0, 0, 0]);
        }
        n
    }

    /// Length of the history buffer.
    pub fn history_len(&self) -> (n: usize)
        ensures
            n == self.spec_history_len(),
    {
        self.history.len()
    }

    /// The learning rate as Q16.16 bits.
    pub fn learning_rate_bits(&self) -> (r: i32)
        ensures
            r == self.spec_learning_rate(),
    {
        self.learning_rate
    }

    /// Sets the learning rate (Q16.16 bits); nothing else changes.
    pub fn set_learning_rate(&mut self, bits: i32)
        ensures
            final(self).spec_learning_rate() == bits,
            final(self).spec_lags() == old(self).spec_lags(),
            final(self).spec_weights() == old(self).spec_weights(),
            final(self).spec_bias() == old(self).spec_bias(),
            final(self).spec_refractory() == old(self).spec_refractory(),
            final(self).spec_entropy() == old(self).spec_entropy(),
            final(self).spec_history_len() == old(self).spec_history_len(),
    {
        self.learning_rate = bits;
    }

    /// The predicted value: the bias plus the active lag contributions,
    /// rounded down to an integer and clamped to a byte.
    pub closed spec fn predict_spec(&self, h: Seq<u8>) -> int {
        clamp_int(linear_sum(self.lags@, self.weights@, self.bias, h, active_lags(self.lags@, 0)) / 65536, 0, 255)
    }

    fn predict_internal(&self, history: &[u8]) -> (b: u8)
        requires
            self.predict_fits(history@),
        ensures
            b as int == self.predict_spec(history@),
    {
        let mut sum = self.bias;
        let mut i: usize = 0;
        let ghost z = active_lags(self.lags@, 0);
        while i < 8 && self.lags[i] != 0
            invariant
                i <= 8,
                self.predict_fits(history@),
                z == active_lags(self.lags@, 0),
                forall|j: int| 0 <= j < i ==> #[trigger] self.lags@[j] != 0,
                active_lags(self.lags@, 0) == active_lags(self.lags@, i as int),
                sum == linear_sum(self.lags@, self.weights@, self.bias, history@, i as int),
            decreases 8 - i,
        {
            let lag = self.lags[i];
            if lag < history.len() {
                let value = history[history.len() - lag];
                let v = i16f16_from_int(value as i32);
                proof {
                    lemma_active_lags_ge(self.lags@, i as int + 1);
                    assert(i < active_lags(self.lags@, 0));
                    assert(i32::MIN <= lag_term(self.lags@, self.weights@, history@, i as int) <= i32::MAX);
                    assert(lag_term(self.lags@, self.weights@, history@, i as int) == self.weights@[i as int] * value as int);
                }
                let w = self.weights[i];
                assert(-0x8000_0000_0000 <= (w as int) * (v as int) < 0x8000_0000_0000) by (nonlinear_arith)
                    requires
                        v == value as int * 65536,
                        i32::MIN <= w as int * value as int <= i32::MAX,
                ;
                let prod = i16f16_mul(w, v);
                assert(prod == w as int * value as int) by (nonlinear_arith)
                    requires
                        v == value as int * 65536,
                        prod == ((w as int * v as int) / 65536) as i32,
                        i32::MIN <= w as int * value as int <= i32::MAX,
                ;
                sum = sum + prod;
            }
            i = i + 1;
        }
        proof {
            assert(i == active_lags(self.lags@, 0));
        }
        let result = i16f16_to_i32(sum);
        if result < 0 {
            0
        } else if result > 255 {
            255
        } else {
            result as u8
        }
    }

    fn update_entropy(&mut self, error: u8)
        requires
            0 <= old(self).entropy_estimate <= 65535,
        ensures
            final(self).entropy_estimate == entropy_step(old(self).entropy_estimate, error),
            0 <= final(self).entropy_estimate <= 65535,
            final(self).lags == old(self).lags,
            final(self).weights == old(self).weights,
            final(self).bias == old(self).bias,
            final(self).history == old(self).history,
            final(self).cursor == old(self).cursor,
            final(self).learning_rate == old(self).learning_rate,
            final(self).refractory_counter == old(self).refractory_counter,
    {
        let e = i16f16_from_int(error as i32);
        let d = i16f16_from_int(256);
        let error_fixed = i16f16_div(e, d);
        assert(error_fixed == error as int * 256) by {
            assert(trunc_quot(error as int * 65536 * 65536, 256int * 65536) == error as int * 256) by (nonlinear_arith)
                requires
                    0 <= error <= 255,
            ;
        }
        let ent = self.entropy_estimate;
        assert(0 <= ent as int * 58982 <= 65535 * 58982) by (nonlinear_arith)
            requires
                0 <= ent <= 65535,
        ;
        assert(0 <= error_fixed as int * 6554 <= 65280 * 6554) by (nonlinear_arith)
            requires
                0 <= error_fixed <= 65280,
        ;
        let a = i16f16_mul(ent, 58982);
        let b = i16f16_mul(error_fixed, 6554);
        assert(a + b <= 65535) by (nonlinear_arith)
            requires
                a == (ent as int * 58982) / 65536,
                b == (error_fixed as int * 6554) / 65536,
                0 <= ent <= 65535,
                0 <= error_fixed <= 65280,
        ;
        self.entropy_estimate = a + b;
    }
}

/// Whether the bias plus the first `k` lag contributions stay within the
/// fixed-point range: every product and every partial sum fits 32 bits.
pub open spec fn linear_fits(lags: Seq<usize>, w: Seq<i32>, bias: i32, h: Seq<u8>, k: int) -> bool {
    forall|j: int|
        0 <= j < k ==> {
            &&& i32::MIN <= #[trigger] lag_term(lags, w, h, j) <= i32::MAX
            &&& i32::MIN <= linear_sum(lags, w, bias, h, j + 1) <= i32::MAX
        }
}

/// Whether adapting over the first `k` signals stays within the fixed-point
/// range.
pub open spec fn signals_fit(signals: Seq<SpikeEvent>, rep: Seq<i32>, lr: i32, k: int) -> bool {
    forall|j: int|
        0 <= j < k ==> {
            &&& i32::MIN <= #[trigger] (rep[j] as int * signals[j].error as int) <= i32::MAX
            &&& -0x8000_0000_0000 <= trunc_quot((rep[j] as int * signals[j].error as int) * 65536, 16777216) * lr
                < 0x8000_0000_0000
            &&& i32::MIN <= signal_sum(signals, rep, lr, j + 1) <= i32::MAX
        }
}

impl SwarmNeuron for LinearNeuron {
    open spec fn neuron_wf(&self) -> bool {
        0 <= self.spec_entropy() <= 65535
    }

    open spec fn predict_fits(&self, history: Seq<u8>) -> bool {
        linear_fits(self.spec_lags(), self.spec_weights(), self.spec_bias(), history, active_lags(self.spec_lags(), 0))
    }

    open spec fn adapt_fits(&self, signals: Seq<SpikeEvent>, reputation: Seq<i32>) -> bool {
        let n = if signals.len() < reputation.len() { signals.len() } else { reputation.len() };
        &&& signals_fit(signals, reputation, self.spec_learning_rate(), n as int)
        &&& forall|i: int|
            0 <= i < 8 ==> i32::MIN <= #[trigger] self.spec_weights()[i] + signal_sum(
                signals,
                reputation,
                self.spec_learning_rate(),
                n as int,
            ) <= i32::MAX
    }

    /// The bias plus the active lag contributions, rounded down and clamped.
    fn predict(&self, history: &[u8]) -> (b: u8)
        ensures
            b as int == self.predict_spec(history@),
    {
        self.predict_internal(history)
    }

    /// Updates the entropy estimate with the absolute error; spikes (and
    /// becomes refractory) when error / 256 exceeds the regime's threshold
    /// and the neuron is not refractory.
    fn check_surprise(&mut self, actual: u8, predicted: u8, regime: Regime, tick: u32) -> (r: Option<SpikeEvent>)
        ensures
            ({
                let error = if actual >= predicted { (actual - predicted) as u8 } else { (predicted - actual) as u8 };
                let ent = entropy_step(old(self).spec_entropy(), error);
                let fire = error as int * 256 > surprise_threshold_spec(regime) && old(self).spec_refractory() == 0;
                &&& final(self).spec_entropy() == ent
                &&& final(self).spec_refractory() == if fire { REFRACTORY_PERIOD_TICKS } else { old(self).spec_refractory() }
                &&& r == if fire {
                    Some(SpikeEvent { tick, error, surprise: ((ent * 255) / 65536) as u8, regime })
                } else {
                    None
                }
            }),
            final(self).spec_lags() == old(self).spec_lags(),
            final(self).spec_weights() == old(self).spec_weights(),
            final(self).spec_bias() == old(self).spec_bias(),
            final(self).spec_learning_rate() == old(self).spec_learning_rate(),
    {
        let error: u8 = if actual >= predicted { actual - predicted } else { predicted - actual };
        self.update_entropy(error);
        let threshold = regime.surprise_threshold();
        let e = i16f16_from_int(error as i32);
        let d = i16f16_from_int(256);
        let error_normalized = i16f16_div(e, d);
        assert(error_normalized == error as int * 256) by {
            assert(trunc_quot(error as int * 65536 * 65536, 256int * 65536) == error as int * 256) by (nonlinear_arith)
                requires
                    0 <= error <= 255,
            ;
        }
        if error_normalized > threshold && self.refractory_counter == 0 {
            self.refractory_counter = REFRACTORY_PERIOD_TICKS;
            let ent = self.entropy_estimate;
            let scale = i16f16_from_int(255);
            assert(0 <= ent as int * scale as int <= 65535 * 255 * 65536) by (nonlinear_arith)
                requires
                    0 <= ent <= 65535,
                    scale == 255 * 65536,
            ;
            let prod = i16f16_mul(ent, scale);
            assert(prod == ent as int * 255) by (nonlinear_arith)
                requires
                    prod == (ent as int * scale as int) / 65536,
                    scale == 255 * 65536,
            ;
            let surprise = i16f16_to_u8(prod);
            Some(SpikeEvent::new(tick, error, surprise, regime))
        } else {
            None
        }
    }

    /// Moves every weight by the sum over signals of reputation times
    /// error / 256 times the learning rate, clamped to `[-2, 2]`; no change
    /// without signals.
    fn adapt(&mut self, signals: &[SpikeEvent], reputation: &[i32])
        ensures
            final(self).spec_weights() == if signals@.len() == 0 {
                old(self).spec_weights()
            } else {
                Seq::new(
                    8,
                    |i: int|
                        clamp_int(
                            old(self).spec_weights()[i] + signal_sum(
                                signals@,
                                reputation@,
                                old(self).spec_learning_rate(),
                                if signals@.len() < reputation@.len() { signals@.len() as int } else { reputation@.len() as int },
                            ),
                            -131072,
                            131072,
                        ) as i32,
                )
            },
            final(self).spec_lags() == old(self).spec_lags(),
            final(self).spec_bias() == old(self).spec_bias(),
            final(self).spec_learning_rate() == old(self).spec_learning_rate(),
            final(self).spec_entropy() == old(self).spec_entropy(),
            final(self).spec_refractory() == old(self).spec_refractory(),
    {
        if signals.len() == 0 {
            return;
        }
        let n = if signals.len() < reputation.len() { signals.len() } else { reputation.len() };
        let lr = self.learning_rate;
        let mut delta: i32 = 0;
        let mut k: usize = 0;
        while k < n
            invariant
                k <= n,
                n <= signals@.len(),
                n <= reputation@.len(),
                lr == old(self).learning_rate,
                signals_fit(signals@, reputation@, lr, n as int),
                delta == signal_sum(signals@, reputation@, lr, k as int),
            decreases n - k,
        {
            let e = i16f16_from_int(signals[k].error as i32);
            let rep = reputation[k];
            proof {
                assert(i32::MIN <= rep as int * signals@[k as int].error as int <= i32::MAX);
            }
            assert(-0x8000_0000_0000 <= (rep as int) * (e as int) < 0x8000_0000_0000) by (nonlinear_arith)
                requires
                    e == signals@[k as int].error as int * 65536,
                    i32::MIN <= rep as int * signals@[k as int].error as int <= i32::MAX,
            ;
            let scaled = i16f16_mul(rep, e);
            assert(scaled == rep as int * signals@[k as int].error as int) by (nonlinear_arith)
                requires
                    e == signals@[k as int].error as int * 65536,
                    scaled == ((rep as int * e as int) / 65536) as i32,
                    i32::MIN <= rep as int * signals@[k as int].error as int <= i32::MAX,
            ;
            let d = i16f16_from_int(256);
            let sw = i16f16_div(scaled, d);
            proof {
                assert(trunc_quot(scaled as int * 65536, d as int) == trunc_quot(
                    (rep as int * signals@[k as int].error as int) * 65536,
                    16777216,
                ));
                assert(-0x8000_0000_0000 <= trunc_quot((rep as int * signals@[k as int].error as int) * 65536, 16777216)
                    * lr < 0x8000_0000_0000);
            }
            let step = i16f16_mul(sw, lr);
            proof {
                assert(i32::MIN <= signal_sum(signals@, reputation@, lr, k + 1) <= i32::MAX);
            }
            delta = delta + step;
            k = k + 1;
        }
        let ghost w0 = self.weights@;
        proof {
            assert forall|j: int| 0 <= j < 8 implies i32::MIN <= #[trigger] w0[j] + delta <= i32::MAX by {
                assert(old(self).spec_weights()[j] == w0[j]);
            }
        }
        let mut i: usize = 0;
        while i < 8
            invariant
                i <= 8,
                w0 == old(self).weights@,
                delta == signal_sum(signals@, reputation@, lr, n as int),
                lr == old(self).learning_rate,
                n == if signals@.len() < reputation@.len() { signals@.len() } else { reputation@.len() },
                forall|j: int| 0 <= j < 8 ==> i32::MIN <= #[trigger] w0[j] + delta <= i32::MAX,
                forall|j: int|
                    0 <= j < 8 ==> #[trigger] self.weights@[j] == if j < i {
                        clamp_int(w0[j] + delta, -131072, 131072) as i32
                    } else {
                        w0[j]
                    },
                self.lags == old(self).lags,
                self.bias == old(self).bias,
                self.learning_rate == old(self).learning_rate,
                self.entropy_estimate == old(self).entropy_estimate,
                self.refractory_counter == old(self).refractory_counter,
            decreases 8 - i,
        {
            let w = self.weights[i] + delta;
            self.weights[i] = if w < -131072 { -131072 } else if w > 131072 { 131072 } else { w };
            i = i + 1;
        }
        proof {
            assert(self.weights@ =~= Seq::new(
                8,
                |j: int| clamp_int(w0[j] + signal_sum(signals@, reputation@, lr, n as int), -131072, 131072) as i32,
            ));
        }
    }

    /// The 48-byte gene: lags as bytes, then weights, bias and learning rate
    /// as little-endian bit patterns.
    fn export_gene(&self) -> (g: Vec<u8>)
        ensures
            g@ == gene_spec(self.spec_lags(), self.spec_weights(), self.spec_bias(), self.spec_learning_rate()),
    {
        let mut gene: Vec<u8> = Vec::new();
        let mut i: usize = 0;
        while i < 8
            invariant
                i <= 8,
                gene@ == Seq::new(i as nat, |j: int| self.lags@[j] as u8),
            decreases 8 - i,
        {
            gene.push(#[verifier::truncate] (self.lags[i] as u8));
            proof {
                assert(gene@ =~= Seq::new((i + 1) as nat, |j: int| self.lags@[j] as u8));
            }
            i = i + 1;
        }
        let mut k: usize = 0;
        while k < 8
            invariant
                k <= 8,
                gene@ == Seq::new(8, |j: int| self.lags@[j] as u8) + weights_bytes(self.weights@, k as int),
            decreases 8 - k,
        {
            push_u32_le(&mut gene, self.weights[k] as u32);
            proof {
                assert(weights_bytes(self.weights@, k + 1) == weights_bytes(self.weights@, k as int) + le_i32_bytes(
                    self.weights@[k as int],
                ));
                assert(gene@ =~= Seq::new(8, |j: int| self.lags@[j] as u8) + weights_bytes(self.weights@, k + 1));
            }
            k = k + 1;
        }
        push_u32_le(&mut gene, self.bias as u32);
        push_u32_le(&mut gene, self.learning_rate as u32);
        proof {
            lemma_weights_bytes_8(self.weights@);
            assert(gene@ =~= gene_spec(self.lags@, self.weights@, self.bias, self.learning_rate));
        }
        gene
    }

    /// Installs a 48-byte gene (lags, weights, bias, learning rate) and
    /// clears the refractory period; `false` and no change for any other
    /// length.
    fn install_gene(&mut self, gene: &[u8]) -> (ok: bool)
        ensures
            ok == (gene@.len() == GENE_LEN),
            ok ==> {
                &&& final(self).spec_lags() == Seq::new(8, |i: int| gene@[i] as usize)
                &&& final(self).spec_weights() == Seq::new(8, |i: int| le_i32_at(gene@, 8 + 4 * i))
                &&& final(self).spec_bias() == le_i32_at(gene@, 40)
                &&& final(self).spec_learning_rate() == le_i32_at(gene@, 44)
                &&& final(self).spec_refractory() == 0
            },
            !ok ==> *final(self) == *old(self),
            final(self).spec_entropy() == old(self).spec_entropy(),
    {
        if gene.len() != GENE_LEN {
            return false;
        }
        let mut new_lags = [0usize; 8];
        let mut i: usize = 0;
        while i < 8
            invariant
                i <= 8,
                gene@.len() == GENE_LEN,
                forall|j: int| 0 <= j < i ==> new_lags@[j] == gene@[j] as usize,
            decreases 8 - i,
        {
            new_lags[i] = gene[i] as usize;
            i = i + 1;
        }
        let mut new_weights = [0i32; 8];
        let mut k: usize = 0;
        while k < 8
            invariant
                k <= 8,
                gene@.len() == GENE_LEN,
                forall|j: int| 0 <= j < k ==> new_weights@[j] == le_i32_at(gene@, 8 + 4 * j),
            decreases 8 - k,
        {
            new_weights[k] = read_i32_le(gene, 8 + k * 4);
            k = k + 1;
        }
        let new_bias = read_i32_le(gene, 40);
        let new_lr = read_i32_le(gene, 44);
        self.lags = new_lags;
        self.weights = new_weights;
        self.bias = new_bias;
        self.learning_rate = new_lr;
        self.refractory_counter = 0;
        proof {
            assert(self.lags@ =~= Seq::new(8, |i: int| gene@[i] as usize));
            assert(self.weights@ =~= Seq::new(8, |i: int| le_i32_at(gene@, 8 + 4 * i)));
        }
        true
    }

    /// Ticks left before the neuron can spike again.
    fn refractory_remaining(&self) -> (t: u32)
        ensures
            t == self.spec_refractory(),
    {
        self.refractory_counter
    }

    /// One tick: the refractory period counts down to zero.
    fn tick(&mut self)
        ensures
            final(self).spec_refractory() == if old(self).spec_refractory() > 0 {
                (old(self).spec_refractory() - 1) as u32
            } else {
                0
            },
            final(self).spec_lags() == old(self).spec_lags(),
            final(self).spec_weights() == old(self).spec_weights(),
            final(self).spec_bias() == old(self).spec_bias(),
            final(self).spec_learning_rate() == old(self).spec_learning_rate(),
            final(self).spec_entropy() == old(self).spec_entropy(),
    {
        if self.refractory_counter > 0 {
            self.refractory_counter = self.refractory_counter - 1;
        }
    }
}

/// Little-endian bytes of the first `k` weights.
pub open spec fn weights_bytes(w: Seq<i32>, k: int) -> Seq<u8>
    decreases k,
{
    if k <= 0 {
        Seq::empty()
    } else {
        weights_bytes(w, k - 1) + le_i32_bytes(w[k - 1])
    }
}

proof fn lemma_weights_bytes_8(w: Seq<i32>)
    ensures
        weights_bytes(w, 8) == le_i32_bytes(w[0]) + le_i32_bytes(w[1]) + le_i32_bytes(w[2]) + le_i32_bytes(w[3])
            + le_i32_bytes(w[4]) + le_i32_bytes(w[5]) + le_i32_bytes(w[6]) + le_i32_bytes(w[7]),
{
    reveal_with_fuel(weights_bytes, 9);
    assert(weights_bytes(w, 8) =~= le_i32_bytes(w[0]) + le_i32_bytes(w[1]) + le_i32_bytes(w[2]) + le_i32_bytes(w[3])
        + le_i32_bytes(w[4]) + le_i32_bytes(w[5]) + le_i32_bytes(w[6]) + le_i32_bytes(w[7]));
}

/// Reads a little-endian `i32` at offset `o`.
fn read_i32_le(b: &[u8], o: usize) -> (x: i32)
    requires
        o + 4 <= b@.len(),
    ensures
        x == le_i32_at(b@, o as int),
{
    let b0 = b[o] as u32;
    let b1 = b[o + 1] as u32;
    let b2 = b[o + 2] as u32;
    let b3 = b[o + 3] as u32;
    let v = b0 | (b1 << 8u32) | (b2 << 16u32) | (b3 << 24u32);
    assert(v == b0 + 256 * b1 + 65536 * b2 + 16777216 * b3) by (bit_vector)
        requires
            b0 < 256,
            b1 < 256,
            b2 < 256,
            b3 < 256,
            v == b0 | (b1 << 8u32) | (b2 << 16u32) | (b3 << 24u32),
    ;
    v as i32
}

/// Reading back the little-endian bytes of an `i32` gives it back.
proof fn lemma_le_i32_roundtrip(x: i32)
    ensures
        le_i32_at(le_i32_bytes(x), 0) == x,
{
    let u = x as u32;
    let b0 = u as u8;
    let b1 = (u >> 8u32) as u8;
    let b2 = (u >> 16u32) as u8;
    let b3 = (u >> 24u32) as u8;
    assert(b0 as u32 + 256 * (b1 as u32) + 65536 * (b2 as u32) + 16777216 * (b3 as u32) == u) by (bit_vector)
        requires
            b0 == u as u8,
            b1 == (u >> 8u32) as u8,
            b2 == (u >> 16u32) as u8,
            b3 == (u >> 24u32) as u8,
    ;
    assert((u as i32) == x) by (bit_vector)
        requires
            u == x as u32,
    ;
}

/// Installing an exported gene restores the weights, bias and learning
/// rate exactly, and the lags when they fit a byte.
pub proof fn lemma_gene_roundtrip(lags: Seq<usize>, w: Seq<i32>, bias: i32, lr: i32)
    requires
        lags.len() == 8,
        w.len() == 8,
        forall|i: int| 0 <= i < 8 ==> #[trigger] lags[i] < 256,
    ensures
        gene_spec(lags, w, bias, lr).len() == GENE_LEN,
        Seq::new(8, |i: int| gene_spec(lags, w, bias, lr)[i] as usize) == lags,
        Seq::new(8, |i: int| le_i32_at(gene_spec(lags, w, bias, lr), 8 + 4 * i)) == w,
        le_i32_at(gene_spec(lags, w, bias, lr), 40) == bias,
        le_i32_at(gene_spec(lags, w, bias, lr), 44) == lr,
{
    let g = gene_spec(lags, w, bias, lr);
    assert(g.len() == 48);
    assert forall|i: int| 0 <= i < 8 implies #[trigger] (g[i] as usize) == lags[i] by {
        assert(g[i] == lags[i] as u8);
    }
    assert(Seq::new(8, |i: int| g[i] as usize) =~= lags);
    assert forall|i: int| 0 <= i < 8 implies #[trigger] le_i32_at(g, 8 + 4 * i) == w[i] by {
        lemma_le_i32_roundtrip(w[i]);
        let b = le_i32_bytes(w[i]);
        assert(g.subrange(8 + 4 * i, 12 + 4 * i) =~= b) by {
            assert(g =~= Seq::new(8, |j: int| lags[j] as u8) + weights_bytes_spread(w) + le_i32_bytes(bias) + le_i32_bytes(lr));
        }
        assert(g[8 + 4 * i] == b[0] && g[9 + 4 * i] == b[1] && g[10 + 4 * i] == b[2] && g[11 + 4 * i] == b[3]);
    }
    assert(Seq::new(8, |i: int| le_i32_at(g, 8 + 4 * i)) =~= w);
    lemma_le_i32_roundtrip(bias);
    lemma_le_i32_roundtrip(lr);
    assert(g.subrange(40, 44) =~= le_i32_bytes(bias));
    assert(g.subrange(44, 48) =~= le_i32_bytes(lr));
    assert(g[40] == le_i32_bytes(bias)[0] && g[41] == le_i32_bytes(bias)[1] && g[42] == le_i32_bytes(bias)[2]
        && g[43] == le_i32_bytes(bias)[3]);
    assert(g[44] == le_i32_bytes(lr)[0] && g[45] == le_i32_bytes(lr)[1] && g[46] == le_i32_bytes(lr)[2] && g[47]
        == le_i32_bytes(lr)[3]);
}

/// The 32 weight bytes of a gene, byte by byte.
pub open spec fn weights_bytes_spread(w: Seq<i32>) -> Seq<u8> {
    Seq::new(32, |j: int| le_i32_bytes(w[j / 4])[j % 4])
}

/// Storage of model genes, implemented by users for their backend.
pub trait GeneStorage {
    /// Saves a gene for node `id`; `true` on success.
    fn save_gene(&mut self, id: u32, gene: &[u8]) -> bool;

    /// Loads the gene saved for node `id`, if any.
    fn load_gene(&self, id: u32) -> Option<Vec<u8>>;
}

/// Preferred name of gene storage.
pub trait ModelPersistence: GeneStorage {

}

impl<T: GeneStorage> ModelPersistence for T {

}

} // verus!
