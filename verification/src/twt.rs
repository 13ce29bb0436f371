//! Target-wake-time scheduling support: regime-driven wake intervals, node
//! roles, the deterministic jitter generator and the gossip batch queue that
//! buffers messages while the radio sleeps.
use vstd::prelude::*;
use std::collections::VecDeque;
use crate::adaptive::Regime;

pub mod scheduler;

verus! {

/// Wake interval in Calm: four hours.
pub const CALM_INTERVAL_MS: u64 = 14_400_000;

/// Wake interval in PreStorm: ten minutes.
pub const PRESTORM_INTERVAL_MS: u64 = 600_000;

/// Wake interval in Storm: thirty seconds.
pub const STORM_INTERVAL_MS: u64 = 30_000;

/// Wake interval of a regime.
pub open spec fn interval_of(regime: Regime) -> u64 {
    match regime {
        Regime::Calm => CALM_INTERVAL_MS,
        Regime::PreStorm => PRESTORM_INTERVAL_MS,
        Regime::Storm => STORM_INTERVAL_MS,
    }
}

/// Urgency rank of a regime (higher is more urgent).
pub open spec fn urgency_of(regime: Regime) -> u8 {
    match regime {
        Regime::Calm => 0,
        Regime::PreStorm => 1,
        Regime::Storm => 2,
    }
}

/// The wake interval of a regime, in milliseconds.
pub fn regime_to_interval_ms(regime: Regime) -> (ms: u64)
    ensures
        ms == interval_of(regime),
{
    match regime {
        Regime::Calm => CALM_INTERVAL_MS,
        Regime::PreStorm => PRESTORM_INTERVAL_MS,
        Regime::Storm => STORM_INTERVAL_MS,
    }
}

/// Urgency rank of a regime, for comparing regimes.
pub fn regime_urgency(regime: Regime) -> (u: u8)
    ensures
        u == urgency_of(regime),
{
    match regime {
        Regime::Calm => 0,
        Regime::PreStorm => 1,
        Regime::Storm => 2,
    }
}

/// More urgent regimes wake more often: urgency and interval are in reverse
/// order.
pub proof fn lemma_urgency_shortens_interval(a: Regime, b: Regime)
    requires
        urgency_of(a) < urgency_of(b),
    ensures
        interval_of(b) < interval_of(a),
{
}

/// One step of the xorshift32 generator (shifts 13, 17, 5).
pub open spec fn xorshift32_spec(x: u32) -> u32 {
    let a = x ^ (x << 13u32);
    let b = a ^ (a >> 17u32);
    b ^ (b << 5u32)
}

/// One step of the xorshift32 generator used for deterministic jitter.
pub fn xorshift32(seed: u32) -> (x: u32)
    ensures
        x == xorshift32_spec(seed),
{
    let mut x = seed;
    x = x ^ (x << 13u32);
    x = x ^ (x >> 17u32);
    x = x ^ (x << 5u32);
    x
}

/// A nonzero state never reaches zero, so the jitter sequence never gets
/// stuck.
pub proof fn lemma_xorshift_nonzero(x: u32)
    requires
        x != 0,
    ensures
        xorshift32_spec(x) != 0,
{
    let a = x ^ (x << 13u32);
    let b = a ^ (a >> 17u32);
    let c = b ^ (b << 5u32);
    assert(x != 0 ==> a != 0) by (bit_vector)
        requires
            a == x ^ (x << 13u32),
    ;
    assert(a != 0 ==> b != 0) by (bit_vector)
        requires
            b == a ^ (a >> 17u32),
    ;
    assert(b != 0 ==> c != 0) by (bit_vector)
        requires
            c == b ^ (b << 5u32),
    ;
}

/// Configuration of a scheduled node.
#[derive(Debug, Clone, Copy, PartialEq, Eq, Structural)]
pub struct TWTConfig {
    /// Base wake interval (overridden by the regime).
    pub base_interval_ms: u64,
    /// Whether wake times are jittered (±10%).
    pub jitter_enabled: bool,
    /// Messages batched while asleep.
    pub max_batch_size: usize,
}

impl Default for TWTConfig {
    fn default() -> (c: Self)
        ensures
            c.base_interval_ms == CALM_INTERVAL_MS,
            c.jitter_enabled,
            c.max_batch_size == 64,
    {
        TWTConfig { base_interval_ms: CALM_INTERVAL_MS, jitter_enabled: true, max_batch_size: 64 }
    }
}

/// Role of a node in the wake hierarchy.
#[derive(Debug, Clone, Copy, PartialEq, Eq, Structural)]
pub enum NodeRole {
    /// Always awake; issues emergency wake broadcasts.
    Sentinel,
    /// Asleep until a sentinel's emergency wake.
    OnDemand,
    /// Periodic wake cycle governed by the regime.
    Scheduled(TWTConfig),
}

/// Queue contents after enqueueing `x` with capacity `max`: the oldest
/// message is dropped first when the queue is full.
pub open spec fn enqueue_spec<T>(q: Seq<T>, max: nat, x: T) -> Seq<T> {
    if q.len() >= max && q.len() > 0 {
        q.drop_first().push(x)
    } else {
        q.push(x)
    }
}

/// Messages buffered for burst transmission while the radio sleeps.
#[derive(Debug, Clone)]
pub struct GossipBatchQueue<T> {
    outgoing: VecDeque<T>,
    max_size: usize,
    total_enqueued: u64,
    total_burst_sent: u64,
}

impl<T> GossipBatchQueue<T> {
    /// Queued messages, oldest first.
    pub closed spec fn spec_items(&self) -> Seq<T> {
        self.outgoing@
    }

    /// Capacity.
    pub closed spec fn spec_max(&self) -> nat {
        self.max_size as nat
    }

    /// Messages ever enqueued.
    pub closed spec fn spec_total_enqueued(&self) -> nat {
        self.total_enqueued as nat
    }

    /// Messages ever drained for sending.
    pub closed spec fn spec_total_sent(&self) -> nat {
        self.total_burst_sent as nat
    }

    /// An empty queue of the given capacity.
    pub fn new(max_size: usize) -> (q: Self)
        ensures
            q.spec_items() == Seq::<T>::empty(),
            q.spec_max() == max_size,
            q.spec_total_enqueued() == 0,
            q.spec_total_sent() == 0,
    {
        let cap = if max_size < 256 { max_size } else { 256 };
        GossipBatchQueue {
            outgoing: VecDeque::with_capacity(cap),
            max_size,
            total_enqueued: 0,
            total_burst_sent: 0,
        }
    }

    /// Enqueues a message, dropping the oldest one when the queue is full.
    pub fn enqueue(&mut self, update: T)
        requires
            old(self).spec_total_enqueued() < u64::MAX,
        ensures
            final(self).spec_items() == enqueue_spec(old(self).spec_items(), old(self).spec_max(), update),
            final(self).spec_max() == old(self).spec_max(),
            final(self).spec_total_enqueued() == old(self).spec_total_enqueued() + 1,
            final(self).spec_total_sent() == old(self).spec_total_sent(),
    {
        if self.outgoing.len() >= self.max_size {
            let _ = self.outgoing.pop_front();
        }
        self.outgoing.push_back(update);
        self.total_enqueued = self.total_enqueued + 1;
    }

    /// Removes and returns every queued message, oldest first.
    pub fn drain_batch(&mut self) -> (batch: Vec<T>)
        requires
            old(self).spec_total_sent() + old(self).spec_items().len() <= u64::MAX,
        ensures
            batch@ == old(self).spec_items(),
            final(self).spec_items() == Seq::<T>::empty(),
            final(self).spec_max() == old(self).spec_max(),
            final(self).spec_total_enqueued() == old(self).spec_total_enqueued(),
            final(self).spec_total_sent() == old(self).spec_total_sent() + old(self).spec_items().len(),
    {
        let ghost all = self.outgoing@;
        let mut batch: Vec<T> = Vec::new();
        while self.outgoing.len() > 0
            invariant
                batch@ + self.outgoing@ == all,
                self.max_size == old(self).max_size,
                self.total_enqueued == old(self).total_enqueued,
                self.total_burst_sent == old(self).total_burst_sent,
            decreases self.outgoing@.len(),
        {
            match self.outgoing.pop_front() {
                Some(x) => {
                    batch.push(x);
                    proof {
                        assert(batch@ + self.outgoing@ =~= all);
                    }
                },
                None => {},
            }
        }
        proof {
            assert(batch@ =~= all);
        }
        let n = batch.len() as u64;
        self.total_burst_sent = self.total_burst_sent + n;
        batch
    }

    /// Number of queued messages.
    pub fn pending_count(&self) -> (n: usize)
        ensures
            n == self.spec_items().len(),
    {
        self.outgoing.len()
    }

    /// Messages ever enqueued.
    pub fn total_enqueued(&self) -> (n: u64)
        ensures
            n == self.spec_total_enqueued(),
    {
        self.total_enqueued
    }

    /// Messages ever drained for sending.
    pub fn total_burst_sent(&self) -> (n: u64)
        ensures
            n == self.spec_total_sent(),
    {
        self.total_burst_sent
    }

    /// Whether nothing is queued.
    pub fn is_empty(&self) -> (b: bool)
        ensures
            b == (self.spec_items().len() == 0),
    {
        self.outgoing.len() == 0
    }
}

/// The queue never holds more than its capacity (or one message, for a
/// capacity of zero), and an enqueue keeps the newest messages in order.
pub proof fn lemma_enqueue_bounded<T>(q: Seq<T>, max: nat, x: T)
    requires
        q.len() <= if max >= 1 { max } else { 1 },
    ensures
        enqueue_spec(q, max, x).len() <= if max >= 1 { max } else { 1 },
        enqueue_spec(q, max, x).last() == x,
        enqueue_spec(q, max, x).drop_last().is_suffix_of(q),
{
    let r = enqueue_spec(q, max, x);
    if q.len() >= max && q.len() > 0 {
        assert(r.drop_last() =~= q.subrange(1, q.len() as int));
    } else {
        assert(r.drop_last() =~= q);
    }
}

} // verus!
