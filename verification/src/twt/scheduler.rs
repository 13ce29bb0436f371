//! The radio's sleep/wake time accounting and the target-wake-time
//! scheduler that drives it from the regime. Wake intervals weighted by a
//! node's reputation, and the jitter range derived from them, are computed
//! by the caller and handed in.
use vstd::prelude::*;
use crate::adaptive::Regime;
use crate::twt::{
    interval_of, regime_to_interval_ms, regime_urgency, urgency_of, xorshift32, xorshift32_spec, GossipBatchQueue,
    NodeRole, TWTConfig, CALM_INTERVAL_MS,
};

verus! {

/// The time accounting of a simulated radio.
#[derive(Debug, Clone, Copy, PartialEq, Eq, Structural)]
pub struct RadioState {
    /// Whether the radio is awake.
    pub awake: bool,
    /// When the radio last went to sleep.
    pub sleep_start_ms: u64,
    /// Time accounted as asleep.
    pub total_sleep_ms: u64,
    /// Time accounted as awake.
    pub total_awake_ms: u64,
    /// Wake/sleep transitions so far.
    pub transitions: u64,
    /// Up to when time has been accounted.
    pub last_transition_ms: u64,
}

/// The radio after accounting the time up to `now` in its present state;
/// a `now` that is not later than the last accounting changes nothing.
pub open spec fn account_model(r: RadioState, now: u64) -> RadioState {
    if now <= r.last_transition_ms {
        r
    } else {
        let elapsed = (now - r.last_transition_ms) as u64;
        RadioState {
            total_awake_ms: if r.awake { (r.total_awake_ms + elapsed) as u64 } else { r.total_awake_ms },
            total_sleep_ms: if r.awake { r.total_sleep_ms } else { (r.total_sleep_ms + elapsed) as u64 },
            last_transition_ms: now,
            ..r
        }
    }
}

/// The radio after going to sleep at `now` (no change when asleep).
pub open spec fn sleep_model(r: RadioState, now: u64) -> RadioState {
    if r.awake {
        RadioState {
            awake: false,
            sleep_start_ms: now,
            transitions: (r.transitions + 1) as u64,
            ..account_model(r, now)
        }
    } else {
        r
    }
}

/// The radio after waking at `now` (no change when awake).
pub open spec fn wake_model(r: RadioState, now: u64) -> RadioState {
    if r.awake {
        r
    } else {
        RadioState { awake: true, transitions: (r.transitions + 1) as u64, ..account_model(r, now) }
    }
}

/// A transition at this point would not overflow the transition counter.
pub open spec fn can_transition(r: RadioState) -> bool {
    r.transitions < u64::MAX
}

/// Time accounting of a simulated radio: awake and asleep time add up to
/// the time accounted so far.
#[derive(Debug, Clone, Copy)]
pub struct RadioTimer {
    is_awake: bool,
    sleep_start_ms: u64,
    total_sleep_ms: u64,
    total_awake_ms: u64,
    transition_count: u64,
    last_transition_ms: u64,
}

impl View for RadioTimer {
    type V = RadioState;

    closed spec fn view(&self) -> RadioState {
        RadioState {
            awake: self.is_awake,
            sleep_start_ms: self.sleep_start_ms,
            total_sleep_ms: self.total_sleep_ms,
            total_awake_ms: self.total_awake_ms,
            transitions: self.transition_count,
            last_transition_ms: self.last_transition_ms,
        }
    }
}

/// Awake and asleep time add up to the time accounted.
pub open spec fn radio_consistent(r: RadioState) -> bool {
    r.total_awake_ms + r.total_sleep_ms == r.last_transition_ms
}

impl RadioTimer {
    #[verifier::type_invariant]
    spec fn consistent(&self) -> bool {
        self.total_awake_ms + self.total_sleep_ms == self.last_transition_ms
    }

    /// An awake radio with nothing accounted.
    pub fn new() -> (r: Self)
        ensures
            r@ == (RadioState {
                awake: true,
                sleep_start_ms: 0,
                total_sleep_ms: 0,
                total_awake_ms: 0,
                transitions: 0,
                last_transition_ms: 0,
            }),
    {
        RadioTimer {
            is_awake: true,
            sleep_start_ms: 0,
            total_sleep_ms: 0,
            total_awake_ms: 0,
            transition_count: 0,
            last_transition_ms: 0,
        }
    }

    fn account(&mut self, now_ms: u64)
        ensures
            final(self)@ == account_model(old(self)@, now_ms),
            radio_consistent(final(self)@),
    {
        proof {
            use_type_invariant(&*self);
        }
        let elapsed = now_ms.saturating_sub(self.last_transition_ms);
        if elapsed == 0 {
            return;
        }
        let (awake_ms, sleep_ms) = if self.is_awake {
            (self.total_awake_ms + elapsed, self.total_sleep_ms)
        } else {
            (self.total_awake_ms, self.total_sleep_ms + elapsed)
        };
        *self = RadioTimer {
            total_awake_ms: awake_ms,
            total_sleep_ms: sleep_ms,
            last_transition_ms: now_ms,
            ..*self
        };
    }

    /// Puts the radio to sleep at `now_ms`, accounting the awake time.
    pub fn sleep(&mut self, now_ms: u64)
        requires
            old(self)@.awake ==> can_transition(old(self)@),
        ensures
            final(self)@ == sleep_model(old(self)@, now_ms),
            radio_consistent(final(self)@),
    {
        proof {
            use_type_invariant(&*self);
        }
        if self.is_awake {
            self.account(now_ms);
            self.is_awake = false;
            self.sleep_start_ms = now_ms;
            self.transition_count = self.transition_count + 1;
        }
    }

    /// Wakes the radio at `now_ms`, accounting the asleep time.
    pub fn wake(&mut self, now_ms: u64)
        requires
            !old(self)@.awake ==> can_transition(old(self)@),
        ensures
            final(self)@ == wake_model(old(self)@, now_ms),
            radio_consistent(final(self)@),
    {
        proof {
            use_type_invariant(&*self);
        }
        if !self.is_awake {
            self.account(now_ms);
            self.is_awake = true;
            self.transition_count = self.transition_count + 1;
        }
    }

    /// Accounts the time up to `now_ms` without changing state.
    pub fn finalize(&mut self, now_ms: u64)
        ensures
            final(self)@ == account_model(old(self)@, now_ms),
            radio_consistent(final(self)@),
    {
        proof {
            use_type_invariant(&*self);
        }
        self.account(now_ms);
    }

    /// Whether the radio is awake.
    pub fn is_awake(&self) -> (b: bool)
        ensures
            b == self@.awake,
            radio_consistent(self@),
    {
        proof {
            use_type_invariant(self);
        }
        self.is_awake
    }

    /// Time accounted as asleep.
    pub fn total_sleep_ms(&self) -> (t: u64)
        ensures
            t == self@.total_sleep_ms,
            radio_consistent(self@),
    {
        proof {
            use_type_invariant(self);
        }
        self.total_sleep_ms
    }

    /// Time accounted as awake.
    pub fn total_awake_ms(&self) -> (t: u64)
        ensures
            t == self@.total_awake_ms,
            radio_consistent(self@),
    {
        proof {
            use_type_invariant(self);
        }
        self.total_awake_ms
    }

    /// Wake/sleep transitions so far.
    pub fn transition_count(&self) -> (n: u64)
        ensures
            n == self@.transitions,
            radio_consistent(self@),
    {
        proof {
            use_type_invariant(self);
        }
        self.transition_count
    }
}

impl Default for RadioTimer {
    fn default() -> (r: Self)
        ensures
            r@ == (RadioState {
                awake: true,
                sleep_start_ms: 0,
                total_sleep_ms: 0,
                total_awake_ms: 0,
                transitions: 0,
                last_transition_ms: 0,
            }),
    {
        RadioTimer::new()
    }
}

/// Seed of the jitter generator of a new scheduler.
pub const JITTER_SEED: u32 = 0xDEAD_BEEF;

/// Jitter range of the default scheduled node: a tenth of the Calm
/// interval.
pub const CALM_JITTER_RANGE_MS: u64 = 1_440_000;

/// The state of a scheduler, apart from its message queue.
#[derive(Debug, Clone, Copy)]
pub struct SchedState {
    /// Role of the node.
    pub role: NodeRole,
    /// Regime in force.
    pub regime: Regime,
    /// Wake interval (zero: no periodic wake).
    pub interval_ms: u64,
    /// Wake times are jittered by up to this much either way.
    pub jitter_range_ms: u64,
    /// When the radio last woke.
    pub last_wake_ms: u64,
    /// When the next periodic wake is due.
    pub next_wake_ms: Option<u64>,
    /// The radio's time accounting.
    pub radio: RadioState,
    /// An emergency wake waits to be handled.
    pub emergency_pending: bool,
    /// State of the jitter generator.
    pub jitter_seed: u32,
}

/// Whether the role jitters its wake times.
pub open spec fn jitter_enabled(role: NodeRole) -> bool {
    match role {
        NodeRole::Scheduled(cfg) => cfg.jitter_enabled,
        _ => false,
    }
}

/// The interval moved by jitter value `j`: `interval + j mod (2 range + 1)
/// - range`, at least one millisecond.
pub open spec fn jittered_ms(interval: u64, range: u64, j: u32) -> int {
    let v = interval + (j as int) % (2 * range + 1) - range;
    if v < 1 {
        1
    } else {
        v
    }
}

/// Intervals are only for scheduled nodes, and the interval plus twice the
/// jitter range fits in a signed 64-bit integer.
pub open spec fn sched_ok(s: SchedState) -> bool {
    &&& !(s.role is Scheduled) ==> s.interval_ms == 0
    &&& s.interval_ms + 2 * s.jitter_range_ms <= i64::MAX
}

/// Scheduling from `now` cannot pass the end of the clock.
pub open spec fn can_schedule(s: SchedState, now: u64) -> bool {
    s.interval_ms == 0 || now + s.interval_ms + s.jitter_range_ms <= u64::MAX
}

/// The next wake is scheduled one interval after `now` (none without an
/// interval); when the role jitters, the generator's next draw moves it
/// within the jitter range.
pub open spec fn schedule_model(s: SchedState, now: u64) -> SchedState {
    if s.interval_ms == 0 {
        SchedState { next_wake_ms: None, ..s }
    } else if jitter_enabled(s.role) {
        let seed = xorshift32_spec(s.jitter_seed);
        SchedState {
            next_wake_ms: Some((now + jittered_ms(s.interval_ms, s.jitter_range_ms, seed)) as u64),
            jitter_seed: seed,
            ..s
        }
    } else {
        SchedState { next_wake_ms: Some((now + s.interval_ms) as u64), ..s }
    }
}

/// The radio wakes at `now`, which becomes the last wake time.
pub open spec fn force_wake_model(s: SchedState, now: u64) -> SchedState {
    SchedState { radio: wake_model(s.radio, now), last_wake_ms: now, ..s }
}

/// The radio sleeps at `now` and the next wake is scheduled.
pub open spec fn enter_sleep_model(s: SchedState, now: u64) -> SchedState {
    schedule_model(SchedState { radio: sleep_model(s.radio, now), ..s }, now)
}

/// After a regime change at `now`; a scheduled node takes the wake
/// interval `interval` (with jitter range `range`), wakes at once when the
/// new regime is more urgent, and reschedules. An on-demand node wakes
/// for any regime but Calm and goes back to sleep when Calm returns.
pub open spec fn update_regime_model(s: SchedState, regime: Regime, interval: u64, range: u64, now: u64) -> SchedState {
    let s1 = SchedState { regime, ..s };
    match s.role {
        NodeRole::Sentinel => s1,
        NodeRole::OnDemand => {
            let s2 = if regime != Regime::Calm && !s.radio.awake { force_wake_model(s1, now) } else { s1 };
            if regime == Regime::Calm && s.regime != Regime::Calm {
                enter_sleep_model(s2, now)
            } else {
                s2
            }
        },
        NodeRole::Scheduled(_) => {
            let s2 = SchedState { interval_ms: interval, jitter_range_ms: range, ..s1 };
            let s3 = if urgency_of(regime) > urgency_of(s.regime) && !s.radio.awake {
                force_wake_model(s2, now)
            } else {
                s2
            };
            schedule_model(s3, now)
        },
    }
}

/// How long a scheduled node stays awake after waking: five seconds in
/// Storm, half a second otherwise.
pub open spec fn burst_window_ms(regime: Regime) -> u64 {
    if regime == Regime::Storm {
        5_000
    } else {
        500
    }
}

/// A scheduled node whose wake time has come and whose radio is asleep.
pub open spec fn wake_due(s: SchedState, now: u64) -> bool {
    &&& s.next_wake_ms matches Some(n) && now >= n
    &&& !s.radio.awake
}

/// A scheduled node awake for longer than its burst window.
pub open spec fn burst_over(s: SchedState, now: u64) -> bool {
    &&& s.radio.awake
    &&& s.last_wake_ms > 0
    &&& now > s.last_wake_ms
    &&& now - s.last_wake_ms > burst_window_ms(s.regime)
}

/// After a tick at `now`. An on-demand node handles a pending emergency
/// wake. A scheduled node wakes when due and reschedules, or goes to sleep
/// once its burst window is over.
pub open spec fn tick_model(s: SchedState, now: u64) -> SchedState {
    match s.role {
        NodeRole::Sentinel => s,
        NodeRole::OnDemand => if s.emergency_pending {
            force_wake_model(SchedState { emergency_pending: false, ..s }, now)
        } else {
            s
        },
        NodeRole::Scheduled(_) => if wake_due(s, now) {
            schedule_model(force_wake_model(s, now), now)
        } else if burst_over(s, now) {
            enter_sleep_model(s, now)
        } else {
            s
        },
    }
}

/// Whether a tick at `now` reports the queued messages for a burst.
pub open spec fn tick_reports(s: SchedState, now: u64) -> bool {
    match s.role {
        NodeRole::Sentinel => false,
        NodeRole::OnDemand => s.emergency_pending,
        NodeRole::Scheduled(_) => wake_due(s, now),
    }
}

/// A node that is not a sentinel takes an emergency wake at once and
/// remembers it.
pub open spec fn emergency_model(s: SchedState, now: u64) -> SchedState {
    match s.role {
        NodeRole::Sentinel => s,
        _ => SchedState { emergency_pending: true, ..force_wake_model(s, now) },
    }
}

/// A new scheduler: Calm, nothing scheduled, radio awake with nothing
/// accounted; a scheduled node counts as having woken at time 1.
pub open spec fn initial_model(role: NodeRole, interval: u64, range: u64) -> SchedState {
    SchedState {
        role,
        regime: Regime::Calm,
        interval_ms: if role is Scheduled { interval } else { 0 },
        jitter_range_ms: if role is Scheduled { range } else { 0 },
        last_wake_ms: if role is Scheduled { 1 } else { 0 },
        next_wake_ms: None,
        radio: RadioState {
            awake: true,
            sleep_start_ms: 0,
            total_sleep_ms: 0,
            total_awake_ms: 0,
            transitions: 0,
            last_transition_ms: 0,
        },
        emergency_pending: false,
        jitter_seed: JITTER_SEED,
    }
}

/// Capacity of the message queue of a role.
pub open spec fn batch_capacity(role: NodeRole) -> nat {
    match role {
        NodeRole::Scheduled(cfg) => cfg.max_batch_size as nat,
        _ => 64,
    }
}

/// Target-wake-time scheduler: sleeps and wakes the radio by role and
/// regime, and batches outgoing messages of type `T` while asleep.
#[derive(Debug, Clone)]
pub struct TWTScheduler<T> {
    role: NodeRole,
    current_regime: Regime,
    current_interval_ms: u64,
    jitter_range_ms: u64,
    last_wake_ms: u64,
    next_wake_ms: Option<u64>,
    radio: RadioTimer,
    batch_queue: GossipBatchQueue<T>,
    emergency_wake_pending: bool,
    jitter_seed: u32,
}

impl<T> View for TWTScheduler<T> {
    type V = SchedState;

    closed spec fn view(&self) -> SchedState {
        SchedState {
            role: self.role,
            regime: self.current_regime,
            interval_ms: self.current_interval_ms,
            jitter_range_ms: self.jitter_range_ms,
            last_wake_ms: self.last_wake_ms,
            next_wake_ms: self.next_wake_ms,
            radio: self.radio@,
            emergency_pending: self.emergency_wake_pending,
            jitter_seed: self.jitter_seed,
        }
    }
}

impl<T> TWTScheduler<T> {
    /// The message queue.
    pub closed spec fn queue(&self) -> GossipBatchQueue<T> {
        self.batch_queue
    }

    /// A scheduler for `role`; a scheduled node wakes every `interval_ms`
    /// (jittered by up to `jitter_range_ms` when its configuration asks
    /// for jitter).
    pub fn with_interval(role: NodeRole, interval_ms: u64, jitter_range_ms: u64) -> (s: Self)
        requires
            role is Scheduled ==> interval_ms + 2 * jitter_range_ms <= i64::MAX,
        ensures
            s@ == initial_model(role, interval_ms, jitter_range_ms),
            sched_ok(s@),
            s.queue().spec_items() == Seq::<T>::empty(),
            s.queue().spec_max() == batch_capacity(role),
            s.queue().spec_total_enqueued() == 0,
            s.queue().spec_total_sent() == 0,
    {
        let (interval, range, max_batch, initial_wake) = match role {
            NodeRole::Scheduled(cfg) => (interval_ms, jitter_range_ms, cfg.max_batch_size, 1u64),
            _ => (0u64, 0u64, 64usize, 0u64),
        };
        TWTScheduler {
            role,
            current_regime: Regime::Calm,
            current_interval_ms: interval,
            jitter_range_ms: range,
            last_wake_ms: initial_wake,
            next_wake_ms: None,
            radio: RadioTimer::new(),
            batch_queue: GossipBatchQueue::new(max_batch),
            emergency_wake_pending: false,
            jitter_seed: JITTER_SEED,
        }
    }

    /// A scheduled node with the default configuration and full
    /// reputation: the Calm interval, jittered by a tenth of it.
    pub fn new_scheduled() -> (s: Self)
        ensures
            s@ == initial_model(
                NodeRole::Scheduled(TWTConfig { base_interval_ms: CALM_INTERVAL_MS, jitter_enabled: true, max_batch_size: 64 }),
                CALM_INTERVAL_MS,
                CALM_JITTER_RANGE_MS,
            ),
            sched_ok(s@),
            s.queue().spec_items() == Seq::<T>::empty(),
            s.queue().spec_max() == 64,
            s.queue().spec_total_enqueued() == 0,
            s.queue().spec_total_sent() == 0,
    {
        let cfg = TWTConfig::default();
        Self::with_interval(NodeRole::Scheduled(cfg), CALM_INTERVAL_MS, CALM_JITTER_RANGE_MS)
    }

    /// A sentinel: always awake.
    pub fn new_sentinel() -> (s: Self)
        ensures
            s@ == initial_model(NodeRole::Sentinel, 0, 0),
            sched_ok(s@),
            s.queue().spec_items() == Seq::<T>::empty(),
            s.queue().spec_max() == 64,
            s.queue().spec_total_enqueued() == 0,
            s.queue().spec_total_sent() == 0,
    {
        Self::with_interval(NodeRole::Sentinel, 0, 0)
    }

    /// An on-demand node: sleeps until an emergency wake.
    pub fn new_on_demand() -> (s: Self)
        ensures
            s@ == initial_model(NodeRole::OnDemand, 0, 0),
            sched_ok(s@),
            s.queue().spec_items() == Seq::<T>::empty(),
            s.queue().spec_max() == 64,
            s.queue().spec_total_enqueued() == 0,
            s.queue().spec_total_sent() == 0,
    {
        Self::with_interval(NodeRole::OnDemand, 0, 0)
    }

    /// Draws the next value of the jitter generator.
    pub fn deterministic_jitter(&mut self) -> (x: u32)
        ensures
            x == xorshift32_spec(old(self)@.jitter_seed),
            final(self)@ == (SchedState { jitter_seed: x, ..old(self)@ }),
            final(self).queue() == old(self).queue(),
    {
        let x = xorshift32(self.jitter_seed);
        self.jitter_seed = x;
        x
    }

    fn has_jitter_enabled(&self) -> (b: bool)
        ensures
            b == jitter_enabled(self@.role),
    {
        match self.role {
            NodeRole::Scheduled(cfg) => cfg.jitter_enabled,
            _ => false,
        }
    }

    fn schedule_next_wake(&mut self, now_ms: u64)
        requires
            sched_ok(old(self)@),
            can_schedule(old(self)@, now_ms),
        ensures
            final(self)@ == schedule_model(old(self)@, now_ms),
            final(self).queue() == old(self).queue(),
    {
        if self.current_interval_ms == 0 {
            self.next_wake_ms = None;
            return;
        }
        if !self.has_jitter_enabled() {
            self.next_wake_ms = Some(now_ms + self.current_interval_ms);
            return;
        }
        let jitter: u32 = self.deterministic_jitter();
        let interval = self.current_interval_ms as i64;
        let range = self.jitter_range_ms as i64;
        assert(2 * range + 1 <= i64::MAX);
        let offset = (jitter as i64) % (2 * range + 1);
        let v = interval + offset - range;
        let jittered: u64 = if v < 1 {
            1
        } else {
            v as u64
        };
        self.next_wake_ms = Some(now_ms + jittered);
    }

    fn force_wake(&mut self, now_ms: u64)
        requires
            !old(self)@.radio.awake ==> can_transition(old(self)@.radio),
        ensures
            final(self)@ == force_wake_model(old(self)@, now_ms),
            final(self).queue() == old(self).queue(),
    {
        self.radio.wake(now_ms);
        self.last_wake_ms = now_ms;
    }

    fn enter_sleep(&mut self, now_ms: u64)
        requires
            sched_ok(old(self)@),
            can_schedule(old(self)@, now_ms),
            old(self)@.radio.awake ==> can_transition(old(self)@.radio),
        ensures
            final(self)@ == enter_sleep_model(old(self)@, now_ms),
            final(self).queue() == old(self).queue(),
    {
        self.radio.sleep(now_ms);
        self.schedule_next_wake(now_ms);
    }

    /// Takes a regime change at `now_ms`. A scheduled node moves to the
    /// wake interval `interval_ms` (its reputation-weighted interval for
    /// the new regime, jitter range `jitter_range_ms`), wakes at once when
    /// the regime is more urgent, and reschedules; an on-demand node wakes
    /// for any regime but Calm and sleeps again when Calm returns; a
    /// sentinel only records the regime.
    pub fn update_regime(&mut self, new_regime: Regime, interval_ms: u64, jitter_range_ms: u64, now_ms: u64)
        requires
            sched_ok(old(self)@),
            can_transition(old(self)@.radio),
            old(self)@.role is Scheduled ==> {
                &&& interval_ms + 2 * jitter_range_ms <= i64::MAX
                &&& now_ms + interval_ms + jitter_range_ms <= u64::MAX
            },
        ensures
            final(self)@ == update_regime_model(old(self)@, new_regime, interval_ms, jitter_range_ms, now_ms),
            sched_ok(final(self)@),
            final(self).queue() == old(self).queue(),
    {
        let old_regime = self.current_regime;
        self.current_regime = new_regime;
        match self.role {
            NodeRole::Sentinel => {},
            NodeRole::OnDemand => {
                if new_regime != Regime::Calm && !self.radio.is_awake() {
                    self.force_wake(now_ms);
                }
                if new_regime == Regime::Calm && old_regime != Regime::Calm {
                    self.enter_sleep(now_ms);
                }
            },
            NodeRole::Scheduled(_) => {
                self.current_interval_ms = interval_ms;
                self.jitter_range_ms = jitter_range_ms;
                if regime_urgency(new_regime) > regime_urgency(old_regime) && !self.radio.is_awake() {
                    self.force_wake(now_ms);
                }
                self.schedule_next_wake(now_ms);
            },
        }
    }

    /// A scheduled node takes a new wake interval (after a change of its
    /// reputation) and reschedules from `now_ms`; other roles are unchanged.
    pub fn set_interval(&mut self, interval_ms: u64, jitter_range_ms: u64, now_ms: u64)
        requires
            sched_ok(old(self)@),
            old(self)@.role is Scheduled ==> {
                &&& interval_ms + 2 * jitter_range_ms <= i64::MAX
                &&& now_ms + interval_ms + jitter_range_ms <= u64::MAX
            },
        ensures
            final(self)@ == if old(self)@.role is Scheduled {
                schedule_model(
                    SchedState { interval_ms, jitter_range_ms, ..old(self)@ },
                    now_ms,
                )
            } else {
                old(self)@
            },
            sched_ok(final(self)@),
            final(self).queue() == old(self).queue(),
    {
        if let NodeRole::Scheduled(_) = self.role {
            self.current_interval_ms = interval_ms;
            self.jitter_range_ms = jitter_range_ms;
            self.schedule_next_wake(now_ms);
        }
    }

    /// The regime in force.
    pub fn current_regime(&self) -> (r: Regime)
        ensures
            r == self@.regime,
    {
        self.current_regime
    }

    /// The wake interval in force.
    pub fn current_interval_ms(&self) -> (ms: u64)
        ensures
            ms == self@.interval_ms,
    {
        self.current_interval_ms
    }

    /// Whether the node may transmit: a sentinel always, others while the
    /// radio is awake.
    pub fn should_transmit(&self, _now_ms: u64) -> (b: bool)
        ensures
            b == (self@.role is Sentinel || self@.radio.awake),
    {
        match self.role {
            NodeRole::Sentinel => true,
            _ => self.radio.is_awake(),
        }
    }

    /// Advances the scheduler to `now_ms`; returns how many queued messages
    /// are ready for a burst when the node has just woken, else 0.
    pub fn tick(&mut self, now_ms: u64) -> (n: usize)
        requires
            sched_ok(old(self)@),
            can_transition(old(self)@.radio),
            can_schedule(old(self)@, now_ms),
        ensures
            final(self)@ == tick_model(old(self)@, now_ms),
            sched_ok(final(self)@),
            final(self).queue() == old(self).queue(),
            n == if tick_reports(old(self)@, now_ms) { old(self).queue().spec_items().len() } else { 0 },
    {
        match self.role {
            NodeRole::Sentinel => 0,
            NodeRole::OnDemand => {
                if self.emergency_wake_pending {
                    self.emergency_wake_pending = false;
                    self.force_wake(now_ms);
                    self.batch_queue.pending_count()
                } else {
                    0
                }
            },
            NodeRole::Scheduled(_) => {
                if let Some(next) = self.next_wake_ms {
                    if now_ms >= next && !self.radio.is_awake() {
                        self.force_wake(now_ms);
                        let pending = self.batch_queue.pending_count();
                        self.schedule_next_wake(now_ms);
                        return pending;
                    }
                }
                if self.radio.is_awake() && self.last_wake_ms > 0 {
                    let awake_duration = now_ms.saturating_sub(self.last_wake_ms);
                    let burst_window: u64 = if self.current_regime == Regime::Storm {
                        5_000
                    } else {
                        500
                    };
                    if awake_duration > burst_window {
                        self.enter_sleep(now_ms);
                    }
                }
                0
            },
        }
    }

    /// Queues an outgoing message (the oldest is dropped when full).
    pub fn enqueue_gossip(&mut self, update: T)
        requires
            old(self).queue().spec_total_enqueued() < u64::MAX,
        ensures
            final(self)@ == old(self)@,
            final(self).queue().spec_items() == crate::twt::enqueue_spec(
                old(self).queue().spec_items(),
                old(self).queue().spec_max(),
                update,
            ),
            final(self).queue().spec_max() == old(self).queue().spec_max(),
            final(self).queue().spec_total_enqueued() == old(self).queue().spec_total_enqueued() + 1,
            final(self).queue().spec_total_sent() == old(self).queue().spec_total_sent(),
    {
        self.batch_queue.enqueue(update);
    }

    /// Takes every queued message, oldest first, for a burst.
    pub fn drain_batch(&mut self) -> (batch: Vec<T>)
        requires
            old(self).queue().spec_total_sent() + old(self).queue().spec_items().len() <= u64::MAX,
        ensures
            batch@ == old(self).queue().spec_items(),
            final(self)@ == old(self)@,
            final(self).queue().spec_items() == Seq::<T>::empty(),
            final(self).queue().spec_max() == old(self).queue().spec_max(),
            final(self).queue().spec_total_enqueued() == old(self).queue().spec_total_enqueued(),
            final(self).queue().spec_total_sent() == old(self).queue().spec_total_sent()
                + old(self).queue().spec_items().len(),
    {
        self.batch_queue.drain_batch()
    }

    /// Handles an emergency wake broadcast: a node that is not a sentinel
    /// wakes at once and records the wake as pending.
    pub fn emergency_wake(&mut self, now_ms: u64)
        requires
            can_transition(old(self)@.radio),
        ensures
            final(self)@ == emergency_model(old(self)@, now_ms),
            final(self).queue() == old(self).queue(),
    {
        match self.role {
            NodeRole::Sentinel => {},
            _ => {
                self.emergency_wake_pending = true;
                self.force_wake(now_ms);
            },
        }
    }

    /// Whether the node is awake: a sentinel always.
    pub fn is_awake(&self) -> (b: bool)
        ensures
            b == (self@.role is Sentinel || self@.radio.awake),
    {
        match self.role {
            NodeRole::Sentinel => true,
            _ => self.radio.is_awake(),
        }
    }

    /// When the next periodic wake is due, if one is scheduled.
    pub fn next_wake_ms(&self) -> (t: Option<u64>)
        ensures
            t == self@.next_wake_ms,
    {
        self.next_wake_ms
    }

    /// The next `count` wake times after `start_ms`, one interval apart
    /// (empty without an interval).
    pub fn get_wake_schedule(&self, start_ms: u64, count: usize) -> (v: Vec<u64>)
        requires
            self@.interval_ms > 0 ==> start_ms + count * self@.interval_ms <= u64::MAX,
        ensures
            self@.interval_ms == 0 ==> v@.len() == 0,
            self@.interval_ms > 0 ==> v@ == Seq::new(count as nat, |i: int| (start_ms + (i + 1) * self@.interval_ms) as u64),
    {
        let mut schedule: Vec<u64> = Vec::new();
        if self.current_interval_ms == 0 {
            return schedule;
        }
        let ghost iv = self.current_interval_ms as int;
        let mut t = start_ms;
        let mut k: usize = 0;
        while k < count
            invariant
                k <= count,
                iv == self.current_interval_ms,
                iv > 0,
                start_ms + count * iv <= u64::MAX,
                t == start_ms + k * iv,
                schedule@ == Seq::new(k as nat, |i: int| (start_ms + (i + 1) * iv) as u64),
            decreases count - k,
        {
            assert(t + iv <= start_ms + count * iv) by (nonlinear_arith)
                requires
                    t == start_ms + k * iv,
                    k < count,
                    iv > 0,
            ;
            t = t + self.current_interval_ms;
            schedule.push(t);
            proof {
                assert(t == start_ms + (k + 1) * iv) by (nonlinear_arith)
                    requires
                        t == start_ms + k * iv + iv,
                ;
                assert(schedule@ =~= Seq::new((k + 1) as nat, |i: int| (start_ms + (i + 1) * iv) as u64));
            }
            k = k + 1;
        }
        schedule
    }

    /// The radio's time accounting.
    pub fn mock_radio(&self) -> (r: &RadioTimer)
        ensures
            r@ == self@.radio,
    {
        &self.radio
    }

    /// The message queue.
    pub fn batch_queue(&self) -> (q: &GossipBatchQueue<T>)
        ensures
            *q == self.queue(),
    {
        &self.batch_queue
    }

    /// The node's role.
    pub fn role(&self) -> (r: &NodeRole)
        ensures
            *r == self@.role,
    {
        &self.role
    }

    /// Puts the radio to sleep at `now_ms` directly, outside the schedule.
    pub fn radio_sleep(&mut self, now_ms: u64)
        requires
            can_transition(old(self)@.radio),
        ensures
            final(self)@ == (SchedState { radio: sleep_model(old(self)@.radio, now_ms), ..old(self)@ }),
            final(self).queue() == old(self).queue(),
    {
        self.radio.sleep(now_ms);
    }

    /// Wakes the radio at `now_ms` directly, outside the schedule.
    pub fn radio_wake(&mut self, now_ms: u64)
        requires
            can_transition(old(self)@.radio),
        ensures
            final(self)@ == (SchedState { radio: wake_model(old(self)@.radio, now_ms), ..old(self)@ }),
            final(self).queue() == old(self).queue(),
    {
        self.radio.wake(now_ms);
    }

    /// Accounts the radio's time up to `now_ms`.
    pub fn finalize_radio(&mut self, now_ms: u64)
        ensures
            final(self)@ == (SchedState { radio: account_model(old(self)@.radio, now_ms), ..old(self)@ }),
            final(self).queue() == old(self).queue(),
    {
        self.radio.finalize(now_ms);
    }
}


/// Jitter keeps a scheduled wake within the jitter range of one interval
/// after `now` (and at least a millisecond after it); without jitter the
/// wake comes exactly one interval after `now`.
pub proof fn lemma_next_wake_within_jitter(s: SchedState, now: u64)
    requires
        sched_ok(s),
        can_schedule(s, now),
        s.interval_ms > 0,
    ensures
        schedule_model(s, now).next_wake_ms matches Some(t) && {
            &&& now + 1 <= t
            &&& now + s.interval_ms - s.jitter_range_ms <= t
            &&& t <= now + s.interval_ms + s.jitter_range_ms
        },
        !jitter_enabled(s.role) ==> schedule_model(s, now).next_wake_ms == Some((now + s.interval_ms) as u64),
{
    let m = 2 * s.jitter_range_ms + 1;
    assert(0 <= (xorshift32_spec(s.jitter_seed) as int) % m < m);
}

/// A scheduled node whose radio sleeps wakes at once when the regime
/// becomes more urgent, and its next wake is rescheduled.
pub proof fn lemma_urgent_regime_wakes(s: SchedState, regime: Regime, interval: u64, range: u64, now: u64)
    requires
        s.role is Scheduled,
        urgency_of(regime) > urgency_of(s.regime),
    ensures
        update_regime_model(s, regime, interval, range, now).radio.awake,
        update_regime_model(s, regime, interval, range, now).regime == regime,
        update_regime_model(s, regime, interval, range, now).interval_ms == interval,
{
}

/// An on-demand node is awake in PreStorm and Storm, and asleep again once
/// Calm returns after them.
pub proof fn lemma_on_demand_follows_regime(s: SchedState, regime: Regime, interval: u64, range: u64, now: u64)
    requires
        s.role is OnDemand,
    ensures
        regime != Regime::Calm ==> update_regime_model(s, regime, interval, range, now).radio.awake,
        regime == Regime::Calm && s.regime != Regime::Calm ==> !update_regime_model(s, regime, interval, range, now).radio.awake,
{
}

/// A tick never changes a sentinel, and a sentinel is always awake.
pub proof fn lemma_sentinel_never_sleeps(s: SchedState, now: u64)
    requires
        s.role is Sentinel,
    ensures
        tick_model(s, now) == s,
        !tick_reports(s, now),
{
}

} // verus!
