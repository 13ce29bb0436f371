use qres_core::adaptive::Regime;
use qres_core::twt::scheduler::{RadioTimer, TWTScheduler, CALM_JITTER_RANGE_MS};
use qres_core::twt::{
    regime_to_interval_ms, regime_urgency, xorshift32, GossipBatchQueue, NodeRole, TWTConfig, CALM_INTERVAL_MS,
    PRESTORM_INTERVAL_MS, STORM_INTERVAL_MS,
};

/// The jitter range the scheduler uses for an interval: a tenth of it,
/// computed in `f32`.
fn jitter_range(interval: u64) -> u64 {
    (interval as f32 * 0.10f32) as i64 as u64
}

/// A message standing in for a gossip update.
#[derive(Debug, Clone, PartialEq)]
struct Msg(u32);

#[test]
fn test_regime_intervals() {
    assert_eq!(regime_to_interval_ms(Regime::Calm), 4 * 60 * 60 * 1000);
    assert_eq!(regime_to_interval_ms(Regime::PreStorm), 10 * 60 * 1000);
    assert_eq!(regime_to_interval_ms(Regime::Storm), 30 * 1000);
}

#[test]
fn urgency_orders_regimes() {
    assert!(regime_urgency(Regime::Calm) < regime_urgency(Regime::PreStorm));
    assert!(regime_urgency(Regime::PreStorm) < regime_urgency(Regime::Storm));
}

#[test]
fn test_batch_queue_overflow_drops_oldest() {
    let mut q: GossipBatchQueue<u32> = GossipBatchQueue::new(3);
    for i in 0..5 {
        q.enqueue(i);
    }
    assert_eq!(q.pending_count(), 3);
    assert_eq!(q.total_enqueued(), 5);
    let batch = q.drain_batch();
    assert_eq!(batch, vec![2, 3, 4]);
    assert!(q.is_empty());
    assert_eq!(q.total_burst_sent(), 3);
}

#[test]
fn zero_capacity_queue_keeps_newest() {
    let mut q: GossipBatchQueue<u8> = GossipBatchQueue::new(0);
    q.enqueue(1);
    q.enqueue(2);
    assert_eq!(q.drain_batch(), vec![2]);
}

#[test]
fn xorshift_reference_values() {
    let a = xorshift32(12345);
    let b = xorshift32(12345);
    assert_eq!(a, b);
    assert_ne!(xorshift32(a), a);
    // Reference value of one xorshift32 step.
    assert_eq!(xorshift32(1), 270369);
}

#[test]
fn test_jitter_is_deterministic() {
    let mut s1: TWTScheduler<Msg> = TWTScheduler::new_scheduled();
    let mut s2: TWTScheduler<Msg> = TWTScheduler::new_scheduled();
    let j1: Vec<u32> = (0..10).map(|_| s1.deterministic_jitter()).collect();
    let j2: Vec<u32> = (0..10).map(|_| s2.deterministic_jitter()).collect();
    assert_eq!(j1, j2, "Jitter should be deterministic with same seed");
}

#[test]
fn test_jitter_produces_variation() {
    let mut sched: TWTScheduler<Msg> = TWTScheduler::new_scheduled();
    let values: Vec<u32> = (0..10).map(|_| sched.deterministic_jitter()).collect();
    let first = values[0];
    assert!(values.iter().any(|&v| v != first), "Jitter should produce variation");
}

#[test]
fn default_jitter_range_is_a_tenth_of_calm() {
    assert_eq!(CALM_JITTER_RANGE_MS, jitter_range(CALM_INTERVAL_MS));
}

#[test]
fn test_sentinel_always_awake() {
    let sched: TWTScheduler<Msg> = TWTScheduler::new_sentinel();
    assert!(sched.is_awake());
    assert!(sched.should_transmit(0));
    assert!(sched.should_transmit(999_999_999));
}

#[test]
fn test_scheduled_default_interval() {
    let sched: TWTScheduler<Msg> = TWTScheduler::new_scheduled();
    assert_eq!(sched.current_interval_ms(), CALM_INTERVAL_MS);
    assert_eq!(sched.current_regime(), Regime::Calm);
}

#[test]
fn test_regime_change_updates_interval() {
    let mut sched: TWTScheduler<Msg> = TWTScheduler::new_scheduled();
    sched.update_regime(Regime::PreStorm, PRESTORM_INTERVAL_MS, jitter_range(PRESTORM_INTERVAL_MS), 1000);
    assert_eq!(sched.current_interval_ms(), PRESTORM_INTERVAL_MS);
    sched.update_regime(Regime::Storm, STORM_INTERVAL_MS, jitter_range(STORM_INTERVAL_MS), 2000);
    assert_eq!(sched.current_interval_ms(), STORM_INTERVAL_MS);
    sched.update_regime(Regime::Calm, CALM_INTERVAL_MS, jitter_range(CALM_INTERVAL_MS), 3000);
    assert_eq!(sched.current_interval_ms(), CALM_INTERVAL_MS);
}

fn scheduled(base: u64, jitter: bool, batch: usize) -> TWTScheduler<Msg> {
    let cfg = TWTConfig { base_interval_ms: base, jitter_enabled: jitter, max_batch_size: batch };
    TWTScheduler::with_interval(NodeRole::Scheduled(cfg), base, jitter_range(base))
}

#[test]
fn test_scheduled_sleep_wake_cycle() {
    let mut sched = scheduled(1000, false, 16);
    assert!(sched.is_awake());
    sched.tick(602);
    assert!(!sched.is_awake());
    assert!(sched.next_wake_ms().is_some());
}

#[test]
fn unjittered_wake_comes_one_interval_later() {
    let mut sched = scheduled(1000, false, 16);
    sched.tick(602);
    assert_eq!(sched.next_wake_ms(), Some(1602));
    // before the wake time nothing happens
    assert_eq!(sched.tick(1601), 0);
    assert!(!sched.is_awake());
    // at the wake time the node wakes and reschedules
    sched.enqueue_gossip(Msg(7));
    assert_eq!(sched.tick(1602), 1);
    assert!(sched.is_awake());
    assert_eq!(sched.next_wake_ms(), Some(2602));
}

#[test]
fn jittered_wake_stays_within_range() {
    let mut sched = scheduled(1000, true, 16);
    sched.tick(602);
    let mut from = 602;
    for _ in 0..20 {
        let t = sched.next_wake_ms().unwrap();
        assert!(t >= from + 900 && t <= from + 1100, "{} not within jitter of {}", t, from);
        sched.tick(t);
        assert!(sched.is_awake());
        let t2 = sched.next_wake_ms().unwrap();
        assert!(t2 >= t + 900 && t2 <= t + 1100);
        sched.tick(t + 501);
        assert!(!sched.is_awake());
        from = t + 501;
    }
}

#[test]
fn test_on_demand_wakes_on_emergency() {
    let mut sched: TWTScheduler<Msg> = TWTScheduler::new_on_demand();
    sched.radio_sleep(0);
    assert!(!sched.is_awake());
    sched.emergency_wake(100);
    assert!(sched.is_awake());
}

#[test]
fn test_storm_forces_immediate_wake() {
    let mut sched = scheduled(100_000, false, 16);
    sched.radio_sleep(0);
    assert!(!sched.is_awake());
    sched.update_regime(Regime::Storm, STORM_INTERVAL_MS, jitter_range(STORM_INTERVAL_MS), 500);
    assert!(sched.is_awake());
    assert_eq!(sched.current_interval_ms(), STORM_INTERVAL_MS);
}

#[test]
fn test_gossip_batching_during_sleep() {
    let mut sched: TWTScheduler<Msg> = TWTScheduler::new_scheduled();
    sched.radio_sleep(0);
    for i in 0..5 {
        sched.enqueue_gossip(Msg(i));
    }
    assert_eq!(sched.batch_queue().pending_count(), 5);
    sched.radio_wake(1000);
    let batch = sched.drain_batch();
    assert_eq!(batch.len(), 5);
    assert_eq!(sched.batch_queue().pending_count(), 0);
}

#[test]
fn test_calm_to_storm_transition_sequence() {
    let mut sched = scheduled(CALM_INTERVAL_MS, false, 32);
    sched.tick(602);
    assert!(!sched.is_awake());
    assert_eq!(sched.current_interval_ms(), CALM_INTERVAL_MS);
    for i in 0..3 {
        sched.enqueue_gossip(Msg(i));
    }
    sched.update_regime(Regime::PreStorm, PRESTORM_INTERVAL_MS, jitter_range(PRESTORM_INTERVAL_MS), 1000);
    assert!(sched.is_awake());
    assert_eq!(sched.current_interval_ms(), PRESTORM_INTERVAL_MS);
    let batch = sched.drain_batch();
    assert_eq!(batch.len(), 3);
    sched.update_regime(Regime::Storm, STORM_INTERVAL_MS, jitter_range(STORM_INTERVAL_MS), 2000);
    assert!(sched.is_awake());
    assert_eq!(sched.current_interval_ms(), STORM_INTERVAL_MS);
    sched.update_regime(Regime::Calm, CALM_INTERVAL_MS, jitter_range(CALM_INTERVAL_MS), 60_000);
    assert_eq!(sched.current_interval_ms(), CALM_INTERVAL_MS);
}

#[test]
fn test_get_wake_schedule() {
    let sched = scheduled(1000, false, 16);
    let schedule = sched.get_wake_schedule(0, 5);
    assert_eq!(schedule, vec![1000, 2000, 3000, 4000, 5000]);
}

#[test]
fn test_sentinel_has_no_schedule() {
    let sched: TWTScheduler<Msg> = TWTScheduler::new_sentinel();
    let schedule = sched.get_wake_schedule(0, 5);
    assert!(schedule.is_empty());
}

#[test]
fn on_demand_sleeps_again_when_calm_returns() {
    let mut sched: TWTScheduler<Msg> = TWTScheduler::new_on_demand();
    sched.radio_sleep(0);
    sched.update_regime(Regime::PreStorm, 0, 0, 10);
    assert!(sched.is_awake());
    sched.update_regime(Regime::Calm, 0, 0, 20);
    assert!(!sched.is_awake());
    assert_eq!(sched.next_wake_ms(), None);
}

#[test]
fn storm_burst_window_is_five_seconds() {
    let mut sched = scheduled(100_000, false, 16);
    sched.update_regime(Regime::Storm, STORM_INTERVAL_MS, jitter_range(STORM_INTERVAL_MS), 1);
    sched.tick(5_001);
    assert!(sched.is_awake());
    sched.tick(5_002);
    assert!(!sched.is_awake());
}

#[test]
fn radio_time_adds_up() {
    let mut radio = RadioTimer::new();
    radio.wake(0);
    radio.sleep(3_600_000);
    radio.finalize(4 * 3_600_000);
    assert_eq!(radio.total_awake_ms(), 3_600_000);
    assert_eq!(radio.total_sleep_ms(), 3 * 3_600_000);
    assert_eq!(radio.transition_count(), 1);
    assert!(!radio.is_awake());
    // accounting back in time changes nothing
    radio.finalize(10);
    assert_eq!(radio.total_awake_ms() + radio.total_sleep_ms(), 4 * 3_600_000);
}

#[test]
fn default_config_and_roles() {
    let c = TWTConfig::default();
    assert_eq!(c.base_interval_ms, 4 * 60 * 60 * 1000);
    assert!(c.jitter_enabled);
    assert_eq!(c.max_batch_size, 64);
    let r = NodeRole::Scheduled(c);
    assert_ne!(r, NodeRole::Sentinel);
}
