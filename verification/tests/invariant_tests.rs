use qres_core::resource_management::EnergyPool;

#[test]
fn inv4_regime_gate() {
    const QUORUM_MIN: usize = 3;
    const REPUTATION_THRESHOLD: f32 = 0.8;

    let low_rep_signals = vec![0.3f32; 10];
    let high_rep_count = low_rep_signals.iter().filter(|&&r| r > REPUTATION_THRESHOLD).count();
    assert!(high_rep_count < QUORUM_MIN);
    let storm_trigger_low = high_rep_count >= QUORUM_MIN;
    assert!(!storm_trigger_low);

    let mut mixed_signals = vec![0.2f32; 100];
    mixed_signals.extend(vec![0.9f32; 2]);
    let high_rep_count_mixed = mixed_signals.iter().filter(|&&r| r > REPUTATION_THRESHOLD).count();
    assert_eq!(high_rep_count_mixed, 2);
    let storm_trigger_mixed = high_rep_count_mixed >= QUORUM_MIN;
    assert!(!storm_trigger_mixed);

    let high_rep_signals = vec![0.9f32; 3];
    let high_rep_count_ok = high_rep_signals.iter().filter(|&&r| r > REPUTATION_THRESHOLD).count();
    assert_eq!(high_rep_count_ok, 3);
    let storm_trigger_ok = high_rep_count_ok >= QUORUM_MIN;
    assert!(storm_trigger_ok);
}

#[test]
fn inv5_energy_guard() {
    const ENERGY_RESERVE_THRESHOLD: f32 = 0.15;

    let energy_levels = vec![0.05, 0.10, 0.14, 0.15, 0.20, 0.50];

    for energy in &energy_levels {
        let can_gossip = energy >= &ENERGY_RESERVE_THRESHOLD;
        if *energy < ENERGY_RESERVE_THRESHOLD {
            assert!(!can_gossip);
        }
    }

    let low_energy = 0.10;
    let high_priority_override = false;
    let gossip_permitted = low_energy >= ENERGY_RESERVE_THRESHOLD || high_priority_override;
    assert!(!gossip_permitted);
}

#[test]
fn critical_pool_refuses_expensive_gossip() {
    let mut pool = EnergyPool::new(1000);
    pool.set_energy(40);
    assert!(pool.is_critical());
    assert!(!pool.spend(50));
    assert_eq!(pool.current(), 40);
}
