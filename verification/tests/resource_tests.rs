use qres_core::resource_management::{
    energy_costs, esp32_profile, pi_zero_profile, snn_theoretical_profile, EnergyPool, EnergyProfile,
    WorkerPool,
};

#[test]
fn test_energy_pool_basics() {
    let mut pool = EnergyPool::new(100);
    assert_eq!(pool.current(), 100);
    let ratio = pool.current() as f32 / pool.max_capacity() as f32;
    assert_eq!(ratio, 1.0);

    assert!(pool.spend(30));
    assert_eq!(pool.current(), 70);
    let ratio = pool.current() as f32 / pool.max_capacity() as f32;
    assert!((ratio - 0.7).abs() < 0.01);

    pool.recharge(50);
    assert_eq!(pool.current(), 100);
}

#[test]
fn test_energy_critical_threshold() {
    let mut pool = EnergyPool::new(100);
    pool.set_energy(9);
    assert!(pool.is_critical());

    pool.set_energy(10);
    assert!(!pool.is_critical());
}

#[test]
fn test_insufficient_energy() {
    let mut pool = EnergyPool::new(100);
    pool.set_energy(10);

    assert!(!pool.spend(50));
    assert_eq!(pool.current(), 10);
}

#[test]
fn spending_tracks_lifetime_consumption() {
    let mut pool = EnergyPool::new(1000);
    assert!(pool.spend(energy_costs::GOSSIP_SEND));
    assert!(pool.spend(energy_costs::PREDICT));
    assert_eq!(pool.lifetime_consumption(), 51);
    assert!(pool.can_afford(949));
    assert!(!pool.can_afford(950));
    assert!(!pool.spend(5000));
    assert_eq!(pool.lifetime_consumption(), 51);
}

#[test]
fn low_and_critical_levels() {
    let mut pool = EnergyPool::new(100);
    pool.set_energy(29);
    assert!(pool.is_low());
    assert!(!pool.is_critical());
    pool.set_energy(30);
    assert!(!pool.is_low());
    pool.set_energy(500);
    assert_eq!(pool.current(), 100);
    let empty = EnergyPool::new(0);
    assert!(empty.is_critical());
    assert!(empty.is_low());
}

#[test]
fn default_pool_and_profiles() {
    let pool = EnergyPool::default();
    assert_eq!(pool.max_capacity(), 1000);
    assert_eq!(pool.current(), 1000);
    let p: EnergyProfile = EnergyProfile::default();
    assert_eq!(p.gossip_send_cost, energy_costs::GOSSIP_SEND);
    assert_eq!(snn_theoretical_profile().name, "SNN Theoretical (0.9pJ MAC)");
    assert_eq!(pi_zero_profile().gossip_send_cost, 120);
    assert_eq!(esp32_profile().heartbeat_cost, 25);
    assert_eq!(WorkerPool::new().current_capacity, 2);
}

#[test]
fn lifetime_consumption_is_the_sum_of_successful_spends() {
    let mut p = EnergyPool::new(100);
    let costs = [30u32, 50, 40, 20, 0, 5];
    let mut spent: u64 = 0;
    for c in costs {
        if p.spend(c) {
            spent += c as u64;
        }
    }
    // 30 and 50 succeed, 40 is refused (20 left), then 20, 0 succeed and 5 is refused.
    assert_eq!(spent, 100);
    assert_eq!(p.lifetime_consumption(), 100);
    assert_eq!(p.current() as u64 + p.lifetime_consumption(), 100);
}
