use qres_core::adaptive::{Regime, RegimeHysteresis, SilenceController, SilenceState};

#[test]
fn hysteresis_prevents_single_spike_transition() {
    let mut h = RegimeHysteresis::new();
    assert_eq!(h.apply_hysteresis(Regime::Storm), Regime::Calm);
    assert_eq!(h.transition_streak(), 1);
    assert_eq!(h.pending_regime(), Some(Regime::Storm));
}

#[test]
fn hysteresis_confirms_after_required_rounds() {
    let mut h = RegimeHysteresis::new();
    assert_eq!(h.apply_hysteresis(Regime::Storm), Regime::Calm);
    assert_eq!(h.apply_hysteresis(Regime::Storm), Regime::Calm);
    assert_eq!(h.apply_hysteresis(Regime::Storm), Regime::Storm);
    assert_eq!(h.transition_streak(), 0);
    assert_eq!(h.pending_regime(), None);
}

#[test]
fn hysteresis_resets_on_regime_change() {
    let mut h = RegimeHysteresis::new();
    h.apply_hysteresis(Regime::Storm);
    h.apply_hysteresis(Regime::Storm);
    assert_eq!(h.transition_streak(), 2);
    assert_eq!(h.apply_hysteresis(Regime::Calm), Regime::Calm);
    assert_eq!(h.transition_streak(), 0);
}

#[test]
fn hysteresis_slow_deescalation() {
    let mut h = RegimeHysteresis::new();
    for _ in 0..3 {
        h.apply_hysteresis(Regime::Storm);
    }
    assert_eq!(h.current_regime(), Regime::Storm);
    for _ in 0..4 {
        assert_eq!(h.apply_hysteresis(Regime::Calm), Regime::Storm);
    }
    assert_eq!(h.apply_hysteresis(Regime::Calm), Regime::Calm);
}

#[test]
fn hysteresis_minimum_one_round() {
    let mut h = RegimeHysteresis::new();
    h.set_hysteresis_rounds(0);
    assert_eq!(h.get_required_confirmations(Regime::PreStorm, Regime::Storm), 1);
    assert_eq!(h.apply_hysteresis(Regime::PreStorm), Regime::PreStorm);
    assert_eq!(h.apply_hysteresis(Regime::Storm), Regime::Storm);
}

#[test]
fn silence_controller_transitions() {
    let mut c = SilenceController::new();
    assert_eq!(c.state(), SilenceState::Active);
    c.transition(Regime::Calm, true, 100);
    assert_eq!(c.state(), SilenceState::DeepSilence);
    c.transition(Regime::PreStorm, true, 0);
    assert_eq!(c.state(), SilenceState::Alert);
    c.transition(Regime::Storm, false, 0);
    assert_eq!(c.state(), SilenceState::Active);
    c.transition(Regime::Calm, false, 200);
    assert_eq!(c.state(), SilenceState::Active);
}

#[test]
fn silence_controller_heartbeat() {
    let mut c = SilenceController::new().with_heartbeat_interval(10);
    c.set_state(SilenceState::DeepSilence);
    for _ in 0..9 {
        assert!(!c.decide_broadcast(false, true, true, true));
    }
    assert!(c.decide_broadcast(false, true, true, true));
    assert!(!c.should_send_heartbeat());
}

#[test]
fn silence_controller_energy_gate() {
    let mut c = SilenceController::new();
    assert!(!c.decide_broadcast(true, true, true, true));
    assert!(c.decide_broadcast(false, true, false, false));
    assert!(c.decide_broadcast(false, false, true, false));
    assert!(!c.decide_broadcast(false, false, false, true));
    c.set_state(SilenceState::Alert);
    assert!(c.decide_broadcast(false, false, false, true));
    assert!(!c.decide_broadcast(false, true, true, false));
}

#[test]
fn test_hysteresis_asymmetric_thresholds() {
    let mut detector = RegimeHysteresis::new();
    detector.set_hysteresis_rounds(3);
    assert_eq!(detector.get_required_confirmations(Regime::Calm, Regime::Storm), 3);
    assert_eq!(detector.get_required_confirmations(Regime::Storm, Regime::Calm), 5);
    assert_eq!(detector.get_required_confirmations(Regime::Calm, Regime::PreStorm), 2);
    assert_eq!(detector.get_required_confirmations(Regime::PreStorm, Regime::Calm), 2);
}

#[test]
fn test_hysteresis_configurable() {
    let mut detector = RegimeHysteresis::new();
    detector.set_hysteresis_rounds(5);
    assert_eq!(detector.get_required_confirmations(Regime::Calm, Regime::Storm), 5);
    assert_eq!(detector.get_required_confirmations(Regime::Storm, Regime::Calm), 8);
}

#[test]
fn test_hysteresis_minimum_one_round() {
    let mut detector = RegimeHysteresis::new();
    detector.set_hysteresis_rounds(0);
    let required = detector.get_required_confirmations(Regime::Calm, Regime::Storm);
    assert!(required >= 1);
}

#[test]
fn noisy_indications_do_not_confirm_a_transition() {
    let mut h = RegimeHysteresis::new();
    for r in [Regime::Storm, Regime::Calm, Regime::Storm, Regime::Calm, Regime::Storm] {
        h.apply_hysteresis(r);
    }
    assert_eq!(h.current_regime(), Regime::Calm);
}

#[test]
fn test_silence_controller_transitions() {
    let mut controller = SilenceController::new();
    assert_eq!(controller.state(), SilenceState::Active);
    controller.transition(Regime::Calm, true, 150);
    assert_eq!(controller.state(), SilenceState::DeepSilence);
    controller.transition(Regime::PreStorm, false, 0);
    assert_eq!(controller.state(), SilenceState::Alert);
    controller.transition(Regime::Storm, false, 0);
    assert_eq!(controller.state(), SilenceState::Active);
}

#[test]
fn vote_ledger_refuses_a_second_vote_in_the_same_round() {
    let mut ledger: qres_core::adaptive::votes::VoteLedger<(f32, f32)> =
        qres_core::adaptive::votes::VoteLedger::new(10);
    assert!(ledger.submit(1, 5, (0.5, 0.95)));
    assert!(!ledger.submit(1, 5, (0.9, 0.99)));
    assert!(ledger.submit(1, 6, (0.5, 0.95)));
    assert!(ledger.submit(2, 5, (0.5, 0.95)));
    assert_eq!(ledger.votes().len(), 3);
    assert_eq!(ledger.votes()[0], (1, 5, (0.5, 0.95)));
}

#[test]
fn vote_ledger_prunes_expired_votes() {
    let mut ledger: qres_core::adaptive::votes::VoteLedger<u8> = qres_core::adaptive::votes::VoteLedger::new(3);
    for i in 0..5 {
        ledger.submit(i, 1, i as u8);
    }
    ledger.submit(9, 8, 9);
    assert_eq!(ledger.votes().len(), 6);
    // at round 4 the round-1 votes are exactly three rounds old
    assert_eq!(ledger.recent_payloads(4), vec![0, 1, 2, 3, 4, 9]);
    assert_eq!(ledger.recent_payloads(10), vec![9]);
    ledger.prune_expired(10);
    assert_eq!(ledger.votes(), &[(9, 8, 9)]);
    // a vote from a later round counts as recent
    assert_eq!(ledger.recent_payloads(2), vec![9]);
}

#[test]
fn unauthorised_storm_is_held_at_prestorm() {
    let mut h = RegimeHysteresis::new();
    assert_eq!(h.apply_hysteresis_with_consensus(Regime::Storm, false), Regime::Calm);
    assert_eq!(h.apply_hysteresis_with_consensus(Regime::Storm, false), Regime::Calm);
    assert_eq!(h.apply_hysteresis_with_consensus(Regime::Storm, false), Regime::PreStorm);
    assert_eq!(h.current_regime(), Regime::PreStorm);
    assert_eq!(h.pending_regime(), None);
    let mut g = RegimeHysteresis::new();
    g.apply_hysteresis_with_consensus(Regime::Storm, true);
    g.apply_hysteresis_with_consensus(Regime::Storm, true);
    assert_eq!(g.apply_hysteresis_with_consensus(Regime::Storm, true), Regime::Storm);
}
