use qres_core::probability::AdaptiveModel;

#[test]
fn fresh_model_is_uniform() {
    let m = AdaptiveModel::new();
    assert_eq!(m.total(), 256);
    assert_eq!(m.get_probability(0), (0, 1, 256));
    assert_eq!(m.get_probability(255), (255, 1, 256));
    assert_eq!(m.symbol_from_count(0), 0);
    assert_eq!(m.symbol_from_count(100), 100);
}

#[test]
fn update_increments_count() {
    let mut m = AdaptiveModel::new();
    m.update(7);
    assert_eq!(m.total(), 257);
    assert_eq!(m.get_probability(7), (7, 2, 257));
    assert_eq!(m.get_probability(8), (9, 1, 257));
}

#[test]
fn decoder_inverts_encoder() {
    let mut m = AdaptiveModel::new();
    for i in 0..5000u32 {
        m.update((i % 37) as u8);
    }
    for s in 0..=255u8 {
        let (low, freq, total) = m.get_probability(s);
        assert!(freq >= 1);
        assert!(low + freq <= total);
        for t in [low, low + freq - 1] {
            assert_eq!(m.symbol_from_count(t), s);
        }
    }
}

#[test]
fn total_stays_below_rescale_limit() {
    let mut m = AdaptiveModel::new();
    for _ in 0..100_000 {
        m.update(3);
    }
    assert!(m.total() < 16384);
}
