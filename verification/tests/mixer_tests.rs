use qres_core::mixer::{div_q16, mul_q16, Mixer, NUM_MODELS};

#[test]
fn q16_arithmetic() {
    assert_eq!(mul_q16(65536, 65536), 65536);
    assert_eq!(mul_q16(32768, 3), 1);
    assert_eq!(mul_q16(-1, 1), -1);
    assert_eq!(div_q16(65536, 131072), 32768);
    assert_eq!(div_q16(-65536, 131072), -32768);
    assert_eq!(div_q16(5, 0), 0);
    assert_eq!(div_q16(-3, 65536 * 4), 0);
}

#[test]
fn default_mix_of_equal_predictions() {
    let m = Mixer::new(None, None);
    assert_eq!(m.weights, [26214, 13107, 6554, 6554, 6554, 6554, 0, 0]);
    let preds = [100u8; NUM_MODELS];
    // Low initial variance: 0.6 * AR (zero history) + 0.4 * ensemble.
    assert_eq!(m.mix(&preds), 40);
}

#[test]
fn custom_initial_weights_are_padded() {
    let init = [65536, 0, 0];
    let m = Mixer::new(Some(&init), Some(&[1, 2, 3, 4, 5, 6, 7, 8, 9]));
    assert_eq!(m.weights, [65536, 0, 0, 0, 0, 0, 0, 0]);
}

#[test]
fn learning_keeps_predictions_in_range() {
    let mut m = Mixer::new(None, None);
    let preds = [10u8, 200, 50, 50, 50, 50];
    for step in 0..200u32 {
        let actual = (step % 256) as u8;
        m.update_lazy(1, actual, &preds);
        let b = m.mix(&preds);
        let _ = b;
    }
}

#[test]
fn lock_on_after_long_streak() {
    let mut m = Mixer::new(None, None);
    let preds = [0u8, 90, 0, 0, 0, 0];
    for _ in 0..40 {
        m.update_lazy(1, 90, &preds);
    }
    // Model 1 keeps winning, so the mixer locks on to its prediction.
    assert_eq!(m.mix(&preds), 90);
}

#[test]
fn one_update_renormalizes_weights() {
    let mut m = Mixer::new(None, None);
    m.update_lazy(1, 0, &[0, 0, 0, 0, 0, 255]);
    assert_eq!(m.weights, [26252, 13159, 6613, 6613, 6613, 6285, 0, 0]);
    let sum: i32 = m.weights[..6].iter().sum();
    assert!((65531..=65536).contains(&sum));
}

#[test]
fn locked_on_model_prediction_is_returned_for_any_inputs() {
    let mut m = Mixer::new(None, None);
    m.update_lazy(33, 77, &[77, 3, 200, 10, 0, 255]);
    for q in [[5u8, 250, 1, 2, 3, 4], [200, 0, 0, 0, 0, 0], [0, 255, 255, 255, 255, 255]] {
        assert_eq!(m.mix(&q), q[0]);
    }
}
