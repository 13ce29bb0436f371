use qres_core::multimodal::{isqrt_u64, Bfp16Vec, Modality, MultimodalFusion, ATTENTION_WINDOW};

#[test]
fn test_multimodal_creation() {
    let fusion = MultimodalFusion::new(2);
    assert_eq!(fusion.num_modalities(), 2);
    assert_eq!(fusion.surprise().len(), 2);
    assert_eq!(fusion.lr_scales().len(), 2);
}

#[test]
fn test_cross_modal_bias() {
    let mut fusion = MultimodalFusion::new(2);

    fusion.set_surprise(0, 500_000_000);
    fusion.set_surprise(1, 0);

    let bias = fusion.compute_cross_modal_bias(1);

    assert_ne!(bias, 0);
}

#[test]
fn cross_modal_bias_exact_value() {
    // Attention 1/2 (32768) on a surprise of 500 whole units gives 250.
    let mut fusion = MultimodalFusion::new(2);
    fusion.set_surprise(0, 500_000_000);
    assert_eq!(fusion.compute_cross_modal_bias(1), 250);
    assert_eq!(fusion.compute_cross_modal_bias(0), 0);
}

#[test]
fn test_memory_overhead() {
    let _fusion = MultimodalFusion::new(4);

    let stack_size = std::mem::size_of::<MultimodalFusion>();
    let heap_estimate = 4 * ATTENTION_WINDOW * 100;
    let total_estimate = stack_size + heap_estimate;

    assert!(total_estimate < 1_000_000, "Memory usage too high for embedded");
}

#[test]
fn heap_estimate_of_empty_engine() {
    let fusion = MultimodalFusion::new(2);
    // 16 empty vectors of 25 bytes, plus the per-modality tables.
    let n = 2usize;
    let tables = n * 8 + n * 4 + n * n * 4 + n * n * 4 + n * 4 + n * 8 + n * 8 + n * 4 + n;
    assert_eq!(fusion.estimated_heap_bytes(), 16 * 25 + tables);
}

#[test]
fn test_observation_storage() {
    let mut fusion = MultimodalFusion::new(2);
    let obs = Bfp16Vec { exponent: -3, mantissas: vec![204, 480] };
    // Prediction error 0.01, scaled by 10^6.
    fusion.observe_scaled(Modality::Temperature, obs.clone(), 10_000);
    assert_eq!(fusion.history_slot(0, 0).mantissas.len(), 2);
    assert_eq!(fusion.history_slot(0, 0), &obs);
    assert!(fusion.surprise()[0] > 0);
    assert_eq!(fusion.surprise()[0], 100_000_000);
    assert_eq!(fusion.cursor(), 1);
    assert!(fusion.is_spike_active(Modality::Temperature));
}

#[test]
fn test_lr_scale_adaptation() {
    let mut fusion = MultimodalFusion::new(2);
    let initial = fusion.lr_scales()[0];
    assert_eq!(initial, 65536);
    for _ in 0..12 {
        fusion.set_surprise(0, 1_000_000_000);
        fusion.set_surprise(1, 100_000_000);
        fusion.update_lr_scale(0);
    }
    let scale = fusion.lr_scales()[0];
    assert!(scale < initial);
    assert!(scale >= 39321);
}

#[test]
fn test_attention_training() {
    let mut fusion = MultimodalFusion::new(2);
    let initial = fusion.attention_weight(0, 1);
    // Correlation 0.8 in Q16.16.
    fusion.train_attention_fixed(Modality::Temperature, Modality::Humidity, 52428);
    assert!(fusion.attention_weight(0, 1) > initial);
    for _ in 0..100 {
        fusion.train_attention_fixed(Modality::Temperature, Modality::Humidity, 58982);
    }
    assert!(fusion.attention_weight(0, 1) <= 65536);
}

#[test]
fn spike_detection_after_first_sample() {
    let mut fusion = MultimodalFusion::new(2);
    let obs = Bfp16Vec { exponent: 0, mantissas: vec![1] };
    fusion.observe_scaled(Modality::Humidity, obs.clone(), 1000);
    assert!(fusion.is_spike_active(Modality::Humidity));
    // The same error again is no spike.
    fusion.observe_scaled(Modality::Humidity, obs.clone(), 1000);
    assert!(!fusion.is_spike_active(Modality::Humidity));
    // A much larger error is.
    fusion.observe_scaled(Modality::Humidity, obs, 1_000_000);
    assert!(fusion.is_spike_active(Modality::Humidity));
    // The spike refreshed the other modality's cached bias.
    assert_eq!(fusion.cached_cross_modal_bias()[0], fusion.compute_cross_modal_bias(0));
}

#[test]
fn integer_square_root_values() {
    assert_eq!(isqrt_u64(0), 0);
    assert_eq!(isqrt_u64(1), 1);
    assert_eq!(isqrt_u64(16), 4);
    assert_eq!(isqrt_u64(100), 10);
    assert_eq!(isqrt_u64(1_000_000), 62504);
    let _ = isqrt_u64(u64::MAX);
}

#[test]
fn norm_sq_scaled_values() {
    assert_eq!(qres_core::multimodal::compute_norm_sq_scaled(&[3, -4]), 25_000_000);
    assert_eq!(qres_core::multimodal::compute_norm_sq_scaled(&[]), 0);
    assert_eq!(qres_core::multimodal::compute_norm_sq_scaled(&vec![32767i16; 20_000]), u64::MAX);
}

#[test]
fn sixth_imbalance_cuts_the_rate_by_five_percent() {
    let mut fusion = MultimodalFusion::new(2);
    fusion.set_surprise(0, 1_000_000_000);
    fusion.set_surprise(1, 100_000_000);
    for _ in 0..5 {
        fusion.update_lr_scale(0);
        assert_eq!(fusion.lr_scales()[0], 65536);
    }
    fusion.update_lr_scale(0);
    assert_eq!(fusion.lr_scales()[0], 62259);
    // the next cut after six more imbalances: 62259 * 62259 >> 16
    for _ in 0..6 {
        fusion.update_lr_scale(0);
    }
    assert_eq!(fusion.lr_scales()[0], ((62259u64 * 62259) >> 16) as i32);
}

#[test]
fn fresh_engine_heap_estimate() {
    let f = MultimodalFusion::new(4);
    assert_eq!(f.estimated_heap_bytes(), 1076);
}
