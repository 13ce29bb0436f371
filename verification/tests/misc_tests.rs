use fixed::types::I16F16;
use qres_core::aggregation::{KrumAggregator, TrimmedMeanByzAggregator};
use qres_core::archive::{archive_header, ArchiveManifest, ArchiveOptions, FileEntry};
use qres_core::config::{CoderType, CompressionMode, PredictorType};
use qres_core::cortex::{Regime, SpikeEvent};
use qres_core::heuristic::MovingAveragePredictor;
use qres_core::privacy::PrivacyError;

#[test]
fn spike_event_holds_fields() {
    let e = SpikeEvent::new(7, 120, 33, Regime::Storm);
    assert_eq!(e.tick, 7);
    assert_eq!(e.error, 120);
    assert_eq!(e.surprise, 33);
    assert_eq!(e.regime, Regime::Storm);
}

#[test]
fn manifest_totals_file_sizes() {
    let mut m = ArchiveManifest::new();
    assert_eq!(m.compression_method, "qres-v5-dedup");
    assert_eq!(m.total_size, 0);
    for (i, size) in [10u64, 20, 30].iter().enumerate() {
        m.add_file(FileEntry {
            path: format!("f{}", i),
            original_size: *size,
            stream_offset: 0,
            stream_length: *size,
            permissions: None,
            modified: 0,
            hash: None,
        });
    }
    assert_eq!(m.total_size, 60);
    assert_eq!(m.files.len(), 3);
    assert_eq!(m.files[2].path, "f2");
}

#[test]
fn archive_header_layout() {
    assert_eq!(archive_header(true, 0x0102_0304), vec![b'Q', b'R', b'A', b'R', 1, 1, 4, 3, 2, 1]);
    assert_eq!(archive_header(false, 5)[5], 0);
    let o = ArchiveOptions::default();
    assert!(o.solid && o.preserve_permissions && o.compute_hashes);
    assert_eq!(o.level, 5);
}

#[test]
fn defaults_of_small_types() {
    let k = KrumAggregator::default();
    assert_eq!(k.expected_byz, 1);
    assert!(k.multi_k.is_none());
    assert_eq!(TrimmedMeanByzAggregator::default().f, 1);
    let _ = MovingAveragePredictor::new(8);
    assert_ne!(PredictorType::Zero, PredictorType::Hybrid);
    assert_ne!(CoderType::Huffman, CoderType::Arithmetic);
    assert_eq!(CompressionMode::Lossy, CompressionMode::Lossy);
    assert_eq!(PrivacyError::BudgetExceeded.message(), "Privacy budget exceeded");
    assert_eq!(PrivacyError::InvalidCost.message(), "Invalid privacy cost");
}

fn to_q16(v: f32) -> i32 {
    I16F16::from_num(v).to_bits()
}

fn from_q16(b: i32) -> f32 {
    I16F16::from_bits(b).to_num::<f32>()
}

#[test]
fn test_trimmed_mean_byz() {
    // f = 1, n = 5: the smallest and largest values are dropped, the middle three averaged.
    let updates: Vec<Vec<i32>> = [0.0f32, 1.0, 1.1, 0.9, 100.0].iter().map(|&v| vec![to_q16(v)]).collect();
    let result = qres_core::aggregation::trimmed_mean_byz_fixed(&updates, 1);
    let expected_avg = (1.0 + 1.1 + 0.9) / 3.0;
    assert!((from_q16(result[0]) - expected_avg).abs() < 0.01, "Should average middle 3");
}

#[test]
fn trimmed_mean_byz_fixed_matches_fixed_crate() {
    let updates: Vec<Vec<i32>> = vec![
        vec![to_q16(3.5), to_q16(-2.0), i32::MAX],
        vec![to_q16(-7.25), to_q16(4.0), i32::MAX],
        vec![to_q16(10.0), to_q16(0.5)],
        vec![to_q16(1.0), to_q16(-0.75), i32::MAX],
        vec![to_q16(2.0), to_q16(8.0), i32::MAX],
        vec![to_q16(-1.0), to_q16(1.0), i32::MAX],
    ];
    let f = 1;
    let n = updates.len();
    let got = qres_core::aggregation::trimmed_mean_byz_fixed(&updates, f);
    assert_eq!(got.len(), 3);
    let inv = I16F16::ONE / I16F16::from_num(n - 2 * f);
    for dim in 0..3 {
        let mut col: Vec<I16F16> = updates.iter().map(|u| I16F16::from_bits(*u.get(dim).unwrap_or(&0))).collect();
        col.sort_unstable();
        let mut sum = I16F16::ZERO;
        for v in &col[f..n - f] {
            sum = sum.saturating_add(*v);
        }
        assert_eq!(got[dim], sum.saturating_mul(inv).to_bits());
    }
}

#[test]
fn one_outlier_cannot_leave_the_honest_range() {
    let q = |x: f32| I16F16::from_num(x).to_bits();
    let honest = [0.9f32, 1.0, 1.05, 1.1];
    let mut updates: Vec<Vec<i32>> = honest.iter().map(|&h| vec![q(h), q(-h)]).collect();
    updates.insert(2, vec![q(1000.0), q(-1000.0)]);
    let result = qres_core::aggregation::trimmed_mean_byz_fixed(&updates, 1);
    assert_eq!(result.len(), 2);
    assert!(result[0] >= q(0.9) && result[0] <= q(1.1), "{}", result[0]);
    assert!(result[1] >= q(-1.1) && result[1] <= q(-0.9), "{}", result[1]);
}
