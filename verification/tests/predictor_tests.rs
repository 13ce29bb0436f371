use qres_core::predictors::{GraphPredictor, LzMatchPredictor, Predictor, SimplePredictor, ZeroPredictor};
use qres_core::spectral::SpectralPredictor;
use qres_core::transformer::TransformerPredictor;

#[test]
fn zero_predictor_predicts_zero() {
    let mut p = ZeroPredictor::new();
    p.update(200);
    assert_eq!(p.predict_next(), 0);
    p.reset();
    assert_eq!(p.predict_next(), 0);
}

#[test]
fn simple_predictor_remembers_contexts() {
    let mut p = SimplePredictor::new();
    assert_eq!(p.predict_next(), 0);
    for &b in b"abcabcab" {
        p.update(b);
    }
    // Context "cab" was followed by "c" last time.
    assert_eq!(p.predict_next(), b'c');
    p.reset();
    assert_eq!(p.predict_next(), 0);
}

#[test]
fn graph_predictor_initial_prediction() {
    let mut g = GraphPredictor::new();
    assert_eq!(g.predict_next(), 0);
    for _ in 0..64 {
        g.update(100);
    }
    assert_eq!(g.predict_next(), 212);
    g.reset();
    assert_eq!(g.predict_next(), 0);
}

#[test]
fn graph_predictor_learns_lag_one() {
    // The lag-one weight starts at zero; after the second 200 the error of
    // 200 moves it to 983 * 200 * 200 / 255 = 154196, and the prediction
    // saturates.
    let mut g = GraphPredictor::new();
    g.update(200);
    assert_eq!(g.predict_next(), 0);
    g.update(200);
    assert_eq!(g.predict_next(), 255);
}

#[test]
fn lz_predictor_follows_repeats() {
    let mut p = LzMatchPredictor::new();
    assert_eq!(p.predict_next(), 0);
    let text = b"the quick brown fox the quick brown f";
    for &b in text.iter() {
        p.update(b);
    }
    assert_eq!(p.predict_next(), b'o');
    p.reset();
    assert_eq!(p.predict_next(), 0);
}

#[test]
fn lz_predictor_falls_back_to_last_byte() {
    let mut p = LzMatchPredictor::new();
    for &b in b"abcdefg" {
        p.update(b);
    }
    assert_eq!(p.predict_next(), b'g');
}

#[test]
fn transformer_warmup_and_exact_match() {
    let mut t = TransformerPredictor::new();
    assert_eq!(t.predict_next(), 128);
    for i in 0..64u32 {
        t.update((i % 8) as u8);
    }
    // The last four bytes (4,5,6,7) match the patch ending eight bytes back,
    // which was followed by 0.
    assert_eq!(t.predict_next(), 0);
    t.reset();
    assert_eq!(t.predict_next(), 128);
}

#[test]
fn transformer_weighted_average_is_a_byte() {
    let mut t = TransformerPredictor::new();
    for i in 0..200u32 {
        t.update((i.wrapping_mul(37) % 251) as u8);
    }
    let _ = t.predict_next();
}

#[test]
fn spectral_predictor_echoes_last_byte() {
    let mut s = SpectralPredictor::new(16);
    assert_eq!(s.predict(), 0);
    s.update(42);
    assert_eq!(s.predict(), 42);
    s.reset();
    assert_eq!(s.predict(), 0);
}
