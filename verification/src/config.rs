//! Compression strategy choices.
use vstd::prelude::*;

verus! {

/// Predictor strategy.
#[derive(Debug, Clone, Copy, PartialEq, Eq, Structural)]
pub enum PredictorType {
    Heuristic,
    Neural,
    Hybrid,
    Zero,
}

/// Entropy coder.
#[derive(Debug, Clone, Copy, PartialEq, Eq, Structural)]
pub enum CoderType {
    Huffman,
    Arithmetic,
}

/// Compression mode.
#[derive(Debug, Clone, PartialEq, Eq, Structural)]
pub enum CompressionMode {
    Lossless,
    Lossy,
    Adaptive,
}

} // verus!
