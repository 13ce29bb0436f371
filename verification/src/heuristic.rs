//! Weighted moving-average predictor configuration.
use vstd::prelude::*;

verus! {

/// Moving-average predictor; the prediction itself works on floating-point
/// windows and lives with the callers.
pub struct MovingAveragePredictor {
    window_size: usize,
}

impl MovingAveragePredictor {
    /// The configured window size.
    pub closed spec fn spec_window_size(&self) -> usize {
        self.window_size
    }

    /// A predictor for the given window size.
    pub fn new(window_size: usize) -> (p: Self)
        ensures
            p.spec_window_size() == window_size,
    {
        MovingAveragePredictor { window_size }
    }
}

} // verus!
