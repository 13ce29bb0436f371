//! Deterministic stand-in for the spectral predictor: it echoes the last
//! observed byte, identically on every platform.
use vstd::prelude::*;

verus! {

/// Predictor that echoes the last observed byte.
pub struct SpectralPredictor {
    last: u8,
}

impl SpectralPredictor {
    /// The last observed byte (zero initially).
    pub closed spec fn spec_last(&self) -> u8 {
        self.last
    }

    /// A predictor that has seen nothing; the window size is not used.
    pub fn new(window_size: usize) -> (p: Self)
        ensures
            p.spec_last() == 0,
    {
        SpectralPredictor { last: 0 }
    }

    /// Observes a byte.
    pub fn update(&mut self, val: u8)
        ensures
            final(self).spec_last() == val,
    {
        self.last = val;
    }

    /// Predicts the last observed byte.
    pub fn predict(&mut self) -> (b: u8)
        ensures
            b == old(self).spec_last(),
            final(self).spec_last() == old(self).spec_last(),
    {
        self.last
    }

    /// Forgets the last byte.
    pub fn reset(&mut self)
        ensures
            final(self).spec_last() == 0,
    {
        self.last = 0;
    }
}

} // verus!
