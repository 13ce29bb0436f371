//! Stream grouping by correlation (the floating-point correlation itself is
//! computed by the callers).
use vstd::prelude::*;

verus! {

/// Pearson correlation between data streams.
pub struct PearsonCorrelation;

/// A group of streams identified as highly correlated.
#[derive(Debug, Clone)]
pub struct StreamGroup {
    /// The stream the others were compared with.
    pub leader: String,
    /// Streams correlated with the leader.
    pub members: Vec<String>,
}

/// Groups streams by correlation.
pub struct MultivariateManager;

} // verus!
