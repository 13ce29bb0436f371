//! Errors of privacy-budget accounting.
use vstd::prelude::*;

verus! {

/// Privacy accounting failures.
#[derive(Debug, Clone, PartialEq, Eq, Structural)]
pub enum PrivacyError {
    BudgetExceeded,
    InvalidCost,
}

impl PrivacyError {
    /// Human-readable description.
    pub fn message(&self) -> (s: &'static str)
        ensures
            s@ == match *self {
                PrivacyError::BudgetExceeded => "Privacy budget exceeded"@,
                PrivacyError::InvalidCost => "Invalid privacy cost"@,
            },
    {
        match self {
            PrivacyError::BudgetExceeded => "Privacy budget exceeded",
            PrivacyError::InvalidCost => "Invalid privacy cost",
        }
    }
}

} // verus!
