//! The failures that the forecasting functions report.

use vstd::prelude::*;

verus! {

/// Why a forecast could not be made.
#[derive(Clone, Copy, Debug, PartialEq, Eq, Structural)]
pub enum ForecastError {
    /// A sampling window, an offset window or a target period is empty or
    /// back to front, or leads outside the supported calendar.
    InvalidRange,
    /// Fewer than two past occurrences were given.
    InsufficientHistory,
    /// The regression gave no usable model for the design matrix.
    DegenerateModel,
}

impl ForecastError {
    /// A short description for messages.
    pub fn message(&self) -> (r: &'static str)
        ensures
            r@ == match *self {
                ForecastError::InvalidRange => "invalid range"@,
                ForecastError::InsufficientHistory => "insufficient history"@,
                ForecastError::DegenerateModel => "degenerate model"@,
            },
    {
        match self {
            ForecastError::InvalidRange => "invalid range",
            ForecastError::InsufficientHistory => "insufficient history",
            ForecastError::DegenerateModel => "degenerate model",
        }
    }
}

} // verus!
