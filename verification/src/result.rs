//! What a run reports.

use crate::analyzer::aggregated_error_rates::ErrorRatesResult;
use crate::analyzer::TimingResult;
use vstd::prelude::*;

verus! {

/// The statistics of the pairs that passed the filter. `timing` and `error`
/// are absent exactly where `count` is zero.
#[derive(PartialEq, Eq, Debug, Clone, Copy, Structural)]
pub struct RequestLogAnalyzerResult {
    pub count: usize,
    pub timing: Option<TimingResult>,
    pub error: Option<ErrorRatesResult>,
}

} // verus!
