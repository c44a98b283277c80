//! The ways a normalization run can fail.
use vstd::prelude::*;

verus! {

/// Every failure ends the run; none is retried.
#[derive(Clone, Debug, PartialEq, Eq)]
pub enum NormError {
    /// A target argument is not a decimal number.
    InvalidNumericInput { text: String },
    /// The analysis program could not be started.
    ProcessLaunchFailure { reason: String },
    /// The analysis pass exited unsuccessfully; its diagnostics are kept verbatim.
    AnalysisPassFailed { diagnostics: String },
    /// No measurement record could be found or decoded in the text.
    MeasurementParseFailure { raw: String },
    /// A measured field used in the headroom check is not a number.
    MeasurementFieldNotNumeric { field: String, text: String },
}

} // verus!
