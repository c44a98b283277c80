//! The decisions between the passes: what an analysis pass's outcome yields,
//! and what is printed once its record is decoded.
use vstd::prelude::*;
use crate::decimal::level_of;
use crate::decimal::Level;
use crate::directive::{directive, directive_text, LoudnessMeasurement};
use crate::error::NormError;
use crate::headroom::{check_headroom, shortfall_of, warning_of, warning_text};
use crate::record::{extract_record, record_text};
use crate::targets::Targets;

verus! {

/// What a successful run prints: the directive on the primary channel, and an
/// optional advisory on the diagnostic channel.
#[derive(Clone, Debug, PartialEq, Eq)]
pub struct Plan {
    pub directive: String,
    pub warning: Option<String>,
}

/// The record text to decode after an analysis pass: an unsuccessful pass
/// hands its diagnostics back verbatim, and text without a record is a parse
/// failure that carries the text.
pub fn measurement_record(success: bool, diagnostics: &str) -> (r: Result<String, NormError>)
    ensures
        !success ==> (r matches Err(NormError::AnalysisPassFailed { diagnostics: d }) && d@
            == diagnostics@),
        success && record_text(diagnostics@) is None ==> (r matches Err(
            NormError::MeasurementParseFailure { raw },
        ) && raw@ == diagnostics@),
        success && record_text(diagnostics@) is Some ==> (r matches Ok(t) && t@ == record_text(
            diagnostics@,
        )->0),
{
    if !success {
        return Err(NormError::AnalysisPassFailed { diagnostics: diagnostics.to_owned() });
    }
    match extract_record(diagnostics) {
        Some(t) => Ok(t),
        None => Err(NormError::MeasurementParseFailure { raw: diagnostics.to_owned() }),
    }
}

fn not_numeric(field: &str, text: &String) -> (r: NormError)
    ensures
        r matches NormError::MeasurementFieldNotNumeric { field: f, text: t } && f@ == field@
            && t@ == text@,
{
    NormError::MeasurementFieldNotNumeric { field: field.to_owned(), text: text.clone() }
}

/// Checks the headroom and assembles the directive. The measured true peak and
/// integrated loudness must be numbers (true peak checked first); the
/// directive does not depend on the headroom, which only adds a warning.
pub fn plan(t: &Targets, m: &LoudnessMeasurement, resample: bool) -> (r: Result<Plan, NormError>)
    requires
        t.wf(),
    ensures
        level_of(m.input_tp@) is None ==> (r matches Err(
            NormError::MeasurementFieldNotNumeric { field, text },
        ) && field@ == "input_tp"@ && text@ == m.input_tp@),
        level_of(m.input_tp@) is Some && level_of(m.input_i@) is None ==> (r matches Err(
            NormError::MeasurementFieldNotNumeric { field, text },
        ) && field@ == "input_i"@ && text@ == m.input_i@),
        level_of(m.input_tp@) is Some && level_of(m.input_i@) is Some ==> (r matches Ok(p)
            && p.directive@ == directive_text(*t, *m, resample) && match shortfall_of(
            *t,
            level_of(m.input_i@)->0,
            level_of(m.input_tp@)->0,
        ) {
            Some(s) => p.warning matches Some(w) && w@ == warning_of(s),
            None => p.warning is None,
        }),
{
    let tp = match Level::parse(m.input_tp.as_str()) {
        Some(l) => l,
        None => return Err(not_numeric("input_tp", &m.input_tp)),
    };
    let i = match Level::parse(m.input_i.as_str()) {
        Some(l) => l,
        None => return Err(not_numeric("input_i", &m.input_i)),
    };
    let warning = match check_headroom(t, &i, &tp) {
        Some(s) => Some(warning_text(&s)),
        None => None,
    };
    Ok(Plan { directive: directive(t, m, resample), warning })
}

} // verus!
