//! Linear loudness normalization helper: validates loudness targets, isolates
//! the measurement record that a loudness analysis pass prints, checks the
//! true-peak headroom and assembles the filter directive for the second pass.

pub mod decimal;
pub mod directive;
pub mod error;
pub mod headroom;
pub mod pipeline;
pub mod record;
pub mod targets;
pub mod text;

pub use decimal::{Decimal, Level};
pub use directive::{analysis_arguments, analysis_filter, directive, LoudnessMeasurement};
pub use error::NormError;
pub use headroom::{check_headroom, warning_text, Shortfall};
pub use pipeline::{measurement_record, plan, Plan};
pub use record::extract_record;
pub use targets::Targets;
