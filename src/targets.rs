//! The operator's loudness targets, saturated into their valid ranges.
use vstd::prelude::*;
use crate::decimal::{clamp_spec, decimal_of, Decimal, UNIT};
use crate::error::NormError;

verus! {

/// Integrated loudness, loudness range and true-peak targets.
#[derive(Clone, Copy, Debug, PartialEq, Eq)]
pub struct Targets {
    pub integrated: Decimal,
    pub loudness_range: Decimal,
    pub true_peak: Decimal,
}

pub open spec fn integrated_floor() -> Decimal {
    Decimal { negative: true, units: (70 * UNIT) as u128 }
}

pub open spec fn integrated_ceiling() -> Decimal {
    Decimal { negative: true, units: (5 * UNIT) as u128 }
}

pub open spec fn range_floor() -> Decimal {
    Decimal { negative: false, units: UNIT }
}

pub open spec fn range_ceiling() -> Decimal {
    Decimal { negative: false, units: (20 * UNIT) as u128 }
}

pub open spec fn peak_floor() -> Decimal {
    Decimal { negative: true, units: (9 * UNIT) as u128 }
}

pub open spec fn peak_ceiling() -> Decimal {
    Decimal { negative: false, units: 0 }
}

/// The targets with each value saturated into its range.
pub open spec fn clamped(i: Decimal, lra: Decimal, tp: Decimal) -> Targets {
    Targets {
        integrated: clamp_spec(i, integrated_floor(), integrated_ceiling()),
        loudness_range: clamp_spec(lra, range_floor(), range_ceiling()),
        true_peak: clamp_spec(tp, peak_floor(), peak_ceiling()),
    }
}

impl Targets {
    /// Each target lies in its range: integrated loudness in [-70, -5],
    /// loudness range in [1, 20], true peak in [-9, 0].
    pub open spec fn wf(&self) -> bool {
        &&& integrated_floor().value() <= self.integrated.value() <= integrated_ceiling().value()
        &&& range_floor().value() <= self.loudness_range.value() <= range_ceiling().value()
        &&& peak_floor().value() <= self.true_peak.value() <= peak_ceiling().value()
        &&& self.integrated.wf()
        &&& self.loudness_range.wf()
        &&& self.true_peak.wf()
    }

    /// Saturates each target into its range; out-of-range values are never rejected.
    pub fn new(i: Decimal, lra: Decimal, tp: Decimal) -> (r: Targets)
        requires
            i.wf(),
            lra.wf(),
            tp.wf(),
        ensures
            r == clamped(i, lra, tp),
            r.wf(),
    {
        let t = Targets {
            integrated: i.clamp(&Decimal::whole(true, 70), &Decimal::whole(true, 5)),
            loudness_range: lra.clamp(&Decimal::whole(false, 1), &Decimal::whole(false, 20)),
            true_peak: tp.clamp(&Decimal::whole(true, 9), &Decimal::whole(false, 0)),
        };
        t
    }

    /// Reads the three targets from decimal text and saturates them; the
    /// first text that is not a decimal number is reported.
    pub fn from_text(i: &str, lra: &str, tp: &str) -> (r: Result<Targets, NormError>)
        ensures
            decimal_of(i@) is None ==> (r matches Err(NormError::InvalidNumericInput { text })
                && text@ == i@),
            decimal_of(i@) is Some && decimal_of(lra@) is None ==> (r matches Err(
                NormError::InvalidNumericInput { text },
            ) && text@ == lra@),
            decimal_of(i@) is Some && decimal_of(lra@) is Some && decimal_of(tp@) is None ==> (
            r matches Err(NormError::InvalidNumericInput { text }) && text@ == tp@),
            decimal_of(i@) is Some && decimal_of(lra@) is Some && decimal_of(tp@) is Some ==> r
                == Ok::<Targets, NormError>(
                clamped(decimal_of(i@)->0, decimal_of(lra@)->0, decimal_of(tp@)->0),
            ),
            r matches Ok(t) ==> t.wf(),
    {
        let di = match Decimal::parse(i) {
            Some(d) => d,
            None => return Err(NormError::InvalidNumericInput { text: i.to_owned() }),
        };
        let dl = match Decimal::parse(lra) {
            Some(d) => d,
            None => return Err(NormError::InvalidNumericInput { text: lra.to_owned() }),
        };
        let dt = match Decimal::parse(tp) {
            Some(d) => d,
            None => return Err(NormError::InvalidNumericInput { text: tp.to_owned() }),
        };
        Ok(Targets::new(di, dl, dt))
    }
}

} // verus!
