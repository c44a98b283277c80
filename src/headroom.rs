//! Whether the true-peak ceiling leaves room for the gain that the
//! integrated-loudness target asks for.
use vstd::prelude::*;
use crate::decimal::{level_text, Decimal, Level, PARSE_LIMIT};
use crate::targets::Targets;

verus! {

/// Available headroom and required gain, when the gain does not fit.
#[derive(Clone, Copy, Debug, PartialEq, Eq)]
pub struct Shortfall {
    pub headroom: Level,
    pub required: Level,
}

/// `target - measured`, exactly; an infinite measurement gives the opposite
/// infinity.
pub open spec fn minus(target: Decimal, measured: Level) -> Level {
    match measured {
        Level::Finite(d) => Level::Finite(Decimal::of_value(target.value() - d.value())),
        Level::Infinite { negative } => Level::Infinite { negative: !negative },
        Level::NotANumber => Level::NotANumber,
    }
}

/// `a > b` on the extended reals; nothing compares greater with not-a-number.
pub open spec fn greater(a: Level, b: Level) -> bool {
    match (a, b) {
        (Level::NotANumber, _) => false,
        (_, Level::NotANumber) => false,
        (Level::Infinite { negative: na }, Level::Infinite { negative: nb }) => !na && nb,
        (Level::Infinite { negative: na }, Level::Finite(_)) => !na,
        (Level::Finite(_), Level::Infinite { negative: nb }) => nb,
        (Level::Finite(x), Level::Finite(y)) => x.value() > y.value(),
    }
}

/// The measured level lies where parsing leaves it.
pub open spec fn measured_ok(l: Level) -> bool {
    l matches Level::Finite(d) ==> d.units < PARSE_LIMIT
}

/// A shortfall exactly when the required gain (integrated target minus
/// measured integrated loudness) exceeds the headroom (true-peak target minus
/// measured true peak).
pub open spec fn shortfall_of(t: Targets, measured_i: Level, measured_tp: Level) -> Option<
    Shortfall,
> {
    let headroom = minus(t.true_peak, measured_tp);
    let required = minus(t.integrated, measured_i);
    if greater(required, headroom) {
        Some(Shortfall { headroom, required })
    } else {
        None
    }
}

pub open spec fn warning_of(s: Shortfall) -> Seq<char> {
    "Not enough headroom! Dynamic normalization will be used. Headroom: "@ + level_text(s.headroom)
        + "dB, required: "@ + level_text(s.required) + "dB."@
}

/// On finite measurements the check is the plain inequality
/// `target_i - measured_i > target_tp - measured_tp`.
pub proof fn lemma_shortfall_finite(t: Targets, measured_i: Decimal, measured_tp: Decimal)
    requires
        t.wf(),
        measured_i.units < PARSE_LIMIT,
        measured_tp.units < PARSE_LIMIT,
    ensures
        shortfall_of(t, Level::Finite(measured_i), Level::Finite(measured_tp)) is Some
            <==> t.integrated.value() - measured_i.value() > t.true_peak.value()
            - measured_tp.value(),
{
}

fn level_minus(target: &Decimal, measured: &Level) -> (r: Level)
    requires
        target.units <= 70_000_000_000_000_000_000,
        measured_ok(*measured),
    ensures
        r == minus(*target, *measured),
        r matches Level::Finite(d) ==> d.wf(),
{
    match measured {
        Level::Finite(d) => {
            assert(target.wf() && d.wf());
            Level::Finite(Decimal::from_signed(target.signed() - d.signed()))
        },
        Level::Infinite { negative } => Level::Infinite { negative: !*negative },
        Level::NotANumber => Level::NotANumber,
    }
}

fn level_greater(a: &Level, b: &Level) -> (r: bool)
    requires
        a matches Level::Finite(d) ==> d.wf(),
        b matches Level::Finite(d) ==> d.wf(),
    ensures
        r == greater(*a, *b),
{
    match (a, b) {
        (Level::NotANumber, _) => false,
        (_, Level::NotANumber) => false,
        (Level::Infinite { negative: na }, Level::Infinite { negative: nb }) => !*na && *nb,
        (Level::Infinite { negative: na }, Level::Finite(_)) => !*na,
        (Level::Finite(_), Level::Infinite { negative: nb }) => *nb,
        (Level::Finite(x), Level::Finite(y)) => x.signed() > y.signed(),
    }
}

/// Compares the required gain with the available headroom; `Some` carries
/// both when the gain does not fit.
pub fn check_headroom(t: &Targets, measured_i: &Level, measured_tp: &Level) -> (r: Option<
    Shortfall,
>)
    requires
        t.wf(),
        measured_ok(*measured_i),
        measured_ok(*measured_tp),
    ensures
        r == shortfall_of(*t, *measured_i, *measured_tp),
{
    let headroom = level_minus(&t.true_peak, measured_tp);
    let required = level_minus(&t.integrated, measured_i);
    if level_greater(&required, &headroom) {
        Some(Shortfall { headroom, required })
    } else {
        None
    }
}

impl Level {
    pub fn to_text(&self) -> (r: String)
        ensures
            r@ == level_text(*self),
    {
        match self {
            Level::Finite(d) => d.to_text(),
            Level::Infinite { negative } => if *negative {
                "-inf".to_owned()
            } else {
                "inf".to_owned()
            },
            Level::NotANumber => "NaN".to_owned(),
        }
    }
}

/// The advisory message for a shortfall, with both amounts in dB.
pub fn warning_text(s: &Shortfall) -> (r: String)
    ensures
        r@ == warning_of(*s),
{
    let mut w = "Not enough headroom! Dynamic normalization will be used. Headroom: ".to_owned();
    w.append(s.headroom.to_text().as_str());
    w.append("dB, required: ");
    w.append(s.required.to_text().as_str());
    w.append("dB.");
    w
}

} // verus!
