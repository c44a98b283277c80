//! The filter arguments of both passes: the analysis filter that prints the
//! measurement record, and the directive for the linear normalizing pass.
use vstd::prelude::*;
use crate::decimal::decimal_text;
use crate::targets::Targets;

verus! {

/// The measurement record of an analysis pass, as the text it reported.
#[derive(Clone, Debug, PartialEq, Eq)]
pub struct LoudnessMeasurement {
    pub input_i: String,
    pub input_tp: String,
    pub input_lra: String,
    pub input_thresh: String,
    pub target_offset: String,
}

pub open spec fn resample_suffix() -> Seq<char> {
    ",aresample=osr=48000,aresample=resampler=soxr:precision=28"@
}

/// The filter of the analysis pass, which prints the record as JSON.
pub open spec fn analysis_filter_text(t: Targets) -> Seq<char> {
    "loudnorm=I="@ + decimal_text(t.integrated) + ":LRA="@ + decimal_text(t.loudness_range)
        + ":tp="@ + decimal_text(t.true_peak) + ":print_format=json"@
}

/// The directive for the normalizing pass: targets in shortest decimal
/// notation, measured values exactly as reported.
pub open spec fn directive_text(t: Targets, m: LoudnessMeasurement, resample: bool) -> Seq<char> {
    "-af loudnorm=linear=true:I="@ + decimal_text(t.integrated) + ":LRA="@ + decimal_text(
        t.loudness_range,
    ) + ":TP="@ + decimal_text(t.true_peak) + ":measured_I="@ + m.input_i@ + ":measured_TP="@
        + m.input_tp@ + ":measured_LRA="@ + m.input_lra@ + ":measured_thresh="@ + m.input_thresh@
        + ":offset="@ + m.target_offset@ + ":print_format=summary"@ + if resample {
        resample_suffix()
    } else {
        Seq::<char>::empty()
    }
}

/// `part` occurs in `s` as a contiguous run.
pub open spec fn occurs_in(part: Seq<char>, s: Seq<char>) -> bool {
    exists|a: Seq<char>, b: Seq<char>| s == a + part + b
}

pub open spec fn ends_with(s: Seq<char>, suffix: Seq<char>) -> bool {
    s.len() >= suffix.len() && s.subrange(s.len() - suffix.len(), s.len() as int) == suffix
}

/// Appends `part` and returns the new text.
fn join(mut s: String, part: &str) -> (r: String)
    ensures
        r@ == s@ + part@,
{
    s.append(part);
    s
}

/// The filter argument of the analysis pass.
pub fn analysis_filter(t: &Targets) -> (r: String)
    ensures
        r@ == analysis_filter_text(*t),
{
    let mut s = "loudnorm=I=".to_owned();
    s = join(s, t.integrated.to_text().as_str());
    s = join(s, ":LRA=");
    s = join(s, t.loudness_range.to_text().as_str());
    s = join(s, ":tp=");
    s = join(s, t.true_peak.to_text().as_str());
    s = join(s, ":print_format=json");
    s
}

/// The arguments of the analysis pass over `input`: no video, the analysis
/// filter, and all output discarded.
pub fn analysis_arguments(input: &str, t: &Targets) -> (r: Vec<String>)
    ensures
        r@.map_values(|a: String| a@) == seq![
            "-i"@,
            input@,
            "-hide_banner"@,
            "-vn"@,
            "-af"@,
            analysis_filter_text(*t),
            "-f"@,
            "null"@,
            "-"@,
        ],
{
    let mut r: Vec<String> = Vec::new();
    r.push("-i".to_owned());
    r.push(input.to_owned());
    r.push("-hide_banner".to_owned());
    r.push("-vn".to_owned());
    r.push("-af".to_owned());
    r.push(analysis_filter(t));
    r.push("-f".to_owned());
    r.push("null".to_owned());
    r.push("-".to_owned());
    assert(r@.map_values(|a: String| a@) =~= seq![
        "-i"@,
        input@,
        "-hide_banner"@,
        "-vn"@,
        "-af"@,
        analysis_filter_text(*t),
        "-f"@,
        "null"@,
        "-"@,
    ]);
    r
}

/// The directive for the normalizing pass, with the resampling stage
/// appended when `resample` is set.
pub fn directive(t: &Targets, m: &LoudnessMeasurement, resample: bool) -> (r: String)
    ensures
        r@ == directive_text(*t, *m, resample),
{
    let mut s = "-af loudnorm=linear=true:I=".to_owned();
    s = join(s, t.integrated.to_text().as_str());
    s = join(s, ":LRA=");
    s = join(s, t.loudness_range.to_text().as_str());
    s = join(s, ":TP=");
    s = join(s, t.true_peak.to_text().as_str());
    s = join(s, ":measured_I=");
    s = join(s, m.input_i.as_str());
    s = join(s, ":measured_TP=");
    s = join(s, m.input_tp.as_str());
    s = join(s, ":measured_LRA=");
    s = join(s, m.input_lra.as_str());
    s = join(s, ":measured_thresh=");
    s = join(s, m.input_thresh.as_str());
    s = join(s, ":offset=");
    s = join(s, m.target_offset.as_str());
    s = join(s, ":print_format=summary");
    if resample {
        s = join(s, ",aresample=osr=48000,aresample=resampler=soxr:precision=28");
    } else {
        assert(s@ + Seq::<char>::empty() == s@);
    }
    s
}

/// Each measured value appears in the directive exactly as reported.
pub proof fn lemma_directive_quotes_measurements(
    t: Targets,
    m: LoudnessMeasurement,
    resample: bool,
)
    ensures
        occurs_in(m.input_i@, directive_text(t, m, resample)),
        occurs_in(m.input_tp@, directive_text(t, m, resample)),
        occurs_in(m.input_lra@, directive_text(t, m, resample)),
        occurs_in(m.input_thresh@, directive_text(t, m, resample)),
        occurs_in(m.target_offset@, directive_text(t, m, resample)),
{
    let tail = if resample {
        resample_suffix()
    } else {
        Seq::<char>::empty()
    };
    let lead_i = "-af loudnorm=linear=true:I="@ + decimal_text(t.integrated) + ":LRA="@ + decimal_text(
        t.loudness_range,
    ) + ":TP="@ + decimal_text(t.true_peak) + ":measured_I="@;
    let lead_tp = lead_i + m.input_i@ + ":measured_TP="@;
    let lead_lra = lead_tp + m.input_tp@ + ":measured_LRA="@;
    let lead_thresh = lead_lra + m.input_lra@ + ":measured_thresh="@;
    let lead_offset = lead_thresh + m.input_thresh@ + ":offset="@;
    let d = directive_text(t, m, resample);
    let end = ":print_format=summary"@ + tail;
    assert(d =~= lead_i + m.input_i@ + (":measured_TP="@ + m.input_tp@ + ":measured_LRA="@
        + m.input_lra@ + ":measured_thresh="@ + m.input_thresh@ + ":offset="@ + m.target_offset@
        + end));
    assert(d =~= lead_tp + m.input_tp@ + (":measured_LRA="@ + m.input_lra@ + ":measured_thresh="@
        + m.input_thresh@ + ":offset="@ + m.target_offset@ + end));
    assert(d =~= lead_lra + m.input_lra@ + (":measured_thresh="@ + m.input_thresh@ + ":offset="@
        + m.target_offset@ + end));
    assert(d =~= lead_thresh + m.input_thresh@ + (":offset="@ + m.target_offset@ + end));
    assert(d =~= lead_offset + m.target_offset@ + end);
}

/// The resampling stage is the fixed suffix, present exactly when asked for.
pub proof fn lemma_resample_suffix(t: Targets, m: LoudnessMeasurement)
    ensures
        directive_text(t, m, true) == directive_text(t, m, false) + resample_suffix(),
        ends_with(directive_text(t, m, true), resample_suffix()),
        !ends_with(directive_text(t, m, false), resample_suffix()),
{
    let base = directive_text(t, m, false);
    let with = directive_text(t, m, true);
    assert(base + Seq::<char>::empty() =~= base);
    assert(with =~= base + resample_suffix());
    assert((base + resample_suffix()).subrange(base.len() as int, with.len() as int)
        =~= resample_suffix());
    reveal_strlit(":print_format=summary");
    reveal_strlit(",aresample=osr=48000,aresample=resampler=soxr:precision=28");
    let suffix = resample_suffix();
    if ends_with(base, suffix) {
        assert(base.last() == 'y');
        assert(base.subrange(base.len() - suffix.len(), base.len() as int)[suffix.len() - 1]
            == base.last());
        assert(suffix.last() == '8');
    }
}

} // verus!
