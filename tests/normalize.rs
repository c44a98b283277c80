use ffmpeg_loudnorm_helper::{
    analysis_arguments, analysis_filter, check_headroom, directive, extract_record,
    measurement_record, plan, warning_text, Decimal, Level, LoudnessMeasurement, NormError,
    Targets,
};

fn targets(i: &str, lra: &str, tp: &str) -> Targets {
    Targets::from_text(i, lra, tp).unwrap()
}

fn measurement(i: &str, tp: &str, lra: &str, thresh: &str, offset: &str) -> LoudnessMeasurement {
    LoudnessMeasurement {
        input_i: i.to_string(),
        input_tp: tp.to_string(),
        input_lra: lra.to_string(),
        input_thresh: thresh.to_string(),
        target_offset: offset.to_string(),
    }
}

fn text_of(s: &str) -> String {
    Decimal::parse(s).unwrap().to_text()
}

const RECORD: &str = "{\n\t\"input_i\" : \"-23.5\",\n\t\"input_tp\" : \"-3.0\",\n\t\"target_offset\" : \"1.2\"\n}";

fn framed_record() -> String {
    "{\n\t\"input_i\" : \"-23.5\",\n\t\"input_tp\" : \"-3.0\",\n\t\"target_offset\" : \"1.2\"\n}".to_string()
}

#[test]
fn directive_keeps_measured_text() {
    let t = targets("-18.0", "12.0", "-1.0");
    let m = measurement("-23.5", "-3.0", "7.1", "-33.5", "1.2");
    assert_eq!(
        directive(&t, &m, false),
        "-af loudnorm=linear=true:I=-18:LRA=12:TP=-1:measured_I=-23.5:measured_TP=-3.0:measured_LRA=7.1:measured_thresh=-33.5:offset=1.2:print_format=summary"
    );
}

#[test]
fn directive_for_documented_example() {
    // Measured values pass through as reported, so the true peak is given
    // here as the directive shows it.
    let t = targets("-18.0", "12.0", "-1.0");
    let m = measurement("-23.5", "-3", "7.1", "-33.5", "1.2");
    assert_eq!(
        directive(&t, &m, false),
        "-af loudnorm=linear=true:I=-18:LRA=12:TP=-1:measured_I=-23.5:measured_TP=-3:measured_LRA=7.1:measured_thresh=-33.5:offset=1.2:print_format=summary"
    );
}

#[test]
fn resample_suffix_only_when_asked() {
    let t = targets("-18.0", "12.0", "-1.0");
    let m = measurement("-23.5", "-3.0", "7.1", "-33.5", "1.2");
    let plain = directive(&t, &m, false);
    let with = directive(&t, &m, true);
    let suffix = ",aresample=osr=48000,aresample=resampler=soxr:precision=28";
    assert_eq!(with, format!("{}{}", plain, suffix));
    assert!(!plain.ends_with(suffix));
    assert!(!plain.contains("aresample"));
}

#[test]
fn measured_fields_appear_verbatim() {
    let t = targets("-16", "11", "-1.5");
    let m = measurement("-23.50", "-3.000", "07.1", "-33.5", "+1.20");
    let d = directive(&t, &m, true);
    for f in ["-23.50", "-3.000", "07.1", "-33.5", "+1.20"] {
        assert!(d.contains(f), "{} missing from {}", f, d);
    }
    assert!(d.contains(":I=-16:LRA=11:TP=-1.5:"));
}

#[test]
fn clamps_out_of_range_targets() {
    let t = targets("-90.0", "0.1", "-1.0");
    assert_eq!(t.integrated.to_text(), "-70");
    assert_eq!(t.loudness_range.to_text(), "1");
    assert_eq!(t.true_peak.to_text(), "-1");
    let t = targets("3", "25.5", "4");
    assert_eq!(t.integrated.to_text(), "-5");
    assert_eq!(t.loudness_range.to_text(), "20");
    assert_eq!(t.true_peak.to_text(), "0");
    let t = targets("-100000000000", "-7", "-9.5");
    assert_eq!(t.integrated.to_text(), "-70");
    assert_eq!(t.loudness_range.to_text(), "1");
    assert_eq!(t.true_peak.to_text(), "-9");
}

#[test]
fn clamping_twice_changes_nothing() {
    for (i, lra, tp) in [("-90", "0.1", "2"), ("-20.25", "7", "-0.5"), ("-5", "20", "-9")] {
        let once = targets(i, lra, tp);
        let twice = Targets::new(once.integrated, once.loudness_range, once.true_peak);
        assert_eq!(once, twice);
        assert!(once.integrated.signed() >= Decimal::whole(true, 70).signed());
        assert!(once.integrated.signed() <= Decimal::whole(true, 5).signed());
    }
}

#[test]
fn in_range_targets_kept_as_written() {
    let t = targets("-23.125", "7.5", "-0.0");
    assert_eq!(t.integrated.to_text(), "-23.125");
    assert_eq!(t.loudness_range.to_text(), "7.5");
    assert_eq!(t.true_peak.to_text(), "-0");
}

#[test]
fn invalid_target_reports_its_text() {
    assert_eq!(
        Targets::from_text("-18", "loud", "-1"),
        Err(NormError::InvalidNumericInput { text: "loud".to_string() })
    );
    assert_eq!(
        Targets::from_text("", "12", "x"),
        Err(NormError::InvalidNumericInput { text: "".to_string() })
    );
    assert_eq!(
        Targets::from_text("-18", "12", "1e3"),
        Err(NormError::InvalidNumericInput { text: "1e3".to_string() })
    );
}

#[test]
fn decimal_notation() {
    assert_eq!(text_of("-18.0"), "-18");
    assert_eq!(text_of("12.50"), "12.5");
    assert_eq!(text_of(".5"), "0.5");
    assert_eq!(text_of("5."), "5");
    assert_eq!(text_of("+007.010"), "7.01");
    assert_eq!(text_of("-0"), "-0");
    assert_eq!(text_of("0.000000000000000001"), "0.000000000000000001");
    assert_eq!(text_of("999999999999999999.5"), "999999999999999999.5");
    assert_eq!(Decimal::parse("."), None);
    assert_eq!(Decimal::parse("-"), None);
    assert_eq!(Decimal::parse("1.2.3"), None);
    assert_eq!(Decimal::parse(" 1"), None);
    assert_eq!(Decimal::parse("0.0000000000000000001"), None);
    assert_eq!(Decimal::parse("1000000000000000000"), None);
    assert_eq!(
        Decimal::parse("-2.25"),
        Some(Decimal { negative: true, units: 2_250_000_000_000_000_000 })
    );
}

#[test]
fn reported_levels() {
    assert_eq!(Level::parse("-inf"), Some(Level::Infinite { negative: true }));
    assert_eq!(Level::parse("infinity"), Some(Level::Infinite { negative: false }));
    assert_eq!(Level::parse("nan"), Some(Level::NotANumber));
    assert_eq!(Level::parse("-3.5"), Some(Level::Finite(Decimal { negative: true, units: 3_500_000_000_000_000_000 })));
    assert_eq!(Level::parse("loud"), None);
    assert_eq!(Level::parse("-INF"), Some(Level::Infinite { negative: true }));
    assert_eq!(Level::parse("+Infinity"), Some(Level::Infinite { negative: false }));
    assert_eq!(Level::parse("NaN"), Some(Level::NotANumber));
    assert_eq!(Level::parse("infinit"), None);
    assert_eq!(Level::Infinite { negative: true }.to_text(), "-inf");
}

#[test]
fn extraction_skips_surrounding_lines() {
    let raw = format!("[Parsed_loudnorm_0 @ 0x55] \nsize=N/A time=00:01:00\n{}\n[out#0] done\n", RECORD);
    assert_eq!(extract_record(&raw), Some(framed_record()));
    assert_eq!(extract_record(RECORD), Some(framed_record()));
}

#[test]
fn extraction_after_two_hundred_lines() {
    let mut raw = String::new();
    for k in 0..200 {
        raw.push_str(&format!("frame={} fps=0.0 q=-0.0 size=N/A\n", k));
    }
    raw.push_str(RECORD);
    assert_eq!(extract_record(&raw), Some(framed_record()));
}

#[test]
fn extraction_with_markers_among_whitespace_and_crlf() {
    let raw = "noise }\r\n  {  \r\n\"a\" : \"1\"\r\n\t}\r\nafter\r\n";
    assert_eq!(extract_record(raw), Some("  {  \n\"a\" : \"1\"\n}".to_string()));
}

#[test]
fn extraction_ignores_closing_marker_before_record() {
    let raw = "}\n{\n\"a\" : \"1\"\n}\n";
    assert_eq!(extract_record(raw), Some("{\n\"a\" : \"1\"\n}".to_string()));
}

#[test]
fn extraction_without_closing_marker_keeps_the_rest() {
    let raw = "log\n{\n\"a\" : \"1\"";
    assert_eq!(extract_record(raw), Some("{\n\"a\" : \"1\"\n}".to_string()));
}

#[test]
fn extraction_without_record() {
    assert_eq!(extract_record("just a log line\n}\n"), None);
    assert_eq!(extract_record(""), None);
}

#[test]
fn failed_analysis_forwards_diagnostics() {
    let diag = "input.mov: No such file or directory\n";
    assert_eq!(
        measurement_record(false, diag),
        Err(NormError::AnalysisPassFailed { diagnostics: diag.to_string() })
    );
}

#[test]
fn missing_record_is_a_parse_failure() {
    let diag = "nothing here\n";
    assert_eq!(
        measurement_record(true, diag),
        Err(NormError::MeasurementParseFailure { raw: diag.to_string() })
    );
    assert_eq!(measurement_record(true, RECORD), Ok(framed_record()));
}

#[test]
fn headroom_warning_when_gain_exceeds_headroom() {
    let t = targets("-18.0", "12.0", "-1.0");
    let m = measurement("-23.5", "-3.0", "7.1", "-33.5", "1.2");
    let p = plan(&t, &m, false).unwrap();
    assert_eq!(p.directive, directive(&t, &m, false));
    assert_eq!(
        p.warning,
        Some("Not enough headroom! Dynamic normalization will be used. Headroom: 2dB, required: 5.5dB.".to_string())
    );
}

#[test]
fn no_warning_when_headroom_suffices() {
    let t = targets("-18.0", "12.0", "-1.0");
    let m = measurement("-16.25", "-0.5", "7.1", "-26", "0.1");
    let p = plan(&t, &m, true).unwrap();
    assert_eq!(p.warning, None);
    assert_eq!(p.directive, directive(&t, &m, true));
    // Equal amounts are no shortfall.
    let m = measurement("-20", "-3", "7.1", "-26", "0.1");
    assert_eq!(plan(&t, &m, false).unwrap().warning, None);
}

#[test]
fn headroom_with_silent_input() {
    let t = targets("-18.0", "12.0", "-1.0");
    let s = check_headroom(&t, &Level::Infinite { negative: true }, &Level::parse("-3").unwrap())
        .unwrap();
    assert_eq!(
        warning_text(&s),
        "Not enough headroom! Dynamic normalization will be used. Headroom: 2dB, required: infdB."
    );
    let both = check_headroom(&t, &Level::Infinite { negative: true }, &Level::Infinite { negative: true });
    assert_eq!(both, None);
    assert_eq!(check_headroom(&t, &Level::NotANumber, &Level::parse("-3").unwrap()), None);
}

#[test]
fn non_numeric_measurement_is_reported() {
    let t = targets("-18.0", "12.0", "-1.0");
    let m = measurement("-23.5", "loud", "7.1", "-33.5", "1.2");
    assert_eq!(
        plan(&t, &m, false),
        Err(NormError::MeasurementFieldNotNumeric { field: "input_tp".to_string(), text: "loud".to_string() })
    );
    let m = measurement("", "-3", "7.1", "-33.5", "1.2");
    assert_eq!(
        plan(&t, &m, false),
        Err(NormError::MeasurementFieldNotNumeric { field: "input_i".to_string(), text: "".to_string() })
    );
}

#[test]
fn analysis_pass_arguments() {
    let t = targets("-18.0", "12.0", "-1.0");
    assert_eq!(analysis_filter(&t), "loudnorm=I=-18:LRA=12:tp=-1:print_format=json");
    assert_eq!(
        analysis_arguments("in put.mov", &t),
        vec!["-i", "in put.mov", "-hide_banner", "-vn", "-af", "loudnorm=I=-18:LRA=12:tp=-1:print_format=json", "-f", "null", "-"]
    );
}
