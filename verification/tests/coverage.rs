//! Coverage reports.
use pycoati::coverage::{
    classify_raw_report, conclude_coverage, coverage_failure_line, extract_percent_covered, Percent,
    ReportOutcome,
};
use pycoati::json::Json;

fn percent(value: &Json) -> Option<f64> {
    extract_percent_covered(value).map(|p| match p {
        Percent::Number(bits) => f64::from_bits(bits),
        Percent::Text(text) => text.parse().expect("a number"),
    })
}

fn number(x: f64) -> Json {
    Json::Number(x.to_bits())
}

fn object(entries: Vec<(&str, Json)>) -> Json {
    Json::Object(entries.into_iter().map(|(k, v)| (k.to_string(), v)).collect())
}

#[test]
fn extracts_percent_covered_from_canonical_shape() {
    let v = object(vec![(
        "totals",
        object(vec![
            ("percent_covered", number(87.5)),
            ("covered_lines", number(35.0)),
            ("num_statements", number(40.0)),
        ]),
    )]);
    assert_eq!(percent(&v), Some(87.5));
}

#[test]
fn falls_back_to_percent_covered_display_string() {
    let v = object(vec![(
        "totals",
        object(vec![("percent_covered_display", Json::Text("42.0".to_string()))]),
    )]);
    assert_eq!(percent(&v), Some(42.0));
}

#[test]
fn returns_none_when_totals_missing() {
    let v = object(vec![("meta", object(vec![("version", Json::Text("7.0".to_string()))]))]);
    assert_eq!(percent(&v), None);
}

#[test]
fn returns_none_when_neither_key_present() {
    let v = object(vec![("totals", object(vec![("covered_lines", number(10.0))]))]);
    assert_eq!(percent(&v), None);
}

#[test]
fn classify_raw_report_treats_empty_string_as_empty() {
    assert!(matches!(classify_raw_report(""), ReportOutcome::Empty));
}

#[test]
fn classify_raw_report_treats_whitespace_only_as_empty() {
    // pytest sometimes leaves the tempfile with a trailing newline only —
    // semantically the same as never being written.
    assert!(matches!(classify_raw_report("\n  \t \n"), ReportOutcome::Empty));
}

#[test]
fn classify_raw_report_flags_non_json_bytes_as_malformed() {
    // Non-JSON bytes (e.g. a stray pytest error stream redirected into
    // the report path, or a partial coverage write) must trip the
    // Malformed branch so the caller's WARN can carry serde's error as
    // a `caused_by` field — never as the headline.
    let outcome = classify_raw_report("not valid json at all");
    match outcome {
        ReportOutcome::Malformed(err) => {
            assert!(!err.is_empty(), "serde error must carry a message");
        }
        other => panic!("expected Malformed branch, got {other:?}"),
    }
}

#[test]
fn classify_raw_report_flags_truncated_json_as_malformed() {
    // Real-world variant of malformed: pytest started writing the
    // report but died mid-flush. The bytes look like JSON up to a
    // point and then end abruptly — still the Malformed branch, not
    // Empty.
    assert!(matches!(
        classify_raw_report("{\"totals\": {\"percent_covered\":"),
        ReportOutcome::Malformed(_)
    ));
}

#[test]
fn classify_raw_report_returns_parsed_value_for_valid_json() {
    // Sanity: the happy path round-trips the value so the caller can
    // hand it to `extract_percent_covered`.
    let raw = "{\"totals\":{\"percent_covered\":50.0}}";
    match classify_raw_report(raw) {
        ReportOutcome::Parsed(v) => {
            assert_eq!(percent(&v), Some(50.0));
        }
        other => panic!("expected Parsed branch, got {other:?}"),
    }
}

#[test]
fn missing_cov_plugin_is_named_in_one_line() {
    let stderr = "ERROR: usage: python -m pytest [options] [file_or_dir] [...]\n\
        python -m pytest: error: unrecognized arguments: --cov=demo --cov-report=json:/tmp/x\n\
        \x20 inifile: /p/pyproject.toml\n  rootdir: /p";
    let line = coverage_failure_line(4, stderr);
    assert_eq!(line.lines().count(), 1, "one line, got: {line}");
    assert!(line.contains("pytest-cov"), "should name the plugin to install: {line}");
    assert!(line.contains("--no-coverage"), "and the flag that skips coverage: {line}");
    assert!(!line.contains("inifile"), "no argparse dump: {line}");
}

#[test]
fn other_failures_keep_the_exit_code_and_the_last_stderr_line() {
    let stderr = "some earlier noise\ncoverage.py warning: No data was collected\n\n";
    let line = coverage_failure_line(1, stderr);
    assert_eq!(line.lines().count(), 1, "one line, got: {line}");
    assert!(line.contains("no coverage data produced"), "keeps the headline: {line}");
    assert!(line.contains("pytest exit=1"), "names the exit code: {line}");
    assert!(line.contains("No data was collected"), "ends with the last line: {line}");
    assert!(!line.contains("earlier noise"), "only the last line: {line}");
}

#[test]
fn empty_stderr_gives_just_the_headline() {
    let line = coverage_failure_line(2, "\n  \n");
    assert_eq!(line, "no coverage data produced (pytest exit=2)");
}

#[test]
fn a_long_last_line_is_clipped() {
    let stderr = "x".repeat(2_000);
    let line = coverage_failure_line(1, &stderr);
    assert!(line.chars().count() <= 400, "must be clipped: {}", line.len());
}

#[test]
fn a_missing_report_is_said_to_be_missing() {
    let outcome = conclude_coverage(0, "", &None);
    assert!(outcome.percent.is_none());
    assert_eq!(outcome.warning.as_deref(), Some("coverage JSON report was not written"));
    assert!(outcome.cause.is_none());
}

#[test]
fn an_empty_report_is_explained_by_the_run() {
    let outcome = conclude_coverage(2, "first\nlast line\n", &Some(" \n".to_string()));
    assert!(outcome.percent.is_none());
    assert_eq!(outcome.warning, Some(coverage_failure_line(2, "first\nlast line\n")));
    assert!(outcome.cause.is_none());
}

#[test]
fn a_malformed_report_is_explained_by_its_reader_too() {
    let outcome = conclude_coverage(1, "boom", &Some("{\"totals\"".to_string()));
    assert!(outcome.percent.is_none());
    assert!(outcome.warning.is_some());
    assert!(outcome.cause.expect("cause").contains("EOF"));
}

#[test]
fn a_report_gives_its_percentage() {
    let outcome =
        conclude_coverage(0, "", &Some("{\"totals\":{\"percent_covered\":87.5}}".to_string()));
    assert!(matches!(outcome.percent, Some(Percent::Number(bits)) if bits == 87.5f64.to_bits()));
    assert!(outcome.warning.is_none());
    let whole =
        conclude_coverage(0, "", &Some("{\"totals\":{\"percent_covered\":100}}".to_string()));
    assert!(matches!(whole.percent, Some(Percent::Number(bits)) if bits == 100f64.to_bits()));
}

#[test]
fn a_report_without_a_percentage_is_said_to_lack_it() {
    let outcome = conclude_coverage(0, "", &Some("{\"totals\":{}}".to_string()));
    assert!(outcome.percent.is_none());
    assert_eq!(
        outcome.warning.as_deref(),
        Some("coverage JSON missing both totals.percent_covered and percent_covered_display")
    );
}

#[test]
fn a_failure_takes_one_line() {
    for stderr in ["", "a\nb\n", "ERROR: unrecognized arguments: --cov=x\n", "\n\n  \n"] {
        assert!(!coverage_failure_line(4, stderr).contains('\n'), "{stderr:?}");
    }
}
