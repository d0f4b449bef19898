//! Accepted findings.
use std::collections::BTreeSet;

use pycoati::accept::{
    active_signals, apply, discover, fingerprint, AcceptOptions, Signal, HIGH_SETUP_RATIO,
};
use pycoati::baseline::{parse, Baseline};
use pycoati::smells::{derive_test_smells, MockSmellConfig};
use pycoati::suspicion::SETUP_RATIO_INFLECTION;
use pycoati::{Measure, SetupRatio, SmellHit, TestRecord};

fn baseline_path() -> String {
    ".pycoati-accept.toml".to_string()
}

fn measure(x: f64) -> Measure {
    Measure { bits: x.to_bits(), shown: format!("{x:.2}") }
}

fn make_test(nodeid: &str) -> TestRecord {
    TestRecord {
        nodeid: nodeid.to_string(),
        file: "tests/test_x.py".to_string(),
        line: 1,
        assertion_count: 1,
        only_asserts_on_mock: false,
        patch_decorator_count: 0,
        stubs_count: 0,
        setup_to_assertion_ratio: SetupRatio { lines: 0, assertions: 1 },
        external_verification_count: 0,
        called_names: Vec::new(),
        smell_hits: Vec::new(),
        suspicion_score: measure(0.0),
        fingerprint: Some(fingerprint("def test_a():\n    assert 1\n")),
        accepted_signals: Vec::new(),
    }
}

fn smell(category: &str) -> SmellHit {
    SmellHit { category: category.to_string(), test: None, line: 1, evidence: String::new() }
}

fn active_set(t: &TestRecord) -> BTreeSet<Signal> {
    active_signals(t).into_iter().collect()
}

fn parse_ok(contents: &str) -> Baseline {
    parse(contents, &baseline_path()).expect("baseline should parse")
}

fn parse_err(contents: &str) -> String {
    parse(contents, &baseline_path()).expect_err("baseline should be rejected")
}

#[test]
fn every_signal_round_trips_through_its_name() {
    for signal in Signal::all() {
        assert_eq!(Signal::parse(signal.as_str()), Some(signal));
    }
    assert_eq!(Signal::parse("not_a_signal"), None);
}

#[test]
fn active_signals_reads_smell_categories() {
    let mut t = make_test("a::t");
    t.smell_hits = vec![smell("mock_overuse"), smell("mock_only_assertions")];
    // Set equality, not containment: a spurious extra signal would widen
    // what one accept entry suppresses.
    assert_eq!(
        active_set(&t),
        BTreeSet::from([Signal::MockOveruse, Signal::MockOnlyAssertions])
    );
}

#[test]
fn every_smell_category_the_detector_emits_is_a_known_signal() {
    // `active_signals` matches by string, and `Signal::parse` returns
    // `None` for an unrecognised category — which it then drops in
    // silence. Renaming a category in `smells.rs` would compile clean,
    // pass every other test, and quietly stop matching acceptances.
    let mut t = make_test("a::t");
    t.only_asserts_on_mock = true;
    t.assertion_count = 1;
    t.patch_decorator_count = 4;
    let hits =
        derive_test_smells(&t, &MockSmellConfig::default());
    assert_eq!(hits.len(), 2, "fixture must fire both test-scope smells: {hits:?}");
    for hit in &hits {
        assert!(
            Signal::parse(&hit.category).is_some(),
            "smell category {:?} has no matching Signal; accepting it would be impossible",
            hit.category
        );
    }
}

#[test]
fn high_setup_ratio_tracks_the_suspicion_score_inflection() {
    // The two constants must stay one number, or an accepted
    // `high_setup_ratio` would stop describing what ranked the test.
    assert!((HIGH_SETUP_RATIO as f64 - SETUP_RATIO_INFLECTION as f64).abs() < f64::EPSILON);
}

#[test]
fn active_signals_fires_zero_asserts_only_at_zero() {
    let mut t = make_test("a::t");
    t.assertion_count = 0;
    assert!(active_signals(&t).contains(&Signal::ZeroAsserts));
    t.assertion_count = 1;
    assert!(!active_signals(&t).contains(&Signal::ZeroAsserts));
}

#[test]
fn active_signals_high_setup_ratio_is_inclusive_at_the_threshold() {
    let mut t = make_test("a::t");
    t.setup_to_assertion_ratio = SetupRatio { lines: HIGH_SETUP_RATIO, assertions: 1 };
    assert!(active_signals(&t).contains(&Signal::HighSetupRatio));
    t.setup_to_assertion_ratio = SetupRatio { lines: 10 * HIGH_SETUP_RATIO - 1, assertions: 10 };
    assert!(!active_signals(&t).contains(&Signal::HighSetupRatio));
}

#[test]
fn parse_reads_a_multi_signal_entry() {
    let b = parse_ok(
        r#"
schema_version = "1"

[[accept]]
test = "tests/test_pkg.py::test_wheel"
signals = ["zero_asserts", "high_setup_ratio"]
reason = "assertions run in a child interpreter"
reviewed = "2026-09-12"
fingerprint = "0123456789abcdef"
"#,
    );
    assert_eq!(b.entries.len(), 2, "one block per signal");
    assert_eq!(b.entries[0].signal, Signal::ZeroAsserts);
    assert_eq!(b.entries[1].signal, Signal::HighSetupRatio);
    // The reason and provenance are shared by both flattened entries.
    for entry in &b.entries {
        assert_eq!(entry.test, "tests/test_pkg.py::test_wheel");
        assert_eq!(entry.reason, "assertions run in a child interpreter");
        assert_eq!(entry.reviewed.as_deref(), Some("2026-09-12"));
        assert_eq!(entry.fingerprint.as_deref(), Some("0123456789abcdef"));
    }
}

#[test]
fn parse_accepts_the_single_signal_shorthand() {
    let b = parse_ok(
        "schema_version = \"1\"\n\n[[accept]]\ntest = \"a::t\"\nsignal = \"mock_overuse\"\nreason = \"boundary stubs\"\n",
    );
    assert_eq!(b.entries.len(), 1);
    assert_eq!(b.entries[0].signal, Signal::MockOveruse);
    assert_eq!(b.entries[0].reviewed, None);
    assert_eq!(b.entries[0].fingerprint, None);
}

#[test]
fn parse_accepts_a_baseline_with_no_entries() {
    let b = parse_ok("schema_version = \"1\"\n");
    assert!(b.entries.is_empty());
    assert_eq!(b.path, baseline_path());
}

#[test]
fn parse_rejects_a_missing_reason() {
    let err = parse_err(
        "schema_version = \"1\"\n\n[[accept]]\ntest = \"a::t\"\nsignal = \"zero_asserts\"\n",
    );
    assert!(err.contains("missing `reason`"), "error should name the field: {err}");
    assert!(err.contains("accept entry 1"), "error should locate the entry: {err}");
}

#[test]
fn parse_rejects_a_blank_reason() {
    let err = parse_err(
        "schema_version = \"1\"\n\n[[accept]]\ntest = \"a::t\"\nsignal = \"zero_asserts\"\nreason = \"   \"\n",
    );
    assert!(err.contains("empty `reason`"), "error should name the field: {err}");
}

#[test]
fn parse_rejects_a_missing_test() {
    let err = parse_err(
        "schema_version = \"1\"\n\n[[accept]]\nsignal = \"zero_asserts\"\nreason = \"r\"\n",
    );
    assert!(err.contains("missing `test`"), "{err}");
}

#[test]
fn parse_rejects_an_unknown_signal_and_lists_the_valid_ones() {
    let err = parse_err(
        "schema_version = \"1\"\n\n[[accept]]\ntest = \"a::t\"\nsignal = \"slow\"\nreason = \"r\"\n",
    );
    assert!(err.contains("unknown signal \"slow\""), "{err}");
    assert!(err.contains("zero_asserts"), "error should list valid signals: {err}");
}

#[test]
fn parse_rejects_an_entry_with_no_signal_at_all() {
    let err =
        parse_err("schema_version = \"1\"\n\n[[accept]]\ntest = \"a::t\"\nreason = \"r\"\n");
    assert!(err.contains("must name a signal"), "{err}");
}

#[test]
fn parse_rejects_an_empty_signals_list() {
    let err = parse_err(
        "schema_version = \"1\"\n\n[[accept]]\ntest = \"a::t\"\nsignals = []\nreason = \"r\"\n",
    );
    assert!(err.contains("must name a signal"), "{err}");
}

#[test]
fn parse_rejects_both_signal_and_signals() {
    let err = parse_err(
        "schema_version = \"1\"\n\n[[accept]]\ntest = \"a::t\"\nsignal = \"zero_asserts\"\nsignals = [\"mock_overuse\"]\nreason = \"r\"\n",
    );
    assert!(err.contains("both `signal` and `signals`"), "{err}");
}

#[test]
fn parse_rejects_a_duplicate_test_signal_pair() {
    let err = parse_err(
        "schema_version = \"1\"\n\n[[accept]]\ntest = \"a::t\"\nsignal = \"zero_asserts\"\nreason = \"one\"\n\n[[accept]]\ntest = \"a::t\"\nsignal = \"zero_asserts\"\nreason = \"two\"\n",
    );
    assert!(err.contains("repeats an acceptance"), "{err}");
}

#[test]
fn parse_allows_the_same_test_under_two_different_signals() {
    let b = parse_ok(
        "schema_version = \"1\"\n\n[[accept]]\ntest = \"a::t\"\nsignal = \"zero_asserts\"\nreason = \"one\"\n\n[[accept]]\ntest = \"a::t\"\nsignal = \"mock_overuse\"\nreason = \"two\"\n",
    );
    assert_eq!(b.entries.len(), 2);
}

#[test]
fn parse_rejects_a_missing_schema_version() {
    let err =
        parse_err("[[accept]]\ntest = \"a::t\"\nsignal = \"zero_asserts\"\nreason = \"r\"\n");
    assert!(err.contains("no schema_version key"), "{err}");
}

#[test]
fn parse_rejects_a_future_schema_version() {
    let err = parse_err("schema_version = \"2\"\n");
    assert!(err.contains("expected schema_version = \"1\""), "{err}");
    assert!(err.contains("found \"2\""), "{err}");
}

#[test]
fn parse_rejects_an_unknown_key() {
    // A typo like `resaon = ...` must not silently produce an entry with
    // no reason — `deny_unknown_fields` is what makes that a parse error.
    let err = parse_err(
        "schema_version = \"1\"\n\n[[accept]]\ntest = \"a::t\"\nsignal = \"zero_asserts\"\nreason = \"r\"\nexpires = \"never\"\n",
    );
    assert!(err.contains("expires"), "{err}");
}

#[test]
fn apply_without_a_baseline_accepts_nothing() {
    let mut tests = vec![make_test("a::t")];
    let accepted = apply(&mut tests, None, false);
    assert_eq!(accepted.path, None);
    assert!(accepted.findings.is_empty());
    assert!(accepted.stale.is_empty());
    assert!(tests[0].accepted_signals.is_empty());
}

#[test]
fn apply_marks_a_live_acceptance_and_records_its_reason() {
    let mut t = make_test("a::t");
    t.assertion_count = 0;
    let mut tests = vec![t];
    let baseline = parse_ok(
        "schema_version = \"1\"\n\n[[accept]]\ntest = \"a::t\"\nsignal = \"zero_asserts\"\nreason = \"child interpreter\"\n",
    );

    let accepted = apply(&mut tests, Some(baseline), false);

    assert_eq!(accepted.findings.len(), 1);
    assert_eq!(accepted.findings[0].signal, "zero_asserts");
    assert_eq!(accepted.findings[0].reason, "child interpreter");
    assert!(accepted.stale.is_empty());
    assert_eq!(tests[0].accepted_signals, vec!["zero_asserts".to_string()]);
}

#[test]
fn apply_leaves_raw_evidence_untouched() {
    let mut t = make_test("a::t");
    t.assertion_count = 0;
    t.smell_hits = vec![smell("mock_overuse")];
    t.suspicion_score = measure(0.42);
    let mut tests = vec![t];
    let baseline = parse_ok(
        "schema_version = \"1\"\n\n[[accept]]\ntest = \"a::t\"\nsignal = \"zero_asserts\"\nreason = \"r\"\n",
    );

    apply(&mut tests, Some(baseline), false);

    assert_eq!(tests[0].assertion_count, 0, "counts must survive acceptance");
    assert_eq!(tests[0].smell_hits.len(), 1, "smell hits must survive acceptance");
    assert!((f64::from_bits(tests[0].suspicion_score.bits) - 0.42).abs() < f64::EPSILON);
}

#[test]
fn apply_reports_an_entry_for_a_test_that_is_gone() {
    let mut tests = vec![make_test("a::t")];
    let baseline = parse_ok(
        "schema_version = \"1\"\n\n[[accept]]\ntest = \"a::deleted\"\nsignal = \"zero_asserts\"\nreason = \"r\"\n",
    );

    let accepted = apply(&mut tests, Some(baseline), false);

    assert!(accepted.findings.is_empty());
    assert_eq!(accepted.stale.len(), 1);
    assert_eq!(accepted.stale[0].status, "unknown_test");
    assert_eq!(accepted.stale[0].test, "a::deleted");
}

#[test]
fn apply_reports_an_entry_whose_signal_stopped_firing() {
    // The test now asserts, so `zero_asserts` no longer applies.
    let mut tests = vec![make_test("a::t")];
    let baseline = parse_ok(
        "schema_version = \"1\"\n\n[[accept]]\ntest = \"a::t\"\nsignal = \"zero_asserts\"\nreason = \"r\"\n",
    );

    let accepted = apply(&mut tests, Some(baseline), false);

    assert!(accepted.findings.is_empty());
    assert_eq!(accepted.stale.len(), 1);
    assert_eq!(accepted.stale[0].status, "signal_not_active");
    assert!(tests[0].accepted_signals.is_empty());
}

#[test]
fn apply_lapses_a_pinned_acceptance_when_the_test_has_no_fingerprint() {
    // A null fingerprint (unreadable source) must not be treated as
    // "matches anything" — that is the failure the pin exists to stop.
    let mut t = make_test("a::t");
    t.assertion_count = 0;
    t.fingerprint = None;
    let mut tests = vec![t];
    let baseline = parse_ok(
        "schema_version = \"1\"\n\n[[accept]]\ntest = \"a::t\"\nsignal = \"zero_asserts\"\nreason = \"r\"\nfingerprint = \"0000000000000000\"\n",
    );

    let accepted = apply(&mut tests, Some(baseline), false);

    assert!(accepted.findings.is_empty());
    assert_eq!(accepted.stale[0].status, "content_changed");
    assert!(tests[0].accepted_signals.is_empty());
}

#[test]
fn apply_lapses_an_acceptance_when_the_test_content_changed() {
    let mut t = make_test("a::t");
    t.assertion_count = 0;
    t.fingerprint = Some("ffffffffffffffff".to_string());
    let mut tests = vec![t];
    let baseline = parse_ok(
        "schema_version = \"1\"\n\n[[accept]]\ntest = \"a::t\"\nsignal = \"zero_asserts\"\nreason = \"r\"\nfingerprint = \"0000000000000000\"\n",
    );

    let accepted = apply(&mut tests, Some(baseline), false);

    assert!(accepted.findings.is_empty(), "a changed test must be re-reviewed");
    assert_eq!(accepted.stale[0].status, "content_changed");
    assert!(
        accepted.stale[0].detail.contains("ffffffffffffffff"),
        "detail should carry the current fingerprint so it can be copied in: {}",
        accepted.stale[0].detail
    );
    assert!(tests[0].accepted_signals.is_empty());
}

#[test]
fn apply_keeps_an_acceptance_whose_fingerprint_still_matches() {
    let mut t = make_test("a::t");
    t.assertion_count = 0;
    t.fingerprint = Some("0000000000000000".to_string());
    let mut tests = vec![t];
    let baseline = parse_ok(
        "schema_version = \"1\"\n\n[[accept]]\ntest = \"a::t\"\nsignal = \"zero_asserts\"\nreason = \"r\"\nfingerprint = \"0000000000000000\"\n",
    );

    let accepted = apply(&mut tests, Some(baseline), false);

    assert_eq!(accepted.findings.len(), 1);
    assert!(accepted.stale.is_empty());
}

#[test]
fn apply_accepts_one_signal_and_leaves_the_other_active() {
    let mut t = make_test("a::t");
    t.assertion_count = 0;
    t.smell_hits = vec![smell("mock_overuse")];
    let mut tests = vec![t];
    let baseline = parse_ok(
        "schema_version = \"1\"\n\n[[accept]]\ntest = \"a::t\"\nsignal = \"zero_asserts\"\nreason = \"r\"\n",
    );

    apply(&mut tests, Some(baseline), false);

    assert_eq!(tests[0].accepted_signals, vec!["zero_asserts".to_string()]);
    assert!(
        !tests[0].accepted_in_full(),
        "an unreviewed mock_overuse hit must keep the test on the shortlist"
    );
}

#[test]
fn accepted_in_full_requires_every_active_signal() {
    let mut t = make_test("a::t");
    t.assertion_count = 0;
    t.setup_to_assertion_ratio = SetupRatio { lines: 20, assertions: 1 };
    let mut tests = vec![t];
    let baseline = parse_ok(
        "schema_version = \"1\"\n\n[[accept]]\ntest = \"a::t\"\nsignals = [\"zero_asserts\", \"high_setup_ratio\"]\nreason = \"r\"\n",
    );

    apply(&mut tests, Some(baseline), false);

    assert!(tests[0].accepted_in_full());
}

#[test]
fn accepted_in_full_is_false_for_a_test_with_no_signals() {
    // Nothing was flagged, so nothing was accepted — such a test must not
    // be treated as suppressed.
    let t = make_test("a::t");
    assert!(active_signals(&t).is_empty());
    assert!(!t.accepted_in_full());
}

#[test]
fn fingerprint_ignores_trailing_whitespace_and_blank_lines() {
    let a = "def test_a():\n    assert 1\n";
    let b = "def test_a():   \n\n    assert 1\t\n\n";
    assert_eq!(fingerprint(a), fingerprint(b));
}

#[test]
fn fingerprint_changes_when_the_body_changes() {
    assert_ne!(
        fingerprint("def test_a():\n    assert 1\n"),
        fingerprint("def test_a():\n    assert 2\n")
    );
}

#[test]
fn fingerprint_changes_when_a_comment_changes() {
    // A comment can carry the reason a test looks the way it does, so an
    // edit to one is an edit worth re-reviewing.
    assert_ne!(
        fingerprint("def test_a():\n    # boundary\n    assert 1\n"),
        fingerprint("def test_a():\n    # rewritten\n    assert 1\n")
    );
}

#[test]
fn fingerprint_is_sixteen_hex_digits() {
    let fp = fingerprint("def test_a():\n    assert 1\n");
    assert_eq!(fp.len(), 16, "got {fp}");
    assert!(fp.chars().all(|c| c.is_ascii_hexdigit() && !c.is_uppercase()), "got {fp}");
}

#[test]
fn fingerprint_of_empty_source_is_the_offset_basis() {
    // Guards the "no lines contributed" path against an accidental
    // panic or a differently-seeded hash.
    assert_eq!(fingerprint(""), "cbf29ce484222325");
}

#[test]
fn fingerprint_separates_line_boundaries() {
    assert_ne!(fingerprint("ab\nc"), fingerprint("a\nbc"));
}

fn place(path: &str, there: bool) -> (String, bool) {
    (path.to_string(), there)
}

#[test]
fn the_nearest_file_is_found() {
    assert_eq!(discover(&Vec::new()), None);
    assert_eq!(discover(&vec![place("/a/b/x", false), place("/a/x", false)]), None);
    assert_eq!(
        discover(&vec![place("/a/b/x", false), place("/a/x", true), place("/x", true)]),
        Some("/a/x".to_string())
    );
}

#[test]
fn no_accept_ignores_the_baseline_entirely() {
    let options = AcceptOptions {
        file: Some("named.toml".to_string()),
        disabled: true,
        include_accepted: false,
    };
    assert_eq!(options.resolve_with(true, Some("found.toml".to_string())), Ok(None));
    assert_eq!(options.resolve_with(false, None), Ok(None));
}

#[test]
fn an_explicit_accept_file_that_does_not_exist_fails_the_scan() {
    let options = AcceptOptions {
        file: Some("no/such/file.toml".to_string()),
        disabled: false,
        include_accepted: false,
    };
    assert_eq!(
        options.resolve_with(false, Some("found.toml".to_string())),
        Err("accept file not found: no/such/file.toml".to_string())
    );
    assert_eq!(
        options.resolve_with(true, Some("found.toml".to_string())),
        Ok(Some("no/such/file.toml".to_string()))
    );
}

#[test]
fn without_options_the_file_that_was_found_is_read() {
    let options = AcceptOptions::default();
    assert!(!options.include_accepted);
    assert_eq!(
        options.resolve_with(false, Some("found.toml".to_string())),
        Ok(Some("found.toml".to_string()))
    );
    assert_eq!(options.resolve_with(false, None), Ok(None));
}

#[test]
fn a_file_that_is_no_toml_is_refused() {
    let err = parse_err("schema_version = ");
    assert!(err.starts_with("failed to parse accept file .pycoati-accept.toml: "), "{err}");
}

#[test]
fn members_of_the_wrong_shape_are_refused() {
    for (contents, wanted) in [
        ("schema_version = 1\n", "invalid type for `schema_version`, expected a string"),
        ("schema_version = \"1\"\naccept = 3\n", "invalid type for `accept`, expected a list"),
        (
            "schema_version = \"1\"\n[[accept]]\ntest = [\"a\"]\n",
            "invalid type for `test`, expected a string",
        ),
        (
            "schema_version = \"1\"\n[[accept]]\nsignals = [1]\n",
            "invalid type for `signals`, expected a list of strings",
        ),
        ("schema_version = \"1\"\nextra = 1\n", "unknown field `extra`"),
        ("schema_version = \"1\"\n[[accept]]\ntset = \"a\"\n", "unknown field `tset`"),
    ] {
        let err = parse_err(contents);
        assert!(err.contains(wanted), "{contents:?} gave {err:?}");
    }
}

#[test]
fn a_strange_version_is_shown_between_quotation_marks() {
    assert_eq!(
        parse_err("schema_version = \"a\\\"\\n\"\n"),
        ".pycoati-accept.toml: expected schema_version = \"1\", found \"a\\\"\\n\""
    );
    assert_eq!(
        parse_err(""),
        ".pycoati-accept.toml: expected schema_version = \"1\", found no schema_version key"
    );
}

#[test]
fn white_space_around_names_does_not_count() {
    let baseline = parse_ok(
        "schema_version = \"1\"\n[[accept]]\ntest = \"  a  \"\nsignal = \" zero_asserts\\t\"\nreason = \" why \"\n",
    );
    assert_eq!(baseline.entries[0].test, "a");
    assert_eq!(baseline.entries[0].reason, "why");
    assert_eq!(baseline.entries[0].signal, Signal::ZeroAsserts);
}

#[test]
fn every_entry_is_a_finding_or_stale() {
    let mut t = make_test("a");
    t.assertion_count = 0;
    let baseline = parse_ok(
        "schema_version = \"1\"\n[[accept]]\ntest = \"a\"\nsignals = [\"zero_asserts\", \"mock_overuse\"]\nreason = \"r\"\n[[accept]]\ntest = \"b\"\nsignal = \"zero_asserts\"\nreason = \"r\"\n",
    );
    let count = baseline.entries.len();
    let mut tests = vec![t];
    let accepted = apply(&mut tests, Some(baseline), false);
    assert_eq!(accepted.findings.len() + accepted.stale.len(), count);
    assert_eq!(accepted.findings.len(), 1);
    assert_eq!(tests[0].accepted_signals, vec!["zero_asserts"]);
}

#[test]
fn fingerprints_ignore_blank_lines_and_trailing_space() {
    let plain = fingerprint("def test_a():\n    assert 1\n");
    assert_eq!(fingerprint("def test_a():   \r\n\n    assert 1\t\n\n\n"), plain);
    assert_ne!(fingerprint("def test_a():\n    assert 2\n"), plain);
    assert_ne!(fingerprint("def test_a():\n  assert 1\n"), plain);
    assert_eq!(plain.len(), 16);
    assert_eq!(fingerprint(""), "cbf29ce484222325");
    assert_eq!(fingerprint("a"), "089bdc07b544e7b2");
}

#[test]
fn a_signal_shows_its_name() {
    assert_eq!(Signal::HighSetupRatio.to_text(), "high_setup_ratio");
    assert_eq!(
        Signal::all_names(),
        "mock_only_assertions, mock_overuse, zero_asserts, high_setup_ratio"
    );
}

#[test]
fn a_ratio_over_no_assertions_counts_as_one_over_one() {
    let mut t = make_test("a");
    t.setup_to_assertion_ratio = SetupRatio { lines: 7, assertions: 0 };
    assert!(!active_set(&t).contains(&Signal::HighSetupRatio));
    t.setup_to_assertion_ratio = SetupRatio { lines: 8, assertions: 0 };
    assert!(active_set(&t).contains(&Signal::HighSetupRatio));
    t.setup_to_assertion_ratio = SetupRatio { lines: 15, assertions: 2 };
    assert!(!active_set(&t).contains(&Signal::HighSetupRatio));
}
