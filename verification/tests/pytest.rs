//! Reading what pytest prints.
use pycoati::ordering::slowest;
use pycoati::pytest::{
    collection_args, coverage_args, durations_args, parse_collection_count, parse_runtime_seconds,
    parse_slowest_tests, run_durations, unavailable_warning, RuntimeSource, SLOWEST_TESTS_CAP,
};
use pycoati::records::SlowTest;
use pycoati::Measure;

fn slowest_of(stdout: &str, cap: usize) -> Vec<SlowTest> {
    let calls = parse_slowest_tests(stdout)
        .into_iter()
        .map(|(text, nodeid)| {
            let seconds: f64 = text.parse().expect("a number");
            SlowTest { nodeid, seconds: Measure { bits: seconds.to_bits(), shown: text } }
        })
        .collect();
    slowest(calls, cap)
}

fn seconds(test: &SlowTest) -> f64 {
    f64::from_bits(test.seconds.bits)
}

fn runtime_of(stdout: &str) -> Option<f64> {
    parse_runtime_seconds(stdout).map(|text| text.parse().expect("a number"))
}

const COLLECT_SAMPLE: &str = "tests/test_a.py::test_one
tests/test_a.py::test_two
tests/test_b.py::test_three

3 tests collected in 0.05s
";

const DURATIONS_SAMPLE: &str =
    "============================= test session starts ==============================
collected 3 items

tests/test_a.py ..                                                       [ 66%]
tests/test_b.py .                                                        [100%]

============================= slowest durations =============================
0.50s call     tests/test_a.py::test_two
0.10s setup    tests/test_a.py::test_two
0.30s call     tests/test_a.py::test_one
0.05s teardown tests/test_a.py::test_one
0.20s call     tests/test_b.py::test_three
============================== 3 passed in 1.23s ==============================
";

#[test]
fn parses_count_from_summary_line() {
    let count = parse_collection_count(COLLECT_SAMPLE);
    assert_eq!(count, Some(3));
}

#[test]
fn parses_count_when_summary_is_singular() {
    let stdout = "tests/test_a.py::test_only\n\n1 test collected in 0.01s\n";
    assert_eq!(parse_collection_count(stdout), Some(1));
}

#[test]
fn falls_back_to_nodeid_line_count_when_summary_absent() {
    let stdout = "tests/test_a.py::test_one\ntests/test_a.py::test_two\n";
    assert_eq!(parse_collection_count(stdout), Some(2));
}

#[test]
fn empty_output_yields_none() {
    assert_eq!(parse_collection_count(""), None);
}

#[test]
fn parses_slowest_tests_in_descending_order_and_filters_to_call_stage() {
    let slowest = slowest_of(DURATIONS_SAMPLE, SLOWEST_TESTS_CAP);
    assert_eq!(slowest.len(), 3, "should keep only `call` rows");
    // Sorted descending by seconds: 0.50, 0.30, 0.20.
    assert!((seconds(&slowest[0]) - 0.50).abs() < 1e-9);
    assert_eq!(slowest[0].nodeid, "tests/test_a.py::test_two");
    assert!((seconds(&slowest[1]) - 0.30).abs() < 1e-9);
    assert_eq!(slowest[1].nodeid, "tests/test_a.py::test_one");
    assert!((seconds(&slowest[2]) - 0.20).abs() < 1e-9);
    assert_eq!(slowest[2].nodeid, "tests/test_b.py::test_three");
}

#[test]
fn cap_truncates_to_top_n() {
    let stdout = "============================= slowest durations =============================
0.50s call tests/a.py::t1
0.40s call tests/a.py::t2
0.30s call tests/a.py::t3
0.20s call tests/a.py::t4
========================= 4 passed in 1.40s =========================
";
    let slowest = slowest_of(stdout, 2);
    assert_eq!(slowest.len(), 2);
    assert_eq!(slowest[0].nodeid, "tests/a.py::t1");
    assert_eq!(slowest[1].nodeid, "tests/a.py::t2");
}

#[test]
fn slowest_returns_empty_when_section_missing() {
    let stdout = "no slowest section here\n3 passed in 1.0s\n";
    assert_eq!(slowest_of(stdout, SLOWEST_TESTS_CAP).len(), 0);
}

#[test]
fn parses_runtime_from_summary_line() {
    let secs = runtime_of(DURATIONS_SAMPLE);
    assert_eq!(secs, Some(1.23));
}

#[test]
fn parses_runtime_with_parenthesised_clock() {
    let stdout =
        "========================= 5 passed in 12.30s (0:00:12) =========================\n";
    assert_eq!(runtime_of(stdout), Some(12.30));
}

#[test]
fn parses_integer_runtime() {
    // pytest occasionally emits an integer when the run is sub-second
    // and durations are disabled; tolerate the trailing `s` only.
    let stdout = "========================= 1 passed in 0s =========================\n";
    assert_eq!(runtime_of(stdout), Some(0.0));
}

#[test]
fn runtime_falls_back_to_unparseable() {
    assert_eq!(runtime_of("nothing matches here\n"), None);
}

fn texts(items: &[&str]) -> Vec<String> {
    items.iter().map(|s| s.to_string()).collect()
}

#[test]
fn every_run_sets_the_options_of_the_project_aside() {
    let extra = texts(&["-X", "dev"]);
    let user = texts(&["-k", "fast"]);
    assert_eq!(
        collection_args(&extra, "tests", &user),
        texts(&[
            "-X", "dev", "-m", "pytest", "-o", "addopts=", "--collect-only", "-q", "tests", "-k",
            "fast"
        ])
    );
    assert_eq!(
        durations_args(&Vec::new(), "tests", &Vec::new()),
        texts(&[
            "-m", "pytest", "-o", "addopts=", "--durations=0", "--durations-min=0", "-q", "tests"
        ])
    );
    assert_eq!(
        coverage_args(&Vec::new(), "tests", &user, "pkg", "/tmp/r.json"),
        texts(&[
            "-m",
            "pytest",
            "-o",
            "addopts=",
            "--cov=pkg",
            "--cov-report=json:/tmp/r.json",
            "-q",
            "tests",
            "-k",
            "fast"
        ])
    );
}

#[test]
fn the_runtime_is_stated_or_summed_up_or_unknown() {
    let stated = run_durations(&Some("1 passed in 0.42s\n".to_string()));
    assert_eq!(stated.runtime.as_deref(), Some("0.42"));
    assert_eq!(stated.runtime_source(), RuntimeSource::Stated);
    let summed = run_durations(&Some(
        "== slowest durations ==\n0.25s call     t.py::test_a\n0.50s setup    t.py::test_a\n0.75s call     t.py::test_b\n"
            .to_string(),
    ));
    assert_eq!(summed.runtime_source(), RuntimeSource::SumOfCalls);
    assert_eq!(
        summed.calls,
        vec![
            ("0.25".to_string(), "t.py::test_a".to_string()),
            ("0.75".to_string(), "t.py::test_b".to_string())
        ]
    );
    assert_eq!(run_durations(&None).runtime_source(), RuntimeSource::Unknown);
    assert!(run_durations(&None).calls.is_empty());
}

#[test]
fn the_warning_names_the_python_that_was_chosen() {
    assert!(unavailable_warning("python", &Vec::new()).ends_with("(resolved: python)"));
    assert!(unavailable_warning("uv", &texts(&["run", "python"]))
        .ends_with("(resolved: uv run python)"));
}

#[test]
fn tests_of_the_same_duration_keep_their_order() {
    let test = |nodeid: &str, x: f64| SlowTest {
        nodeid: nodeid.to_string(),
        seconds: Measure { bits: x.to_bits(), shown: String::new() },
    };
    let ordered = slowest(vec![test("a", 0.1), test("b", 0.3), test("c", 0.1), test("d", 0.3)], 3);
    let ids: Vec<&str> = ordered.iter().map(|t| t.nodeid.as_str()).collect();
    assert_eq!(ids, vec!["b", "d", "a"]);
}

#[test]
fn a_line_is_a_summary_only_where_it_says_collected() {
    assert_eq!(parse_collection_count("3 tests\ntests/a.py::test_x\n"), Some(1));
    assert_eq!(parse_collection_count("3 tests\n"), None);
    assert_eq!(parse_collection_count("5 files collected\ntests/a.py::test_x\n"), Some(1));
    assert_eq!(parse_collection_count("5 collected\n"), None);
    assert_eq!(parse_collection_count("  7 tests collected\n"), Some(7));
    assert_eq!(parse_collection_count("no tests collected in 0.01s\n"), None);
}
