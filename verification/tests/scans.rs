//! Whole scans: sources in, a ranked inventory out.
use std::collections::BTreeMap;

use pycoati::audit::{assemble, project_from, rank_inventory, Source};
use pycoati::baseline;
use pycoati::inventory::{empty_inventory, reports_candidates};
use pycoati::names::NameSet;
use pycoati::parser::parse_python_file;
use pycoati::pretty::{render, with_footer};
use pycoati::suspicion::{
    bonus_terms, score_terms, SuspicionWeights, PATCH_SATURATION, SETUP_RATIO_INFLECTION,
    SETUP_RATIO_SCALE, SMELL_SATURATION,
};
use pycoati::{AuditResult, FileRecord, Inventory, Measure, TestRecord, DEFAULT_TOP_SUSPICIOUS};

fn measure(x: f64) -> Measure {
    Measure { bits: x.to_bits(), shown: format!("{x:.2}") }
}

fn value(m: &Measure) -> f64 {
    f64::from_bits(m.bits)
}

fn score(test: &TestRecord) -> f64 {
    let w = SuspicionWeights::default();
    let t = score_terms(test);
    let ratio = t.setup.lines as f64 / t.setup.assertions as f64;
    let x = (ratio - SETUP_RATIO_INFLECTION as f64) / SETUP_RATIO_SCALE as f64;
    let mut sum = 0.0;
    if t.mock_only {
        sum += w.w_mock_only as f64;
    }
    sum += w.w_patch_count as f64 * (t.patches as f64 / PATCH_SATURATION as f64);
    sum += w.w_setup_ratio as f64 / (1.0 + (-x).exp());
    if t.zero_asserts {
        sum += w.w_zero_asserts as f64;
    }
    sum += w.w_smell_density as f64 * (t.smells as f64 / SMELL_SATURATION as f64);
    sum / 100.0
}

fn score_of_file(file: &FileRecord, tests: &[TestRecord]) -> f64 {
    let scores: Vec<f64> =
        tests.iter().filter(|t| t.file == file.path).map(|t| value(&t.suspicion_score)).collect();
    if scores.is_empty() {
        return 0.0;
    }
    let (constructions, assertions) = bonus_terms(file);
    let bonus = ((constructions as f64 / assertions as f64 - 1.0).max(0.0) * 0.05).min(0.1);
    scores.iter().sum::<f64>() / scores.len() as f64 + bonus
}

struct Scan {
    inventory: Inventory,
    file_scores: Vec<Measure>,
}

fn scan_with(
    sources: &[(&str, &str)],
    keep_empty: bool,
    accept: Option<&str>,
    include_accepted: bool,
    top_n: usize,
) -> Scan {
    let mut packages = NameSet::new();
    packages.insert("myproj".to_string());
    let parsed = sources
        .iter()
        .map(|(path, source)| Source {
            path: path.to_string(),
            parsed: parse_python_file(source, path).expect("the grammar reads every file"),
        })
        .collect();
    let project = project_from("/work/myproj", Some("myproj".to_string()), None);
    let mut inventory = assemble(project, parsed, &packages, keep_empty);
    for test in &mut inventory.test_functions {
        test.suspicion_score = measure(score(test));
    }
    let file_scores: Vec<Measure> = inventory
        .files
        .iter()
        .map(|f| measure(score_of_file(f, &inventory.test_functions)))
        .collect();
    let read = accept.map(|toml| {
        baseline::parse(toml, "/work/myproj/.pycoati-accept.toml").expect("a sound accept file")
    });
    rank_inventory(&mut inventory, &file_scores, read, include_accepted, top_n);
    Scan { inventory, file_scores }
}

fn scan(sources: &[(&str, &str)]) -> Scan {
    scan_with(sources, true, None, false, DEFAULT_TOP_SUSPICIOUS)
}

fn pretty(scan: &Scan, top_n: usize) -> String {
    render(&scan.inventory, &scan.file_scores, top_n)
}

fn record<'a>(scan: &'a Scan, nodeid: &str) -> &'a TestRecord {
    scan.inventory
        .test_functions
        .iter()
        .find(|t| t.nodeid == nodeid)
        .unwrap_or_else(|| panic!("no record for {nodeid}"))
}

fn shortlist(scan: &Scan) -> &Vec<String> {
    &scan.inventory.top_suspicious.test_functions
}

fn listed(scan: &Scan, nodeid: &str) -> bool {
    shortlist(scan).iter().any(|n| n == nodeid)
}

fn bare_name(test: &TestRecord) -> &str {
    test.nodeid.rsplit("::").next().unwrap_or("")
}

// A small project.

const MOCK_ONLY_FILE: &str = "\
from unittest.mock import MagicMock


def test_repo_save_called():
    repo = MagicMock()
    repo.save(1)
    assert repo.save.called
";

const REAL_FILE: &str = "\
from myproj.core import add


def test_add():
    assert add(1, 2) == 3
    assert add(0, 0) == 0
";

const MIXED_FILE: &str = "\
from unittest.mock import MagicMock

from myproj.core import process


def test_process():
    sink = MagicMock()
    result = process(sink)
    assert result == 1
    assert sink.write.called
";

const NO_ASSERTS_FILE: &str = "\
from myproj.core import add


def test_runs():
    add(1, 2)
";

const OTHER_FILE: &str = "\
def test_other():
    assert True
";

const OVERMOCKED_FILE: &str = "\
from unittest.mock import Mock

from myproj.core import wire


def test_three_mocks_one_assert():
    a = Mock()
    b = Mock()
    c = Mock()
    assert wire(a, b, c) == 3
";

fn project() -> Vec<(&'static str, &'static str)> {
    vec![
        ("tests/other_test.py", OTHER_FILE),
        ("tests/test_mixed.py", MIXED_FILE),
        ("tests/test_mock_only.py", MOCK_ONLY_FILE),
        ("tests/test_no_asserts.py", NO_ASSERTS_FILE),
        ("tests/test_overmocked.py", OVERMOCKED_FILE),
        ("tests/test_real.py", REAL_FILE),
    ]
}

#[test]
fn top_suspicious_contains_mock_only_test() {
    let s = scan(&project());
    assert!(listed(&s, "tests/test_mock_only.py::test_repo_save_called"));
}

#[test]
fn top_suspicious_contains_overmocked_test() {
    let s = scan(&project());
    assert!(listed(&s, "tests/test_overmocked.py::test_three_mocks_one_assert"));
}

#[test]
fn top_suspicious_caps_at_twenty_by_default() {
    let source: String = (0..30).map(|i| format!("def test_{i}():\n    pass\n\n\n")).collect();
    let s = scan(&[("tests/test_many.py", source.as_str())]);
    assert_eq!(s.inventory.test_functions.len(), 30);
    assert!(shortlist(&s).len() <= 20);
    assert_eq!(shortlist(&s).len(), 20);
}

#[test]
fn top_suspicious_n_cli_override() {
    let s = scan_with(&project(), true, None, false, 3);
    assert!(shortlist(&s).len() <= 3);
    assert_eq!(shortlist(&s).len(), 3);
}

#[test]
fn top_suspicious_files_also_populated() {
    let s = scan(&project());
    let files = &s.inventory.top_suspicious.files;
    assert!(!files.is_empty());
    assert!(files.iter().any(|f| f == "tests/test_overmocked.py"));
}

#[test]
fn suspicion_score_max_above_threshold() {
    let s = scan(&project());
    let max = s
        .inventory
        .test_functions
        .iter()
        .map(|t| value(&t.suspicion_score))
        .fold(0.0_f64, f64::max);
    assert!(max > 0.4, "expected max suspicion_score > 0.4, got {max}");
    assert_eq!(shortlist(&s)[0], "tests/test_mock_only.py::test_repo_save_called");
}

#[test]
fn suspicion_scores_written_back_to_test_records() {
    let s = scan(&project());
    for t in &s.inventory.test_functions {
        assert!(value(&t.suspicion_score) >= 0.0);
        assert_eq!(value(&t.suspicion_score), score(t));
    }
}

#[test]
fn format_pretty_writes_aligned_columns_no_markdown() {
    let s = scan(&project());
    let out = pretty(&s, DEFAULT_TOP_SUSPICIOUS);
    assert!(out.starts_with("coati audit"), "pretty output must start with title, got:\n{out}");
    assert!(out.contains("Suite\n-----"), "must contain Suite header, got:\n{out}");
    assert!(
        out.contains("Top suspicious tests\n--------------------"),
        "must contain Top suspicious tests header, got:\n{out}"
    );
    assert!(!out.contains('|'), "no pipe characters allowed, got:\n{out}");
}

#[test]
fn format_pretty_and_json_agree_on_top_suspicious() {
    let s = scan(&project());
    assert!(pretty(&s, DEFAULT_TOP_SUSPICIOUS).contains(shortlist(&s)[0].as_str()));
}

#[test]
fn inventory_reports_project_name_from_pyproject() {
    let s = scan(&project());
    assert_eq!(s.inventory.project.name, "myproj");
    assert_eq!(s.inventory.project.path, "/work/myproj");
}

#[test]
fn per_file_assertion_counts_match_annotations() {
    let s = scan(&project());
    let by_path: BTreeMap<&str, &FileRecord> =
        s.inventory.files.iter().map(|f| (f.path.as_str(), f)).collect();
    for (path, tests, asserts) in [
        ("tests/other_test.py", 1, 1),
        ("tests/test_mixed.py", 1, 2),
        ("tests/test_mock_only.py", 1, 1),
        ("tests/test_no_asserts.py", 1, 0),
        ("tests/test_overmocked.py", 1, 1),
        ("tests/test_real.py", 1, 2),
    ] {
        assert_eq!(by_path[path].test_function_count, tests, "tests of {path}");
        assert_eq!(by_path[path].assertion_count, asserts, "assertions of {path}");
    }
    assert_eq!(by_path["tests/test_overmocked.py"].mock_construction_count, 3);
}

#[test]
fn only_asserts_on_mock_predicate_matches_annotations() {
    let s = scan(&project());
    for t in &s.inventory.test_functions {
        assert_eq!(
            t.only_asserts_on_mock,
            bare_name(t) == "test_repo_save_called",
            "{}",
            t.nodeid
        );
    }
}

#[test]
fn nodeids_are_relative_to_project_root() {
    let s = scan(&project());
    for t in &s.inventory.test_functions {
        assert!(t.nodeid.starts_with("tests/"), "{}", t.nodeid);
        assert!(t.nodeid.contains("::"), "{}", t.nodeid);
    }
}

#[test]
fn calls_into_the_project_are_summed_up_over_the_files() {
    let s = scan(&project());
    let by_name: Vec<(&str, u64)> = s
        .inventory
        .sut_calls
        .by_name
        .iter()
        .map(|e| (e.name.as_str(), e.test_function_count))
        .collect();
    assert_eq!(
        by_name,
        vec![("myproj.core.add", 2), ("myproj.core.process", 1), ("myproj.core.wire", 1)]
    );
    assert_eq!(
        s.inventory.sut_calls.by_name[0].test_nodeids,
        vec!["tests/test_no_asserts.py::test_runs", "tests/test_real.py::test_add"]
    );
    assert_eq!(s.inventory.sut_calls.top_called[0], "myproj.core.add");
}

#[test]
fn pretty_scan_with_candidates_ends_with_the_guide_footer() {
    let s = scan(&project());
    let out = pretty(&s, DEFAULT_TOP_SUSPICIOUS);
    let result = AuditResult::Single(s.inventory);
    let shown = with_footer(out, reports_candidates(&result));
    assert!(shown.trim_end().ends_with("next: run `pycoati guide analyze`"));
}

#[test]
fn pretty_scan_without_candidates_has_no_footer() {
    let s = scan_with(&project(), true, None, false, 0);
    let out = pretty(&s, 0);
    let result = AuditResult::Single(s.inventory);
    let shown = with_footer(out, reports_candidates(&result));
    assert!(!shown.contains("pycoati guide analyze"));
}

// A single file.

const BASIC_FILE: &str = "\
def test_arithmetic():
    assert 1 + 1 == 2
    assert 2 * 2 == 4
    assert 3 - 1 == 2


def test_strings():
    assert 'a' + 'b' == 'ab'
    assert 'a'.upper() == 'A'
";

fn basic() -> Inventory {
    scan_with(&[("simple/test_basic.py", BASIC_FILE)], false, None, false, 20).inventory
}

fn empty() -> Inventory {
    scan_with(&[("simple/empty.py", "")], false, None, false, 20).inventory
}

#[test]
fn counts_two_tests_with_five_total_asserts() {
    let inv = basic();
    assert_eq!(inv.test_functions.len(), 2);
    let total: u64 = inv.test_functions.iter().map(|t| t.assertion_count).sum();
    assert_eq!(total, 5);
    let by_name: BTreeMap<&str, u64> =
        inv.test_functions.iter().map(|t| (bare_name(t), t.assertion_count)).collect();
    assert_eq!(by_name.get("test_arithmetic"), Some(&3));
    assert_eq!(by_name.get("test_strings"), Some(&2));
}

#[test]
fn only_asserts_on_mock_is_false_for_every_phase_1_test() {
    for t in &basic().test_functions {
        assert!(!t.only_asserts_on_mock, "{}", t.nodeid);
    }
}

#[test]
fn empty_file_yields_no_tests_and_no_file_record() {
    let inv = empty();
    assert!(inv.test_functions.is_empty());
    assert!(inv.files.is_empty());
}

#[test]
fn an_empty_file_of_a_project_keeps_its_record() {
    let s = scan(&[("tests/test_empty.py", "")]);
    assert_eq!(s.inventory.files.len(), 1);
    assert_eq!(s.inventory.files[0].path, "tests/test_empty.py");
    assert_eq!(s.inventory.files[0].test_function_count, 0);
    assert_eq!(s.inventory.files[0].assertion_count, 0);
}

#[test]
fn file_record_aggregates_match_per_test_totals() {
    let inv = basic();
    assert_eq!(inv.files.len(), 1);
    let file = &inv.files[0];
    assert_eq!(file.test_function_count, inv.test_functions.len() as u64);
    let expected: u64 = inv.test_functions.iter().map(|t| t.assertion_count).sum();
    assert_eq!(file.assertion_count, expected);
}

#[test]
fn inventory_schema_version_is_string_two() {
    assert_eq!(empty().schema_version, "2");
}

#[test]
fn inventory_suite_fields_are_null_in_static_only_mode() {
    let inv = empty();
    assert_eq!(inv.suite.test_count, None);
    assert!(inv.suite.runtime_seconds.is_none());
    assert!(inv.suite.line_coverage_pct.is_none());
    assert!(inv.suite.slowest_tests.is_empty());
}

#[test]
fn inventory_tool_fields_are_static_only_defaults() {
    let inv = empty();
    assert_eq!(inv.tool.name, "pycoati");
    assert_eq!(inv.tool.version, "0.1.0");
    assert!(!inv.tool.ran_pytest);
    assert!(!inv.tool.ran_coverage);
}

#[test]
fn inventory_sut_calls_and_top_suspicious_shape() {
    let inv = empty();
    assert!(inv.sut_calls.by_name.is_empty());
    assert!(inv.sut_calls.top_called.is_empty());
    assert!(inv.top_suspicious.test_functions.is_empty());
    assert!(inv.top_suspicious.files.is_empty());
}

#[test]
fn a_project_without_tests_has_an_empty_inventory() {
    let inv = empty_inventory(project_from("/work/p", None, Some("p".to_string())));
    assert_eq!(inv.project.name, "p");
    assert!(inv.files.is_empty() && inv.test_functions.is_empty());
    assert!(!reports_candidates(&AuditResult::Single(inv)));
}

// Doubles installed through fixtures.

const STUBS_FILE: &str = "\
from myproj.core import run


def test_monkeypatch_basic(monkeypatch):
    monkeypatch.setattr('myproj.core.clock', lambda: 0)
    assert run() == 0


def test_monkeypatch_heavy(monkeypatch):
    monkeypatch.setattr('myproj.core.clock', lambda: 0)
    monkeypatch.setattr('myproj.core.disk', lambda: 0)
    monkeypatch.setenv('HOME', '/tmp')
    monkeypatch.delenv('PATH')
    assert run() == 0


def test_mocker_patch(mocker):
    mocker.patch('myproj.core.clock')
    mocker.patch('myproj.core.disk')
    mocker.patch.object(run, 'x')
    assert run() == 0
";

fn stubs() -> Scan {
    scan(&[("test_stubs.py", STUBS_FILE)])
}

#[test]
fn stubs_count_populated_on_test_records() {
    let s = stubs();
    let by_name: BTreeMap<&str, u64> =
        s.inventory.test_functions.iter().map(|t| (bare_name(t), t.stubs_count)).collect();
    assert_eq!(by_name.get("test_monkeypatch_basic"), Some(&1));
    assert_eq!(by_name.get("test_monkeypatch_heavy"), Some(&4));
    assert_eq!(by_name.get("test_mocker_patch"), Some(&3));
}

#[test]
fn stubs_count_aggregated_on_file_record() {
    assert_eq!(stubs().inventory.files[0].stubs_count, 8);
}

#[test]
fn stub_heavy_test_fires_mock_overuse_smell() {
    let s = stubs();
    let t = record(&s, "test_stubs.py::test_monkeypatch_heavy");
    assert!(t.smell_hits.iter().any(|h| h.category == "mock_overuse"));
}

#[test]
fn file_level_mock_overuse_fires_on_stub_heavy_file() {
    let s = stubs();
    assert!(s.inventory.files[0].smell_hits.iter().any(|h| h.category == "mock_overuse"));
}

#[test]
fn pretty_output_contains_stubs_column() {
    let out = pretty(&stubs(), DEFAULT_TOP_SUSPICIOUS);
    let header_lines: Vec<&str> =
        out.lines().filter(|l| l.contains("score") && l.contains("stubs")).collect();
    assert!(
        header_lines.len() >= 2,
        "expected at least two `stubs`-bearing headers (tests + files), got {} in:\n{out}",
        header_lines.len()
    );
    let row = out
        .lines()
        .find(|l| l.contains("::test_monkeypatch_heavy"))
        .expect("row for test_monkeypatch_heavy rendered");
    assert!(
        row.contains(" 4 "),
        "expected stubs value 4 in test_monkeypatch_heavy row, got: {row:?}"
    );
}

// Accepted findings.

const SMOKE: &str = "tests/test_accepted.py::test_startup_sequence_smoke";
const CHILD: &str = "tests/test_accepted.py::test_checked_child_process";
const SHORT: &str = "tests/test_accepted.py::test_short_smoke";
const MOCK_ONLY: &str = "tests/test_accepted.py::test_mock_only_assertion";
const CLEAN: &str = "tests/test_accepted.py::test_clean";

const ACCEPT_FILE: &str = "\
import subprocess
import sys
from unittest.mock import Mock

import acceptproj


def test_startup_sequence_smoke():
    config = acceptproj.load()
    clock = acceptproj.clock(config)
    disk = acceptproj.disk(config)
    cache = acceptproj.cache(disk)
    queue = acceptproj.queue(cache)
    worker = acceptproj.worker(queue)
    server = acceptproj.server(worker)
    client = acceptproj.client(server)
    client.start(clock)
    client.ping()
    client.stop()
    server.stop()


def test_short_smoke():
    acceptproj.greet(\"world\")


def test_mock_only_assertion():
    sink = Mock()
    sink.write(1)
    assert sink.write.called


def test_checked_child_process():
    subprocess.run([sys.executable, '-c', 'pass'], check=True)


def test_clean():
    assert acceptproj.greet('a') == 'hello a'
";

fn accept_scan_of(source: &str, accept: Option<&str>, include_accepted: bool) -> Scan {
    scan_with(&[("tests/test_accepted.py", source)], true, accept, include_accepted, 20)
}

fn accept_scan(accept: Option<&str>) -> Scan {
    accept_scan_of(ACCEPT_FILE, accept, false)
}

fn entry(test: &str, rest: &str) -> String {
    format!("schema_version = \"1\"\n\n[[accept]]\ntest = \"{test}\"\n{rest}")
}

fn short_entry() -> String {
    entry(SHORT, "signal = \"zero_asserts\"\nreason = \"smoke contract\"\n")
}

#[test]
fn without_a_baseline_every_flagged_test_is_on_the_shortlist() {
    let s = accept_scan(None);
    assert!(s.inventory.accepted.path.is_none());
    assert!(s.inventory.accepted.findings.is_empty());
    assert!(s.inventory.accepted.stale.is_empty());
    for nodeid in [SMOKE, SHORT, MOCK_ONLY] {
        assert!(listed(&s, nodeid), "{nodeid} should be listed");
    }
}

#[test]
fn an_accepted_test_leaves_the_shortlist_but_keeps_its_record() {
    let s = accept_scan(Some(&entry(
        SHORT,
        "signal = \"zero_asserts\"\nreason = \"smoke contract: it must not raise\"\n",
    )));
    assert!(!listed(&s, SHORT));
    assert_eq!(record(&s, SHORT).assertion_count, 0);
    assert!(value(&record(&s, SHORT).suspicion_score) > 0.0);
    assert_eq!(record(&s, SHORT).accepted_signals, vec!["zero_asserts".to_string()]);
    let accepted = &s.inventory.accepted;
    assert_eq!(accepted.findings.len(), 1);
    assert_eq!(accepted.findings[0].test, SHORT);
    assert_eq!(accepted.findings[0].signal, "zero_asserts");
    assert_eq!(accepted.findings[0].reason, "smoke contract: it must not raise");
    assert_eq!(accepted.findings[0].reviewed, None);
    assert_eq!(accepted.findings[0].fingerprint, None);
    assert!(accepted.path.as_ref().expect("path").ends_with(".pycoati-accept.toml"));
}

#[test]
fn acceptance_changes_nothing_but_the_shortlist() {
    let raw = accept_scan(None);
    let accepted = accept_scan(Some(&short_entry()));
    for (a, b) in raw.inventory.files.iter().zip(&accepted.inventory.files) {
        assert_eq!(a.path, b.path);
        assert_eq!(a.test_function_count, b.test_function_count);
        assert_eq!(a.assertion_count, b.assertion_count);
        assert_eq!(a.smell_hits.len(), b.smell_hits.len());
    }
    assert_eq!(raw.inventory.test_functions.len(), accepted.inventory.test_functions.len());
    for (a, b) in raw.inventory.test_functions.iter().zip(&accepted.inventory.test_functions) {
        assert_eq!(a.nodeid, b.nodeid);
        assert_eq!(a.line, b.line);
        assert_eq!(a.assertion_count, b.assertion_count);
        assert_eq!(a.only_asserts_on_mock, b.only_asserts_on_mock);
        assert_eq!(a.called_names, b.called_names);
        assert_eq!(a.smell_hits.len(), b.smell_hits.len());
        assert_eq!(a.fingerprint, b.fingerprint);
        assert_eq!(a.suspicion_score.bits, b.suspicion_score.bits);
    }
    assert_ne!(shortlist(&raw), shortlist(&accepted));
    assert_eq!(shortlist(&raw).len(), shortlist(&accepted).len() + 1);
}

#[test]
fn accepting_one_signal_of_two_keeps_the_test_actionable() {
    let s = accept_scan(Some(&entry(
        SMOKE,
        "signal = \"zero_asserts\"\nreason = \"smoke contract: the startup sequence must not raise\"\n",
    )));
    assert_eq!(record(&s, SMOKE).accepted_signals, vec!["zero_asserts".to_string()]);
    assert!(listed(&s, SMOKE));
    assert!(s.inventory.accepted.stale.is_empty());
}

#[test]
fn accepting_both_signals_of_a_test_drops_it() {
    let s = accept_scan(Some(&entry(
        SMOKE,
        "signals = [\"zero_asserts\", \"high_setup_ratio\"]\nreason = \"smoke contract: the startup sequence must not raise\"\n",
    )));
    assert_eq!(
        record(&s, SMOKE).accepted_signals,
        vec!["high_setup_ratio".to_string(), "zero_asserts".to_string()]
    );
    assert!(!listed(&s, SMOKE));
    assert_eq!(s.inventory.accepted.findings.len(), 2);
}

#[test]
fn an_acceptance_never_touches_a_test_it_does_not_name() {
    let s = accept_scan(Some(&short_entry()));
    assert!(listed(&s, MOCK_ONLY));
    assert!(record(&s, MOCK_ONLY).accepted_signals.is_empty());
    assert!(record(&s, CLEAN).accepted_signals.is_empty());
}

#[test]
fn a_signal_introduced_after_review_brings_the_test_back() {
    let baseline = short_entry();
    assert!(!listed(&accept_scan(Some(&baseline)), SHORT));
    let patched = ACCEPT_FILE.replace(
        "def test_short_smoke():",
        "@patch(\"acceptproj.greet\")\n@patch(\"subprocess.run\")\n@patch(\"sys.exit\")\ndef test_short_smoke(_exit, _run, _greet):",
    );
    assert_ne!(ACCEPT_FILE, patched);
    let patched =
        patched.replace("from unittest.mock import Mock", "from unittest.mock import Mock, patch");
    let s = accept_scan_of(&patched, Some(&baseline), false);
    assert!(record(&s, SHORT).smell_hits.iter().any(|h| h.category == "mock_overuse"));
    assert_eq!(record(&s, SHORT).accepted_signals, vec!["zero_asserts".to_string()]);
    assert!(listed(&s, SHORT));
}

#[test]
fn include_accepted_puts_the_finding_back_on_the_shortlist() {
    let s = accept_scan_of(ACCEPT_FILE, Some(&short_entry()), true);
    assert!(listed(&s, SHORT));
    assert!(s.inventory.accepted.included_in_shortlist);
    assert_eq!(s.inventory.accepted.findings.len(), 1);
}

#[test]
fn an_entry_for_a_test_that_is_gone_is_reported_stale() {
    let s = accept_scan(Some(&entry(
        "tests/test_accepted.py::test_renamed_away",
        "signal = \"zero_asserts\"\nreason = \"smoke contract\"\n",
    )));
    let stale = &s.inventory.accepted.stale;
    assert_eq!(stale.len(), 1);
    assert_eq!(stale[0].status, "unknown_test");
    assert_eq!(stale[0].test, "tests/test_accepted.py::test_renamed_away");
    assert_eq!(stale[0].reason, "smoke contract");
    assert!(s.inventory.accepted.findings.is_empty());
}

#[test]
fn a_test_that_verifies_in_a_child_process_is_never_offered_zero_asserts() {
    let s = accept_scan(Some(&entry(
        CHILD,
        "signal = \"zero_asserts\"\nreason = \"child interpreter\"\n",
    )));
    assert!(record(&s, CHILD).accepted_signals.is_empty());
    assert_eq!(record(&s, CHILD).assertion_count, 0);
    assert_eq!(record(&s, CHILD).external_verification_count, 1);
    let stale = &s.inventory.accepted.stale;
    assert_eq!(stale.len(), 1);
    assert_eq!(stale[0].status, "signal_not_active");
    assert_eq!(stale[0].test, CHILD);
}

#[test]
fn an_entry_whose_signal_no_longer_fires_is_reported_stale() {
    let s = accept_scan(Some(&entry(
        CLEAN,
        "signal = \"zero_asserts\"\nreason = \"was assertionless once\"\n",
    )));
    assert_eq!(s.inventory.accepted.stale.len(), 1);
    assert_eq!(s.inventory.accepted.stale[0].status, "signal_not_active");
    assert!(record(&s, CLEAN).accepted_signals.is_empty());
}

fn pinned_entry(fingerprint: &str) -> String {
    entry(
        SHORT,
        &format!(
            "signal = \"zero_asserts\"\nreason = \"smoke contract\"\nreviewed = \"2026-09-12\"\nfingerprint = \"{fingerprint}\"\n"
        ),
    )
}

fn short_fingerprint(scan: &Scan) -> String {
    record(scan, SHORT).fingerprint.clone().expect("fingerprint")
}

#[test]
fn a_pinned_fingerprint_that_still_matches_keeps_the_acceptance() {
    let fp = short_fingerprint(&accept_scan(None));
    let s = accept_scan(Some(&pinned_entry(&fp)));
    assert!(!listed(&s, SHORT));
    let finding = &s.inventory.accepted.findings[0];
    assert_eq!(finding.fingerprint, Some(fp));
    assert_eq!(finding.reviewed, Some("2026-09-12".to_string()));
    assert!(s.inventory.accepted.stale.is_empty());
}

fn edited() -> String {
    let edited = ACCEPT_FILE.replace(
        "    acceptproj.greet(\"world\")",
        "    acceptproj.greet(\"somebody else entirely\")",
    );
    assert_ne!(ACCEPT_FILE, edited);
    edited
}

#[test]
fn editing_an_accepted_test_lapses_its_pinned_acceptance() {
    let fp = short_fingerprint(&accept_scan(None));
    let baseline = pinned_entry(&fp);
    assert!(!listed(&accept_scan(Some(&baseline)), SHORT));
    let s = accept_scan_of(&edited(), Some(&baseline), false);
    let stale = &s.inventory.accepted.stale;
    assert_eq!(stale.len(), 1);
    assert_eq!(stale[0].status, "content_changed");
    let new_fp = short_fingerprint(&s);
    assert_ne!(new_fp, fp);
    assert!(stale[0].detail.contains(&new_fp));
    assert!(listed(&s, SHORT));
    assert!(record(&s, SHORT).accepted_signals.is_empty());
}

#[test]
fn editing_an_accepted_test_keeps_an_unpinned_acceptance() {
    let s = accept_scan_of(&edited(), Some(&short_entry()), false);
    assert!(s.inventory.accepted.stale.is_empty());
    assert!(!listed(&s, SHORT));
}

#[test]
fn an_entry_without_a_reason_fails_the_scan() {
    let err = baseline::parse(&entry(SHORT, "signal = \"zero_asserts\"\n"), "a.toml")
        .err()
        .expect("refused");
    assert!(err.contains("missing `reason`"), "{err}");
}

#[test]
fn an_unknown_signal_fails_the_scan_and_lists_the_valid_ones() {
    let err =
        baseline::parse(&entry(SHORT, "signal = \"too_slow\"\nreason = \"r\"\n"), "a.toml")
            .err()
            .expect("refused");
    assert!(err.contains("unknown signal"), "{err}");
    assert!(err.contains("high_setup_ratio"), "{err}");
}

#[test]
fn pretty_output_names_every_accepted_finding_and_its_reason() {
    let toml = entry(
        SHORT,
        "signal = \"zero_asserts\"\nreason = \"smoke contract: it must not raise\"\n\n[[accept]]\ntest = \"tests/test_accepted.py::test_gone\"\nsignal = \"mock_overuse\"\nreason = \"boundary stubs only\"\n",
    );
    let out = pretty(&accept_scan(Some(&toml)), 20);
    assert!(out.contains("Accepted findings (held back from the shortlist)"), "{out}");
    assert!(out.contains("smoke contract: it must not raise"), "{out}");
    assert!(out.contains("Stale acceptances (actionable again)"), "{out}");
    assert!(out.contains("unknown_test"), "{out}");
}

#[test]
fn pretty_output_omits_the_sections_when_nothing_was_accepted() {
    let out = pretty(&accept_scan(None), 20);
    assert!(!out.contains("Accepted findings"), "{out}");
    assert!(!out.contains("Stale acceptances"), "{out}");
}
