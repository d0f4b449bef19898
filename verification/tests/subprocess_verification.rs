//! Verification in a child process.
use std::collections::BTreeMap;

use pycoati::audit::{assemble, project_from, Source};
use pycoati::names::NameSet;
use pycoati::parser::parse_python_file;
use pycoati::suspicion::score_terms;
use pycoati::TestRecord;

const CHECKED: &str = "\
import subprocess
import sys


def test_child_process_contract():
    subprocess.run([sys.executable, '-c', 'pass'], check=True)


def test_check_call_contract():
    subprocess.check_call([sys.executable, '-c', 'pass'])


def test_check_output_contract():
    subprocess.check_output([sys.executable, '-c', 'pass'])


def test_explicit_returncode_check():
    completed = subprocess.run([sys.executable, '-c', 'pass'])
    completed.check_returncode()


def test_asserts_and_checks():
    completed = subprocess.run([sys.executable, '-c', 'pass'], check=True)
    assert completed.returncode == 0


class TestStashed:
    def test_self_rooted_returncode(self):
        self.completed = subprocess.run([sys.executable, '-c', 'pass'])
        self.completed.check_returncode()
";

const ALIASES: &str = "\
import subprocess as sp
from subprocess import check_call
from subprocess import run as launch


def test_aliased_module():
    sp.run(['true'], check=True)


def test_aliased_function():
    launch(['true'], check=True)


def test_imported_check_call():
    check_call(['true'])
";

const UNCHECKED: &str = "\
import subprocess


def test_unchecked_run():
    subprocess.run(['true'])


def test_explicit_check_false():
    subprocess.run(['true'], check=False)


def test_popen_without_check():
    subprocess.Popen(['true']).wait()


def test_asserted_return_code():
    completed = subprocess.run(['true'])
    assert completed.returncode == 0
";

const MIXED_SIGNAL: &str = "\
import subprocess
from unittest.mock import patch


@patch('app.clock')
@patch('app.disk')
@patch('app.net')
def test_checked_subprocess_with_heavy_patching(_net, _disk, _clock):
    subprocess.run(['true'], check=True)
";

const SHADOWED: &str = "\
import subprocess
import unittest.mock
from unittest.mock import MagicMock, patch


@patch('subprocess.run')
def test_patched_subprocess_run(run):
    subprocess.run(['true'], check=True)


def test_fixture_shadows_the_module(subprocess):
    subprocess.run(['true'], check=True)


def test_monkeypatched_helper(monkeypatch):
    monkeypatch.setattr('subprocess.run', lambda *a, **k: None)
    subprocess.run(['true'], check=True)


@patch('subprocess.run')
def test_mocked_completed_process(run):
    completed = subprocess.run(['true'])
    completed.check_returncode()


def test_magicmock_returncode():
    completed = MagicMock()
    completed.check_returncode()


def test_qualified_magicmock_returncode():
    completed = unittest.mock.MagicMock()
    completed.check_returncode()


@unittest.mock.patch.object(subprocess, 'run')
def test_qualified_patch_object(run):
    subprocess.run(['true'], check=True)


def test_helper_defined_and_called():
    def helper():
        subprocess.run(['true'], check=True)

    helper()


def test_helper_defined_but_never_called():
    def helper():
        subprocess.run(['true'], check=True)


def test_swallowed_called_process_error():
    try:
        subprocess.run(['true'], check=True)
    except subprocess.CalledProcessError:
        pass


def test_checked_only_in_except_branch():
    try:
        prepare()
    except ValueError:
        subprocess.run(['true'], check=True)
";

const CLASS_SHADOWED: &str = "\
import contextlib
import subprocess
from unittest.mock import MagicMock, patch


@patch('subprocess.run')
class TestClassLevel:
    def test_class_level_patch(self, run):
        subprocess.run(['true'], check=True)


class TestSetup:
    def setUp(self):
        self.patcher = patch('subprocess.run')
        self.patcher.start()

    def test_patcher_from_setup(self):
        subprocess.run(['true'], check=True)


def test_suppressed_error():
    with contextlib.suppress(subprocess.CalledProcessError):
        subprocess.run(['true'], check=True)


def test_with_as_binding():
    with patch('app.run') as completed:
        completed.check_returncode()


def test_walrus_bound_double():
    if (completed := MagicMock()):
        completed.check_returncode()


def test_tuple_bound_double():
    completed, other = MagicMock(), 1
    completed.check_returncode()
";

fn records(source: &str) -> BTreeMap<String, TestRecord> {
    let parsed = parse_python_file(source, "test_x.py").expect("the grammar reads every file");
    let project = project_from("/work/p", None, None);
    let sources = vec![Source { path: "test_x.py".to_string(), parsed }];
    assemble(project, sources, &NameSet::new(), true)
        .test_functions
        .into_iter()
        .map(|t| {
            let bare = t.nodeid.rsplit("::").next().expect("nodeid has a test name").to_string();
            (bare, t)
        })
        .collect()
}

fn record(source: &str, test: &str) -> TestRecord {
    records(source).remove(test).unwrap_or_else(|| panic!("no test named {test}"))
}

fn charged(test: &TestRecord) -> bool {
    score_terms(test).zero_asserts
}

#[test]
fn checked_run_is_external_verification_evidence() {
    let t = record(CHECKED, "test_child_process_contract");
    assert_eq!(t.assertion_count, 0, "assertion_count stays a syntactic count");
    assert_eq!(t.external_verification_count, 1);
}

#[test]
fn check_call_and_check_output_are_verification_evidence() {
    let recs = records(CHECKED);
    for name in ["test_check_call_contract", "test_check_output_contract"] {
        assert_eq!(recs[name].assertion_count, 0, "{name} asserts nothing locally");
        assert_eq!(recs[name].external_verification_count, 1, "{name}");
    }
}

#[test]
fn explicit_check_returncode_is_verification_evidence() {
    let t = record(CHECKED, "test_explicit_returncode_check");
    assert_eq!(t.assertion_count, 0);
    assert_eq!(t.external_verification_count, 1);
}

#[test]
fn aliased_and_imported_checked_calls_resolve() {
    let recs = records(ALIASES);
    for name in ["test_aliased_module", "test_aliased_function", "test_imported_check_call"] {
        assert_eq!(recs[name].external_verification_count, 1, "{name}");
    }
}

#[test]
fn checked_subprocess_test_is_not_scored_as_assertionless() {
    assert!(!charged(&record(CHECKED, "test_child_process_contract")));
    assert!(charged(&record(UNCHECKED, "test_unchecked_run")));
}

#[test]
fn unchecked_subprocess_is_not_verification_evidence() {
    let recs = records(UNCHECKED);
    for name in ["test_unchecked_run", "test_explicit_check_false", "test_popen_without_check"] {
        let t = &recs[name];
        assert_eq!(t.external_verification_count, 0, "{name}");
        assert_eq!(t.assertion_count, 0, "{name} has no local assertion either");
        assert!(charged(t), "{name}");
    }
}

#[test]
fn asserted_return_code_counts_as_an_assertion_not_as_verification() {
    let t = record(UNCHECKED, "test_asserted_return_code");
    assert_eq!(t.assertion_count, 1);
    assert_eq!(t.external_verification_count, 0);
    assert!(!charged(&t));
}

#[test]
fn independent_signals_survive_external_verification() {
    let mixed = record(MIXED_SIGNAL, "test_checked_subprocess_with_heavy_patching");
    let plain = record(CHECKED, "test_child_process_contract");
    assert_eq!(mixed.external_verification_count, 1);
    assert_eq!(mixed.patch_decorator_count, 3);
    assert!(mixed.smell_hits.iter().any(|h| h.category == "mock_overuse"));
    let (m, p) = (score_terms(&mixed), score_terms(&plain));
    assert!(m.patches > p.patches);
    assert!(m.smells > p.smells);
    assert!(!m.zero_asserts && !p.zero_asserts);
}

#[test]
fn a_checked_call_against_a_double_is_not_evidence() {
    let recs = records(SHADOWED);
    for name in [
        "test_patched_subprocess_run",
        "test_fixture_shadows_the_module",
        "test_monkeypatched_helper",
        "test_mocked_completed_process",
        "test_magicmock_returncode",
        "test_qualified_magicmock_returncode",
        "test_qualified_patch_object",
    ] {
        assert_eq!(recs[name].external_verification_count, 0, "{name}");
        assert!(charged(&recs[name]), "{name}");
    }
}

#[test]
fn verification_inside_a_nested_helper_is_not_evidence_either_way() {
    let t = record(SHADOWED, "test_helper_defined_and_called");
    assert_eq!(t.external_verification_count, 0);
    assert!(charged(&t));
}

#[test]
fn verification_inside_an_uncalled_nested_helper_is_not_evidence() {
    let t = record(SHADOWED, "test_helper_defined_but_never_called");
    assert_eq!(t.external_verification_count, 0);
    assert!(charged(&t));
}

#[test]
fn a_checked_call_whose_error_is_swallowed_is_not_evidence() {
    let recs = records(SHADOWED);
    for name in ["test_swallowed_called_process_error", "test_checked_only_in_except_branch"] {
        assert_eq!(recs[name].external_verification_count, 0, "{name}");
        assert!(charged(&recs[name]), "{name}");
    }
}

#[test]
fn a_self_rooted_return_code_check_is_evidence() {
    assert_eq!(record(CHECKED, "test_self_rooted_returncode").external_verification_count, 1);
}

#[test]
fn a_real_assertion_alongside_a_checked_call_keeps_both_signals() {
    let t = record(CHECKED, "test_asserts_and_checks");
    assert_eq!(t.assertion_count, 1);
    assert_eq!(t.external_verification_count, 1);
}

#[test]
fn a_double_installed_for_the_whole_class_is_not_evidence() {
    let recs = records(CLASS_SHADOWED);
    for name in ["test_class_level_patch", "test_patcher_from_setup"] {
        assert_eq!(recs[name].external_verification_count, 0, "{name}");
        assert!(charged(&recs[name]), "{name}");
    }
}

#[test]
fn a_suppressed_error_is_not_evidence() {
    let t = record(CLASS_SHADOWED, "test_suppressed_error");
    assert_eq!(t.external_verification_count, 0);
    assert!(charged(&t));
}

#[test]
fn doubles_bound_by_with_walrus_or_tuple_are_tracked() {
    let recs = records(CLASS_SHADOWED);
    for name in ["test_with_as_binding", "test_walrus_bound_double", "test_tuple_bound_double"] {
        assert_eq!(recs[name].external_verification_count, 0, "{name}");
    }
}

#[test]
fn only_a_plain_literal_names_what_a_patch_replaces() {
    for (target, evidence) in [
        ("'subprocess.run'", 0),
        ("r'subprocess.run'", 0),
        ("f'subprocess.run'", 1),
        ("F\"subprocess.run\"", 1),
        ("b'subprocess.run'", 1),
    ] {
        let source = format!(
            "import subprocess\nfrom unittest.mock import patch\n\n\n@patch({target})\ndef test_a(run):\n    subprocess.run(['true'], check=True)\n"
        );
        assert_eq!(record(&source, "test_a").external_verification_count, evidence, "{target}");
    }
}

#[test]
fn a_suppressing_context_counts_under_a_name_too() {
    let source = "\
import contextlib
import subprocess


def test_a():
    with contextlib.suppress(subprocess.CalledProcessError) as s:
        subprocess.run(['true'], check=True)


def test_b():
    with open('f') as f:
        subprocess.run(['true'], check=True)
";
    assert_eq!(record(source, "test_a").external_verification_count, 0);
    assert_eq!(record(source, "test_b").external_verification_count, 1);
}
