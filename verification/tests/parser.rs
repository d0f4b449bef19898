//! Records read off Python sources.
use pycoati::parser::{parse_python_file, ParsedFile};
use pycoati::TestRecord;

/// The ratio as a number.
fn ratio(t: &TestRecord) -> f64 {
    t.setup_to_assertion_ratio.lines as f64 / t.setup_to_assertion_ratio.assertions as f64
}

fn parse(src: &str) -> Vec<TestRecord> {
    parse_python_file(src, "synthetic.py").expect("parse").test_functions
}

fn parse_full(src: &str) -> ParsedFile {
    parse_python_file(src, "synthetic.py").expect("parse")
}

/// A checked subprocess call is verification evidence: the child's
/// non-zero exit status raises `CalledProcessError` in the parent.
#[test]
fn checked_subprocess_run_is_external_verification() {
    let src = "\
import subprocess

def test_a():
    subprocess.run([\"prog\"], check=True)
";
    let recs = parse(src);
    assert_eq!(recs[0].assertion_count, 0, "assertion_count stays syntactic");
    assert_eq!(recs[0].external_verification_count, 1);
}

#[test]
fn unchecked_subprocess_run_is_not_verification() {
    let src = "\
import subprocess

def test_a():
    subprocess.run([\"prog\"])
";
    let recs = parse(src);
    assert_eq!(recs[0].external_verification_count, 0);
}

#[test]
fn check_false_is_not_verification() {
    let src = "\
import subprocess

def test_a():
    subprocess.run([\"prog\"], check=False)
";
    let recs = parse(src);
    assert_eq!(recs[0].external_verification_count, 0);
}

#[test]
fn non_literal_check_value_is_not_verification() {
    // `check=strict` may be true at runtime; the source does not say so,
    // and the signal has to be provable from the source.
    let src = "\
import subprocess

def test_a(strict):
    subprocess.run([\"prog\"], check=strict)
";
    let recs = parse(src);
    assert_eq!(recs[0].external_verification_count, 0);
}

#[test]
fn check_call_and_check_output_need_no_keyword() {
    let src = "\
import subprocess

def test_a():
    subprocess.check_call([\"prog\"])
    subprocess.check_output([\"prog\"])
";
    let recs = parse(src);
    assert_eq!(recs[0].external_verification_count, 2);
}

#[test]
fn completed_process_check_returncode_is_verification() {
    let src = "\
import subprocess

def test_a():
    completed = subprocess.run([\"prog\"])
    completed.check_returncode()
";
    let recs = parse(src);
    assert_eq!(
        recs[0].external_verification_count, 1,
        "the unchecked run is not evidence; the explicit check is"
    );
}

#[test]
fn aliased_subprocess_names_resolve_through_the_import_map() {
    let src = "\
import subprocess as sp
from subprocess import check_call
from subprocess import run as run_child

def test_module_alias():
    sp.run([\"prog\"], check=True)

def test_function_alias():
    run_child([\"prog\"], check=True)

def test_direct_import():
    check_call([\"prog\"])
";
    let recs = parse(src);
    assert_eq!(recs.len(), 3);
    for r in &recs {
        assert_eq!(r.external_verification_count, 1, "{} did not resolve", r.nodeid);
    }
}

#[test]
fn check_hidden_in_a_kwargs_splat_is_not_matched() {
    // `**kwargs` may or may not carry `check=True`; the source does not
    // say. Pinned as a deliberate under-count, like the star import.
    let src = "\
import subprocess

def test_a(kwargs):
    subprocess.run([\"prog\"], **kwargs)
";
    let recs = parse(src);
    assert_eq!(recs[0].external_verification_count, 0);
}

#[test]
fn a_real_assertion_wins_the_ratio_but_keeps_the_evidence() {
    let src = "\
import subprocess

def test_a():
    completed = subprocess.run([\"prog\"], check=True)
    assert completed.stdout == \"ok\"
";
    let recs = parse(src);
    assert_eq!(recs[0].assertion_count, 1);
    assert_eq!(recs[0].external_verification_count, 1);
    assert!(
        (ratio(&recs[0]) - 2.0).abs() < f64::EPSILON,
        "the assert branch owns the ratio, got {}",
        ratio(&recs[0])
    );
}

#[test]
fn a_suppress_elsewhere_in_the_block_does_not_disarm_the_evidence() {
    // Only the `with` that opens `suppress` disarms what it wraps; a
    // later cleanup block in the same body must not reach backwards.
    let src = "\
import contextlib
import subprocess

def test_a():
    with open(\"f\") as fh:
        subprocess.check_call([\"prog\"])
        with contextlib.suppress(ValueError):
            pass
";
    let recs = parse(src);
    assert_eq!(recs[0].external_verification_count, 1);
}

#[test]
fn a_call_inside_suppress_is_disarmed() {
    let src = "\
import contextlib
import subprocess

def test_a():
    with contextlib.suppress(subprocess.CalledProcessError):
        subprocess.check_call([\"prog\"])
";
    let recs = parse(src);
    assert_eq!(recs[0].external_verification_count, 0);
}

#[test]
fn star_imported_run_is_not_matched() {
    // `from subprocess import *` binds an unknown set of names, so the
    // head does not canonicalize and the evidence is missed. Pinned
    // because under-counting here is a deliberate choice, not an
    // oversight — see the `verification` module docs.
    let src = "\
from subprocess import *

def test_a():
    run([\"prog\"], check=True)
";
    let recs = parse(src);
    assert_eq!(recs[0].external_verification_count, 0);
}

#[test]
fn patched_subprocess_is_not_verification() {
    let src = "\
import subprocess
from unittest.mock import patch

@patch(\"subprocess.run\")
def test_a(run):
    subprocess.run([\"prog\"], check=True)
";
    let recs = parse(src);
    assert_eq!(
        recs[0].external_verification_count, 0,
        "a double never exits non-zero, so checking it is not evidence"
    );
}

#[test]
fn monkeypatched_attribute_is_not_verification() {
    let src = "\
import subprocess as sp

def test_a(monkeypatch):
    monkeypatch.setattr(sp, \"check_call\", lambda *a: None)
    sp.check_call([\"prog\"])
";
    let recs = parse(src);
    assert_eq!(recs[0].external_verification_count, 0, "the patch target canonicalizes too");
}

#[test]
fn context_manager_patch_shadows_the_target() {
    let src = "\
import subprocess
from unittest.mock import patch

def test_a():
    with patch(\"subprocess.check_call\"):
        subprocess.check_call([\"prog\"])
";
    let recs = parse(src);
    assert_eq!(recs[0].external_verification_count, 0);
}

#[test]
fn parameter_shadowing_beats_the_module_import() {
    let src = "\
import subprocess

def test_a(subprocess):
    subprocess.run([\"prog\"], check=True)
";
    let recs = parse(src);
    assert_eq!(recs[0].external_verification_count, 0);
}

#[test]
fn verification_in_an_uncalled_nested_def_is_not_counted() {
    let src = "\
import subprocess

def test_a():
    def helper():
        subprocess.check_call([\"prog\"])
";
    let recs = parse(src);
    assert_eq!(recs[0].external_verification_count, 0);
}

#[test]
fn patching_something_else_leaves_the_evidence_alone() {
    let src = "\
import subprocess
from unittest.mock import patch

@patch(\"myproj.thing\")
def test_a(thing):
    subprocess.run([\"prog\"], check=True)
";
    let recs = parse(src);
    assert_eq!(recs[0].external_verification_count, 1);
}

#[test]
fn unrelated_run_with_check_true_is_not_verification() {
    // A local collaborator that happens to expose `run(check=...)` is
    // not a subprocess: the head does not canonicalize to `subprocess`.
    let src = "\
def test_a(runner):
    runner.run([\"prog\"], check=True)
";
    let recs = parse(src);
    assert_eq!(recs[0].external_verification_count, 0);
}

#[test]
fn verification_is_counted_inside_test_classes() {
    let src = "\
import subprocess

class TestThing:
    def test_a(self):
        subprocess.check_call([\"prog\"])
";
    let recs = parse(src);
    assert_eq!(recs.len(), 1);
    assert_eq!(recs[0].external_verification_count, 1);
}

#[test]
fn verification_site_replaces_the_body_height_in_the_setup_ratio() {
    // Same body twice; only the `check=True` differs. The unchecked one
    // falls back to the body height (4 rows below the `def`), the checked
    // one measures to its verification call site (row 1 below the `def`).
    let src = "\
import subprocess

def test_checked():
    cmd = [\"prog\"]
    subprocess.run(cmd, check=True)
    cleanup = True
    del cleanup

def test_unchecked():
    cmd = [\"prog\"]
    subprocess.run(cmd)
    cleanup = True
    del cleanup
";
    let recs = parse(src);
    let checked = recs.iter().find(|r| r.nodeid.ends_with("test_checked")).expect("checked");
    let unchecked =
        recs.iter().find(|r| r.nodeid.ends_with("test_unchecked")).expect("unchecked");
    assert!(
        (ratio(&checked) - 2.0).abs() < f64::EPSILON,
        "expected the rows up to the verification call site, got {}",
        ratio(&checked)
    );
    assert!(
        (ratio(&unchecked) - 4.0).abs() < f64::EPSILON,
        "expected the body height, got {}",
        ratio(&unchecked)
    );
}

#[test]
fn only_mock_asserts_predicate_is_true_for_pure_mock_test() {
    let src = "\
def test_a():
    assert mock.assert_called_once_with(1)
    assert repo.save.assert_called()
";
    let recs = parse(src);
    assert_eq!(recs.len(), 1);
    assert_eq!(recs[0].assertion_count, 2);
    assert!(recs[0].only_asserts_on_mock);
}

#[test]
fn mixed_asserts_yield_false() {
    let src = "\
def test_b():
    assert x == 1
    assert mock.assert_called()
";
    let recs = parse(src);
    assert_eq!(recs.len(), 1);
    assert_eq!(recs[0].assertion_count, 2);
    assert!(!recs[0].only_asserts_on_mock);
}

#[test]
fn isinstance_assert_is_non_mock() {
    let src = "\
def test_c():
    assert isinstance(x, Foo)
";
    let recs = parse(src);
    assert!(!recs[0].only_asserts_on_mock);
}

#[test]
fn zero_asserts_yield_false() {
    let src = "\
def test_d():
    pass
";
    let recs = parse(src);
    assert_eq!(recs[0].assertion_count, 0);
    assert!(!recs[0].only_asserts_on_mock);
}

#[test]
fn chained_attribute_uses_last_segment() {
    // The final attribute in the chain decides — even though `save` is
    // not a mock-API name, the outermost `.assert_called_once_with` is.
    let src = "\
def test_e():
    assert a.b.c.save.assert_called_once_with(1)
";
    let recs = parse(src);
    assert!(recs[0].only_asserts_on_mock);
}

#[test]
fn bare_attribute_without_call_is_recognised() {
    // `.called` is a property, not a method — no parentheses.
    let src = "\
def test_f():
    assert mock.called
";
    let recs = parse(src);
    assert!(recs[0].only_asserts_on_mock);
}

#[test]
fn non_attribute_call_is_non_mock() {
    let src = "\
def test_g():
    assert add(2, 3) == 5
";
    let recs = parse(src);
    assert!(!recs[0].only_asserts_on_mock);
}

#[test]
fn parenthesized_mock_attribute_is_recognised() {
    // Parens do not change semantics; `(mock.called)` is still a
    // mock-API attribute access.
    let src = "\
def test_h():
    assert (mock.called)
    assert (repo.save.assert_called_once_with(1))
";
    let recs = parse(src);
    assert_eq!(recs[0].assertion_count, 2);
    assert!(recs[0].only_asserts_on_mock);
}

#[test]
fn unary_negation_is_conservative_non_mock() {
    // `not mock.called` is NOT an attribute access at the outer level —
    // the spec says "Conservative is correct: when uncertain, mark as
    // non-mock." Run-3 may revisit if a clear policy emerges.
    let src = "\
def test_i():
    assert not mock.called
";
    let recs = parse(src);
    assert!(!recs[0].only_asserts_on_mock);
}

#[test]
fn nested_asserts_in_if_block_are_collected() {
    // Exercises the iterative cursor-descent: asserts nested inside
    // control flow must still be discovered.
    let src = "\
def test_j():
    if True:
        assert mock.assert_called()
        if x:
            assert repo.save.assert_called()
";
    let recs = parse(src);
    assert_eq!(recs[0].assertion_count, 2);
    assert!(recs[0].only_asserts_on_mock);
}

#[test]
fn decorated_top_level_test_is_detected() {
    let src = "\
@pytest.mark.parametrize('x', [1, 2])
def test_decorated(x):
    assert x > 0
";
    let recs = parse(src);
    assert_eq!(recs.len(), 1);
    assert_eq!(recs[0].nodeid, "synthetic.py::test_decorated");
    assert_eq!(recs[0].assertion_count, 1);
}

#[test]
fn multi_decorator_test_is_detected() {
    let src = "\
@pytest.mark.slow
@pytest.mark.parametrize('x', [1])
def test_stacked(x):
    assert x
";
    let recs = parse(src);
    assert_eq!(recs.len(), 1);
    assert_eq!(recs[0].nodeid, "synthetic.py::test_stacked");
}

#[test]
fn async_def_test_is_detected() {
    let src = "\
async def test_async_thing():
    assert True
";
    let recs = parse(src);
    assert_eq!(recs.len(), 1);
    assert_eq!(recs[0].nodeid, "synthetic.py::test_async_thing");
    assert_eq!(recs[0].assertion_count, 1);
}

#[test]
fn decorated_async_def_test_is_detected() {
    let src = "\
@pytest.mark.anyio
async def test_decorated_async():
    assert mock.called
";
    let recs = parse(src);
    assert_eq!(recs.len(), 1);
    assert_eq!(recs[0].nodeid, "synthetic.py::test_decorated_async");
    assert!(recs[0].only_asserts_on_mock);
}

#[test]
fn class_nested_test_method_uses_pytest_nodeid_format() {
    let src = "\
class TestFoo:
    def test_bar(self):
        assert 1 == 1
";
    let recs = parse(src);
    assert_eq!(recs.len(), 1);
    assert_eq!(recs[0].nodeid, "synthetic.py::TestFoo::test_bar");
    assert_eq!(recs[0].assertion_count, 1);
}

#[test]
fn decorated_class_method_is_detected() {
    let src = "\
class TestFoo:
    @pytest.mark.skip
    def test_bar(self):
        assert mock.called
";
    let recs = parse(src);
    assert_eq!(recs.len(), 1);
    assert_eq!(recs[0].nodeid, "synthetic.py::TestFoo::test_bar");
    assert!(recs[0].only_asserts_on_mock);
}

#[test]
fn multiple_methods_in_test_class_all_collected() {
    let src = "\
class TestThing:
    def test_one(self):
        assert 1
    @pytest.mark.parametrize('x', [1])
    def test_two(self, x):
        assert x
    async def test_three(self):
        assert True
";
    let recs = parse(src);
    assert_eq!(recs.len(), 3);
    let ids: Vec<&str> = recs.iter().map(|r| r.nodeid.as_str()).collect();
    assert!(ids.contains(&"synthetic.py::TestThing::test_one"));
    assert!(ids.contains(&"synthetic.py::TestThing::test_two"));
    assert!(ids.contains(&"synthetic.py::TestThing::test_three"));
}

#[test]
fn non_test_class_is_ignored() {
    let src = "\
class Helper:
    def test_bar(self):
        assert True
";
    let recs = parse(src);
    assert!(recs.is_empty());
}

#[test]
fn decorated_test_class_methods_are_detected() {
    let src = "\
@some_decorator
class TestFoo:
    def test_bar(self):
        assert 1
";
    let recs = parse(src);
    assert_eq!(recs.len(), 1);
    assert_eq!(recs[0].nodeid, "synthetic.py::TestFoo::test_bar");
}

#[test]
fn non_test_function_named_test_is_skipped() {
    let src = "\
@pytest.fixture
def some_fixture():
    return 1

def helper():
    assert False
";
    let recs = parse(src);
    assert!(recs.is_empty());
}

// ---- Run 3 Phase 1 additions ------------------------------------------

#[test]
fn mock_construction_counted_for_each_constructor_name() {
    let src = "\
def test_x():
    a = Mock()
    b = MagicMock()
    c = AsyncMock()
    d = create_autospec(Service)
    with patch('mod.thing') as p:
        assert a.called
";
    let parsed = parse_full(src);
    // Five constructor calls in the test body: Mock, MagicMock,
    // AsyncMock, create_autospec, patch.
    assert_eq!(parsed.mock_construction_count, 5);
    assert_eq!(parsed.test_functions.len(), 1);
}

#[test]
fn patch_decorators_counted_on_top_level_and_class_methods() {
    let src = "\
@patch('a')
def test_one():
    assert True

@mock.patch('b')
def test_two():
    assert True

@patch.object(Foo, 'bar')
def test_three():
    assert True

@foo.patch
def test_four():
    assert True

class TestK:
    @patch('z')
    def test_method(self):
        assert True
";
    let parsed = parse_full(src);
    let by_name: std::collections::BTreeMap<&str, u64> = parsed
        .test_functions
        .iter()
        .map(|t| (t.nodeid.rsplit("::").next().unwrap_or(""), t.patch_decorator_count))
        .collect();
    assert_eq!(by_name.get("test_one"), Some(&1));
    assert_eq!(by_name.get("test_two"), Some(&1));
    assert_eq!(by_name.get("test_three"), Some(&1));
    assert_eq!(by_name.get("test_four"), Some(&1));
    assert_eq!(by_name.get("test_method"), Some(&1));
    // Five tests, one patch decorator each → file-level sum = 5.
    assert_eq!(parsed.patch_decorator_count, 5);
}

#[test]
fn patch_decorator_count_handles_stacked_decorators() {
    let src = "\
@patch('a')
@patch('b')
def test_x():
    assert True
";
    let parsed = parse_full(src);
    assert_eq!(parsed.test_functions.len(), 1);
    assert_eq!(parsed.test_functions[0].patch_decorator_count, 2);
    assert_eq!(parsed.patch_decorator_count, 2);
}

#[test]
fn fixture_count_at_file_level_counts_only_pytest_fixtures() {
    let src = "\
import pytest
from dataclasses import dataclass

@pytest.fixture
def fix_a():
    return 1

@fixture
def fix_b():
    return 2

@pytest.fixture()
def fix_c():
    return 3

@dataclass
class Foo:
    x: int

class Bar:
    @property
    def value(self):
        return 1

def test_x():
    assert True
";
    let parsed = parse_full(src);
    assert_eq!(parsed.fixture_count, 3);
}

#[test]
fn setup_to_assertion_ratio_lines_between_def_and_first_assert() {
    let src = "\
def test_x():
    a = 1
    b = 2
    c = 3
    assert a == 1
";
    let parsed = parse_full(src);
    let t = &parsed.test_functions[0];
    // def at row 0, first assert at row 4 → delta 4; one assert → 4/1.
    assert!((ratio(t) - 4.0).abs() < 1e-9);
}

#[test]
fn setup_to_assertion_ratio_zero_assert_fallback() {
    let src = "\
def test_x():
    a = 1
    b = 2
    c = 3
";
    let parsed = parse_full(src);
    let t = &parsed.test_functions[0];
    // def at row 0; body's last statement at row 3; ratio = 3 / 1.
    assert!((ratio(t) - 3.0).abs() < 1e-9);
}

#[test]
fn setup_to_assertion_ratio_multiple_asserts_divides_by_assertion_count() {
    let src = "\
def test_x():
    a = 1
    assert a == 1
    assert a > 0
";
    let parsed = parse_full(src);
    let t = &parsed.test_functions[0];
    // def at row 0, first assert at row 2 → delta 2; two asserts → 2/2.
    assert!((ratio(t) - 1.0).abs() < 1e-9);
}

#[test]
fn called_names_emit_dot_joined_head_chains() {
    let src = "\
def test_x():
    repo.save(1)
    Repository()
    uuid.uuid4()
    assert True
";
    let parsed = parse_full(src);
    let names = &parsed.test_functions[0].called_names;
    assert_eq!(
        names,
        &vec!["Repository".to_string(), "repo.save".to_string(), "uuid.uuid4".to_string()]
    );
}

#[test]
fn called_names_filter_self_calls() {
    let src = "\
class TestT:
    def test_x(self):
        self.assertTrue(True)
        self.client.get('/')
        assert True
";
    let parsed = parse_full(src);
    assert_eq!(parsed.test_functions.len(), 1);
    let names = &parsed.test_functions[0].called_names;
    assert!(names.is_empty(), "expected no called_names, got {names:?}");
}

#[test]
fn called_names_dedup_and_sort_within_test() {
    let src = "\
def test_x():
    repo.save(1)
    repo.save(2)
    repo.load(3)
    assert True
";
    let parsed = parse_full(src);
    let names = &parsed.test_functions[0].called_names;
    assert_eq!(names, &vec!["repo.load".to_string(), "repo.save".to_string()]);
}

#[test]
fn called_names_both_nodeid_shapes() {
    let src = "\
class TestT:
    def test_method(self):
        repo.save(1)
        assert True

def test_top_level():
    Service().run()
    assert True
";
    let parsed = parse_full(src);
    let by_id: std::collections::BTreeMap<&str, &Vec<String>> =
        parsed.test_functions.iter().map(|t| (t.nodeid.as_str(), &t.called_names)).collect();
    let cls =
        by_id.get("synthetic.py::TestT::test_method").expect("class-nested record present");
    assert_eq!(*cls, &vec!["repo.save".to_string()]);
    let top = by_id.get("synthetic.py::test_top_level").expect("top-level record present");
    // `Service().run()` chains a call onto another call — only `Service`
    // is a pure attribute chain at the function child of the outermost
    // call expression; the `.run()` callable's function child is itself
    // a `call`, which `call_head_chain` returns `None` for.
    assert_eq!(*top, &vec!["Service".to_string()]);
}

// ---- ImportMap construction (optional Phase 1 work) -------------------

#[test]
fn import_map_handles_plain_imports() {
    let src = "\
import foo
import bar.baz
";
    let parsed = parse_full(src);
    assert_eq!(parsed.import_map.aliases.get("foo"), Some(&"foo".to_string()));
    assert_eq!(parsed.import_map.aliases.get("bar"), Some(&"bar.baz".to_string()));
}

#[test]
fn import_map_handles_aliases() {
    let src = "\
import foo.bar as fb
import quux as q
";
    let parsed = parse_full(src);
    assert_eq!(parsed.import_map.aliases.get("fb"), Some(&"foo.bar".to_string()));
    assert_eq!(parsed.import_map.aliases.get("q"), Some(&"quux".to_string()));
}

#[test]
fn import_map_handles_from_imports() {
    // The alias-map value is the canonical full dotted name of the
    // local binding: `source_module + . + imported_name`. For an
    // aliased from-import, the alias is the KEY and the imported name
    // (`baz`) is the suffix of the canonical value.
    let src = "\
from foo import bar
from foo import baz as b
";
    let parsed = parse_full(src);
    assert_eq!(parsed.import_map.aliases.get("bar"), Some(&"foo.bar".to_string()));
    assert_eq!(parsed.import_map.aliases.get("b"), Some(&"foo.baz".to_string()));
}

#[test]
fn parser_import_map_records_star_imports() {
    let src = "\
from foo import *
";
    let parsed = parse_full(src);
    assert!(parsed.import_map.star_sources.contains("foo"));
    // No alias-map entry for star imports.
    assert!(parsed.import_map.aliases.is_empty());
}

#[test]
fn with_pytest_raises_counts_as_assertion() {
    let src = "\
def test_raises_value():
    with pytest.raises(ValueError):
        do_thing()
";
    let recs = parse(src);
    assert_eq!(recs.len(), 1);
    assert_eq!(recs[0].assertion_count, 1);
    assert!(!recs[0].only_asserts_on_mock);
}

#[test]
fn bare_raises_counts_as_assertion() {
    let src = "\
def test_raises_bare():
    with raises(KeyError) as ei:
        do_thing()
";
    let recs = parse(src);
    assert_eq!(recs[0].assertion_count, 1);
}

#[test]
fn raises_block_disqualifies_only_asserts_on_mock() {
    // Mock assert plus a pytest.raises block: the raises block is a
    // non-mock effective assertion, so only_asserts_on_mock must be false.
    let src = "\
def test_mixed():
    assert mock.called
    with pytest.raises(ValueError):
        boom()
";
    let recs = parse(src);
    assert_eq!(recs[0].assertion_count, 2);
    assert!(!recs[0].only_asserts_on_mock);
}

#[test]
fn multiple_raises_blocks_each_count() {
    let src = "\
def test_two_raises():
    with pytest.raises(ValueError):
        a()
    with pytest.raises(KeyError):
        b()
";
    let recs = parse(src);
    assert_eq!(recs[0].assertion_count, 2);
}

#[test]
fn unrelated_with_block_is_not_an_assertion() {
    // `with open(...)` is not an assertion; only pytest.raises / raises.
    let src = "\
def test_opens_file():
    with open('x') as f:
        f.read()
";
    let recs = parse(src);
    assert_eq!(recs[0].assertion_count, 0);
}

#[test]
fn nested_with_pytest_raises_is_collected() {
    // Mirrors `nested_asserts_in_if_block_are_collected`: a raises block
    // buried in control flow must still be discovered.
    let src = "\
def test_nested():
    if cond:
        with pytest.raises(ValueError):
            boom()
";
    let recs = parse(src);
    assert_eq!(recs[0].assertion_count, 1);
}

// ---- Phase 2 stubs_count -----------------------------------------------

#[test]
fn monkeypatch_calls_increment_stubs_count() {
    let src = "\
def test_x(monkeypatch):
    monkeypatch.setattr(os, 'getcwd', lambda: '/x')
    monkeypatch.setenv('FOO', 'bar')
    monkeypatch.delenv('BAZ', raising=False)
    assert True
";
    let parsed = parse_full(src);
    let t = &parsed.test_functions[0];
    assert_eq!(t.stubs_count, 3);
    assert_eq!(parsed.stubs_count, 3);
}

#[test]
fn mocker_calls_increment_stubs_count() {
    let src = "\
def test_x(mocker):
    mocker.patch('mod.thing')
    mocker.patch.object(Foo, 'bar')
    mocker.spy(Foo, 'baz')
    mocker.MagicMock()
    assert True
";
    let parsed = parse_full(src);
    let t = &parsed.test_functions[0];
    assert_eq!(t.stubs_count, 4);
    assert_eq!(parsed.stubs_count, 4);
}

#[test]
fn stubs_count_is_per_test_and_aggregated_to_file() {
    let src = "\
def test_one(monkeypatch):
    monkeypatch.setattr(os, 'getcwd', lambda: '/x')
    assert True

def test_two(mocker):
    mocker.patch('a')
    mocker.patch('b')
    assert True
";
    let parsed = parse_full(src);
    let by_name: std::collections::BTreeMap<&str, u64> = parsed
        .test_functions
        .iter()
        .map(|t| (t.nodeid.rsplit("::").next().unwrap_or(""), t.stubs_count))
        .collect();
    assert_eq!(by_name.get("test_one"), Some(&1));
    assert_eq!(by_name.get("test_two"), Some(&2));
    assert_eq!(parsed.stubs_count, 3);
}

#[test]
fn unrelated_calls_do_not_increment_stubs_count() {
    // `mock.patch` (Mock-API module) and `monkeypatch.foobar` (unknown
    // method) must not count — STUB_HEADS is a closed list of exact
    // dotted call-heads.
    let src = "\
def test_x(mocker):
    mock.patch('a')
    monkeypatch.foobar()
    repo.save(1)
    assert True
";
    let parsed = parse_full(src);
    assert_eq!(parsed.test_functions[0].stubs_count, 0);
    assert_eq!(parsed.stubs_count, 0);
}

#[test]
fn stubs_count_disjoint_from_mock_construction_count() {
    // A test body that mixes `Mock()` (constructor) with
    // `monkeypatch.setattr` (stub head) reports each on its own axis —
    // the two counts must not collide.
    let src = "\
def test_x(monkeypatch):
    m = Mock()
    monkeypatch.setattr(os, 'getcwd', lambda: '/x')
    assert True
";
    let parsed = parse_full(src);
    assert_eq!(parsed.mock_construction_count, 1);
    assert_eq!(parsed.stubs_count, 1);
    assert_eq!(parsed.test_functions[0].stubs_count, 1);
}

#[test]
fn setup_is_shared_out_among_all_assertions() {
    let recs = parse(
        "class TestT:\n    def test_x(self):\n        a = 1\n        assert a\n        self.assertTrue(a)\n",
    );
    assert_eq!(recs.len(), 1);
    assert_eq!(recs[0].assertion_count, 2);
    assert_eq!(recs[0].setup_to_assertion_ratio.lines, 2);
    assert_eq!(recs[0].setup_to_assertion_ratio.assertions, 2);
}

#[test]
fn setup_ends_at_the_first_assertion_method_too() {
    let recs = parse(
        "class TestT:\n    def test_x(self):\n        a = 1\n        self.assertTrue(a)\n        b = 2\n        c = 3\n",
    );
    assert_eq!(recs[0].assertion_count, 1);
    assert_eq!(recs[0].setup_to_assertion_ratio.lines, 2);
    assert_eq!(recs[0].setup_to_assertion_ratio.assertions, 1);
}
