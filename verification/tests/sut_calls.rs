//! Calls into the project.
use pycoati::names::NameSet;
use pycoati::parser::parse_python_file;
use pycoati::sut_calls::{aggregate, resolve_called_name, FileImports, ImportMap};
use pycoati::{Measure, SetupRatio, TestRecord};

fn measure(x: f64) -> Measure {
    Measure { bits: x.to_bits(), shown: format!("{x:.2}") }
}

fn pkgs<const N: usize>(names: [&str; N]) -> NameSet {
    let mut set = NameSet::new();
    for name in names {
        set.insert(name.to_string());
    }
    set
}

fn make_record(nodeid: &str, called: &[&str]) -> TestRecord {
    TestRecord {
        nodeid: nodeid.to_string(),
        file: "tests/test_x.py".to_string(),
        line: 1,
        assertion_count: 0,
        only_asserts_on_mock: false,
        patch_decorator_count: 0,
        stubs_count: 0,
        setup_to_assertion_ratio: SetupRatio { lines: 0, assertions: 1 },
        external_verification_count: 0,
        called_names: called.iter().map(|s| (*s).to_string()).collect(),
        smell_hits: Vec::new(),
        suspicion_score: measure(0.0),
        fingerprint: None,
        accepted_signals: Vec::new(),
    }
}

#[test]
fn import_map_handles_plain_import() {
    let src = "import foo\n";
    let parsed =
        parse_python_file(src, "synthetic.py").expect("parse");
    assert_eq!(parsed.import_map.aliases.get("foo"), Some(&"foo".to_string()));
}

#[test]
fn import_map_handles_aliased_import() {
    let src = "import foo as f\n";
    let parsed =
        parse_python_file(src, "synthetic.py").expect("parse");
    assert_eq!(parsed.import_map.aliases.get("f"), Some(&"foo".to_string()));
}

#[test]
fn import_map_handles_from_import() {
    // The alias-map value is the canonical full dotted name of the
    // local binding (`source_module + . + imported_name`).
    let src = "from foo import bar\n";
    let parsed =
        parse_python_file(src, "synthetic.py").expect("parse");
    assert_eq!(parsed.import_map.aliases.get("bar"), Some(&"foo.bar".to_string()));
}

#[test]
fn import_map_handles_from_import_with_alias() {
    // For an aliased from-import the alias keys the map and the
    // originally imported name is the suffix of the canonical value.
    let src = "from foo import bar as b\n";
    let parsed =
        parse_python_file(src, "synthetic.py").expect("parse");
    assert_eq!(parsed.import_map.aliases.get("b"), Some(&"foo.bar".to_string()));
}

#[test]
fn import_map_handles_dotted_module_with_alias() {
    let src = "import foo.bar as fb\n";
    let parsed =
        parse_python_file(src, "synthetic.py").expect("parse");
    assert_eq!(parsed.import_map.aliases.get("fb"), Some(&"foo.bar".to_string()));
}

#[test]
fn sut_calls_import_map_records_star_imports() {
    let src = "from foo import *\n";
    let parsed =
        parse_python_file(src, "synthetic.py").expect("parse");
    assert!(parsed.import_map.star_sources.contains("foo"));
    assert!(parsed.import_map.aliases.is_empty());
}

// ---- resolve_called_name --------------------------------------------

#[test]
fn resolve_keeps_project_internal_via_alias() {
    // `from myproj import Repo` produces alias `Repo -> myproj.Repo`
    // (canonical form). `Repo.save` resolves to `myproj.Repo.save`.
    let mut imports = ImportMap::default();
    imports.aliases.insert("Repo".to_string(), "myproj.Repo".to_string());
    let resolved = resolve_called_name("Repo.save", &imports, &pkgs(["myproj"]));
    assert_eq!(resolved, Some("myproj.Repo.save".to_string()));
}

#[test]
fn resolve_keeps_aliased_from_dotted_module() {
    // `from myproj.repository import Repository` produces alias
    // `Repository -> myproj.repository.Repository`.
    let mut imports = ImportMap::default();
    imports
        .aliases
        .insert("Repository".to_string(), "myproj.repository.Repository".to_string());
    let resolved = resolve_called_name("Repository.save", &imports, &pkgs(["myproj"]));
    assert_eq!(resolved, Some("myproj.repository.Repository.save".to_string()));
}

#[test]
fn resolve_drops_stdlib() {
    // `import uuid` → alias `uuid -> uuid`. Calling `uuid.uuid4` resolves
    // canonically to `uuid.uuid4`; its head `uuid` is not a project
    // package → dropped.
    let mut imports = ImportMap::default();
    imports.aliases.insert("uuid".to_string(), "uuid".to_string());
    let resolved = resolve_called_name("uuid.uuid4", &imports, &pkgs(["myproj"]));
    assert_eq!(resolved, None);
}

#[test]
fn resolve_drops_third_party() {
    // `from pytest import fixture` → alias `fixture -> pytest.fixture`.
    // Canonical head `pytest` is not project → dropped.
    let mut imports = ImportMap::default();
    imports.aliases.insert("fixture".to_string(), "pytest.fixture".to_string());
    let resolved = resolve_called_name("fixture", &imports, &pkgs(["myproj"]));
    assert_eq!(resolved, None);
}

#[test]
fn resolve_drops_self_calls() {
    // Phase 1 filters these — confirm we don't reintroduce them.
    let imports = ImportMap::default();
    assert_eq!(resolve_called_name("self.foo", &imports, &pkgs(["myproj"])), None);
    assert_eq!(resolve_called_name("self", &imports, &pkgs(["myproj"])), None);
}

#[test]
fn star_import_keeps_unresolved_bare_names_under_project_package() {
    let mut imports = ImportMap::default();
    imports.star_sources.insert("myproj".to_string());
    let resolved = resolve_called_name("compute", &imports, &pkgs(["myproj"]));
    assert_eq!(resolved, Some("myproj.compute".to_string()));
}

#[test]
fn resolve_keeps_name_with_head_equal_to_project_package() {
    let imports = ImportMap::default();
    let resolved = resolve_called_name("myproj.greet", &imports, &pkgs(["myproj"]));
    assert_eq!(resolved, Some("myproj.greet".to_string()));
}

#[test]
fn resolve_drops_unresolved_when_no_star_import() {
    let imports = ImportMap::default();
    let resolved = resolve_called_name("compute", &imports, &pkgs(["myproj"]));
    assert_eq!(resolved, None);
}

// ---- aggregate -------------------------------------------------------

#[test]
fn aggregator_dedupes_test_nodeids() {
    // Same raw name appearing twice in a single test's called_names
    // resolves to the same canonical and must produce a single by_name
    // entry with `test_function_count = 1` and one nodeid.
    let mut imports = ImportMap::default();
    imports
        .aliases
        .insert("Repository".to_string(), "myproj.repository.Repository".to_string());
    let mut tests =
        vec![make_record("tests/test_x.py::test_a", &["Repository.save", "Repository.save"])];
    let mut imports_per_file = FileImports::new();
    imports_per_file.insert("tests/test_x.py".to_string(), imports);
    let sc = aggregate(&mut tests, &imports_per_file, &pkgs(["myproj"]));
    assert_eq!(sc.by_name.len(), 1);
    assert_eq!(sc.by_name[0].name, "myproj.repository.Repository.save");
    assert_eq!(sc.by_name[0].test_function_count, 1);
    assert_eq!(sc.by_name[0].test_nodeids, vec!["tests/test_x.py::test_a".to_string()]);
}

#[test]
fn aggregator_top_called_sorted_desc_then_name_asc() {
    // Counts: a=2, b=2, c=3 → top_called = ["c", "a", "b"].
    let mut imports = ImportMap::default();
    imports.star_sources.insert("myproj".to_string());
    let mut tests = vec![
        make_record("tests/test_x.py::t1", &["a", "b", "c"]),
        make_record("tests/test_x.py::t2", &["a", "b", "c"]),
        make_record("tests/test_x.py::t3", &["c"]),
    ];
    let mut imports_per_file = FileImports::new();
    imports_per_file.insert("tests/test_x.py".to_string(), imports);
    let sc = aggregate(&mut tests, &imports_per_file, &pkgs(["myproj"]));
    assert_eq!(
        sc.top_called,
        vec!["myproj.c".to_string(), "myproj.a".to_string(), "myproj.b".to_string()]
    );
}

#[test]
fn aggregator_top_called_caps_at_twenty() {
    // 25 unique called names all with `test_function_count = 1` — the
    // tiebreaker (name ascending) picks the lexicographically-smallest
    // 20. Names are zero-padded so the lex order matches numeric.
    let mut imports = ImportMap::default();
    imports.star_sources.insert("myproj".to_string());
    let names: Vec<String> = (0..25).map(|i| format!("n{i:02}")).collect();
    let calls: Vec<&str> = names.iter().map(String::as_str).collect();
    let mut tests = vec![make_record("tests/test_x.py::t1", &calls)];
    let mut imports_per_file = FileImports::new();
    imports_per_file.insert("tests/test_x.py".to_string(), imports);
    let sc = aggregate(&mut tests, &imports_per_file, &pkgs(["myproj"]));
    assert_eq!(sc.top_called.len(), 20);
    assert_eq!(sc.top_called.first().map(String::as_str), Some("myproj.n00"));
    assert_eq!(sc.top_called.last().map(String::as_str), Some("myproj.n19"));
}

#[test]
fn aggregator_writes_resolved_names_back_to_record() {
    let mut imports = ImportMap::default();
    imports
        .aliases
        .insert("Repository".to_string(), "myproj.repository.Repository".to_string());
    let mut tests = vec![make_record("tests/test_x.py::t", &["Repository.save", "uuid.uuid4"])];
    let mut imports_per_file = FileImports::new();
    imports_per_file.insert("tests/test_x.py".to_string(), imports);
    let _ = aggregate(&mut tests, &imports_per_file, &pkgs(["myproj"]));
    assert_eq!(tests[0].called_names, vec!["myproj.repository.Repository.save".to_string()]);
}
