//! Smells of tests and files.
use pycoati::records::FileRecord;
use pycoati::smells::{
    derive_file_smells, derive_test_smells, mock_overuse_fires, MockSmellConfig,
};
use pycoati::{Measure, SetupRatio, TestRecord};

fn measure(x: f64) -> Measure {
    Measure { bits: x.to_bits(), shown: format!("{x:.2}") }
}

fn make_test(nodeid: &str) -> TestRecord {
    TestRecord {
        nodeid: nodeid.to_string(),
        file: "tests/test_x.py".to_string(),
        line: 1,
        assertion_count: 0,
        only_asserts_on_mock: false,
        patch_decorator_count: 0,
        stubs_count: 0,
        setup_to_assertion_ratio: SetupRatio { lines: 0, assertions: 1 },
        external_verification_count: 0,
        called_names: Vec::new(),
        smell_hits: Vec::new(),
        suspicion_score: measure(0.0),
        fingerprint: None,
        accepted_signals: Vec::new(),
    }
}

fn make_file(path: &str) -> FileRecord {
    FileRecord {
        path: path.to_string(),
        test_function_count: 0,
        assertion_count: 0,
        mock_construction_count: 0,
        patch_decorator_count: 0,
        stubs_count: 0,
        fixture_count: 0,
        smell_hits: Vec::new(),
    }
}

#[test]
fn mock_only_assertions_fires_when_only_asserts_on_mock_and_count_gt_zero() {
    let mut t = make_test("a::t");
    t.only_asserts_on_mock = true;
    t.assertion_count = 3;
    let hits = derive_test_smells(&t, &MockSmellConfig::default());
    assert_eq!(hits.len(), 1);
    assert_eq!(hits[0].category, "mock_only_assertions");
    assert_eq!(hits[0].evidence, "all 3 asserts on Mock API");
}

#[test]
fn mock_only_assertions_does_not_fire_when_count_is_zero() {
    let mut t = make_test("a::t");
    t.only_asserts_on_mock = true;
    t.assertion_count = 0;
    let hits = derive_test_smells(&t, &MockSmellConfig::default());
    assert!(hits.iter().all(|h| h.category != "mock_only_assertions"));
}

#[test]
fn mock_only_assertions_does_not_fire_when_only_asserts_on_mock_false() {
    let mut t = make_test("a::t");
    t.only_asserts_on_mock = false;
    t.assertion_count = 5;
    let hits = derive_test_smells(&t, &MockSmellConfig::default());
    assert!(hits.iter().all(|h| h.category != "mock_only_assertions"));
}

#[test]
fn mock_overuse_fires_strict_inequality() {
    // 3 mocks, 1 assert. bound = max(1, 2) = 2. 3 > 2 ✓.
    // ratio = 3 / 1 = 3.0. 3.0 > 2.0 ✓.
    assert!(mock_overuse_fires(3, 1, &MockSmellConfig::default()));
}

#[test]
fn mock_overuse_does_not_fire_on_boundary() {
    // 2 mocks, 2 asserts. bound = max(2, 2) = 2. 2 > 2 false → no fire.
    assert!(!mock_overuse_fires(2, 2, &MockSmellConfig::default()));
}

#[test]
fn mock_overuse_respects_floor() {
    // 1 mock, 0 asserts. bound = max(0, 2) = 2. 1 > 2 false → no fire.
    assert!(!mock_overuse_fires(1, 0, &MockSmellConfig::default()));
}

#[test]
fn mock_overuse_respects_ratio() {
    // 3 mocks, 2 asserts. bound = max(2, 2) = 2. 3 > 2 ✓.
    // ratio = 3 / 2 = 1.5. 1.5 > 2.0 false → no fire.
    assert!(!mock_overuse_fires(3, 2, &MockSmellConfig::default()));
}

#[test]
fn file_level_mock_only_fires_when_all_asserting_tests_only_mock() {
    let mut t1 = make_test("a::t1");
    t1.only_asserts_on_mock = true;
    t1.assertion_count = 2;
    let mut t2 = make_test("a::t2");
    t2.only_asserts_on_mock = true;
    t2.assertion_count = 1;
    // Zero-assert test is excluded from the predicate.
    let t3 = make_test("a::t3");
    let f = make_file("a");
    let refs: Vec<&TestRecord> = vec![&t1, &t2, &t3];
    let hits = derive_file_smells(&f, &refs, &MockSmellConfig::default());
    assert!(hits.iter().any(|h| h.category == "mock_only_assertions"));
    // File-level hits set test = None, line = 0.
    let hit = hits.iter().find(|h| h.category == "mock_only_assertions").unwrap();
    assert_eq!(hit.test, None);
    assert_eq!(hit.line, 0);
}

#[test]
fn file_level_mock_only_does_not_fire_when_no_asserting_tests() {
    let t = make_test("a::t");
    let f = make_file("a");
    let refs: Vec<&TestRecord> = vec![&t];
    let hits = derive_file_smells(&f, &refs, &MockSmellConfig::default());
    assert!(hits.iter().all(|h| h.category != "mock_only_assertions"));
}

#[test]
fn file_level_mock_overuse_uses_file_aggregates() {
    let mut f = make_file("a");
    f.mock_construction_count = 5;
    f.patch_decorator_count = 0;
    f.assertion_count = 1;
    let refs: Vec<&TestRecord> = Vec::new();
    let hits = derive_file_smells(&f, &refs, &MockSmellConfig::default());
    assert!(hits.iter().any(|h| h.category == "mock_overuse"));
    let hit = hits.iter().find(|h| h.category == "mock_overuse").unwrap();
    assert_eq!(hit.evidence, "5 mocks, 1 assertions");
}

#[test]
fn per_test_mock_overuse_consumes_stubs_count() {
    // No `@patch` decorators, but four fixture-driven stubs and one
    // assert — `(0 + 4)` should fire the smell on its own.
    let mut t = make_test("a::t");
    t.patch_decorator_count = 0;
    t.stubs_count = 4;
    t.assertion_count = 1;
    let hits = derive_test_smells(&t, &MockSmellConfig::default());
    let mo = hits.iter().find(|h| h.category == "mock_overuse").expect("mock_overuse hit");
    assert_eq!(mo.evidence, "4 mocks, 1 assertions");
}

#[test]
fn per_test_mock_overuse_sums_patches_and_stubs() {
    // 2 patches + 2 stubs = 4 against 1 assert.
    let mut t = make_test("a::t");
    t.patch_decorator_count = 2;
    t.stubs_count = 2;
    t.assertion_count = 1;
    let hits = derive_test_smells(&t, &MockSmellConfig::default());
    let mo = hits.iter().find(|h| h.category == "mock_overuse").expect("mock_overuse hit");
    assert_eq!(mo.evidence, "4 mocks, 1 assertions");
}

#[test]
fn file_level_mock_overuse_includes_stubs_count() {
    // No constructions / no decorators, but a stub-heavy file with one
    // assert — `(0 + 0 + 5)` fires `mock_overuse` at file scope.
    let mut f = make_file("a");
    f.mock_construction_count = 0;
    f.patch_decorator_count = 0;
    f.stubs_count = 5;
    f.assertion_count = 1;
    let refs: Vec<&TestRecord> = Vec::new();
    let hits = derive_file_smells(&f, &refs, &MockSmellConfig::default());
    let mo = hits.iter().find(|h| h.category == "mock_overuse").expect("mock_overuse hit");
    assert_eq!(mo.evidence, "5 mocks, 1 assertions");
}
