//! What the score is made of, and rankings by it.
use pycoati::records::FileRecord;
use pycoati::suspicion::{
    bonus_terms, score_terms, shortlist, tests_of_file, top_n_files, top_n_tests, SuspicionWeights,
    PATCH_SATURATION, SETUP_RATIO_INFLECTION, SETUP_RATIO_SCALE, SMELL_SATURATION,
};
use pycoati::{Measure, SetupRatio, SmellHit, TestRecord};

fn measure(x: f64) -> Measure {
    Measure { bits: x.to_bits(), shown: format!("{x:.2}") }
}

fn make_test(nodeid: &str) -> TestRecord {
    TestRecord {
        nodeid: nodeid.to_string(),
        file: "tests/test_x.py".to_string(),
        line: 1,
        assertion_count: 1,
        only_asserts_on_mock: false,
        patch_decorator_count: 0,
        stubs_count: 0,
        setup_to_assertion_ratio: SetupRatio { lines: 0, assertions: 1 },
        external_verification_count: 0,
        called_names: Vec::new(),
        smell_hits: Vec::new(),
        suspicion_score: measure(0.0),
        fingerprint: None,
        accepted_signals: Vec::new(),
    }
}

fn make_file(path: &str) -> FileRecord {
    FileRecord {
        path: path.to_string(),
        test_function_count: 0,
        assertion_count: 0,
        mock_construction_count: 0,
        patch_decorator_count: 0,
        stubs_count: 0,
        fixture_count: 0,
        smell_hits: Vec::new(),
    }
}

#[test]
fn top_n_tests_sorted_desc_by_score_then_asc_by_nodeid() {
    let mut a = make_test("a");
    a.suspicion_score = measure(0.1);
    let mut b = make_test("b");
    b.suspicion_score = measure(0.1);
    let mut c = make_test("c");
    c.suspicion_score = measure(0.5);
    let records = vec![a, b, c];
    let top = top_n_tests(&records, 3);
    assert_eq!(top, vec!["c".to_string(), "a".to_string(), "b".to_string()]);
}

#[test]
fn top_n_tests_caps_at_n() {
    let records: Vec<TestRecord> = (0..30)
        .map(|i| {
            let mut t = make_test(&format!("t{i:02}"));
            t.suspicion_score = measure(f64::from(i) / 100.0);
            t
        })
        .collect();
    let top = top_n_tests(&records, 5);
    assert_eq!(top.len(), 5);
}

#[test]
fn top_n_tests_n_zero_returns_empty() {
    let a = make_test("a");
    let top = top_n_tests(&vec![a], 0);
    assert!(top.is_empty());
}

#[test]
fn top_n_files_sorted_desc_then_asc_by_path() {
    let f_a = make_file("a");
    let f_b = make_file("b");
    let f_c = make_file("c");
    let files = vec![f_a, f_b, f_c];
    let scores = vec![measure(0.1), measure(0.1), measure(0.5)];
    let top = top_n_files(&files, &scores, 3);
    assert_eq!(top, vec!["c".to_string(), "a".to_string(), "b".to_string()]);
}

#[test]
fn top_n_files_caps_at_n() {
    let files: Vec<FileRecord> = (0..30).map(|i| make_file(&format!("f{i:02}"))).collect();
    let scores: Vec<Measure> = (0..30).map(|i| measure(f64::from(i) / 100.0)).collect();
    let top = top_n_files(&files, &scores, 5);
    assert_eq!(top.len(), 5);
}

fn smell_hit() -> SmellHit {
    SmellHit { category: "mock_overuse".to_string(), test: None, line: 0, evidence: String::new() }
}

fn approx_eq(a: f64, b: f64) -> bool {
    (a - b).abs() < 1e-9
}

fn score_with(test: &TestRecord, w: &SuspicionWeights) -> f64 {
    let t = score_terms(test);
    let ratio = t.setup.lines as f64 / t.setup.assertions as f64;
    let x = (ratio - SETUP_RATIO_INFLECTION as f64) / SETUP_RATIO_SCALE as f64;
    let mut sum = 0.0;
    if t.mock_only {
        sum += w.w_mock_only as f64 / 100.0;
    }
    sum += w.w_patch_count as f64 / 100.0 * (t.patches as f64 / PATCH_SATURATION as f64);
    sum += w.w_setup_ratio as f64 / 100.0 / (1.0 + (-x).exp());
    if t.zero_asserts {
        sum += w.w_zero_asserts as f64 / 100.0;
    }
    sum + w.w_smell_density as f64 / 100.0 * (t.smells as f64 / SMELL_SATURATION as f64)
}

fn score(test: &TestRecord) -> f64 {
    score_with(test, &SuspicionWeights::default())
}

fn file_score(file: &FileRecord, scores: &[f64]) -> f64 {
    if scores.is_empty() {
        return 0.0;
    }
    let (constructions, assertions) = bonus_terms(file);
    let bonus = ((constructions as f64 / assertions as f64 - 1.0).max(0.0) * 0.05).min(0.1);
    scores.iter().sum::<f64>() / scores.len() as f64 + bonus
}

#[test]
fn the_weights_are_hundredths_that_sum_up_to_one() {
    let w = SuspicionWeights::default();
    assert_eq!(w.w_mock_only, 35);
    assert_eq!(w.w_patch_count, 20);
    assert_eq!(w.w_setup_ratio, 15);
    assert_eq!(w.w_zero_asserts, 20);
    assert_eq!(w.w_smell_density, 10);
}

#[test]
fn mock_only_term_is_w_mock_only_when_true() {
    let mut t = make_test("a");
    t.only_asserts_on_mock = true;
    let on = score(&t);
    t.only_asserts_on_mock = false;
    let off = score(&t);
    assert!(approx_eq(on - off, 0.35));
}

#[test]
fn mock_only_term_is_zero_when_false() {
    let t = make_test("a");
    let mut weights = SuspicionWeights::default();
    let s1 = score_with(&t, &weights);
    weights.w_mock_only = 99900;
    let s2 = score_with(&t, &weights);
    assert!(approx_eq(s1, s2));
}

#[test]
fn patch_count_term_clamps_at_five() {
    let mut a = make_test("a");
    a.patch_decorator_count = 5;
    let mut b = make_test("b");
    b.patch_decorator_count = 10;
    assert!(approx_eq(score(&a), score(&b)));
    assert_eq!(score_terms(&b).patches, 5);
}

#[test]
fn setup_ratio_term_inflection_at_eight() {
    let mut t = make_test("a");
    t.setup_to_assertion_ratio = SetupRatio { lines: 8, assertions: 1 };
    assert!(approx_eq(score(&t), 0.5 * 0.15));
}

#[test]
fn setup_ratio_term_saturates_high_low() {
    let mut t = make_test("a");
    let low = score(&t);
    t.setup_to_assertion_ratio = SetupRatio { lines: 30, assertions: 1 };
    let high = score(&t);
    assert!((0.0..0.05).contains(&low));
    assert!(high > 0.95 * 0.15 && high <= 0.15 + 1e-12);
}

#[test]
fn zero_asserts_term_fires_only_when_zero() {
    let mut t = make_test("a");
    t.assertion_count = 0;
    let zero = score(&t);
    t.assertion_count = 1;
    let one = score(&t);
    assert!(approx_eq(zero - one, 0.20));
}

#[test]
fn smell_density_clamps_at_three() {
    let mut a = make_test("a");
    a.smell_hits = vec![smell_hit(), smell_hit(), smell_hit()];
    let mut b = make_test("b");
    b.smell_hits = (0..10).map(|_| smell_hit()).collect();
    assert!(approx_eq(score(&a), score(&b)));
    assert_eq!(score_terms(&b).smells, 3);
}

#[test]
fn score_test_sums_all_terms() {
    let mut t = make_test("a");
    t.only_asserts_on_mock = true;
    t.patch_decorator_count = 3;
    t.setup_to_assertion_ratio = SetupRatio { lines: 8, assertions: 1 };
    t.assertion_count = 0;
    t.smell_hits = vec![smell_hit(), smell_hit(), smell_hit()];
    assert!(approx_eq(score(&t), 0.845), "expected 0.845, got {}", score(&t));
}

#[test]
fn score_file_is_mean_when_no_mock_bonus() {
    assert!(approx_eq(file_score(&make_file("tests/test_x.py"), &[0.1, 0.2, 0.3]), 0.2));
}

#[test]
fn score_file_bonus_capped_at_zero_point_one() {
    let mut f = make_file("tests/test_x.py");
    f.mock_construction_count = 100;
    f.assertion_count = 1;
    assert_eq!(bonus_terms(&f), (100, 1));
    assert!(approx_eq(file_score(&f, &[0.2]), 0.3));
}

#[test]
fn score_file_bonus_zero_when_ratio_le_one() {
    let mut f = make_file("tests/test_x.py");
    f.mock_construction_count = 1;
    f.assertion_count = 1;
    assert!(approx_eq(file_score(&f, &[0.5]), 0.5));
}

#[test]
fn score_file_empty_tests_returns_zero() {
    assert!(approx_eq(file_score(&make_file("tests/test_x.py"), &[]), 0.0));
}

#[test]
fn a_file_without_assertions_counts_as_one() {
    let mut f = make_file("tests/test_x.py");
    f.mock_construction_count = 3;
    assert_eq!(bonus_terms(&f), (3, 1));
}

#[test]
fn negative_scores_stand_behind_all_others() {
    let mut a = make_test("a");
    a.suspicion_score = measure(-1.0);
    let mut b = make_test("b");
    b.suspicion_score = measure(0.0);
    let mut c = make_test("c");
    c.suspicion_score = measure(-2.0);
    assert_eq!(top_n_tests(&vec![a, b, c], 3), vec!["b", "a", "c"]);
}

#[test]
fn a_shortlist_leaves_out_what_was_accepted_in_full() {
    let mut open = make_test("open");
    open.assertion_count = 0;
    let mut accepted = make_test("accepted");
    accepted.assertion_count = 0;
    accepted.accepted_signals = vec!["zero_asserts".to_string()];
    let clean = make_test("clean");
    assert!(accepted.accepted_in_full() && !open.accepted_in_full() && !clean.accepted_in_full());
    let tests = vec![open, accepted, clean];
    assert_eq!(shortlist(&tests, 9, false), vec!["clean", "open"]);
    assert_eq!(shortlist(&tests, 9, true), vec!["accepted", "clean", "open"]);
    assert_eq!(top_n_tests(&tests, 9), vec!["accepted", "clean", "open"]);
}

#[test]
fn the_tests_of_a_file_are_those_that_name_it() {
    let mut other = make_test("b");
    other.file = "tests/test_y.py".to_string();
    let tests = vec![make_test("a"), other, make_test("c")];
    let own: Vec<&str> =
        tests_of_file(&tests, "tests/test_x.py").iter().map(|t| t.nodeid.as_str()).collect();
    assert_eq!(own, vec!["a", "c"]);
}
