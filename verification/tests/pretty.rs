//! Inventories as text.
use pycoati::inventory::{empty_inventory, workspace_inventory, Inventory, Project};
use pycoati::pretty::{render, render_workspace, with_footer, SCAN_FOOTER};
use pycoati::records::SutCallEntry;
use pycoati::{Measure, SetupRatio, SmellHit, TestRecord};

fn measure(x: f64) -> Measure {
    Measure { bits: x.to_bits(), shown: format!("{x:.2}") }
}

fn empty_inv() -> Inventory {
    empty_inventory(Project { path: "/x".to_string(), name: "demo".to_string() })
}

fn make_test(nodeid: &str, score: f64, asserts: u64, patches: u64) -> TestRecord {
    TestRecord {
        nodeid: nodeid.to_string(),
        file: "tests/x.py".to_string(),
        line: 1,
        assertion_count: asserts,
        only_asserts_on_mock: false,
        patch_decorator_count: patches,
        stubs_count: 0,
        setup_to_assertion_ratio: SetupRatio { lines: 0, assertions: 1 },
        external_verification_count: 0,
        called_names: Vec::new(),
        smell_hits: Vec::new(),
        suspicion_score: measure(score),
        fingerprint: None,
        accepted_signals: Vec::new(),
    }
}

#[test]
fn render_handles_empty_inventory() {
    let inv = empty_inv();
    let out = render(&inv, &Vec::new(), 20);
    let lines: Vec<&str> = out.lines().collect();
    // Title line + matching `=` underline. `chars().count()` matters
    // because the title contains the em-dash, which is multi-byte.
    let title = "coati audit — demo";
    assert_eq!(lines[0], title);
    let underline = lines[1];
    assert_eq!(underline.chars().count(), title.chars().count());
    assert!(underline.chars().all(|c| c == '='), "underline not all '=': {underline:?}");
    // All four section headers must render even when their content is empty.
    for header in
        ["Suite", "Top suspicious tests", "Top suspicious files", "SUT calls (top 20)"]
    {
        assert!(out.contains(header), "missing section header '{header}' in:\n{out}");
    }
}

#[test]
fn render_handles_static_only() {
    let inv = empty_inv();
    let out = render(&inv, &Vec::new(), 20);
    // Suite block uses `—` for None.
    assert!(out.contains("  tests           —"));
    assert!(out.contains("  runtime         —s"));
    assert!(out.contains("  coverage        —%"));
}

#[test]
fn render_handles_empty_top_suspicious() {
    let inv = empty_inv();
    let out = render(&inv, &Vec::new(), 20);
    // Every empty section under its underline shows `(none)`.
    assert!(out.contains("Top suspicious tests\n--------------------\n  (none)"));
    assert!(out.contains("Top suspicious files\n--------------------\n  (none)"));
    assert!(out.contains("SUT calls (top 20)\n------------------\n  (none)"));
}

#[test]
fn render_aligns_columns() {
    let mut inv = empty_inv();
    let t1 = make_test("tests/a.py::test_one", 0.5, 2, 4);
    let t2 = make_test("tests/longer/path/b.py::test_two_with_long_name", 0.4, 10, 1);
    inv.top_suspicious.test_functions = vec![t1.nodeid.clone(), t2.nodeid.clone()];
    inv.test_functions = vec![t1, t2];
    let out = render(&inv, &Vec::new(), 20);

    // Find the header line ("score  nodeid …") and the two data rows;
    // assert the score column starts at the same character offset on
    // each rendered row.
    let lines: Vec<&str> = out.lines().collect();
    let header_idx = lines.iter().position(|l| l.contains("score") && l.contains("nodeid"));
    let header_idx = header_idx.expect("found tests header");
    // `score` is right-aligned and `nodeid` left-aligned, so the column
    // that we can easily align-check is `nodeid`: same start offset on
    // both rows.
    let nodeid_col = lines[header_idx].find("nodeid").expect("header has 'nodeid'");
    for row in &lines[header_idx + 1..header_idx + 3] {
        assert!(row.len() > nodeid_col, "row too short: {row:?}");
        // Character at the nodeid column should NOT be space (the row's
        // nodeid begins there).
        let ch = row.chars().nth(nodeid_col);
        assert!(
            ch.is_some_and(|c| c != ' '),
            "row's nodeid column ({nodeid_col}) is not aligned: {row:?}"
        );
    }
}

#[test]
fn render_score_format_two_decimals() {
    let mut inv = empty_inv();
    let t = make_test("tests/a.py::test_x", 0.123_456, 1, 0);
    inv.top_suspicious.test_functions = vec![t.nodeid.clone()];
    inv.test_functions = vec![t];
    let out = render(&inv, &Vec::new(), 20);
    assert!(out.contains(" 0.12 "), "expected score formatted as '0.12', got:\n{out}");
    assert!(!out.contains("0.123"), "two-decimal cap violated, got:\n{out}");
}

#[test]
fn render_smell_categories_joined() {
    let mut inv = empty_inv();
    let mut t = make_test("tests/a.py::test_x", 0.5, 1, 0);
    let nodeid = t.nodeid.clone();
    t.smell_hits = vec![
        SmellHit {
            category: "mock_overuse".to_string(),
            test: Some(nodeid.clone()),
            line: 1,
            evidence: String::new(),
        },
        SmellHit {
            category: "mock_only_assertions".to_string(),
            test: Some(nodeid.clone()),
            line: 1,
            evidence: String::new(),
        },
    ];
    inv.top_suspicious.test_functions = vec![nodeid];
    inv.test_functions = vec![t];
    let out = render(&inv, &Vec::new(), 20);
    // Sorted form: "mock_only_assertions, mock_overuse".
    assert!(
        out.contains("mock_only_assertions, mock_overuse"),
        "expected sorted joined smells, got:\n{out}"
    );
}

#[test]
fn render_no_markdown_syntax() {
    let mut inv = empty_inv();
    let t = make_test("tests/a.py::test_x", 0.5, 1, 0);
    let nodeid = t.nodeid.clone();
    inv.sut_calls.top_called = vec!["myproj.foo".to_string()];
    inv.sut_calls.by_name = vec![SutCallEntry {
        name: "myproj.foo".to_string(),
        test_function_count: 1,
        test_nodeids: vec![nodeid.clone()],
    }];
    inv.top_suspicious.test_functions = vec![nodeid];
    inv.test_functions = vec![t];
    let out = render(&inv, &Vec::new(), 20);
    assert!(!out.contains('|'), "pipe characters disallowed, got:\n{out}");
    assert!(!out.contains("---|"), "markdown table separators disallowed, got:\n{out}");
}

#[test]
fn render_truncates_at_top_n() {
    let mut inv = empty_inv();
    let t1 = make_test("tests/a.py::t1", 0.9, 1, 0);
    let t2 = make_test("tests/a.py::t2", 0.8, 1, 0);
    let t3 = make_test("tests/a.py::t3", 0.7, 1, 0);
    // top_suspicious lists all three but caller asks for 2 — render
    // should only emit two data rows.
    inv.top_suspicious.test_functions =
        vec![t1.nodeid.clone(), t2.nodeid.clone(), t3.nodeid.clone()];
    inv.test_functions = vec![t1, t2, t3];
    let out = render(&inv, &Vec::new(), 2);
    assert!(out.contains("::t1"));
    assert!(out.contains("::t2"));
    assert!(!out.contains("::t3"), "row beyond top_n must not render, got:\n{out}");
}

#[test]
fn workspace_pretty_format_emits_header_and_per_member_sections() {
    let mut a = empty_inv();
    a.project.name = "pkg_a".to_string();
    let mut b = empty_inv();
    b.project.name = "pkg_b".to_string();
    let ws = workspace_inventory("/work/uv_workspace", vec![a, b]);
    let out = render_workspace(&ws, &vec![Vec::new(), Vec::new()], 5);
    assert!(out.starts_with("pycoati workspace audit — uv_workspace (2 members)\n"), "{out}");
    let first = out.find("Member: pkg_a").expect("pkg_a");
    let second = out.find("Member: pkg_b").expect("pkg_b");
    assert!(first < second);
    assert_eq!(out.matches("Suite\n-----").count(), 2);
}

#[test]
fn a_footer_is_added_where_there_are_candidates() {
    assert_eq!(with_footer("text".to_string(), false), "text");
    let shown = with_footer("text".to_string(), true);
    assert!(shown.starts_with("text"));
    assert!(shown.trim_end().ends_with(SCAN_FOOTER.trim_end()));
}
