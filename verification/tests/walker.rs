//! Which files hold tests.
use pycoati::walker::{discover_test_files, is_test_file};

#[test]
fn recognises_test_prefix_and_suffix() {
    assert!(is_test_file("/foo/test_x.py"));
    assert!(is_test_file("/foo/other_test.py"));
    assert!(is_test_file("test_basic.py"));
}

#[test]
fn rejects_non_test_filenames() {
    assert!(!is_test_file("/foo/helpers.py"));
    assert!(!is_test_file("/foo/conftest.py"));
    assert!(!is_test_file("/foo/README.md"));
    assert!(!is_test_file("/foo/test_x.rs"));
    // Degenerate stems: no character on either side of the marker.
    assert!(!is_test_file("/foo/test_.py"));
    assert!(!is_test_file("/foo/_test.py"));
}

#[test]
fn discovers_fixture_project_test_files() {
    let met: Vec<String> = [
        "test_real.py",
        "helpers.py",
        "test_overmocked.py",
        "other_test.py",
        "test_uses_repo.py",
        "test_mixed.py",
        "test_no_asserts.py",
        "test_mock_only.py",
    ]
    .iter()
    .map(|name| format!("/project/tests/{name}"))
    .collect();
    let files = discover_test_files(met);
    let basenames: Vec<String> =
        files.iter().filter_map(|p| p.rsplit('/').next().map(str::to_string)).collect();
    assert_eq!(
        basenames,
        vec![
            "other_test.py".to_string(),
            "test_mixed.py".to_string(),
            "test_mock_only.py".to_string(),
            "test_no_asserts.py".to_string(),
            "test_overmocked.py".to_string(),
            "test_real.py".to_string(),
            "test_uses_repo.py".to_string(),
        ],
        "discovery must be sorted and exclude helpers.py"
    );
}

#[test]
fn paths_are_ordered_by_their_segments() {
    let met = vec![
        "tests/a.b/test_x.py".to_string(),
        "tests/a/test_x.py".to_string(),
        "tests/a/b/test_x.py".to_string(),
    ];
    assert_eq!(
        discover_test_files(met),
        vec![
            "tests/a/b/test_x.py".to_string(),
            "tests/a/test_x.py".to_string(),
            "tests/a.b/test_x.py".to_string(),
        ]
    );
}

#[test]
fn only_the_last_component_counts() {
    assert!(is_test_file("tests/test_a.py/"));
    assert!(is_test_file("tests/test_a.py/."));
    assert!(is_test_file("tests/test_a.py//"));
    assert!(!is_test_file("test_a.py/helpers.py"));
    assert!(!is_test_file("test_a.py/.."));
    assert!(!is_test_file("tests/test_.py"));
    assert!(!is_test_file(""));
    assert!(!is_test_file("/"));
}

#[test]
fn files_are_ordered_by_their_components() {
    let files = ["b/test_a.py", "a-b/test_a.py", "a//test_z.py", "a/test_b.py", "/z/test_a.py"];
    let found = discover_test_files(files.iter().map(|f| f.to_string()).collect());
    assert_eq!(
        found,
        vec!["/z/test_a.py", "a/test_b.py", "a//test_z.py", "a-b/test_a.py", "b/test_a.py"]
    );
}
