//! Which Python runs the tests.
use pycoati::python_detect::{
    detect_python_cmd, find_venv_python, starting_dir, venv_python_rel,
};

fn candidate(dir: &str, there: bool) -> (String, bool) {
    (format!("{dir}/{}", venv_python_rel(false)), there)
}

#[test]
fn finds_venv_in_starting_dir() {
    let places = vec![candidate("/p", true), candidate("/", false)];
    assert_eq!(find_venv_python(&places), Some("/p/.venv/bin/python".to_string()));
}

#[test]
fn walks_up_to_find_ancestor_venv() {
    let places = vec![
        candidate("/p/a/b/c", false),
        candidate("/p/a/b", false),
        candidate("/p/a", false),
        candidate("/p", true),
    ];
    assert_eq!(find_venv_python(&places), Some("/p/.venv/bin/python".to_string()));
}

#[test]
fn nearest_venv_wins_over_ancestor() {
    let places = vec![candidate("/p/sub", true), candidate("/p", true)];
    assert_eq!(find_venv_python(&places), Some("/p/sub/.venv/bin/python".to_string()));
}

#[test]
fn returns_none_when_no_venv_along_path() {
    let places = vec![candidate("/p/a/b", false), candidate("/p/a", false)];
    assert!(find_venv_python(&places).is_none());
}

#[test]
fn starting_dir_for_file_uses_parent() {
    assert_eq!(starting_dir("/p/foo.py", false, &Some("/p".to_string())), "/p");
    assert_eq!(starting_dir("foo.py", false, &None), ".");
}

#[test]
fn starting_dir_for_directory_uses_itself() {
    assert_eq!(starting_dir("/p", true, &Some("/".to_string())), "/p");
}

#[test]
fn detect_falls_back_to_venv_when_present() {
    let places = vec![candidate("/p", true)];
    assert_eq!(detect_python_cmd(&places, true), vec!["/p/.venv/bin/python".to_string()]);
}

#[test]
fn uv_and_then_plain_python_are_the_fallbacks() {
    let places = vec![candidate("/p", false)];
    assert_eq!(detect_python_cmd(&places, true), vec!["uv", "run", "--no-sync", "python"]);
    assert_eq!(detect_python_cmd(&places, false), vec!["python"]);
    assert_eq!(venv_python_rel(true), ".venv\\Scripts\\python.exe");
}
