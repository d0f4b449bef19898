//! The steps of an audit.
use pycoati::audit::{
    check_tests_dir, choose_target, coverage_package, coverage_step, default_cov_package_for,
    empty_file_record, member_cov_package, member_run, project_from, record_runs, relativize,
    resolve_project_packages, split_python_cmd, CoverageStep, Request, Target,
};
use pycoati::inventory::{empty_inventory, workspace_inventory};
use pycoati::pytest::run_collection;
use pycoati::{Measure, MemberCwd, SlowTest};

#[test]
fn default_cov_package_for_replaces_hyphens_with_underscores() {
    assert_eq!(default_cov_package_for("b3d-validate"), "b3d_validate");
    assert_eq!(default_cov_package_for("gh-project-monitor"), "gh_project_monitor");
}

#[test]
fn default_cov_package_for_passes_through_already_valid_names() {
    assert_eq!(default_cov_package_for("already_fine"), "already_fine");
    assert_eq!(default_cov_package_for("myproj"), "myproj");
}

#[test]
fn default_cov_package_for_does_not_lowercase_or_strip_dots() {
    assert_eq!(default_cov_package_for("MyPkg"), "MyPkg");
    assert_eq!(default_cov_package_for("ns.sub"), "ns.sub");
}

#[test]
fn a_module_name_is_made_once() {
    let once = default_cov_package_for("a-b-c");
    assert_eq!(once, "a_b_c");
    assert_eq!(default_cov_package_for(&once), once);
}

fn directory() -> Request {
    Request {
        found: true,
        is_dir: true,
        declares_workspace: false,
        tests_dir_given: false,
        project_package_given: false,
        accept_file_given: false,
    }
}

#[test]
fn a_path_is_a_file_a_project_or_a_workspace() {
    let project = directory();
    assert_eq!(choose_target(&project, "p"), Ok(Target::Project));
    let workspace = Request { declares_workspace: true, ..project };
    assert_eq!(choose_target(&workspace, "p"), Ok(Target::Workspace));
    let file = Request { is_dir: false, ..project };
    assert_eq!(choose_target(&file, "p"), Ok(Target::File));
    let options = Request {
        tests_dir_given: true,
        project_package_given: true,
        accept_file_given: true,
        ..project
    };
    assert_eq!(choose_target(&options, "p"), Ok(Target::Project));
}

#[test]
fn a_missing_path_is_refused() {
    let nothing = Request { found: false, is_dir: false, ..directory() };
    assert_eq!(choose_target(&nothing, "a/b"), Err("path does not exist: a/b".to_string()));
}

#[test]
fn a_tests_dir_does_not_go_with_a_file() {
    let file = Request { is_dir: false, tests_dir_given: true, ..directory() };
    assert_eq!(
        choose_target(&file, "t.py"),
        Err("--tests-dir is only meaningful with a project-directory input (got file: t.py)"
            .to_string())
    );
}

#[test]
fn tests_dir_with_workspace_is_incompatible_error() {
    let workspace = Request { declares_workspace: true, tests_dir_given: true, ..directory() };
    assert_eq!(
        choose_target(&workspace, "w"),
        Err("--tests-dir is incompatible with a uv-workspace root (w); set it per-member instead"
            .to_string())
    );
}

#[test]
fn project_package_with_workspace_is_incompatible_error() {
    let workspace =
        Request { declares_workspace: true, project_package_given: true, ..directory() };
    assert_eq!(
        choose_target(&workspace, "w"),
        Err("--project-package is incompatible with a uv-workspace root (w); each member's pyproject declares its own package"
            .to_string())
    );
}

#[test]
fn accept_file_is_rejected_against_a_workspace_root() {
    let workspace = Request { declares_workspace: true, accept_file_given: true, ..directory() };
    let err = choose_target(&workspace, "w").expect_err("refused");
    assert!(err.contains("--accept-file is incompatible"), "{err}");
    assert!(err.contains("(w)"), "{err}");
}

#[test]
fn empty_dir_with_no_tests_or_workspace_is_hard_error() {
    assert_eq!(check_tests_dir("p/tests", true, true), Ok(true));
    assert_eq!(check_tests_dir("p/tests", true, false), Ok(true));
    assert_eq!(check_tests_dir("p/tests", false, false), Ok(false));
    assert_eq!(
        check_tests_dir("p/tests", false, true),
        Err("no tests directory at p/tests; not a workspace either (no [tool.uv.workspace] in pyproject.toml)"
            .to_string())
    );
}

#[test]
fn a_project_is_named_by_what_it_declares_then_by_its_directory() {
    let name = |s: &str| Some(s.to_string());
    assert_eq!(project_from("/w/dir", name("declared"), name("dir")).name, "declared");
    assert_eq!(project_from("/w/dir", None, name("dir")).name, "dir");
    assert_eq!(project_from("/", None, None).name, "unknown");
    assert_eq!(project_from("/w/dir", None, name("dir")).path, "/w/dir");
}

#[test]
fn a_given_package_is_used_as_it_stands() {
    assert_eq!(coverage_package(&Some("my-pkg".to_string()), "other"), "my-pkg");
    assert_eq!(coverage_package(&None, "my-pkg"), "my_pkg");
}

#[test]
fn a_member_is_covered_by_its_first_package() {
    let packages = vec!["a".to_string(), "b".to_string()];
    assert_eq!(member_cov_package(&packages, &Some("dir".to_string())), "a");
    assert_eq!(member_cov_package(&Vec::new(), &Some("dir".to_string())), "dir");
    assert_eq!(member_cov_package(&Vec::new(), &None), "");
}

#[test]
fn a_given_package_stands_for_all_declared_ones() {
    let declared = vec!["b".to_string(), "a".to_string()];
    let own = resolve_project_packages(&None, &declared);
    assert!(own.contains("a") && own.contains("b") && !own.contains("x"));
    let given = resolve_project_packages(&Some("x".to_string()), &declared);
    assert!(given.contains("x") && !given.contains("a"));
}

#[test]
fn a_command_is_a_program_and_its_arguments() {
    let command = vec!["uv".to_string(), "run".to_string(), "python".to_string()];
    let (program, rest) = split_python_cmd(&command);
    assert_eq!(program, "uv");
    assert_eq!(rest, vec!["run", "python"]);
    let (program, rest) = split_python_cmd(&Vec::new());
    assert_eq!(program, "python");
    assert!(rest.is_empty());
}

#[test]
fn paths_are_seen_from_the_project() {
    assert_eq!(relativize("/w/p/tests/test_a.py", "/w/p"), "tests/test_a.py");
    assert_eq!(relativize("/elsewhere/test_a.py", "/w/p"), "/elsewhere/test_a.py");
    assert_eq!(relativize("/w/pool/test_a.py", "/w/p"), "/w/pool/test_a.py");
    assert_eq!(relativize("/w/p", "/w/p"), "");
    assert_eq!(relativize("/tests/test_a.py", "/"), "tests/test_a.py");
    assert_eq!(relativize("/tests/test_a.py", ""), "/tests/test_a.py");
}

#[test]
fn paths_are_seen_by_their_components() {
    assert_eq!(relativize("/x//tests/test_a.py", "/x"), "tests/test_a.py");
    assert_eq!(relativize("/x/./tests/test_a.py", "/x"), "tests/test_a.py");
    assert_eq!(relativize("/x/tests/test_a.py/", "/x/"), "tests/test_a.py");
    assert_eq!(relativize("/x/a//b/./c", "/x/./"), "a//b/./c");
    assert_eq!(relativize("/x/.", "/x"), "");
    assert_eq!(relativize("x/a", "/x"), "x/a");
    assert_eq!(relativize("./x/a", "./x"), "a");
    assert_eq!(relativize("./x/a", "x"), "./x/a");
    assert_eq!(relativize("/x/../a", "/x"), "../a");
}

#[test]
fn a_member_runs_at_the_root_or_in_its_own_directory() {
    assert_eq!(
        member_run("/w", "/w/a", MemberCwd::Root),
        ("/w".to_string(), "/w/a/tests".to_string())
    );
    assert_eq!(
        member_run("/w", "/w/a", MemberCwd::Member),
        ("/w/a".to_string(), "tests".to_string())
    );
    assert_eq!(member_run("/w", "/w/a/", MemberCwd::Root).1, "/w/a/tests");
}

#[test]
fn coverage_is_measured_where_there_is_a_package() {
    assert_eq!(coverage_step(true, "pkg"), CoverageStep::Skip);
    assert_eq!(coverage_step(true, ""), CoverageStep::Skip);
    assert_eq!(coverage_step(false, ""), CoverageStep::NoPackage);
    assert_eq!(coverage_step(false, "pkg"), CoverageStep::Run);
}

#[test]
fn an_empty_record_counts_nothing() {
    let record = empty_file_record("tests/test_a.py");
    assert_eq!(record.path, "tests/test_a.py");
    assert_eq!(record.test_function_count, 0);
    assert_eq!(record.stubs_count, 0);
    assert!(record.smell_hits.is_empty());
}

fn measure(x: f64) -> Measure {
    Measure { bits: x.to_bits(), shown: format!("{x:.2}") }
}

#[test]
fn runs_are_entered_and_nothing_else_changes() {
    let mut inventory = empty_inventory(project_from("/w/p", None, Some("p".to_string())));
    let collection = run_collection(&Some("2 tests collected in 0.01s\n".to_string()));
    let slow = vec![SlowTest { nodeid: "t.py::test_a".to_string(), seconds: measure(0.5) }];
    record_runs(&mut inventory, collection, Some(measure(1.5)), slow, Some(measure(87.5)));
    assert_eq!(inventory.suite.test_count, Some(2));
    assert_eq!(inventory.suite.runtime_seconds.expect("runtime").bits, 1.5f64.to_bits());
    assert_eq!(inventory.suite.line_coverage_pct.expect("coverage").bits, 87.5f64.to_bits());
    assert_eq!(inventory.suite.slowest_tests[0].nodeid, "t.py::test_a");
    assert!(inventory.tool.ran_pytest);
    assert!(inventory.tool.ran_coverage);
    assert_eq!(inventory.project.name, "p");
}

#[test]
fn runs_that_gave_nothing_count_as_not_made() {
    let mut inventory = empty_inventory(project_from("/w/p", None, None));
    record_runs(&mut inventory, run_collection(&None), None, Vec::new(), None);
    assert!(!inventory.tool.ran_pytest);
    assert!(!inventory.tool.ran_coverage);
    assert_eq!(inventory.suite.test_count, None);
}

#[test]
fn a_workspace_ran_what_any_member_ran() {
    let idle = || empty_inventory(project_from("/w/a", None, None));
    let mut busy = idle();
    record_runs(&mut busy, run_collection(&None), Some(measure(0.1)), Vec::new(), None);
    let mixed = workspace_inventory("/w", vec![idle(), busy]);
    assert_eq!(mixed.schema_version, "2");
    assert_eq!(mixed.workspace_root, "/w");
    assert_eq!(mixed.members.len(), 2);
    assert!(mixed.tool.ran_pytest);
    assert!(!mixed.tool.ran_coverage);
    assert!(!workspace_inventory("/w", vec![idle()]).tool.ran_pytest);
}
