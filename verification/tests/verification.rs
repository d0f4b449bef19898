//! The names that check a child process.
use pycoati::verification::{
    is_checkable_subprocess_call, is_checked_subprocess_call, is_returncode_check,
    is_subprocess_name, is_suppress_context_manager,
};

#[test]
fn checked_helpers_match_exactly() {
    assert!(is_checked_subprocess_call("subprocess.check_call"));
    assert!(is_checked_subprocess_call("subprocess.check_output"));
    assert!(!is_checked_subprocess_call("subprocess.run"));
    assert!(
        !is_checked_subprocess_call("check_call"),
        "bare names must be canonicalized first"
    );
}

#[test]
fn checkable_helpers_match_exactly() {
    assert!(is_checkable_subprocess_call("subprocess.run"));
    assert!(!is_checkable_subprocess_call("subprocess.Popen"));
    assert!(!is_checkable_subprocess_call("runner.run"));
}

#[test]
fn subprocess_names_are_recognised_under_the_module() {
    assert!(is_subprocess_name("subprocess"));
    assert!(is_subprocess_name("subprocess.run"));
    assert!(!is_subprocess_name("subprocesses"));
    assert!(!is_subprocess_name("myproj.subprocess"));
}

#[test]
fn only_suppress_is_a_suppressing_context_manager() {
    assert!(is_suppress_context_manager("contextlib.suppress"));
    assert!(!is_suppress_context_manager("pytest.raises"));
    assert!(!is_suppress_context_manager("suppress"), "canonicalized first");
}

#[test]
fn returncode_check_needs_a_receiver() {
    assert!(is_returncode_check("completed.check_returncode"));
    assert!(is_returncode_check("self.result.check_returncode"));
    assert!(!is_returncode_check("check_returncode"));
    assert!(!is_returncode_check("completed.returncode"));
}
