//! Members of a workspace.
use pycoati::pyproject::read_uv_workspace_members;
use pycoati::workspace::{
    add_members, expand_exact, expand_star_pattern, member_pattern, Candidate, MemberPattern,
    validate_member_under_root, Workspace,
};

const ROOT: &str = "/ws";

fn document(members_literal: &str) -> Option<String> {
    Some(format!(
        "[project]\nname = \"root\"\n\n[tool.uv.workspace]\nmembers = {members_literal}\n"
    ))
}

/// Resolves the declared patterns against a disk that holds `disk`: each path with whether it is a
/// directory.
fn detect(source: &Option<String>, disk: &[(&str, bool)]) -> Result<Option<Workspace>, String> {
    let Some(patterns) = read_uv_workspace_members(source) else {
        return Ok(None);
    };
    let mut members = Vec::new();
    for pattern in &patterns {
        let found = match member_pattern(pattern)? {
            MemberPattern::Exact(path) => {
                let full = if let Some(rest) = path.strip_prefix("../") {
                    format!("/{rest}")
                } else {
                    format!("{ROOT}/{path}")
                };
                let there = disk
                    .iter()
                    .find(|(p, _)| *p == full)
                    .map(|(p, is_dir)| Candidate { path: p.to_string(), is_dir: *is_dir });
                expand_exact(ROOT, pattern, &there)?
            }
            MemberPattern::Children(prefix) => {
                let below = format!("{ROOT}/{prefix}/");
                let there: Vec<Candidate> = disk
                    .iter()
                    .filter(|(p, _)| p.starts_with(&below))
                    .map(|(p, is_dir)| Candidate { path: p.to_string(), is_dir: *is_dir })
                    .collect();
                expand_star_pattern(ROOT, &prefix, &there)?
            }
        };
        add_members(&mut members, found);
    }
    Ok(Some(Workspace { root: ROOT.to_string(), members }))
}

#[test]
fn detect_returns_none_when_no_workspace_section() {
    let source = Some("[project]\nname = \"root\"\n".to_string());
    let result = detect(&source, &[]).expect("detect ok");
    assert!(result.is_none(), "no [tool.uv.workspace] means no workspace");
}

#[test]
fn detect_returns_workspace_for_exact_path_member() {
    let ws = detect(&document("[\"pkg_a\"]"), &[("/ws/pkg_a", true)])
        .expect("detect ok")
        .expect("workspace present");
    assert_eq!(ws.members.len(), 1);
    assert_eq!(ws.root, ROOT);
    assert_eq!(ws.members[0], "/ws/pkg_a");
}

#[test]
fn detect_expands_star_pattern_to_two_members() {
    let ws = detect(&document("[\"pkgs/*\"]"), &[("/ws/pkgs/b", true), ("/ws/pkgs/a", true)])
        .expect("detect ok")
        .expect("workspace present");
    assert_eq!(ws.members, vec!["/ws/pkgs/a".to_string(), "/ws/pkgs/b".to_string()]);
}

#[test]
fn detect_skips_missing_exact_path_member() {
    let ws = detect(&document("[\"pkg_a\", \"nope\"]"), &[("/ws/pkg_a", true)])
        .expect("detect ok")
        .expect("workspace present");
    assert_eq!(ws.members.len(), 1);
}

#[test]
fn detect_skips_file_matches_under_star_glob() {
    let ws = detect(
        &document("[\"pkgs/*\"]"),
        &[("/ws/pkgs/a", true), ("/ws/pkgs/stray.txt", false)],
    )
    .expect("detect ok")
    .expect("workspace present");
    assert_eq!(ws.members.len(), 1);
    assert!(ws.members[0].ends_with("a"));
}

#[test]
fn detect_errors_when_member_path_escapes_root() {
    let msg = detect(&document("[\"../outside\"]"), &[("/outside", true)])
        .expect_err("must reject member outside workspace root");
    assert!(
        msg.contains("outside workspace root"),
        "error must mention 'outside workspace root', got: {msg}"
    );
}

#[test]
fn detect_declared_but_empty_returns_empty_workspace() {
    let ws = detect(&document("[]"), &[]).expect("detect ok").expect("workspace present");
    assert!(ws.members.is_empty(), "empty list yields zero members but still some(workspace)");
}

#[test]
fn detect_rejects_star_in_non_trailing_segment() {
    let msg = detect(&document("[\"pat*tern/*\"]"), &[])
        .expect_err("must reject `*` in non-trailing segment, not silently match zero");
    assert!(msg.contains("trailing"), "error must explain single-trailing-`*` rule, got: {msg}");
}

#[test]
fn detect_rejects_trailing_star_with_extra_chars() {
    let msg = detect(&document("[\"packages*\"]"), &[]).expect_err("must reject bare `packages*`");
    assert!(msg.contains("trailing"), "unexpected message: {msg}");
}

#[test]
fn detect_rejects_double_star_glob() {
    let msg = detect(&document("[\"pkgs/**\"]"), &[]).expect_err("must reject **");
    assert!(msg.contains("recursive `**`") || msg.contains("**"), "unexpected: {msg}");
}

#[test]
fn other_wildcards_are_rejected_and_members_occur_once() {
    assert!(detect(&document("[\"pkg?\"]"), &[]).expect_err("?").contains("wildcards"));
    assert!(detect(&document("[\"pkg[ab]\"]"), &[]).expect_err("[").contains("classes"));
    let ws = detect(
        &document("[\"pkgs/b\", \"pkgs/*\"]"),
        &[("/ws/pkgs/a", true), ("/ws/pkgs/b", true)],
    )
    .expect("detect ok")
    .expect("workspace present");
    assert_eq!(ws.members, vec!["/ws/pkgs/b".to_string(), "/ws/pkgs/a".to_string()]);
    assert!(detect(&Some("[tool.uv.workspace]\n".to_string()), &[])
        .expect("detect ok")
        .expect("workspace present")
        .members
        .is_empty());
}

#[test]
fn members_lie_under_the_root_by_their_components() {
    assert!(validate_member_under_root("/w", "/w/a", "a").is_ok());
    assert!(validate_member_under_root("/w/", "/w//a", "a").is_ok());
    assert!(validate_member_under_root("/", "/a", "a").is_ok());
    assert!(validate_member_under_root("/w", "/wa", "a").is_err());
    assert!(validate_member_under_root("/w", "w/a", "a").is_err());
}
