//! What a `pyproject.toml` declares.
use pycoati::pyproject::{read_project_name, read_project_packages, read_uv_workspace_members};

fn some(text: &str) -> Option<String> {
    Some(text.to_string())
}

fn packages(source: &Option<String>) -> Vec<String> {
    read_project_packages(source, &some("dirname"))
}

#[test]
fn reads_name_from_fixture_pyproject() {
    assert_eq!(read_project_name(&some("[project]\nname = \"myproj\"\n")), some("myproj"));
}

#[test]
fn missing_pyproject_returns_none() {
    assert_eq!(read_project_name(&None), None);
}

#[test]
fn pyproject_without_project_section_returns_none() {
    assert_eq!(read_project_name(&some("[build-system]\nrequires=[]\n")), None);
}

#[test]
fn malformed_pyproject_returns_none_without_panicking() {
    assert_eq!(read_project_name(&some("this is not = valid toml = [[[")), None);
}

#[test]
fn read_project_packages_returns_project_name() {
    assert_eq!(packages(&some("[project]\nname = \"myproj\"\n")), vec!["myproj".to_string()]);
}

#[test]
fn read_project_packages_includes_hatch_wheel_packages() {
    let source = some(
        "[project]\nname = \"a\"\n\n[tool.hatch.build.targets.wheel]\npackages = [\"src/b\"]\n",
    );
    assert_eq!(packages(&source), vec!["a".to_string(), "b".to_string()]);
}

#[test]
fn read_project_packages_includes_setuptools_packages() {
    let source = some("[project]\nname = \"a\"\n\n[tool.setuptools]\npackages = [\"b\", \"c\"]\n");
    assert_eq!(packages(&source), vec!["a".to_string(), "b".to_string(), "c".to_string()]);
}

#[test]
fn read_project_packages_includes_setuptools_find_include() {
    let source = some(
        "[project]\nname = \"a\"\n\n[tool.setuptools.packages.find]\ninclude = [\"b\", \"c\"]\n",
    );
    assert_eq!(packages(&source), vec!["a".to_string(), "b".to_string(), "c".to_string()]);
}

#[test]
fn read_project_packages_fallback_to_basename_when_no_pyproject() {
    let pkgs = packages(&None);
    assert_eq!(pkgs.len(), 1);
    assert_eq!(pkgs[0], "dirname");
}

#[test]
fn malformed_pyproject_wrong_type_for_name_falls_back_without_panic() {
    let source = some("[project]\nname = 123\n");
    assert_eq!(read_project_name(&source), None);
    assert_eq!(packages(&source), vec!["dirname".to_string()]);
}

#[test]
fn malformed_pyproject_wrong_type_for_hatch_packages_falls_back() {
    let source = some(
        "[project]\nname = \"a\"\n[tool.hatch.build.targets.wheel]\npackages = \"src/b\"\n",
    );
    assert_eq!(packages(&source), vec!["dirname".to_string()]);
}

#[test]
fn read_project_packages_deduped_and_sorted() {
    let source = some(
        "[project]\nname = \"a\"\n\n[tool.hatch.build.targets.wheel]\npackages = [\"src/a\", \"src/c\"]\n\n[tool.setuptools]\npackages = [\"b\", \"a\"]\n",
    );
    assert_eq!(packages(&source), vec!["a".to_string(), "b".to_string(), "c".to_string()]);
}
