//! Which Python runs the tests.
use vstd::prelude::*;

use crate::accept::{discover, first_there};
use crate::text::{opt_view, views};

verus! {

/// Where an environment keeps its Python, below the directory that holds the environment.
pub open spec fn venv_python_path(windows: bool) -> Seq<char> {
    if windows {
        ".venv\\Scripts\\python.exe"@
    } else {
        ".venv/bin/python"@
    }
}

/// Where an environment keeps its Python.
pub fn venv_python_rel(windows: bool) -> (r: &'static str)
    ensures
        r@ == venv_python_path(windows),
{
    if windows {
        ".venv\\Scripts\\python.exe"
    } else {
        ".venv/bin/python"
    }
}

/// Where the search for an environment starts: at a directory itself, at a file in the directory
/// that holds it, and in the current one where nothing holds it.
pub fn starting_dir(project: &str, is_dir: bool, parent: &Option<String>) -> (r: String)
    ensures
        r@ == if is_dir {
            project@
        } else {
            match opt_view(*parent) {
                Some(p) => p,
                None => "."@,
            }
        },
{
    if is_dir {
        project.to_owned()
    } else {
        match parent {
            Some(p) => p.clone(),
            None => ".".to_owned(),
        }
    }
}

/// The nearest Python of an environment: `places` are the candidates from the starting directory
/// upwards, each with whether there is a file.
pub fn find_venv_python(places: &Vec<(String, bool)>) -> (r: Option<String>)
    ensures
        opt_view(r) == first_there(places@, 0),
{
    discover(places)
}

/// The command that runs Python: that of the nearest environment, else `uv` without a change to
/// the environment, where it is there, else plain `python`.
pub open spec fn python_command(venv: Option<Seq<char>>, uv_available: bool) -> Seq<Seq<char>> {
    match venv {
        Some(path) => seq![path],
        None => if uv_available {
            seq!["uv"@, "run"@, "--no-sync"@, "python"@]
        } else {
            seq!["python"@]
        },
    }
}

/// The command that runs Python.
pub fn detect_python_cmd(places: &Vec<(String, bool)>, uv_available: bool) -> (r: Vec<String>)
    ensures
        views(r@) == python_command(first_there(places@, 0), uv_available),
{
    let mut out: Vec<String> = Vec::new();
    if let Some(path) = find_venv_python(places) {
        out.push(path);
    } else if uv_available {
        out.push("uv".to_owned());
        out.push("run".to_owned());
        out.push("--no-sync".to_owned());
        out.push("python".to_owned());
    } else {
        out.push("python".to_owned());
    }
    assert(views(out@) =~= python_command(first_there(places@, 0), uv_available));
    out
}

} // verus!
