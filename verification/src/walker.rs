//! Which files hold tests.
use vstd::prelude::*;

use crate::paths::{basename, file_name};
use crate::ranking::{path_leq, sort_paths};
use crate::text::{chars_of, cut, ends_with, is_prefix, is_suffix, starts_with, views};

verus! {

/// A file name that pytest collects by: `test_*.py` or `*_test.py`, each with something for the
/// star.
pub open spec fn test_file_name(name: Seq<char>) -> bool {
    is_suffix(".py"@, name) && {
        let stem = name.subrange(0, name.len() - 3);
        ||| is_prefix("test_"@, stem) && stem.len() > 5
        ||| is_suffix("_test"@, stem) && stem.len() > 5
    }
}

/// Being the path of a test file.
pub open spec fn test_path() -> spec_fn(Seq<char>) -> bool {
    |path: Seq<char>| test_file_name(basename(path))
}

/// Whether the last component of a path is the name of a test file.
pub fn is_test_file(path: &str) -> (r: bool)
    ensures
        r == test_file_name(basename(path@)),
{
    let name = file_name(path);
    if !ends_with(&name, ".py") {
        return false;
    }
    proof {
        reveal_strlit(".py");
        reveal_strlit("test_");
        reveal_strlit("_test");
    }
    let letters = chars_of(&name);
    let stem_len: usize = letters.len() - 3;
    let stem = cut(&letters, 0, stem_len);
    stem_len > 5 && (starts_with(&stem, "test_") || ends_with(&stem, "_test"))
}

/// The test files among the files that a walk met, in order.
pub open spec fn test_files_of(files: Seq<Seq<char>>) -> Seq<Seq<char>> {
    files.filter(test_path()).sort_by(path_leq())
}

/// The test files among the files that a walk met, in order whatever the order of the walk.
pub fn discover_test_files(files: Vec<String>) -> (r: Vec<String>)
    ensures
        views(r@) == test_files_of(views(files@)),
{
    let ghost all = views(files@);
    let ghost p = test_path();
    let mut out: Vec<String> = Vec::new();
    assert(views(out@) =~= all.take(0).filter(p)) by {
        reveal(Seq::filter);
    }
    for entry in it: files
        invariant
            views(it.seq()) == all,
            p == test_path(),
            views(out@) == all.take(it.index() as int).filter(p),
    {
        let ghost n = it.index() as int;
        let ghost before = views(out@);
        proof {
            reveal(Seq::filter);
            let part = all.take(n + 1);
            assert(part.drop_last() =~= all.take(n));
            assert(part.last() == entry@);
        }
        if is_test_file(&entry) {
            out.push(entry);
            assert(views(out@) =~= before.push(entry@));
        }
    }
    assert(all.take(all.len() as int) =~= all);
    sort_paths(out)
}

} // verus!
