//! What holds of what projects and workspaces declare.
use vstd::multiset::*;
use vstd::prelude::*;
use vstd::seq_lib::*;

use crate::document::{all_texts, entry_from, texts_of, ItemModel};
use crate::laws::texts::{pieces_hold_no_separator, texts_are_found_where_they_stand};
use crate::numerals::has_text;
use crate::paths::lies_under;
use crate::pyproject::{
    declared_in, declared_name, declared_packages, hatch_packages, last_segment_of, lone_member,
    package_at, packages_at, project_packages, setuptools_packages, without_trailing_slashes,
    workspace_members, PyProjectModel, BUILD_MEMBERS, FIND_MEMBERS, HATCH_MEMBERS, INCLUDED_MEMBERS,
    PACKAGES_MEMBERS, PROJECT_MEMBERS, PYPROJECT_MEMBERS, TARGETS_MEMBERS, TOOL_MEMBERS, UV_MEMBERS,
    UV_TOOL_MEMBERS, WORKSPACE_MEMBERS,
};
use crate::ranking::{lemma_path_total, path_leq};
use crate::text::{find, lemma_find, rfind, split_from};
use crate::workspace::{
    exact_members, glob_error, listed_members, star_members, starred_directory, stray_star,
};

verus! {

/// What stands under a key of a table.
pub open spec fn under(item: ItemModel, key: Seq<char>) -> Option<ItemModel> {
    match item {
        ItemModel::Table(entries) => entry_from(entries, key, 0),
        _ => None,
    }
}

/// A project's name is the text under `project.name`. Where there is no such key it has none; where
/// something else stands there, the declarations cannot be read.
pub proof fn names_stand_under_project(document: ItemModel, project: ItemModel)
    requires
        document is Table,
    ensures
        under(document, "project"@) is None ==> declared_name(document) == Ok::<
            Option<Seq<char>>,
            (),
        >(None),
        under(document, "project"@) == Some(project) && project is Table ==> match under(
            project,
            "name"@,
        ) {
            Some(ItemModel::Text(name)) => declared_name(document) == Ok::<Option<Seq<char>>, ()>(
                Some(name),
            ),
            Some(_) => declared_name(document) is Err,
            None => declared_name(document) == Ok::<Option<Seq<char>>, ()>(None),
        },
        under(document, "project"@) == Some(project) && (project is Text || project is Other)
            ==> declared_name(document) is Err,
{
    assert(PYPROJECT_MEMBERS@[0]@ == "project"@);
    assert(PROJECT_MEMBERS@[0]@ == "name"@);
}

/// The packages that hatch builds are the texts under `tool.hatch.build.targets.wheel.packages`.
pub proof fn hatch_packages_stand_under_wheel(
    document: ItemModel,
    tool: ItemModel,
    hatch: ItemModel,
    build: ItemModel,
    targets: ItemModel,
    wheel: ItemModel,
    values: Seq<ItemModel>,
)
    requires
        document is Table && tool is Table && hatch is Table && build is Table && targets is Table
            && wheel is Table,
    ensures
        under(document, "tool"@) is None ==> hatch_packages(document) == Ok::<
            Option<Seq<Seq<char>>>,
            (),
        >(None),
        under(document, "tool"@) == Some(tool) && under(tool, "hatch"@) is None ==> hatch_packages(
            document,
        ) == Ok::<Option<Seq<Seq<char>>>, ()>(None),
        ({
            &&& under(document, "tool"@) == Some(tool)
            &&& under(tool, "hatch"@) == Some(hatch)
            &&& under(hatch, "build"@) == Some(build)
            &&& under(build, "targets"@) == Some(targets)
            &&& under(targets, "wheel"@) == Some(wheel)
            &&& under(wheel, "packages"@) == Some(ItemModel::List(values))
        }) ==> if all_texts(values) {
            hatch_packages(document) == Ok::<Option<Seq<Seq<char>>>, ()>(Some(texts_of(values)))
        } else {
            hatch_packages(document) is Err
        },
{
    assert(PYPROJECT_MEMBERS@[1]@ == "tool"@);
    assert(TOOL_MEMBERS@[0]@ == "hatch"@);
    assert(HATCH_MEMBERS@[0]@ == "build"@);
    assert(BUILD_MEMBERS@[0]@ == "targets"@);
    assert(TARGETS_MEMBERS@[0]@ == "wheel"@);
    assert(PACKAGES_MEMBERS@[0]@ == "packages"@);
}

/// The packages of setuptools are the texts under `tool.setuptools.packages`, or those under
/// `find.include` there.
pub proof fn setuptools_packages_stand_under_packages(
    document: ItemModel,
    tool: ItemModel,
    setuptools: ItemModel,
    packages: ItemModel,
    find: ItemModel,
    values: Seq<ItemModel>,
)
    requires
        document is Table && tool is Table && setuptools is Table,
        under(document, "tool"@) == Some(tool),
        under(tool, "setuptools"@) == Some(setuptools),
        all_texts(values),
    ensures
        under(setuptools, "packages"@) is None ==> setuptools_packages(document) == Ok::<
            Option<Seq<Seq<char>>>,
            (),
        >(None),
        under(setuptools, "packages"@) == Some(ItemModel::List(values)) ==> setuptools_packages(
            document,
        ) == Ok::<Option<Seq<Seq<char>>>, ()>(Some(texts_of(values))),
        under(setuptools, "packages"@) == Some(packages) && packages is Table && find is Table
            && under(packages, "find"@) == Some(find) && under(find, "include"@) == Some(
            ItemModel::List(values),
        ) ==> setuptools_packages(document) == Ok::<Option<Seq<Seq<char>>>, ()>(
            Some(texts_of(values)),
        ),
{
    assert(PYPROJECT_MEMBERS@[1]@ == "tool"@);
    assert(TOOL_MEMBERS@[1]@ == "setuptools"@);
    assert(PACKAGES_MEMBERS@[0]@ == "packages"@);
    assert(FIND_MEMBERS@[0]@ == "find"@);
    assert(INCLUDED_MEMBERS@[0]@ == "include"@);
}

/// A workspace is declared under `tool.uv.workspace`; its members are the texts under `members`, and
/// none where the key is missing.
pub proof fn members_stand_under_workspace(
    document: ItemModel,
    tool: ItemModel,
    uv: ItemModel,
    workspace: ItemModel,
    values: Seq<ItemModel>,
)
    requires
        document is Table && tool is Table && uv is Table && workspace is Table,
        all_texts(values),
    ensures
        under(document, "tool"@) is None ==> workspace_members(document) is None,
        under(document, "tool"@) == Some(tool) && under(tool, "uv"@) is None ==> workspace_members(
            document,
        ) is None,
        under(document, "tool"@) == Some(tool) && under(tool, "uv"@) == Some(uv) && under(
            uv,
            "workspace"@,
        ) is None ==> workspace_members(document) is None,
        under(document, "tool"@) == Some(tool) && under(tool, "uv"@) == Some(uv) && under(
            uv,
            "workspace"@,
        ) == Some(workspace) ==> {
            &&& under(workspace, "members"@) is None ==> workspace_members(document) == Some(
                Seq::<Seq<char>>::empty(),
            )
            &&& under(workspace, "members"@) == Some(ItemModel::List(values)) ==> workspace_members(
                document,
            ) == Some(texts_of(values))
        },
{
    assert(PYPROJECT_MEMBERS@[1]@ == "tool"@);
    assert(UV_TOOL_MEMBERS@[0]@ == "uv"@);
    assert(UV_MEMBERS@[0]@ == "workspace"@);
    assert(WORKSPACE_MEMBERS@[0]@ == "members"@);
}

proof fn lemma_rfind_is(s: Seq<char>, c: char, upto: int, at: int)
    requires
        -1 <= at < upto <= s.len() || (at == -1 && upto == 0),
        at >= 0 ==> s[at] == c,
        forall|i: int| at < i < upto ==> s[i] != c,
    ensures
        rfind(s, c, upto) == at,
    decreases upto,
{
    if upto > 0 && at < upto - 1 {
        assert(s[upto - 1] != c);
        lemma_rfind_is(s, c, upto - 1, at);
    }
}

/// A package is named by the last part of its path, whatever slashes follow it; slashes alone name
/// none.
pub proof fn packages_are_named_by_the_last_part(before: Seq<char>, name: Seq<char>)
    requires
        name.len() > 0,
        !name.contains('/'),
    ensures
        package_at(name) == Some(name),
        package_at(before + seq!['/'] + name) == Some(name),
        package_at(before + seq!['/']) == package_at(before),
        package_at(Seq::<char>::empty()) is None,
{
    let n = name.len() as int;
    assert forall|i: int| 0 <= i < n implies name[i] != '/' by {
        if name[i] == '/' {
            assert(name.contains('/'));
        }
    }
    lemma_rfind_is(name, '/', n, -1);
    assert(name.last() == name[n - 1]);
    assert(name.subrange(0, n) =~= name);
    let path = before + seq!['/'] + name;
    let b = before.len() as int;
    assert(path.last() == name[n - 1]);
    assert forall|i: int| b < i < path.len() implies path[i] != '/' by {
        assert(path[i] == name[i - b - 1]);
    }
    assert(path[b] == '/');
    lemma_rfind_is(path, '/', path.len() as int, b);
    assert(path.subrange(b + 1, path.len() as int) =~= name);
    let slashed = before + seq!['/'];
    assert(slashed.last() == '/');
    assert(slashed.drop_last() =~= before);
    let none = Seq::<char>::empty();
    assert(without_trailing_slashes(none) == none);
    assert(last_segment_of(none).len() == 0);
}

proof fn lemma_packages_at(paths: Seq<Seq<char>>, name: Seq<char>)
    ensures
        packages_at(paths).contains(name) == exists|i: int|
            0 <= i < paths.len() && package_at(#[trigger] paths[i]) == Some(name),
    decreases paths.len(),
{
    if paths.len() > 0 {
        let front = paths.drop_last();
        lemma_packages_at(front, name);
        if packages_at(front).contains(name) {
            let i = choose|i: int|
                0 <= i < front.len() && package_at(#[trigger] front[i]) == Some(name);
            assert(package_at(paths[i]) == Some(name));
        }
        if package_at(paths.last()) == Some(name) {
            assert(package_at(paths[paths.len() - 1]) == Some(name));
        }
        if exists|i: int| 0 <= i < paths.len() && package_at(#[trigger] paths[i]) == Some(name) {
            let i = choose|i: int|
                0 <= i < paths.len() && package_at(#[trigger] paths[i]) == Some(name);
            if i < front.len() {
                assert(package_at(front[i]) == Some(name));
            }
        }
    }
}

/// The packages of a project are its name, what the paths that hatch builds are named, and what
/// setuptools lists: all of these, and nothing else.
pub proof fn declared_packages_come_from_three_places(project: PyProjectModel, name: Seq<char>)
    ensures
        declared_packages(project).contains(name) == {
            ||| project.name == Some(name)
            ||| project.hatch_packages matches Some(paths) && exists|i: int|
                0 <= i < paths.len() && package_at(#[trigger] paths[i]) == Some(name)
            ||| project.setuptools_packages matches Some(names) && names.contains(name)
        },
{
    if let Some(paths) = project.hatch_packages {
        lemma_packages_at(paths, name);
    }
}

/// A project that declares a package has those that it declares, whatever its directory is called;
/// one that declares none, or nothing that can be read, has the one named like its directory.
pub proof fn directories_name_packages_only_where_nothing_else_does(
    source: Option<Seq<char>>,
    directory: Option<Seq<char>>,
    name: Seq<char>,
)
    ensures
        declared_in(source) is None ==> project_packages(source, directory).contains(name) == (
        directory == Some(name)),
        declared_in(source) matches Some(project) ==> {
            &&& (exists|other: Seq<char>| #[trigger] declared_packages(project).contains(other))
                ==> project_packages(source, directory) == declared_packages(project)
            &&& (forall|other: Seq<char>| !#[trigger] declared_packages(project).contains(other))
                ==> project_packages(source, directory).contains(name) == (directory == Some(name))
        },
        source is None ==> declared_in(source) is None,
{
    if let Some(project) = declared_in(source) {
        let all = declared_packages(project);
        if forall|other: Seq<char>| !#[trigger] all.contains(other) {
            assert(all =~= Set::<Seq<char>>::empty());
        }
        if exists|other: Seq<char>| #[trigger] all.contains(other) {
            let other = choose|other: Seq<char>| #[trigger] all.contains(other);
            assert(all != Set::<Seq<char>>::empty());
        }
    }
}

proof fn lemma_char_found(s: Seq<char>, pat: Seq<char>, c: char)
    requires
        pat == seq![c],
    ensures
        has_text(s, pat) == s.contains(c),
{
    texts_are_found_where_they_stand(s, pat, Seq::empty(), Seq::empty());
    if has_text(s, pat) {
        let i = choose|i: int|
            0 <= i <= s.len() - pat.len() && s == s.subrange(0, i) + pat + #[trigger] s.subrange(
                i + pat.len(),
                s.len() as int,
            );
        assert((s.subrange(0, i) + pat + s.subrange(i + pat.len(), s.len() as int))[i] == c);
        assert(s[i] == c);
    }
    if s.contains(c) {
        let i = choose|i: int| 0 <= i < s.len() && s[i] == c;
        let a = s.subrange(0, i);
        let b = s.subrange(i + 1, s.len() as int);
        assert(s =~= a + pat + b);
        texts_are_found_where_they_stand(s, pat, a, b);
    }
}

/// Whether the star at `k` stands where only a whole last segment may be one.
pub open spec fn star_astray(s: Seq<char>, k: int) -> bool {
    s[k] == '*' && !(k == s.len() - 1 && (k == 0 || s[k - 1] == '/'))
}

proof fn lemma_stray(s: Seq<char>, start: int)
    requires
        0 <= start <= s.len(),
        start == 0 || s[start - 1] == '/',
    ensures
        stray_star(split_from(s, '/', start)) == exists|k: int|
            start <= k < s.len() && #[trigger] star_astray(s, k),
    decreases s.len() - start,
{
    reveal_strlit("*");
    let pat = "*"@;
    assert(pat =~= seq!['*']);
    lemma_find(s, '/', start);
    let e = find(s, '/', start);
    let all = split_from(s, '/', start);
    let first = s.subrange(start, e);
    lemma_char_found(first, pat, '*');
    pieces_hold_no_separator(s, '/', start);
    if first.contains('*') {
        let i = choose|i: int| 0 <= i < first.len() && first[i] == '*';
        assert(s[start + i] == '*');
    }
    assert(first.contains('*') == exists|k: int| start <= k < e && #[trigger] s[k] == '*') by {
        if exists|k: int| start <= k < e && #[trigger] s[k] == '*' {
            let k = choose|k: int| start <= k < e && #[trigger] s[k] == '*';
            assert(first[k - start] == '*');
        }
    }
    if e < s.len() {
        lemma_stray(s, e + 1);
        pieces_hold_no_separator(s, '/', e + 1);
        let rest = split_from(s, '/', e + 1);
        assert(all =~= seq![first] + rest);
        assert(stray_star(all) == (has_text(first, pat) || stray_star(rest))) by {
            if has_text(first, pat) {
                assert(has_text(all[0], pat));
            }
            if stray_star(rest) {
                let i = choose|i: int|
                    0 <= i < rest.len() && has_text(#[trigger] rest[i], pat) && !(i == rest.len() - 1
                        && rest[i] == pat);
                assert(all[i + 1] == rest[i]);
                assert(has_text(all[i + 1], pat));
            }
            if stray_star(all) {
                let i = choose|i: int|
                    0 <= i < all.len() && has_text(#[trigger] all[i], pat) && !(i == all.len() - 1
                        && all[i] == pat);
                if i > 0 {
                    assert(rest[i - 1] == all[i]);
                }
            }
        }
        if first.contains('*') {
            let k = choose|k: int| start <= k < e && #[trigger] s[k] == '*';
            assert(star_astray(s, k));
        }
        if exists|k: int| start <= k < s.len() && #[trigger] star_astray(s, k) {
            let k = choose|k: int| start <= k < s.len() && #[trigger] star_astray(s, k);
            if k < e {
                assert(s[k] == '*');
            } else {
                assert(k != e);
                assert(star_astray(s, k));
            }
        }
    } else {
        assert(all =~= seq![first]);
        assert(all[0] == first);
        if stray_star(all) {
            assert(has_text(first, pat) && first != pat);
            let k = choose|k: int| start <= k < e && #[trigger] s[k] == '*';
            if !star_astray(s, k) {
                assert(k == s.len() - 1);
                assert(k == start);
                assert(first =~= pat);
            }
        }
        if exists|k: int| start <= k < s.len() && #[trigger] star_astray(s, k) {
            let k = choose|k: int| start <= k < s.len() && #[trigger] star_astray(s, k);
            assert(s[k] == '*');
            assert(has_text(all[0], pat));
            if first == pat {
                assert(first.len() == 1);
                assert(k == start);
            }
        }
    }
}

/// A pattern for members is taken exactly where it has no wildcard but one star, which has to be its
/// whole last part.
pub proof fn patterns_have_at_most_a_last_star(pattern: Seq<char>)
    ensures
        glob_error(pattern) is None <==> {
            &&& !pattern.contains('?')
            &&& !pattern.contains('[')
            &&& forall|k: int| 0 <= k < pattern.len() ==> !#[trigger] star_astray(pattern, k)
        },
        glob_error(pattern) matches Some(e) ==> has_text(e, pattern),
{
    reveal_strlit("?");
    reveal_strlit("[");
    reveal_strlit("**");
    assert("?"@ =~= seq!['?']);
    assert("["@ =~= seq!['[']);
    lemma_char_found(pattern, "?"@, '?');
    lemma_char_found(pattern, "["@, '[');
    lemma_stray(pattern, 0);
    texts_are_found_where_they_stand(pattern, "**"@, Seq::empty(), Seq::empty());
    if has_text(pattern, "**"@) {
        let i = choose|i: int|
            0 <= i <= pattern.len() - "**"@.len() && pattern == pattern.subrange(0, i) + "**"@
                + #[trigger] pattern.subrange(i + "**"@.len(), pattern.len() as int);
        let there = pattern.subrange(0, i) + "**"@ + pattern.subrange(i + 2, pattern.len() as int);
        assert(there[i] == '*');
        assert(star_astray(pattern, i));
    }
    let a = "unsupported glob in [tool.uv.workspace].members: `"@;
    let b = "` ("@;
    lemma_told(a, pattern, b, "recursive `**` is not supported"@);
    lemma_told(a, pattern, b, "`?` wildcards are not supported"@);
    lemma_told(a, pattern, b, "character classes are not supported"@);
    lemma_told(a, pattern, b, "only a single trailing `*` segment is supported"@);
}

proof fn lemma_told(a: Seq<char>, pattern: Seq<char>, b: Seq<char>, why: Seq<char>)
    ensures
        has_text(a + pattern + b + why + ")"@, pattern),
{
    assert(a + pattern + b + why + ")"@ =~= a + pattern + (b + why + ")"@));
    texts_are_found_where_they_stand(pattern, pattern, a, b + why + ")"@);
}

/// A pattern that ends in a star stands for what lies directly in the directory before it.
pub proof fn stars_stand_for_what_lies_in_a_directory(directory: Seq<char>, pattern: Seq<char>)
    ensures
        starred_directory(directory + seq!['/', '*']) == Some(directory),
        starred_directory(seq!['*']) == Some(Seq::<char>::empty()),
        pattern.len() == 0 || pattern.last() != '*' ==> starred_directory(pattern) is None,
{
    reveal_strlit("*");
    let a = directory + seq!['/', '*'];
    let n = a.len() as int;
    assert(a[n - 2] == '/' && a[n - 1] == '*');
    lemma_rfind_is(a, '/', n, n - 2);
    assert(a.subrange(n - 1, n) =~= "*"@);
    assert(a.subrange(0, n - 2) =~= directory);
    if n - 2 == 0 {
        assert(directory =~= Seq::<char>::empty());
    }
    let b = seq!['*'];
    lemma_rfind_is(b, '/', 1, -1);
    assert(b.subrange(0, 1) =~= "*"@);
    let m = pattern.len() as int;
    if m == 0 || pattern.last() != '*' {
        let at = rfind(pattern, '/', m);
        lemma_rfind_range(pattern, '/', m);
        let end = pattern.subrange(at + 1, m);
        if end == "*"@ {
            assert(end[0] == '*');
            assert(end[0] == pattern[at + 1]);
        }
    }
}

proof fn lemma_rfind_range(s: Seq<char>, c: char, upto: int)
    requires
        0 <= upto <= s.len(),
    ensures
        -1 <= rfind(s, c, upto) < upto || upto == 0 && rfind(s, c, upto) == -1,
    decreases upto,
{
    if upto > 0 && s[upto - 1] != c {
        lemma_rfind_range(s, c, upto - 1);
    }
}

/// What a pattern without a star finds is the member, if it is a directory; it has to lie under the
/// root even if it is none. Nothing found is no member.
pub proof fn exact_members_are_directories(
    root: Seq<char>,
    pattern: Seq<char>,
    path: Seq<char>,
    is_dir: bool,
)
    ensures
        exact_members(root, pattern, None) == Ok::<Seq<Seq<char>>, Seq<char>>(Seq::empty()),
        exact_members(root, pattern, Some((path, is_dir))) is Ok <==> lies_under(path, root),
        exact_members(root, pattern, Some((path, is_dir))) matches Ok(members) ==> if is_dir {
            members == seq![path]
        } else {
            members.len() == 0
        },
{
}

proof fn lemma_listed(root: Seq<char>, prefix: Seq<char>, found: Seq<(Seq<char>, bool)>, n: int, path: Seq<char>)
    requires
        0 <= n <= found.len(),
    ensures
        listed_members(root, prefix, found, n) is Ok <==> forall|i: int|
            0 <= i < n && (#[trigger] found[i]).1 ==> lies_under(found[i].0, root),
        listed_members(root, prefix, found, n) matches Ok(members) ==> members.contains(path)
            == exists|i: int| 0 <= i < n && (#[trigger] found[i]).1 && found[i].0 == path,
    decreases n,
{
    if n > 0 {
        lemma_listed(root, prefix, found, n - 1, path);
        if let Ok(before) = listed_members(root, prefix, found, n - 1) {
            let x = found[n - 1];
            if x.1 && lies_under(x.0, root) {
                let members = before.push(x.0);
                if before.contains(path) {
                    let i = choose|i: int| 0 <= i < before.len() && before[i] == path;
                    assert(members[i] == path);
                }
                if x.0 == path {
                    assert(members[before.len() as int] == path);
                    assert(found[n - 1].1);
                }
                if members.contains(path) {
                    let i = choose|i: int| 0 <= i < members.len() && members[i] == path;
                    if i < before.len() {
                        assert(before[i] == path);
                    }
                }
            } else {
                assert(found[n - 1] == x);
            }
        } else {
            let i = choose|i: int|
                0 <= i < n - 1 && (#[trigger] found[i]).1 && !lies_under(found[i].0, root);
            assert(found[i].1 && !lies_under(found[i].0, root));
        }
    } else if let Ok(members) = listed_members(root, prefix, found, n) {
        assert(!members.contains(path));
    }
}

/// What a pattern with a star finds are the directories among what was met, all of them and nothing
/// else, in the order of paths; one that does not lie under the root refuses the workspace.
pub proof fn starred_members_are_the_directories(
    root: Seq<char>,
    prefix: Seq<char>,
    found: Seq<(Seq<char>, bool)>,
    path: Seq<char>,
)
    ensures
        star_members(root, prefix, found) is Ok <==> forall|i: int|
            0 <= i < found.len() && (#[trigger] found[i]).1 ==> lies_under(found[i].0, root),
        star_members(root, prefix, found) matches Ok(members) ==> {
            &&& members.contains(path) == exists|i: int|
                0 <= i < found.len() && (#[trigger] found[i]).1 && found[i].0 == path
            &&& forall|i: int, j: int|
                0 <= i < j < members.len() ==> path_leq()(#[trigger] members[i], #[trigger] members[j])
        },
{
    broadcast use group_to_multiset_ensures;

    lemma_listed(root, prefix, found, found.len() as int, path);
    if let Ok(members) = listed_members(root, prefix, found, found.len() as int) {
        lemma_path_total();
        let leq = path_leq();
        members.lemma_sort_by_ensures(leq);
        let sorted = members.sort_by(leq);
        assert(sorted.contains(path) == (sorted.to_multiset().count(path) > 0));
        assert(members.contains(path) == (members.to_multiset().count(path) > 0));
        assert forall|i: int, j: int| 0 <= i < j < sorted.len() implies leq(
            #[trigger] sorted[i],
            #[trigger] sorted[j],
        ) by {}
    }
}

/// Where a table with one key is written as a list, the list holds one value, which stands for it;
/// a list of several is refused.
pub proof fn lone_values_stand_for_tables(item: ItemModel, name: Seq<char>, values: Seq<ItemModel>)
    ensures
        lone_member(ItemModel::List(seq![item]), name) == Ok::<Option<ItemModel>, ()>(Some(item)),
        values.len() != 1 ==> lone_member(ItemModel::List(values), name) is Err,
        item is Table ==> lone_member(item, name) == Ok::<Option<ItemModel>, ()>(under(item, name)),
        item is Text || item is Other ==> lone_member(item, name) is Err,
{
}

} // verus!
