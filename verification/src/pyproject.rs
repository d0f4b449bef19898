//! What a `pyproject.toml` declares: the project's name, its packages, and the members of a
//! workspace.
use vstd::prelude::*;

use crate::document::{
    entry_from, is_record, list_member, member, opt_item, opt_views, read_list, read_text,
    read_toml, text_member, toml_document, Item, ItemModel,
};
use crate::names::NameSet;
use crate::text::{chars_of, cut, opt_view, rfind, rfind_char, sorted_of, strictly_sorted, views};

verus! {

/// What is read of the document.
pub const PYPROJECT_MEMBERS: [&'static str; 2] = ["project", "tool"];

/// What is read of `[project]`.
pub const PROJECT_MEMBERS: [&'static str; 1] = ["name"];

/// What is read of `[tool]` for the packages.
pub const TOOL_MEMBERS: [&'static str; 2] = ["hatch", "setuptools"];

/// What is read of `[tool.hatch]`.
pub const HATCH_MEMBERS: [&'static str; 1] = ["build"];

/// What is read of `[tool.hatch.build]`.
pub const BUILD_MEMBERS: [&'static str; 1] = ["targets"];

/// What is read of `[tool.hatch.build.targets]`.
pub const TARGETS_MEMBERS: [&'static str; 1] = ["wheel"];

/// What is read of a wheel, and of `[tool.setuptools]`.
pub const PACKAGES_MEMBERS: [&'static str; 1] = ["packages"];

/// What is read of `[tool.setuptools.packages]`.
pub const FIND_MEMBERS: [&'static str; 1] = ["find"];

/// What is read of `[tool.setuptools.packages.find]`.
pub const INCLUDED_MEMBERS: [&'static str; 1] = ["include"];

/// What is read of `[tool]` for a workspace.
pub const UV_TOOL_MEMBERS: [&'static str; 1] = ["uv"];

/// What is read of `[tool.uv]`.
pub const UV_MEMBERS: [&'static str; 1] = ["workspace"];

/// What is read of `[tool.uv.workspace]`.
pub const WORKSPACE_MEMBERS: [&'static str; 1] = ["members"];

/// The part of a document under a member of a record that may be missing. Fails where something
/// stands in the record's place that is none.
pub open spec fn part(item: Option<ItemModel>, names: Seq<&'static str>, i: int) -> Result<
    Option<ItemModel>,
    (),
> {
    match item {
        None => Ok(None),
        Some(record) => if is_record(record, names) {
            Ok(member(record, names, i))
        } else {
            Err(())
        },
    }
}

/// A part of a part.
pub open spec fn part_of(
    item: Result<Option<ItemModel>, ()>,
    names: Seq<&'static str>,
    i: int,
) -> Result<Option<ItemModel>, ()> {
    match item {
        Ok(found) => part(found, names, i),
        Err(e) => Err(e),
    }
}

/// The name that a document declares. Fails where something of the wrong shape stands there.
pub open spec fn declared_name(document: ItemModel) -> Result<Option<Seq<char>>, ()> {
    match part_of(part(Some(document), PYPROJECT_MEMBERS@, 0), PROJECT_MEMBERS@, 0) {
        Ok(name) => match text_member(name, "name"@) {
            Ok(s) => Ok(s),
            Err(_) => Err(()),
        },
        Err(e) => Err(e),
    }
}

/// The paths of packages that a document declares for a wheel built by Hatch.
pub open spec fn hatch_packages(document: ItemModel) -> Result<Option<Seq<Seq<char>>>, ()> {
    let tool = part(Some(document), PYPROJECT_MEMBERS@, 1);
    let hatch = part_of(tool, TOOL_MEMBERS@, 0);
    let build = part_of(hatch, HATCH_MEMBERS@, 0);
    let targets = part_of(build, BUILD_MEMBERS@, 0);
    let wheel = part_of(targets, TARGETS_MEMBERS@, 0);
    match part_of(wheel, PACKAGES_MEMBERS@, 0) {
        Ok(packages) => match list_member(packages, "packages"@) {
            Ok(v) => Ok(v),
            Err(_) => Err(()),
        },
        Err(e) => Err(e),
    }
}

/// A record of one member inside the packages of setuptools: a table, or the list of the member
/// alone.
pub open spec fn lone_member(item: ItemModel, name: Seq<char>) -> Result<Option<ItemModel>, ()> {
    match item {
        ItemModel::Table(entries) => Ok(entry_from(entries, name, 0)),
        ItemModel::List(values) => if values.len() == 1 {
            Ok(Some(values[0]))
        } else {
            Err(())
        },
        _ => Err(()),
    }
}

/// The packages that a declaration for setuptools names: a list of them, or what a search is told
/// to take in.
pub open spec fn setuptools_list(packages: Option<ItemModel>) -> Result<Option<Seq<Seq<char>>>, ()> {
    match packages {
        None => Ok(None),
        Some(item) => match list_member(Some(item), "packages"@) {
            Ok(v) => Ok(v),
            Err(_) => match lone_member(item, "find"@) {
                Err(e) => Err(e),
                Ok(None) => Ok(None),
                Ok(Some(find)) => match lone_member(find, "include"@) {
                    Err(e) => Err(e),
                    Ok(taken_in) => match list_member(taken_in, "include"@) {
                        Ok(v) => Ok(v),
                        Err(_) => Err(()),
                    },
                },
            },
        },
    }
}

/// The packages that a document declares for setuptools.
pub open spec fn setuptools_packages(document: ItemModel) -> Result<Option<Seq<Seq<char>>>, ()> {
    let tool = part(Some(document), PYPROJECT_MEMBERS@, 1);
    let setuptools = part_of(tool, TOOL_MEMBERS@, 1);
    match part_of(setuptools, PACKAGES_MEMBERS@, 0) {
        Ok(packages) => setuptools_list(packages),
        Err(e) => Err(e),
    }
}

/// What a `pyproject.toml` declares.
#[derive(Debug)]
pub struct PyProject {
    pub name: Option<String>,
    pub hatch_packages: Option<Vec<String>>,
    pub setuptools_packages: Option<Vec<String>>,
}

/// What a `PyProject` says.
#[verifier::ext_equal]
pub struct PyProjectModel {
    pub name: Option<Seq<char>>,
    pub hatch_packages: Option<Seq<Seq<char>>>,
    pub setuptools_packages: Option<Seq<Seq<char>>>,
}

impl View for PyProject {
    type V = PyProjectModel;

    open spec fn view(&self) -> PyProjectModel {
        PyProjectModel {
            name: opt_view(self.name),
            hatch_packages: opt_views(self.hatch_packages),
            setuptools_packages: opt_views(self.setuptools_packages),
        }
    }
}

/// What a document declares; nothing where any of it has the wrong shape.
pub open spec fn declarations(document: ItemModel) -> Option<PyProjectModel> {
    match (declared_name(document), hatch_packages(document), setuptools_packages(document)) {
        (Ok(name), Ok(hatch), Ok(setuptools)) => Some(
            PyProjectModel { name, hatch_packages: hatch, setuptools_packages: setuptools },
        ),
        _ => None,
    }
}

/// What the contents of a file declare; nothing where they cannot be read.
pub open spec fn declared_in(source: Option<Seq<char>>) -> Option<PyProjectModel> {
    match source {
        None => None,
        Some(text) => match toml_document(text) {
            Ok(document) => declarations(document),
            Err(_) => None,
        },
    }
}

/// A result that either failed or led to an item.
pub open spec fn part_view(r: Result<Option<&Item>, ()>) -> Result<Option<ItemModel>, ()> {
    match r {
        Ok(o) => Ok(opt_item(o)),
        Err(e) => Err(e),
    }
}

fn find_part<'a>(item: Result<Option<&'a Item>, ()>, names: &[&'static str], i: usize) -> (r: Result<
    Option<&'a Item>,
    (),
>)
    requires
        i < names@.len(),
    ensures
        part_view(r) == part_of(part_view(item), names@, i as int),
{
    match item {
        Ok(None) => Ok(None),
        Ok(Some(record)) => {
            if record.is_record(names) {
                Ok(record.member(names, i))
            } else {
                Err(())
            }
        },
        Err(e) => Err(e),
    }
}

fn find_lone<'a>(item: &'a Item, names: &[&'static str]) -> (r: Result<Option<&'a Item>, ()>)
    requires
        names@.len() == 1,
    ensures
        part_view(r) == lone_member(item@, names@[0]@),
{
    match item {
        Item::Table(_) => Ok(item.member(names, 0)),
        Item::List(values) => {
            assert(item@->List_0.len() == values@.len());
            if values.len() == 1 {
                Ok(item.member(names, 0))
            } else {
                Err(())
            }
        },
        _ => Err(()),
    }
}

fn texts_at(item: Option<&Item>) -> (r: Result<Option<Vec<String>>, ()>)
    ensures
        match list_member(opt_item(item), "packages"@) {
            Ok(v) => r is Ok && opt_views(r->Ok_0) == v,
            Err(_) => r is Err,
        },
        match list_member(opt_item(item), "include"@) {
            Ok(v) => r is Ok && opt_views(r->Ok_0) == v,
            Err(_) => r is Err,
        },
        match list_member(opt_item(item), "members"@) {
            Ok(v) => r is Ok && opt_views(r->Ok_0) == v,
            Err(_) => r is Err,
        },
{
    match read_list(item, "packages") {
        Ok(v) => Ok(v),
        Err(_) => Err(()),
    }
}

fn read_name(document: &Item) -> (r: Result<Option<String>, ()>)
    ensures
        match declared_name(document@) {
            Ok(s) => r is Ok && opt_view(r->Ok_0) == s,
            Err(_) => r is Err,
        },
{
    let project = find_part(Ok(Some(document)), PYPROJECT_MEMBERS.as_slice(), 0);
    match find_part(project, PROJECT_MEMBERS.as_slice(), 0) {
        Ok(name) => match read_text(name, "name") {
            Ok(s) => Ok(s),
            Err(_) => Err(()),
        },
        Err(e) => Err(e),
    }
}

fn read_hatch(document: &Item) -> (r: Result<Option<Vec<String>>, ()>)
    ensures
        match hatch_packages(document@) {
            Ok(v) => r is Ok && opt_views(r->Ok_0) == v,
            Err(_) => r is Err,
        },
{
    let tool = find_part(Ok(Some(document)), PYPROJECT_MEMBERS.as_slice(), 1);
    let hatch = find_part(tool, TOOL_MEMBERS.as_slice(), 0);
    let build = find_part(hatch, HATCH_MEMBERS.as_slice(), 0);
    let targets = find_part(build, BUILD_MEMBERS.as_slice(), 0);
    let wheel = find_part(targets, TARGETS_MEMBERS.as_slice(), 0);
    match find_part(wheel, PACKAGES_MEMBERS.as_slice(), 0) {
        Ok(packages) => texts_at(packages),
        Err(e) => Err(e),
    }
}

fn read_setuptools(document: &Item) -> (r: Result<Option<Vec<String>>, ()>)
    ensures
        match setuptools_packages(document@) {
            Ok(v) => r is Ok && opt_views(r->Ok_0) == v,
            Err(_) => r is Err,
        },
{
    let tool = find_part(Ok(Some(document)), PYPROJECT_MEMBERS.as_slice(), 1);
    let setuptools = find_part(tool, TOOL_MEMBERS.as_slice(), 1);
    let packages = match find_part(setuptools, PACKAGES_MEMBERS.as_slice(), 0) {
        Ok(packages) => packages,
        Err(e) => {
            return Err(e);
        },
    };
    let item = match packages {
        None => {
            return Ok(None);
        },
        Some(item) => item,
    };
    if let Ok(v) = texts_at(Some(item)) {
        return Ok(v);
    }
    match find_lone(item, FIND_MEMBERS.as_slice()) {
        Err(e) => Err(e),
        Ok(None) => Ok(None),
        Ok(Some(find)) => match find_lone(find, INCLUDED_MEMBERS.as_slice()) {
            Err(e) => Err(e),
            Ok(taken_in) => texts_at(taken_in),
        },
    }
}

/// What a document declares; nothing where any of it has the wrong shape.
pub fn read_declarations(document: &Item) -> (r: Option<PyProject>)
    ensures
        match declarations(document@) {
            Some(model) => r is Some && r->0@ == model,
            None => r is None,
        },
{
    match (read_name(document), read_hatch(document), read_setuptools(document)) {
        (Ok(name), Ok(hatch), Ok(setuptools)) => Some(
            PyProject { name, hatch_packages: hatch, setuptools_packages: setuptools },
        ),
        _ => None,
    }
}

/// What the contents of a file declare; nothing where there is no file or it cannot be read.
pub fn read_pyproject_silent(source: &Option<String>) -> (r: Option<PyProject>)
    ensures
        match declared_in(opt_view(*source)) {
            Some(model) => r is Some && r->0@ == model,
            None => r is None,
        },
{
    match source {
        None => None,
        Some(text) => match read_toml(text) {
            Ok(document) => read_declarations(&document),
            Err(_) => None,
        },
    }
}

/// The name that the contents of a file declare.
pub fn read_project_name(source: &Option<String>) -> (r: Option<String>)
    ensures
        opt_view(r) == (match declared_in(opt_view(*source)) {
            Some(model) => model.name,
            None => None,
        }),
{
    match read_pyproject_silent(source) {
        Some(parsed) => parsed.name,
        None => None,
    }
}

/// `path` without the separators it ends with.
pub open spec fn without_trailing_slashes(path: Seq<char>) -> Seq<char>
    decreases path.len(),
{
    if path.len() > 0 && path.last() == '/' {
        without_trailing_slashes(path.drop_last())
    } else {
        path
    }
}

/// What stands behind the last separator of a path.
pub open spec fn last_segment_of(path: Seq<char>) -> Seq<char> {
    path.subrange(rfind(path, '/', path.len() as int) + 1, path.len() as int)
}

/// The package at the end of a path, if the path is more than separators.
pub open spec fn package_at(path: Seq<char>) -> Option<Seq<char>> {
    let base = last_segment_of(without_trailing_slashes(path));
    if base.len() > 0 {
        Some(base)
    } else {
        None
    }
}

/// The package at the end of a path.
pub fn package_basename(path: &str) -> (r: Option<String>)
    ensures
        opt_view(r) == package_at(path@),
{
    let chars = chars_of(path);
    let mut n: usize = chars.len();
    assert(path@.subrange(0, n as int) =~= path@);
    while n > 0 && chars[n - 1] == '/'
        invariant
            n <= chars@.len(),
            chars@ == path@,
            without_trailing_slashes(path@.subrange(0, n as int)) == without_trailing_slashes(
                path@,
            ),
        decreases n,
    {
        proof {
            let t = path@.subrange(0, n as int);
            assert(t.drop_last() =~= path@.subrange(0, n - 1));
            assert(t.last() == path@[n - 1]);
        }
        n -= 1;
    }
    let ghost kept = path@.subrange(0, n as int);
    proof {
        if n > 0 {
            assert(kept.last() == path@[n - 1]);
        }
    }
    let front = cut(&chars, 0, n);
    let letters = chars_of(&front);
    let from: usize = match rfind_char(&letters, '/') {
        Some(i) => i + 1,
        None => 0,
    };
    let base = cut(&letters, from, n);
    if base.as_str().is_empty() {
        None
    } else {
        Some(base)
    }
}

/// The packages at the ends of paths.
pub open spec fn packages_at(paths: Seq<Seq<char>>) -> Set<Seq<char>>
    decreases paths.len(),
{
    if paths.len() == 0 {
        Set::empty()
    } else {
        let before = packages_at(paths.drop_last());
        match package_at(paths.last()) {
            Some(name) => before.insert(name),
            None => before,
        }
    }
}

/// The set of a name that may be missing.
pub open spec fn name_set(name: Option<Seq<char>>) -> Set<Seq<char>> {
    match name {
        Some(s) => Set::empty().insert(s),
        None => Set::empty(),
    }
}

/// The set of the names of a list that may be missing.
pub open spec fn list_set(names: Option<Seq<Seq<char>>>) -> Set<Seq<char>> {
    match names {
        Some(v) => v.to_set(),
        None => Set::empty(),
    }
}

/// The packages that a project declares: its name, the packages of its wheel, those of
/// setuptools.
pub open spec fn declared_packages(project: PyProjectModel) -> Set<Seq<char>> {
    name_set(project.name).union(
        match project.hatch_packages {
            Some(paths) => packages_at(paths),
            None => Set::empty(),
        },
    ).union(list_set(project.setuptools_packages))
}

/// The packages of a project: those it declares, or where it declares none the name of its
/// directory.
pub open spec fn project_packages(source: Option<Seq<char>>, directory: Option<Seq<char>>) -> Set<
    Seq<char>,
> {
    let declared = match declared_in(source) {
        Some(project) => declared_packages(project),
        None => Set::empty(),
    };
    if declared == Set::<Seq<char>>::empty() {
        name_set(directory)
    } else {
        declared
    }
}

fn collect_packages(project: &PyProject) -> (r: NameSet)
    ensures
        r@ == declared_packages(project@),
{
    let mut names = NameSet::new();
    if let Some(name) = &project.name {
        names.insert(name.clone());
    }
    assert(names@ =~= name_set(project@.name));
    let ghost first = names@;
    let mut wheel = NameSet::new();
    if let Some(paths) = &project.hatch_packages {
        let mut i: usize = 0;
        while i < paths.len()
            invariant
                i <= paths@.len(),
                wheel@ == packages_at(views(paths@).take(i as int)),
            decreases paths@.len() - i,
        {
            proof {
                let t = views(paths@).take(i + 1);
                assert(t.drop_last() =~= views(paths@).take(i as int));
                assert(t.last() == paths@[i as int]@);
            }
            if let Some(base) = package_basename(&paths[i]) {
                wheel.insert(base);
            }
            i += 1;
        }
        assert(views(paths@).take(i as int) =~= views(paths@));
    }
    names.insert_all(&wheel);
    let ghost second = names@;
    if let Some(list) = &project.setuptools_packages {
        let mut i: usize = 0;
        assert(second.union(views(list@).take(0).to_set()) =~= second);
        while i < list.len()
            invariant
                i <= list@.len(),
                names@ == second.union(views(list@).take(i as int).to_set()),
            decreases list@.len() - i,
        {
            names.insert(list[i].clone());
            proof {
                let t = views(list@);
                assert(t.take(i + 1) =~= t.take(i as int).push(t[i as int]));
                t.take(i as int).lemma_push_to_set_commute(t[i as int]);
                assert(second.union(t.take(i as int).to_set()).insert(t[i as int]) =~= second.union(
                    t.take(i + 1).to_set(),
                ));
            }
            i += 1;
        }
        assert(views(list@).take(i as int) =~= views(list@));
    } else {
        assert(second.union(Set::empty()) =~= second);
    }
    names
}

/// The packages of a project, each once, in order: those that the contents of its file declare, or
/// where these declare none the name of its directory.
pub fn read_project_packages(source: &Option<String>, directory: &Option<String>) -> (r: Vec<String>)
    ensures
        views(r@) == sorted_of(project_packages(opt_view(*source), opt_view(*directory))),
        strictly_sorted(views(r@)),
        views(r@).to_set() == project_packages(opt_view(*source), opt_view(*directory)),
{
    let declared = match read_pyproject_silent(source) {
        Some(project) => collect_packages(&project),
        None => NameSet::new(),
    };
    let list = declared.to_list();
    if list.len() > 0 {
        proof {
            assert(views(list@)[0] == list@[0]@);
            assert(views(list@).to_set().contains(list@[0]@));
        }
        return list;
    }
    assert(declared@ =~= Set::<Seq<char>>::empty()) by {
        assert(views(list@).len() == 0);
    }
    let mut fallback = NameSet::new();
    if let Some(name) = directory {
        fallback.insert(name.clone());
    }
    assert(fallback@ =~= name_set(opt_view(*directory)));
    fallback.to_list()
}

/// The patterns of a workspace's members: nothing where a document declares no workspace, or
/// something of the wrong shape stands in its place.
pub open spec fn workspace_members(document: ItemModel) -> Option<Seq<Seq<char>>> {
    let tool = part(Some(document), PYPROJECT_MEMBERS@, 1);
    let uv = part_of(tool, UV_TOOL_MEMBERS@, 0);
    match part_of(uv, UV_MEMBERS@, 0) {
        Ok(Some(workspace)) => match part(Some(workspace), WORKSPACE_MEMBERS@, 0) {
            Ok(members) => match list_member(members, "members"@) {
                Ok(Some(v)) => Some(v),
                Ok(None) => Some(Seq::empty()),
                Err(_) => None,
            },
            Err(_) => None,
        },
        _ => None,
    }
}

/// The patterns of the members of the workspace that the contents of a file declare: an empty list
/// where it declares one without members, nothing where it declares none.
pub fn read_uv_workspace_members(source: &Option<String>) -> (r: Option<Vec<String>>)
    ensures
        opt_views(r) == (match opt_view(*source) {
            Some(text) => match toml_document(text) {
                Ok(document) => workspace_members(document),
                Err(_) => None,
            },
            None => None,
        }),
{
    let text = match source {
        Some(text) => text,
        None => {
            return None;
        },
    };
    let document = match read_toml(text) {
        Ok(document) => document,
        Err(_) => {
            return None;
        },
    };
    let tool = find_part(Ok(Some(&document)), PYPROJECT_MEMBERS.as_slice(), 1);
    let uv = find_part(tool, UV_TOOL_MEMBERS.as_slice(), 0);
    match find_part(uv, UV_MEMBERS.as_slice(), 0) {
        Ok(Some(workspace)) => {
            match find_part(Ok(Some(workspace)), WORKSPACE_MEMBERS.as_slice(), 0) {
                Ok(members) => match texts_at(members) {
                    Ok(Some(v)) => Some(v),
                    Ok(None) => {
                        let none: Vec<String> = Vec::new();
                        assert(views(none@) =~= Seq::<Seq<char>>::empty());
                        Some(none)
                    },
                    Err(_) => None,
                },
                Err(_) => None,
            }
        },
        _ => None,
    }
}

} // verus!
