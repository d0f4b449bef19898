//! What holds of an audit as a whole.
use vstd::prelude::*;

use crate::audit::{
    all_imports, all_tests, assertion_total, audited_files, audited_tests, default_config,
    file_record_of, importable, target_of, Request, SourceModel, Target,
};
use crate::guide::{inventory_contents, page_for, Page};
use crate::inventory::{any_candidates, any_ran_coverage, any_ran_pytest, has_candidates, Inventory};
use crate::json::{json_document, under_key};
use crate::laws::texts::texts_are_found_where_they_stand;
use crate::numerals::has_text;
use crate::ordering::{line_key, stable, stable_order};
use crate::records::{FileModel, TestModel};
use crate::smells::{file_smells, larger, overuses, test_smells};
use crate::suspicion::of_file;
use crate::sut_calls::with_resolved_names;

verus! {

/// Something that is not there cannot be audited. A file is audited by itself and a directory as a
/// project, but a directory that declares a workspace as a workspace; whatever was asked for, a
/// request that is taken decides nothing else.
pub proof fn targets_go_by_what_is_there(request: Request, path: Seq<char>)
    ensures
        !request.found ==> target_of(request, path) is Err,
        target_of(request, path) matches Ok(target) ==> {
            &&& request.found
            &&& target == Target::File <==> !request.is_dir
            &&& target == Target::Workspace <==> request.is_dir && request.declares_workspace
            &&& target == Target::Project <==> request.is_dir && !request.declares_workspace
        },
        target_of(request, path) matches Err(e) ==> has_text(e, path),
{
    let none = Seq::<char>::empty();
    assert("path does not exist: "@ + path =~= "path does not exist: "@ + path + none);
    texts_are_found_where_they_stand(path, path, "path does not exist: "@, none);
    texts_are_found_where_they_stand(
        path,
        path,
        "--tests-dir is only meaningful with a project-directory input (got file: "@,
        ")"@,
    );
    texts_are_found_where_they_stand(
        path,
        path,
        "--tests-dir is incompatible with a uv-workspace root ("@,
        "); set it per-member instead"@,
    );
    texts_are_found_where_they_stand(
        path,
        path,
        "--project-package is incompatible with a uv-workspace root ("@,
        "); each member's pyproject declares its own package"@,
    );
    texts_are_found_where_they_stand(
        path,
        path,
        "--accept-file is incompatible with a uv-workspace root ("@,
        "); each member reads its own"@,
    );
}

/// What is there is refused exactly where something was asked for that has no meaning for it: a
/// directory of tests for a file; and for a workspace that, or a package, or a file of acceptances.
/// A project takes all of them.
pub proof fn requests_are_refused_for_what_has_no_meaning(request: Request, path: Seq<char>)
    requires
        request.found,
    ensures
        !request.is_dir ==> (target_of(request, path) is Err <==> request.tests_dir_given),
        request.is_dir && !request.declares_workspace ==> target_of(request, path) is Ok,
        request.is_dir && request.declares_workspace ==> (target_of(request, path) is Err
            <==> request.tests_dir_given || request.project_package_given
            || request.accept_file_given),
{
}

/// The name of a module is that of its project with underscores for hyphens.
pub proof fn modules_are_named_with_underscores(name: Seq<char>, i: int)
    requires
        0 <= i < name.len(),
    ensures
        importable(name).len() == name.len(),
        name[i] == '-' ==> importable(name)[i] == '_',
        name[i] != '-' ==> importable(name)[i] == name[i],
{
}

/// The assertions of a list of tests are those of each of them.
pub proof fn assertions_add_up(a: Seq<TestModel>, b: Seq<TestModel>, test: TestModel)
    ensures
        assertion_total(Seq::empty()) == 0,
        assertion_total(seq![test]) == test.assertion_count,
        assertion_total(a + b) == assertion_total(a) + assertion_total(b),
    decreases b.len(),
{
    assert(seq![test].drop_last() =~= Seq::<TestModel>::empty());
    assert(assertion_total(seq![test].drop_last()) == 0);
    if b.len() == 0 {
        assert(a + b =~= a);
    } else {
        assertions_add_up(a, b.drop_last(), test);
        assert((a + b).drop_last() =~= a + b.drop_last());
        assert((a + b).last() == b.last());
    }
}

/// A file is recorded with its own path and what was counted in it, and bears no smell yet.
pub proof fn files_are_recorded_with_their_counts(source: SourceModel)
    ensures
        ({
            let record = file_record_of(source.path, source.parsed);
            let parsed = source.parsed;
            &&& record.path == source.path
            &&& parsed.test_functions.len() <= u64::MAX ==> record.test_function_count
                == parsed.test_functions.len()
            &&& assertion_total(parsed.test_functions) <= u64::MAX ==> record.assertion_count
                == assertion_total(parsed.test_functions)
            &&& record.mock_construction_count == parsed.mock_construction_count
            &&& record.patch_decorator_count == parsed.patch_decorator_count
            &&& record.stubs_count == parsed.stubs_count
            &&& record.fixture_count == parsed.fixture_count
            &&& record.smell_hits.len() == 0
        }),
{
}

/// The tests of an audit are those of its files, one file after the other, each file's in the order
/// of their lines.
pub proof fn tests_stand_file_by_file(sources: Seq<SourceModel>, source: SourceModel)
    ensures
        all_tests(Seq::empty()).len() == 0,
        exists|own: Seq<TestModel>|
            {
                &&& #[trigger] all_tests(sources.push(source)) == all_tests(sources) + own
                &&& own.to_multiset() == source.parsed.test_functions.to_multiset()
                &&& forall|i: int, j: int|
                    0 <= i < j < own.len() ==> (#[trigger] own[i]).line <= (#[trigger] own[j]).line
            },
{
    assert(sources.push(source).drop_last() =~= sources);
    let own = stable(source.parsed.test_functions, line_key());
    stable_order(source.parsed.test_functions, line_key(), 0);
    assert(all_tests(sources.push(source)) == all_tests(sources) + own);
    assert forall|i: int, j: int| 0 <= i < j < own.len() implies (#[trigger] own[i]).line <= (
    #[trigger] own[j]).line by {
        assert(line_key()(own[i]) <= line_key()(own[j]));
    }
}

/// The imports of a file are found under its path, and those of the last one where two files have
/// the same.
pub proof fn imports_are_found_by_path(sources: Seq<SourceModel>, i: int)
    requires
        0 <= i < sources.len(),
        forall|j: int| i < j < sources.len() ==> (#[trigger] sources[j]).path != sources[i].path,
    ensures
        all_imports(sources).contains_key(sources[i].path),
        all_imports(sources)[sources[i].path] == sources[i].parsed.import_map,
    decreases sources.len(),
{
    let front = sources.drop_last();
    if i < front.len() {
        assert forall|j: int| i < j < front.len() implies (#[trigger] front[j]).path
            != front[i].path by {
            assert(front[j] == sources[j]);
        }
        imports_are_found_by_path(front, i);
        assert(sources[sources.len() - 1].path != sources[i].path);
    }
}

/// With the usual settings, too many mocks are more than two, more than the assertions, and more
/// than two for each assertion, a test without one counting as one with one.
pub proof fn three_mocks_are_too_many(mocks: u64, asserts: u64)
    ensures
        asserts == 0 ==> overuses(mocks, asserts, default_config()) == (mocks > 2),
        asserts > 0 ==> overuses(mocks, asserts, default_config()) == (mocks > 2 * asserts),
{
    let config = default_config();
    let each = larger(asserts as int, 1);
    assert(mocks * config.mock_overuse_ratio_per == mocks) by (nonlinear_arith)
        requires
            config.mock_overuse_ratio_per == 1,
    ;
    assert(config.mock_overuse_ratio * each == 2 * each) by (nonlinear_arith)
        requires
            config.mock_overuse_ratio == 2,
    ;
}

/// An audit has one record for each test and one for each file. Its smells and what its names
/// resolve to are all that an audit adds to a test; a file gets the smells of itself and of its own
/// tests.
pub proof fn audits_add_smells_and_names(
    sources: Seq<SourceModel>,
    packages: Set<Seq<char>>,
    i: int,
    k: int,
)
    requires
        0 <= i < all_tests(sources).len(),
        0 <= k < sources.len(),
    ensures
        ({
            let before = all_tests(sources)[i];
            let after = audited_tests(sources, packages)[i];
            &&& audited_tests(sources, packages).len() == all_tests(sources).len()
            &&& after == (TestModel {
                called_names: after.called_names,
                smell_hits: after.smell_hits,
                ..before
            })
            &&& after.called_names == with_resolved_names(
                before,
                all_imports(sources),
                packages,
            ).called_names
            &&& after.smell_hits == before.smell_hits + test_smells(before, default_config())
        }),
        ({
            let file = file_record_of(sources[k].path, sources[k].parsed);
            let after = audited_files(sources, packages)[k];
            &&& audited_files(sources, packages).len() == sources.len()
            &&& after == (FileModel { smell_hits: after.smell_hits, ..file })
            &&& exists|own: Seq<TestModel>|
                {
                    &&& #[trigger] file_smells(file, own, default_config()) == after.smell_hits
                    &&& forall|test: TestModel|
                        #[trigger] own.contains(test) <==> audited_tests(sources, packages).contains(
                            test,
                        ) && test.file == sources[k].path
                }
        }),
{
    broadcast use vstd::seq_lib::group_filter_ensures;

    let before = all_tests(sources)[i];
    let named = with_resolved_names(before, all_imports(sources), packages);
    assert(test_smells(named, default_config()) == test_smells(before, default_config()));
    let tests = audited_tests(sources, packages);
    let path = sources[k].path;
    let file = file_record_of(path, sources[k].parsed);
    let own = tests.filter(of_file(path));
    assert(file.smell_hits + file_smells(file, own, default_config()) =~= file_smells(
        file,
        own,
        default_config(),
    ));
    assert forall|test: TestModel| #[trigger] own.contains(test) <==> tests.contains(test)
        && test.file == path by {
        if own.contains(test) {
            tests.lemma_filter_contains_rev(of_file(path), test);
            assert(of_file(path)(test));
        }
        if tests.contains(test) && test.file == path {
            assert(of_file(path)(test));
        }
    }
}

/// A workspace ran what any of its members ran, and has candidates where any of them has.
pub proof fn workspaces_ran_what_members_ran(members: Seq<Inventory>, member: Inventory)
    ensures
        any_ran_pytest(members.push(member)) == (any_ran_pytest(members) || member.tool.ran_pytest),
        any_ran_coverage(members.push(member)) == (any_ran_coverage(members)
            || member.tool.ran_coverage),
        any_candidates(members.push(member)) == (any_candidates(members)
            || member.top_suspicious.test_functions@.len() > 0),
        !any_ran_pytest(Seq::empty()) && !any_ran_coverage(Seq::empty()) && !any_candidates(
            Seq::empty(),
        ),
{
    let all = members.push(member);
    let n = members.len() as int;
    assert(all[n] == member);
    assert forall|i: int| 0 <= i < n implies #[trigger] all[i] == members[i] by {}
    if any_ran_pytest(members) {
        let i = choose|i: int| 0 <= i < n && (#[trigger] members[i]).tool.ran_pytest;
        assert(all[i].tool.ran_pytest);
    }
    if any_ran_coverage(members) {
        let i = choose|i: int| 0 <= i < n && (#[trigger] members[i]).tool.ran_coverage;
        assert(all[i].tool.ran_coverage);
    }
    if any_candidates(members) {
        let i = choose|i: int| 0 <= i < n && has_candidates(#[trigger] members[i]);
        assert(has_candidates(all[i]));
    }
    if member.top_suspicious.test_functions@.len() > 0 {
        assert(has_candidates(all[n]));
    }
    if any_ran_pytest(all) {
        let i = choose|i: int| 0 <= i <= n && (#[trigger] all[i]).tool.ran_pytest;
        if i < n {
            assert(members[i].tool.ran_pytest);
        }
    }
    if any_ran_coverage(all) {
        let i = choose|i: int| 0 <= i <= n && (#[trigger] all[i]).tool.ran_coverage;
        if i < n {
            assert(members[i].tool.ran_coverage);
        }
    }
    if any_candidates(all) {
        let i = choose|i: int| 0 <= i <= n && has_candidates(#[trigger] all[i]);
        if i < n {
            assert(has_candidates(members[i]));
        }
    }
}

/// Who has an inventory is told how to read it, who has none how to get one; a file that is not an
/// inventory is none.
pub proof fn guides_go_by_the_inventory(inventory: Option<Seq<char>>)
    ensures
        page_for(inventory) == Page::Analyze <==> inventory is Some && inventory_contents(
            inventory->0,
        ),
        page_for(inventory) == Page::Setup <==> !(inventory is Some && inventory_contents(
            inventory->0,
        )),
{
}

/// An inventory is told by the version that it declares.
pub proof fn inventories_declare_a_version(text: Seq<char>)
    ensures
        json_document(text) is Err ==> !inventory_contents(text),
        json_document(text) matches Ok(value) ==> inventory_contents(text) == (under_key(
            value,
            "schema_version"@,
        ) is Some),
{
}

} // verus!
