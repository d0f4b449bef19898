//! What holds of smells.
use vstd::prelude::*;

use crate::records::{FileModel, SmellModel, TestModel};
use crate::smells::{
    file_mocks, file_smells, larger, overuses, test_mocks, test_smells, MockSmellConfig,
};
use crate::text::decimal;

verus! {

/// The smell of the category `category` is among `hits`.
pub open spec fn smells_of(hits: Seq<SmellModel>, category: Seq<char>) -> bool {
    exists|i: int| 0 <= i < hits.len() && (#[trigger] hits[i]).category == category
}

/// The two categories are different names.
proof fn lemma_categories()
    ensures
        "mock_only_assertions"@ != "mock_overuse"@,
{
    reveal_strlit("mock_only_assertions");
    reveal_strlit("mock_overuse");
    assert("mock_only_assertions"@.len() == 20);
    assert("mock_overuse"@.len() == 12);
}

/// A file uses too many mocks exactly where its constructions, its patching decorators and its
/// stub calls, all three together, are more than its assertions and than the floor, and more for
/// each assertion than the ratio; a file without assertions counts as having one.
pub proof fn files_overuse_mocks_of_all_three_sorts(
    file: FileModel,
    tests: Seq<TestModel>,
    config: MockSmellConfig,
)
    requires
        file.mock_construction_count + file.patch_decorator_count + file.stubs_count <= u64::MAX,
    ensures
        smells_of(file_smells(file, tests, config), "mock_overuse"@) <==> {
            let mocks = file.mock_construction_count + file.patch_decorator_count
                + file.stubs_count;
            &&& mocks > file.assertion_count
            &&& mocks > config.mock_overuse_floor
            &&& mocks * config.mock_overuse_ratio_per > config.mock_overuse_ratio
                * file.assertion_count
            &&& mocks * config.mock_overuse_ratio_per > config.mock_overuse_ratio
        },
        forall|i: int|
            0 <= i < file_smells(file, tests, config).len() && (#[trigger] file_smells(
                file,
                tests,
                config,
            )[i]).category == "mock_overuse"@ ==> file_smells(file, tests, config)[i].evidence
                == decimal(
                (file.mock_construction_count + file.patch_decorator_count
                    + file.stubs_count) as nat,
            ) + " mocks, "@ + decimal(file.assertion_count as nat) + " assertions"@,
{
    lemma_categories();
    let mocks = file.mock_construction_count + file.patch_decorator_count + file.stubs_count;
    let fires = overuses(mocks as u64, file.assertion_count, config);
    lemma_overuses(mocks, file.assertion_count, config);
    assert(file_mocks(file) == mocks as u64);
    let hits = file_smells(file, tests, config);
    if fires {
        assert(hits.last().category == "mock_overuse"@);
        assert(hits[hits.len() - 1].category == "mock_overuse"@);
    }
}

/// Too many mocks, without the larger of two numbers.
proof fn lemma_overuses(mocks: int, asserts: u64, config: MockSmellConfig)
    requires
        0 <= mocks <= u64::MAX,
    ensures
        overuses(mocks as u64, asserts, config) <==> {
            &&& mocks > asserts
            &&& mocks > config.mock_overuse_floor
            &&& mocks * config.mock_overuse_ratio_per > config.mock_overuse_ratio * asserts
            &&& mocks * config.mock_overuse_ratio_per > config.mock_overuse_ratio
        },
{
    let ratio = config.mock_overuse_ratio as int;
    let n = asserts as int;
    let per = larger(n, 1);
    if n >= 1 {
        assert(per == n);
        assert(ratio * n >= ratio) by (nonlinear_arith)
            requires
                n >= 1,
                ratio >= 0,
        ;
    } else {
        assert(per == 1);
        assert(ratio * n == 0) by (nonlinear_arith)
            requires
                n == 0,
        ;
        assert(ratio * per == ratio) by (nonlinear_arith)
            requires
                per == 1,
        ;
        let all = mocks * config.mock_overuse_ratio_per;
        assert(all > ratio ==> all > 0);
    }
}

/// A mock counts the same for a file however it was made: what was constructed, patched or stubbed
/// in one file makes the smell fire just as so many of another sort do.
pub proof fn sorts_of_mocks_count_alike(
    a: FileModel,
    b: FileModel,
    tests: Seq<TestModel>,
    config: MockSmellConfig,
)
    requires
        a.mock_construction_count + a.patch_decorator_count + a.stubs_count
            == b.mock_construction_count + b.patch_decorator_count + b.stubs_count,
        a.assertion_count == b.assertion_count,
    ensures
        file_smells(a, tests, config) == file_smells(b, tests, config),
{
}

/// A test uses too many mocks exactly where its patching decorators and its stub calls together are
/// more than its assertions and than the floor, and more for each assertion than the ratio.
pub proof fn tests_overuse_patches_and_stubs(test: TestModel, config: MockSmellConfig)
    requires
        test.patch_decorator_count + test.stubs_count <= u64::MAX,
    ensures
        smells_of(test_smells(test, config), "mock_overuse"@) <==> {
            let mocks = test.patch_decorator_count + test.stubs_count;
            &&& mocks > test.assertion_count
            &&& mocks > config.mock_overuse_floor
            &&& mocks * config.mock_overuse_ratio_per > config.mock_overuse_ratio
                * test.assertion_count
            &&& mocks * config.mock_overuse_ratio_per > config.mock_overuse_ratio
        },
        forall|i: int|
            0 <= i < test_smells(test, config).len() && (#[trigger] test_smells(
                test,
                config,
            )[i]).category == "mock_overuse"@ ==> test_smells(test, config)[i].evidence == decimal(
                (test.patch_decorator_count + test.stubs_count) as nat,
            ) + " mocks, "@ + decimal(test.assertion_count as nat) + " assertions"@,
{
    lemma_categories();
    let mocks = test.patch_decorator_count + test.stubs_count;
    let fires = overuses(mocks as u64, test.assertion_count, config);
    lemma_overuses(mocks, test.assertion_count, config);
    assert(test_mocks(test) == mocks as u64);
    let hits = test_smells(test, config);
    if fires {
        assert(hits[hits.len() - 1].category == "mock_overuse"@);
    }
}

/// A test smells of asserting on mocks alone exactly where it does so and asserts at all, and the
/// smell says how many assertions these are.
pub proof fn tests_smell_of_mock_only_assertions(test: TestModel, config: MockSmellConfig)
    ensures
        smells_of(test_smells(test, config), "mock_only_assertions"@) == (
        test.only_asserts_on_mock && test.assertion_count > 0),
        forall|i: int|
            0 <= i < test_smells(test, config).len() && (#[trigger] test_smells(
                test,
                config,
            )[i]).category == "mock_only_assertions"@ ==> test_smells(test, config)[i].evidence
                == "all "@ + decimal(test.assertion_count as nat) + " asserts on Mock API"@,
{
    lemma_categories();
    let hits = test_smells(test, config);
    if test.only_asserts_on_mock && test.assertion_count > 0 {
        assert(hits[0].category == "mock_only_assertions"@);
    }
}

/// A file smells of asserting on mocks alone exactly where one of its tests asserts and none of
/// its tests asserts on anything else; tests that do not assert have no say.
pub proof fn files_smell_of_mock_only_assertions(
    file: FileModel,
    tests: Seq<TestModel>,
    config: MockSmellConfig,
)
    ensures
        smells_of(file_smells(file, tests, config), "mock_only_assertions"@) == ((exists|i: int|
            0 <= i < tests.len() && (#[trigger] tests[i]).assertion_count > 0) && !(exists|i: int|
            0 <= i < tests.len() && (#[trigger] tests[i]).assertion_count > 0
                && !tests[i].only_asserts_on_mock)),
        smells_of(file_smells(file, tests, config), "mock_only_assertions"@) ==> file_smells(
            file,
            tests,
            config,
        )[0].evidence == "all asserting tests assert only on Mock API"@,
{
    lemma_categories();
    let hits = file_smells(file, tests, config);
    if hits.len() > 0 && hits[0].category == "mock_only_assertions"@ {
        assert(smells_of(hits, "mock_only_assertions"@));
    }
}

/// One more test that does not assert changes nothing about the smells of its file.
pub proof fn assertionless_tests_add_no_file_smell(
    file: FileModel,
    tests: Seq<TestModel>,
    test: TestModel,
    config: MockSmellConfig,
)
    requires
        test.assertion_count == 0,
    ensures
        file_smells(file, tests.push(test), config) == file_smells(file, tests, config),
{
    let more = tests.push(test);
    assert forall|i: int| 0 <= i < tests.len() implies more[i] == #[trigger] tests[i] by {}
    if exists|i: int| 0 <= i < tests.len() && (#[trigger] tests[i]).assertion_count > 0 {
        let i = choose|i: int| 0 <= i < tests.len() && (#[trigger] tests[i]).assertion_count > 0;
        assert(more[i].assertion_count > 0);
    }
    if forall|i: int|
        0 <= i < more.len() && (#[trigger] more[i]).assertion_count > 0
            ==> more[i].only_asserts_on_mock {
        assert forall|i: int|
            0 <= i < tests.len() && (#[trigger] tests[i]).assertion_count > 0 implies
            tests[i].only_asserts_on_mock by {
            assert(more[i] == tests[i]);
        }
    }
    assert(file_smells(file, more, config) =~= file_smells(file, tests, config));
}

} // verus!
