//! The smells that follow from how much a test, or a file, mocks and asserts.
use vstd::prelude::*;
use vstd::string::*;

use crate::accept::{signal_name, Signal};
use crate::parser::capped;
use crate::records::{
    smell_views, FileModel, FileRecord, SmellHit, SmellModel, TestModel, TestRecord,
};
use crate::text::{decimal, number};

verus! {

/// The thresholds of the overuse smell.
#[derive(Copy, Clone, Debug)]
pub struct MockSmellConfig {
    /// So many mocks are never too many.
    pub mock_overuse_floor: u64,
    /// Mocks for each assertion that have to be exceeded, as a fraction: this many ...
    pub mock_overuse_ratio: u64,
    /// ... for so many assertions.
    pub mock_overuse_ratio_per: u64,
}

impl Default for MockSmellConfig {
    fn default() -> (r: MockSmellConfig)
        ensures
            r.mock_overuse_floor == 2,
            r.mock_overuse_ratio == 2,
            r.mock_overuse_ratio_per == 1,
    {
        MockSmellConfig { mock_overuse_floor: 2, mock_overuse_ratio: 2, mock_overuse_ratio_per: 1 }
    }
}

/// The larger of two numbers.
pub open spec fn larger(a: int, b: int) -> int {
    if a > b {
        a
    } else {
        b
    }
}

/// More mocks than assertions and than the floor, and more for each assertion than the ratio.
pub open spec fn overuses(mocks: u64, asserts: u64, config: MockSmellConfig) -> bool {
    &&& mocks > larger(asserts as int, config.mock_overuse_floor as int)
    &&& mocks * config.mock_overuse_ratio_per > config.mock_overuse_ratio * larger(
        asserts as int,
        1,
    )
}

/// How the overuse smell is put in words.
pub open spec fn overuse_evidence(mocks: u64, asserts: u64) -> Seq<char> {
    decimal(mocks as nat) + " mocks, "@ + decimal(asserts as nat) + " assertions"@
}

/// The mocks that count for a test.
pub open spec fn test_mocks(test: TestModel) -> u64 {
    capped(test.patch_decorator_count + test.stubs_count)
}

/// The mocks that count for a file.
pub open spec fn file_mocks(file: FileModel) -> u64 {
    capped(file.mock_construction_count + file.patch_decorator_count + file.stubs_count)
}

/// The smells of a test.
pub open spec fn test_smells(test: TestModel, config: MockSmellConfig) -> Seq<SmellModel> {
    let mock_only = if test.only_asserts_on_mock && test.assertion_count > 0 {
        seq![
            SmellModel {
                category: "mock_only_assertions"@,
                test: Some(test.nodeid),
                line: test.line,
                evidence: "all "@ + decimal(test.assertion_count as nat) + " asserts on Mock API"@,
            },
        ]
    } else {
        Seq::empty()
    };
    let overuse = if overuses(test_mocks(test), test.assertion_count, config) {
        seq![
            SmellModel {
                category: "mock_overuse"@,
                test: Some(test.nodeid),
                line: test.line,
                evidence: overuse_evidence(test_mocks(test), test.assertion_count),
            },
        ]
    } else {
        Seq::empty()
    };
    mock_only + overuse
}

/// Some test asserts, and every test that does asserts on mocks alone.
pub open spec fn asserts_only_on_mocks(tests: Seq<TestModel>) -> bool {
    &&& exists|i: int| 0 <= i < tests.len() && (#[trigger] tests[i]).assertion_count > 0
    &&& forall|i: int|
        0 <= i < tests.len() && (#[trigger] tests[i]).assertion_count > 0
            ==> tests[i].only_asserts_on_mock
}

/// The smells of a file.
pub open spec fn file_smells(file: FileModel, tests: Seq<TestModel>, config: MockSmellConfig) -> Seq<
    SmellModel,
> {
    let mock_only = if asserts_only_on_mocks(tests) {
        seq![
            SmellModel {
                category: "mock_only_assertions"@,
                test: None,
                line: 0,
                evidence: "all asserting tests assert only on Mock API"@,
            },
        ]
    } else {
        Seq::empty()
    };
    let overuse = if overuses(file_mocks(file), file.assertion_count, config) {
        seq![
            SmellModel {
                category: "mock_overuse"@,
                test: None,
                line: 0,
                evidence: overuse_evidence(file_mocks(file), file.assertion_count),
            },
        ]
    } else {
        Seq::empty()
    };
    mock_only + overuse
}

/// Whether there are too many mocks for the assertions.
pub fn mock_overuse_fires(mocks: u64, asserts: u64, config: &MockSmellConfig) -> (r: bool)
    ensures
        r == overuses(mocks, asserts, *config),
{
    let bound: u64 = if asserts > config.mock_overuse_floor {
        asserts
    } else {
        config.mock_overuse_floor
    };
    if mocks <= bound {
        return false;
    }
    let per: u64 = if asserts > 1 {
        asserts
    } else {
        1
    };
    proof {
        let limit = u64::MAX as int;
        assert(mocks * config.mock_overuse_ratio_per <= limit * limit) by (nonlinear_arith)
            requires
                0 <= mocks <= limit,
                0 <= config.mock_overuse_ratio_per <= limit,
        ;
        assert(config.mock_overuse_ratio * per <= limit * limit) by (nonlinear_arith)
            requires
                0 <= config.mock_overuse_ratio <= limit,
                0 <= per <= limit,
        ;
        assert(limit * limit <= u128::MAX);
    }
    (mocks as u128) * (config.mock_overuse_ratio_per as u128) > (config.mock_overuse_ratio as u128)
        * (per as u128)
}

fn overuse_text(mocks: u64, asserts: u64) -> (r: String)
    ensures
        r@ == overuse_evidence(mocks, asserts),
{
    let mut out = number(mocks);
    out.append(" mocks, ");
    out.append(&number(asserts));
    out.append(" assertions");
    out
}

/// The smells of a test.
pub fn derive_test_smells(test: &TestRecord, config: &MockSmellConfig) -> (r: Vec<SmellHit>)
    ensures
        smell_views(r@) == test_smells(test@, *config),
{
    let mut hits: Vec<SmellHit> = Vec::new();
    if test.only_asserts_on_mock && test.assertion_count > 0 {
        let mut evidence = "all ".to_owned();
        evidence.append(&number(test.assertion_count));
        evidence.append(" asserts on Mock API");
        hits.push(
            SmellHit {
                category: "mock_only_assertions".to_owned(),
                test: Some(test.nodeid.clone()),
                line: test.line,
                evidence,
            },
        );
    }
    let mocks: u64 = test.patch_decorator_count.saturating_add(test.stubs_count);
    if mock_overuse_fires(mocks, test.assertion_count, config) {
        hits.push(
            SmellHit {
                category: "mock_overuse".to_owned(),
                test: Some(test.nodeid.clone()),
                line: test.line,
                evidence: overuse_text(mocks, test.assertion_count),
            },
        );
    }
    assert(smell_views(hits@) =~= test_smells(test@, *config));
    hits
}

/// What a list of tests says.
pub open spec fn test_ref_views(v: Seq<&TestRecord>) -> Seq<TestModel> {
    Seq::new(v.len(), |i: int| v[i]@)
}

fn mock_only_file(tests: &Vec<&TestRecord>) -> (r: bool)
    ensures
        r == asserts_only_on_mocks(test_ref_views(tests@)),
{
    let mut any = false;
    let mut i: usize = 0;
    while i < tests.len()
        invariant
            i <= tests@.len(),
            any == exists|k: int|
                0 <= k < i && (#[trigger] test_ref_views(tests@)[k]).assertion_count > 0,
            forall|k: int|
                0 <= k < i && (#[trigger] test_ref_views(tests@)[k]).assertion_count > 0
                    ==> test_ref_views(tests@)[k].only_asserts_on_mock,
        decreases tests@.len() - i,
    {
        let t = tests[i];
        assert(test_ref_views(tests@)[i as int] == t@);
        if t.assertion_count > 0 {
            if !t.only_asserts_on_mock {
                return false;
            }
            any = true;
        }
        i += 1;
    }
    any
}

/// The smells of a file, given its tests.
pub fn derive_file_smells(
    file: &FileRecord,
    tests_in_file: &Vec<&TestRecord>,
    config: &MockSmellConfig,
) -> (r: Vec<SmellHit>)
    ensures
        smell_views(r@) == file_smells(file@, test_ref_views(tests_in_file@), *config),
{
    let mut hits: Vec<SmellHit> = Vec::new();
    if mock_only_file(tests_in_file) {
        hits.push(
            SmellHit {
                category: "mock_only_assertions".to_owned(),
                test: None,
                line: 0,
                evidence: "all asserting tests assert only on Mock API".to_owned(),
            },
        );
    }
    let mocks: u64 = file.mock_construction_count.saturating_add(
        file.patch_decorator_count,
    ).saturating_add(file.stubs_count);
    if mock_overuse_fires(mocks, file.assertion_count, config) {
        hits.push(
            SmellHit {
                category: "mock_overuse".to_owned(),
                test: None,
                line: 0,
                evidence: overuse_text(mocks, file.assertion_count),
            },
        );
    }
    assert(smell_views(hits@) =~= file_smells(
        file@,
        test_ref_views(tests_in_file@),
        *config,
    ));
    hits
}

/// A smell has one of two categories, each the name of a signal that can be accepted.
pub open spec fn known_category(hit: SmellModel) -> bool {
    hit.category == signal_name(Signal::MockOnlyAssertions) || hit.category == signal_name(
        Signal::MockOveruse,
    )
}

/// Every smell that is ever found in a test or a file has one of the two categories; a smell of a
/// test names the test and its line, one of a file names no test and line zero; and there are
/// never more than two.
pub proof fn smells_have_two_categories(
    test: TestModel,
    file: FileModel,
    tests: Seq<TestModel>,
    config: MockSmellConfig,
)
    ensures
        test_smells(test, config).len() <= 2,
        file_smells(file, tests, config).len() <= 2,
        forall|i: int|
            0 <= i < test_smells(test, config).len() ==> {
                let hit = #[trigger] test_smells(test, config)[i];
                known_category(hit) && hit.test == Some(test.nodeid) && hit.line == test.line
            },
        forall|i: int|
            0 <= i < file_smells(file, tests, config).len() ==> {
                let hit = #[trigger] file_smells(file, tests, config)[i];
                known_category(hit) && hit.test is None && hit.line == 0
            },
{
}

/// More mocks for the same assertions, or fewer assertions for the same mocks, never undo the
/// overuse smell.
pub proof fn overuse_is_monotone(
    mocks: u64,
    more: u64,
    asserts: u64,
    fewer: u64,
    config: MockSmellConfig,
)
    requires
        mocks <= more,
        fewer <= asserts,
        overuses(mocks, asserts, config),
    ensures
        overuses(more, fewer, config),
{
    let per = larger(asserts as int, 1);
    let less = larger(fewer as int, 1);
    assert(mocks * config.mock_overuse_ratio_per <= more * config.mock_overuse_ratio_per)
        by (nonlinear_arith)
        requires
            0 <= mocks <= more,
            0 <= config.mock_overuse_ratio_per,
    ;
    assert(config.mock_overuse_ratio * less <= config.mock_overuse_ratio * per) by (nonlinear_arith)
        requires
            0 <= less <= per,
            0 <= config.mock_overuse_ratio,
    ;
}

} // verus!
