//! What holds of scores and shortlists.
use vstd::prelude::*;
use vstd::relations::*;
use vstd::seq_lib::*;

use crate::ranking::{rank_leq, ranked, ranking_orders_what_it_is_given, top};
use crate::records::{FileModel, MeasureModel, TestModel};
use crate::suspicion::{constructions_per_assertion, scored_files, scored_tests, terms_of};
use crate::text::text_lt;

verus! {

/// The bonus of a file's score divides its mock constructions by its assertions, so many as there
/// are; a file without any is divided by one.
pub proof fn bonuses_divide_by_the_assertions(file: FileModel)
    ensures
        constructions_per_assertion(file).0 == file.mock_construction_count,
        file.assertion_count > 0 ==> constructions_per_assertion(file).1 == file.assertion_count,
        file.assertion_count == 0 ==> constructions_per_assertion(file).1 == 1,
        file.mock_construction_count <= file.assertion_count ==> constructions_per_assertion(file).0
            <= constructions_per_assertion(file).1,
{
}

/// For the same constructions more assertions give a smaller ratio, for the same assertions more
/// constructions a larger one; nothing else about a file has a say in it.
pub proof fn bonuses_shrink_with_assertions(a: FileModel, b: FileModel)
    ensures
        a.mock_construction_count == b.mock_construction_count && 0 < a.mock_construction_count
            && 0 < a.assertion_count < b.assertion_count ==> constructions_per_assertion(b).0
            * constructions_per_assertion(a).1 < constructions_per_assertion(a).0
            * constructions_per_assertion(b).1,
        a.assertion_count == b.assertion_count && a.mock_construction_count
            < b.mock_construction_count ==> constructions_per_assertion(a).0
            * constructions_per_assertion(b).1 < constructions_per_assertion(b).0
            * constructions_per_assertion(a).1,
        a.assertion_count == b.assertion_count && a.mock_construction_count
            == b.mock_construction_count ==> constructions_per_assertion(a)
            == constructions_per_assertion(b),
{
    let (x, y) = constructions_per_assertion(a);
    let (u, v) = constructions_per_assertion(b);
    if a.mock_construction_count == b.mock_construction_count && 0 < a.mock_construction_count && 0
        < a.assertion_count < b.assertion_count {
        assert(u * y < x * v) by (nonlinear_arith)
            requires
                u == x,
                0 < x,
                y < v,
        ;
    }
    if a.assertion_count == b.assertion_count && a.mock_construction_count
        < b.mock_construction_count {
        assert(x * v < u * y) by (nonlinear_arith)
            requires
                x < u,
                y == v,
                0 < y,
        ;
    }
}

/// Each term of a test's score goes by one thing about the test: whether all its assertions are
/// about mocks; its patching decorators, of which five count; its lines of setup for each
/// assertion; whether it verifies nothing, here or in a child process; its smells, of which three
/// count.
pub proof fn terms_go_by_what_they_are_about(test: TestModel)
    ensures
        terms_of(test).mock_only == test.only_asserts_on_mock,
        test.patch_decorator_count <= 5 ==> terms_of(test).patches == test.patch_decorator_count,
        test.patch_decorator_count >= 5 ==> terms_of(test).patches == 5,
        terms_of(test).setup == test.setup_to_assertion_ratio,
        test.assertion_count > 0 ==> !terms_of(test).zero_asserts,
        test.external_verification_count > 0 ==> !terms_of(test).zero_asserts,
        test.assertion_count == 0 && test.external_verification_count == 0 ==> terms_of(
            test,
        ).zero_asserts,
        test.smell_hits.len() <= 3 ==> terms_of(test).smells == test.smell_hits.len(),
        test.smell_hits.len() >= 3 ==> terms_of(test).smells == 3,
{
}

/// A list of the most suspicious tests holds the identities of tests, and no test that it leaves
/// out has a larger score than one that it holds; of two with the same score the one with the
/// earlier identity comes first.
pub proof fn shortlists_hold_the_highest_scores(tests: Seq<TestModel>, n: nat, i: int, j: int)
    requires
        forall|k: int|
            0 <= k < tests.len() ==> (#[trigger] tests[k]).suspicion_score.bits
                < 0x8000_0000_0000_0000,
        forall|k: int, m: int|
            0 <= k < m < tests.len() ==> (#[trigger] tests[k]).nodeid != (
            #[trigger] tests[m]).nodeid,
        0 <= i < tests.len(),
        0 <= j < tests.len(),
        top(scored_tests(tests), n).contains(tests[i].nodeid),
        !top(scored_tests(tests), n).contains(tests[j].nodeid),
    ensures
        tests[j].suspicion_score.bits <= tests[i].suspicion_score.bits,
        tests[j].suspicion_score.bits == tests[i].suspicion_score.bits ==> text_lt(
            tests[i].nodeid,
            tests[j].nodeid,
        ),
{
    broadcast use group_to_multiset_ensures;

    let items = scored_tests(tests);
    let order = ranked(items);
    ranking_orders_what_it_is_given(items, n);
    let leq = rank_leq();
    let a = choose|a: int| 0 <= a < top(items, n).len() && top(items, n)[a] == tests[i].nodeid;
    assert(order[a].1 == tests[i].nodeid);
    assert(order.contains(order[a]));
    assert(order.to_multiset().count(order[a]) > 0);
    assert(items.contains(order[a]));
    let x = choose|x: int| 0 <= x < items.len() && items[x] == order[a];
    assert(tests[x].nodeid == tests[i].nodeid);
    assert(x == i);
    assert(items.contains(items[j]));
    assert(items.to_multiset().count(items[j]) > 0);
    assert(order.contains(items[j]));
    let b = choose|b: int| 0 <= b < order.len() && order[b] == items[j];
    if b < top(items, n).len() {
        assert(top(items, n)[b] == tests[j].nodeid);
    }
    assert(a < b);
    assert(leq(order[a], order[b]));
}

/// A list of the most suspicious files holds their paths, and no file that it leaves out has a
/// larger score than one that it holds.
pub proof fn file_shortlists_hold_the_highest_scores(
    files: Seq<FileModel>,
    scores: Seq<MeasureModel>,
    n: nat,
    i: int,
    j: int,
)
    requires
        files.len() == scores.len(),
        forall|k: int|
            0 <= k < scores.len() ==> (#[trigger] scores[k]).bits < 0x8000_0000_0000_0000,
        forall|k: int, m: int|
            0 <= k < m < files.len() ==> (#[trigger] files[k]).path != (#[trigger] files[m]).path,
        0 <= i < files.len(),
        0 <= j < files.len(),
        top(scored_files(files, scores), n).contains(files[i].path),
        !top(scored_files(files, scores), n).contains(files[j].path),
    ensures
        scores[j].bits <= scores[i].bits,
        scores[j].bits == scores[i].bits ==> text_lt(files[i].path, files[j].path),
{
    broadcast use group_to_multiset_ensures;

    let items = scored_files(files, scores);
    let order = ranked(items);
    ranking_orders_what_it_is_given(items, n);
    let leq = rank_leq();
    let a = choose|a: int| 0 <= a < top(items, n).len() && top(items, n)[a] == files[i].path;
    assert(order[a].1 == files[i].path);
    assert(order.contains(order[a]));
    assert(order.to_multiset().count(order[a]) > 0);
    assert(items.contains(order[a]));
    let x = choose|x: int| 0 <= x < items.len() && items[x] == order[a];
    assert(files[x].path == files[i].path);
    assert(x == i);
    assert(items.contains(items[j]));
    assert(items.to_multiset().count(items[j]) > 0);
    assert(order.contains(items[j]));
    let b = choose|b: int| 0 <= b < order.len() && order[b] == items[j];
    if b < top(items, n).len() {
        assert(top(items, n)[b] == files[j].path);
    }
    assert(a < b);
    assert(leq(order[a], order[b]));
}

/// A list that is long enough holds every test.
pub proof fn long_shortlists_hold_every_test(tests: Seq<TestModel>, n: nat, i: int)
    requires
        tests.len() <= n,
        0 <= i < tests.len(),
    ensures
        top(scored_tests(tests), n).contains(tests[i].nodeid),
        top(scored_tests(tests), n).len() == tests.len(),
{
    broadcast use group_to_multiset_ensures;

    let items = scored_tests(tests);
    let order = ranked(items);
    ranking_orders_what_it_is_given(items, n);
    assert(items.contains(items[i]));
    assert(items.to_multiset().count(items[i]) > 0);
    assert(order.contains(items[i]));
    let b = choose|b: int| 0 <= b < order.len() && order[b] == items[i];
    assert(top(items, n)[b] == tests[i].nodeid);
}

} // verus!
