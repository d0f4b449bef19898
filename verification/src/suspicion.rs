//! What the suspicion score is made of, and the rankings by it. The score itself is a floating
//! point number and is worked out by the caller from the terms given here.
use vstd::prelude::*;

use crate::accept::fully_accepted;
use crate::ranking::{entry_views, top, top_names};
use crate::records::{
    file_views, test_views, FileModel, FileRecord, Measure, MeasureModel, SetupRatio, TestModel,
    TestRecord,
};
use crate::smells::test_ref_views;
use crate::text::{same, views};

verus! {

/// Lines of setup for each assertion at which the setup term of the score turns.
pub const SETUP_RATIO_INFLECTION: u64 = 8;

/// Lines of setup for each assertion over which the setup term goes through its turn.
pub const SETUP_RATIO_SCALE: u64 = 4;

/// From so many patching decorators on, more do not count.
pub const PATCH_SATURATION: u64 = 5;

/// From so many smells on, more do not count.
pub const SMELL_SATURATION: u64 = 3;

/// The weights of the terms of the score, in hundredths.
#[derive(Copy, Clone, Debug, PartialEq, Eq, Structural)]
pub struct SuspicionWeights {
    pub w_mock_only: u64,
    pub w_patch_count: u64,
    pub w_setup_ratio: u64,
    pub w_zero_asserts: u64,
    pub w_smell_density: u64,
}

impl Default for SuspicionWeights {
    fn default() -> (r: SuspicionWeights)
        ensures
            r.w_mock_only == 35,
            r.w_patch_count == 20,
            r.w_setup_ratio == 15,
            r.w_zero_asserts == 20,
            r.w_smell_density == 10,
            r.w_mock_only + r.w_patch_count + r.w_setup_ratio + r.w_zero_asserts
                + r.w_smell_density == 100,
    {
        SuspicionWeights {
            w_mock_only: 35,
            w_patch_count: 20,
            w_setup_ratio: 15,
            w_zero_asserts: 20,
            w_smell_density: 10,
        }
    }
}

/// The terms of a test's score before they are weighted.
#[derive(Copy, Clone, Debug, PartialEq, Eq, Structural)]
pub struct ScoreTerms {
    /// Every assertion is about a mock.
    pub mock_only: bool,
    /// Patching decorators, out of `PATCH_SATURATION`.
    pub patches: u64,
    pub setup: SetupRatio,
    /// Nothing is verified, neither here nor in a child process.
    pub zero_asserts: bool,
    /// Smells, out of `SMELL_SATURATION`.
    pub smells: u64,
}

/// `n`, or `limit` where `n` is larger.
pub open spec fn at_most(n: int, limit: u64) -> u64 {
    if n > limit {
        limit
    } else {
        n as u64
    }
}

/// The terms of a test's score.
pub open spec fn terms_of(test: TestModel) -> ScoreTerms {
    ScoreTerms {
        mock_only: test.only_asserts_on_mock,
        patches: at_most(test.patch_decorator_count as int, PATCH_SATURATION),
        setup: test.setup_to_assertion_ratio,
        zero_asserts: test.assertion_count == 0 && test.external_verification_count == 0,
        smells: at_most(test.smell_hits.len() as int, SMELL_SATURATION),
    }
}

/// The terms of a test's score.
pub fn score_terms(test: &TestRecord) -> (r: ScoreTerms)
    ensures
        r == terms_of(test@),
{
    ScoreTerms {
        mock_only: test.only_asserts_on_mock,
        patches: if test.patch_decorator_count > PATCH_SATURATION {
            PATCH_SATURATION
        } else {
            test.patch_decorator_count
        },
        setup: test.setup_to_assertion_ratio,
        zero_asserts: test.assertion_count == 0 && test.external_verification_count == 0,
        smells: if test.smell_hits.len() > 3 {
            SMELL_SATURATION
        } else {
            test.smell_hits.len() as u64
        },
    }
}

/// Mock constructions for each assertion of a file, as a fraction: what the bonus of a file's
/// score grows with. The second number is never zero.
pub open spec fn constructions_per_assertion(file: FileModel) -> (u64, u64) {
    (
        file.mock_construction_count,
        if file.assertion_count > 1 {
            file.assertion_count
        } else {
            1
        },
    )
}

/// Mock constructions for each assertion of a file.
pub fn bonus_terms(file: &FileRecord) -> (r: (u64, u64))
    ensures
        r == constructions_per_assertion(file@),
        r.1 > 0,
{
    (
        file.mock_construction_count,
        if file.assertion_count > 1 {
            file.assertion_count
        } else {
            1
        },
    )
}

/// The bit pattern of a number turned into an integer that orders as the number does, negative
/// numbers included.
pub open spec fn order_of(bits: u64) -> u64 {
    if bits >= 0x8000_0000_0000_0000 {
        (u64::MAX - bits) as u64
    } else {
        (bits + 0x8000_0000_0000_0000) as u64
    }
}

/// The integer that a number is ranked by.
pub fn order_key(bits: u64) -> (r: u64)
    ensures
        r == order_of(bits),
{
    if bits >= 0x8000_0000_0000_0000 {
        u64::MAX - bits
    } else {
        bits + 0x8000_0000_0000_0000
    }
}

/// The tests with the numbers that they are ranked by.
pub open spec fn scored_tests(tests: Seq<TestModel>) -> Seq<(u64, Seq<char>)> {
    Seq::new(tests.len(), |i: int| (order_of(tests[i].suspicion_score.bits), tests[i].nodeid))
}

/// The files with the numbers that they are ranked by.
pub open spec fn scored_files(files: Seq<FileModel>, scores: Seq<MeasureModel>) -> Seq<
    (u64, Seq<char>),
> {
    Seq::new(files.len(), |i: int| (order_of(scores[i].bits), files[i].path))
}

pub open spec fn measure_views(v: Seq<Measure>) -> Seq<MeasureModel> {
    Seq::new(v.len(), |i: int| v[i]@)
}

/// The identities of the `n` tests with the highest scores, equal ones by identity.
pub fn top_n_tests(records: &Vec<TestRecord>, n: usize) -> (r: Vec<String>)
    ensures
        views(r@) == top(scored_tests(test_views(records@)), n as nat),
{
    let mut ranked: Vec<(u64, String)> = Vec::new();
    let mut i: usize = 0;
    while i < records.len()
        invariant
            i <= records@.len(),
            ranked@.len() == i,
            forall|k: int|
                0 <= k < i ==> (#[trigger] ranked@[k]).0 == order_of(
                    records@[k].suspicion_score.bits,
                ) && ranked@[k].1@ == records@[k].nodeid@,
        decreases records@.len() - i,
    {
        ranked.push((order_key(records[i].suspicion_score.bits), records[i].nodeid.clone()));
        i += 1;
    }
    assert(entry_views(ranked@) =~= scored_tests(test_views(records@)));
    top_names(ranked, n)
}

/// The paths of the `n` files with the highest scores, equal ones by path; none where files and
/// scores do not match up.
pub fn top_n_files(files: &Vec<FileRecord>, scores: &Vec<Measure>, n: usize) -> (r: Vec<String>)
    ensures
        views(r@) == if files@.len() == scores@.len() {
            top(scored_files(file_views(files@), measure_views(scores@)), n as nat)
        } else {
            Seq::empty()
        },
{
    if files.len() != scores.len() {
        let none: Vec<String> = Vec::new();
        assert(views(none@) =~= Seq::<Seq<char>>::empty());
        return none;
    }
    let mut ranked: Vec<(u64, String)> = Vec::new();
    let mut i: usize = 0;
    while i < files.len()
        invariant
            i <= files@.len(),
            files@.len() == scores@.len(),
            ranked@.len() == i,
            forall|k: int|
                0 <= k < i ==> (#[trigger] ranked@[k]).0 == order_of(scores@[k].bits)
                    && ranked@[k].1@ == files@[k].path@,
        decreases files@.len() - i,
    {
        ranked.push((order_key(scores[i].bits), files[i].path.clone()));
        i += 1;
    }
    assert(entry_views(ranked@) =~= scored_files(file_views(files@), measure_views(scores@)));
    top_names(ranked, n)
}

/// Being a test that is not accepted in full.
pub open spec fn open_test() -> spec_fn(TestModel) -> bool {
    |test: TestModel| !fully_accepted(test)
}

/// The tests that a shortlist is taken from: all of them, or those not accepted in full.
pub open spec fn eligible(tests: Seq<TestModel>, include_accepted: bool) -> Seq<TestModel> {
    if include_accepted {
        tests
    } else {
        tests.filter(open_test())
    }
}

/// The shortlist of a run: the `n` tests with the highest scores, without those that are accepted
/// in full unless they are asked for.
pub fn shortlist(records: &Vec<TestRecord>, n: usize, include_accepted: bool) -> (r: Vec<String>)
    ensures
        views(r@) == top(scored_tests(eligible(test_views(records@), include_accepted)), n as nat),
{
    if include_accepted {
        return top_n_tests(records, n);
    }
    let ghost all = test_views(records@);
    let ghost p = open_test();
    let mut ranked: Vec<(u64, String)> = Vec::new();
    let mut i: usize = 0;
    assert(entry_views(ranked@) =~= scored_tests(all.take(0).filter(p))) by {
        reveal(Seq::filter);
    }
    while i < records.len()
        invariant
            i <= records@.len(),
            all == test_views(records@),
            p == open_test(),
            entry_views(ranked@) == scored_tests(all.take(i as int).filter(p)),
        decreases records@.len() - i,
    {
        let ghost before = ranked@;
        let ghost kept = all.take(i as int).filter(p);
        proof {
            reveal(Seq::filter);
            let part = all.take(i + 1);
            assert(part.drop_last() =~= all.take(i as int));
            assert(part.last() == records@[i as int]@);
        }
        if !records[i].accepted_in_full() {
            ranked.push((order_key(records[i].suspicion_score.bits), records[i].nodeid.clone()));
            proof {
                let x = (
                    order_of(records@[i as int].suspicion_score.bits),
                    records@[i as int].nodeid@,
                );
                assert(entry_views(ranked@) =~= entry_views(before).push(x));
                assert(scored_tests(kept.push(records@[i as int]@)) =~= scored_tests(kept).push(x));
            }
        }
        i += 1;
    }
    assert(all.take(i as int) =~= all);
    top_names(ranked, n)
}

/// Being a test of the file at `path`.
pub open spec fn of_file(path: Seq<char>) -> spec_fn(TestModel) -> bool {
    |test: TestModel| test.file == path
}

/// The tests of the file at `path`.
pub fn tests_of_file<'a>(tests: &'a Vec<TestRecord>, path: &str) -> (r: Vec<&'a TestRecord>)
    ensures
        test_ref_views(r@) == test_views(tests@).filter(of_file(path@)),
{
    let ghost all = test_views(tests@);
    let ghost p = of_file(path@);
    let mut out: Vec<&'a TestRecord> = Vec::new();
    let mut i: usize = 0;
    assert(test_ref_views(out@) =~= all.take(0).filter(p)) by {
        reveal(Seq::filter);
    }
    while i < tests.len()
        invariant
            i <= tests@.len(),
            all == test_views(tests@),
            p == of_file(path@),
            test_ref_views(out@) == all.take(i as int).filter(p),
        decreases tests@.len() - i,
    {
        let ghost before = test_ref_views(out@);
        proof {
            reveal(Seq::filter);
            let part = all.take(i + 1);
            assert(part.drop_last() =~= all.take(i as int));
            assert(part.last() == tests@[i as int]@);
        }
        if same(&tests[i].file, path) {
            out.push(&tests[i]);
            assert(test_ref_views(out@) =~= before.push(tests@[i as int]@));
        }
        i += 1;
    }
    assert(all.take(i as int) =~= all);
    out
}

/// More patching decorators than saturate, and more smells than saturate, change no term of the
/// score.
pub proof fn saturated_counts_change_no_term(test: TestModel, other: TestModel)
    requires
        test.patch_decorator_count >= PATCH_SATURATION,
        other.patch_decorator_count >= PATCH_SATURATION,
        test.smell_hits.len() >= SMELL_SATURATION,
        other.smell_hits.len() >= SMELL_SATURATION,
    ensures
        terms_of(test).patches == terms_of(other).patches,
        terms_of(test).smells == terms_of(other).smells,
{
}

/// The integers that numbers are ranked by order as the bit patterns do among numbers that are
/// not negative, the other way round among negative ones, and put every negative number below
/// every other.
pub proof fn order_of_bits(a: u64, b: u64)
    ensures
        a < 0x8000_0000_0000_0000 && b < 0x8000_0000_0000_0000 ==> (order_of(a) < order_of(b)) == (a
            < b),
        a >= 0x8000_0000_0000_0000 && b >= 0x8000_0000_0000_0000 ==> (order_of(a) < order_of(b))
            == (a > b),
        a >= 0x8000_0000_0000_0000 && b < 0x8000_0000_0000_0000 ==> order_of(a) < order_of(b),
        order_of(a) == order_of(b) ==> a == b,
{
}

} // verus!
