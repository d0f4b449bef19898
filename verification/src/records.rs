//! The records of an inventory.
use vstd::prelude::*;

use crate::text::{opt_view, views};

verus! {

/// A measured number. Floating point stays outside this library: a number is carried as the bit
/// pattern of its IEEE 754 double, together with the text that shows it to a reader.
#[derive(Debug)]
pub struct Measure {
    /// The bit pattern. For numbers that are not negative it orders as they do.
    pub bits: u64,
    /// The number as it is shown.
    pub shown: String,
}

/// What a `Measure` says.
#[verifier::ext_equal]
pub struct MeasureModel {
    pub bits: u64,
    pub shown: Seq<char>,
}

impl View for Measure {
    type V = MeasureModel;

    open spec fn view(&self) -> MeasureModel {
        MeasureModel { bits: self.bits, shown: self.shown@ }
    }
}

/// The number zero.
pub open spec fn zero() -> MeasureModel {
    MeasureModel { bits: 0, shown: "0.00"@ }
}

impl Measure {
    /// The number zero.
    pub fn zero() -> (r: Measure)
        ensures
            r@ == zero(),
    {
        Measure { bits: 0, shown: "0.00".to_owned() }
    }
}

/// Lines of setup for each assertion, as an exact fraction.
#[derive(Copy, Clone, Debug, PartialEq, Eq, Structural)]
pub struct SetupRatio {
    pub lines: u64,
    pub assertions: u64,
}

/// One smell found in a test or in a file.
#[derive(Debug)]
pub struct SmellHit {
    pub category: String,
    /// The test it was found in; nothing for one found in a file as a whole.
    pub test: Option<String>,
    pub line: u64,
    pub evidence: String,
}

/// What a `SmellHit` says.
#[verifier::ext_equal]
pub struct SmellModel {
    pub category: Seq<char>,
    pub test: Option<Seq<char>>,
    pub line: u64,
    pub evidence: Seq<char>,
}

impl View for SmellHit {
    type V = SmellModel;

    open spec fn view(&self) -> SmellModel {
        SmellModel {
            category: self.category@,
            test: opt_view(self.test),
            line: self.line,
            evidence: self.evidence@,
        }
    }
}

pub open spec fn smell_views(v: Seq<SmellHit>) -> Seq<SmellModel> {
    Seq::new(v.len(), |i: int| v[i]@)
}

/// One test function.
#[derive(Debug)]
pub struct TestRecord {
    pub nodeid: String,
    pub file: String,
    /// The line of its `def`, counted from one.
    pub line: u64,
    /// `assert` statements, `with pytest.raises(..)` blocks and assertion methods of a test case.
    pub assertion_count: u64,
    /// Whether every assertion is about a mock.
    pub only_asserts_on_mock: bool,
    pub patch_decorator_count: u64,
    /// Calls by which a fixture rewires the system under test.
    pub stubs_count: u64,
    pub setup_to_assertion_ratio: SetupRatio,
    /// Calls that check the outcome of a child process.
    pub external_verification_count: u64,
    pub called_names: Vec<String>,
    pub smell_hits: Vec<SmellHit>,
    pub suspicion_score: Measure,
    /// The fingerprint of its source text.
    pub fingerprint: Option<String>,
    /// The signals on it that were looked at and accepted.
    pub accepted_signals: Vec<String>,
}

/// What a `TestRecord` says.
#[verifier::ext_equal]
pub struct TestModel {
    pub nodeid: Seq<char>,
    pub file: Seq<char>,
    pub line: u64,
    pub assertion_count: u64,
    pub only_asserts_on_mock: bool,
    pub patch_decorator_count: u64,
    pub stubs_count: u64,
    pub setup_to_assertion_ratio: SetupRatio,
    pub external_verification_count: u64,
    pub called_names: Seq<Seq<char>>,
    pub smell_hits: Seq<SmellModel>,
    pub suspicion_score: MeasureModel,
    pub fingerprint: Option<Seq<char>>,
    pub accepted_signals: Seq<Seq<char>>,
}

impl View for TestRecord {
    type V = TestModel;

    open spec fn view(&self) -> TestModel {
        TestModel {
            nodeid: self.nodeid@,
            file: self.file@,
            line: self.line,
            assertion_count: self.assertion_count,
            only_asserts_on_mock: self.only_asserts_on_mock,
            patch_decorator_count: self.patch_decorator_count,
            stubs_count: self.stubs_count,
            setup_to_assertion_ratio: self.setup_to_assertion_ratio,
            external_verification_count: self.external_verification_count,
            called_names: views(self.called_names@),
            smell_hits: smell_views(self.smell_hits@),
            suspicion_score: self.suspicion_score@,
            fingerprint: opt_view(self.fingerprint),
            accepted_signals: views(self.accepted_signals@),
        }
    }
}

pub open spec fn test_views(v: Seq<TestRecord>) -> Seq<TestModel> {
    Seq::new(v.len(), |i: int| v[i]@)
}

/// How often one name of the project is called.
#[derive(Debug)]
pub struct SutCallEntry {
    pub name: String,
    /// How many tests call it.
    pub test_function_count: u64,
    pub test_nodeids: Vec<String>,
}

/// What a `SutCallEntry` says.
#[verifier::ext_equal]
pub struct SutCallModel {
    pub name: Seq<char>,
    pub test_function_count: u64,
    pub test_nodeids: Seq<Seq<char>>,
}

impl View for SutCallEntry {
    type V = SutCallModel;

    open spec fn view(&self) -> SutCallModel {
        SutCallModel {
            name: self.name@,
            test_function_count: self.test_function_count,
            test_nodeids: views(self.test_nodeids@),
        }
    }
}

/// Which names of the project the tests call.
#[derive(Debug)]
pub struct SutCalls {
    pub by_name: Vec<SutCallEntry>,
    pub top_called: Vec<String>,
}

/// What a `SutCalls` says.
#[verifier::ext_equal]
pub struct SutCallsModel {
    pub by_name: Seq<SutCallModel>,
    pub top_called: Seq<Seq<char>>,
}

impl View for SutCalls {
    type V = SutCallsModel;

    open spec fn view(&self) -> SutCallsModel {
        SutCallsModel {
            by_name: Seq::new(self.by_name@.len(), |i: int| self.by_name@[i]@),
            top_called: views(self.top_called@),
        }
    }
}

/// One file of tests.
#[derive(Debug)]
pub struct FileRecord {
    pub path: String,
    pub test_function_count: u64,
    pub assertion_count: u64,
    pub mock_construction_count: u64,
    pub patch_decorator_count: u64,
    pub stubs_count: u64,
    pub fixture_count: u64,
    pub smell_hits: Vec<SmellHit>,
}

/// What a `FileRecord` says.
#[verifier::ext_equal]
pub struct FileModel {
    pub path: Seq<char>,
    pub test_function_count: u64,
    pub assertion_count: u64,
    pub mock_construction_count: u64,
    pub patch_decorator_count: u64,
    pub stubs_count: u64,
    pub fixture_count: u64,
    pub smell_hits: Seq<SmellModel>,
}

impl View for FileRecord {
    type V = FileModel;

    open spec fn view(&self) -> FileModel {
        FileModel {
            path: self.path@,
            test_function_count: self.test_function_count,
            assertion_count: self.assertion_count,
            mock_construction_count: self.mock_construction_count,
            patch_decorator_count: self.patch_decorator_count,
            stubs_count: self.stubs_count,
            fixture_count: self.fixture_count,
            smell_hits: smell_views(self.smell_hits@),
        }
    }
}

pub open spec fn file_views(v: Seq<FileRecord>) -> Seq<FileModel> {
    Seq::new(v.len(), |i: int| v[i]@)
}

/// One test and how long it took.
#[derive(Debug)]
pub struct SlowTest {
    pub nodeid: String,
    pub seconds: Measure,
}

/// What a `SlowTest` says.
#[verifier::ext_equal]
pub struct SlowModel {
    pub nodeid: Seq<char>,
    pub seconds: MeasureModel,
}

impl View for SlowTest {
    type V = SlowModel;

    open spec fn view(&self) -> SlowModel {
        SlowModel { nodeid: self.nodeid@, seconds: self.seconds@ }
    }
}

pub open spec fn slow_views(v: Seq<SlowTest>) -> Seq<SlowModel> {
    Seq::new(v.len(), |i: int| v[i]@)
}

} // verus!
