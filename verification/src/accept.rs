//! Accepted findings: reviewed exceptions, each for one signal on one test.
use vstd::prelude::*;
use vstd::string::*;
use vstd::utf8::*;

use crate::baseline::{entry_views, Baseline, Entry, EntryModel};
use crate::ranking::{sort_texts, text_leq};
use crate::records::{smell_views, test_views, SetupRatio, SmellHit, TestModel, TestRecord};
use crate::suspicion::SETUP_RATIO_INFLECTION;
use crate::text::{
    contains_text, hex, hex16, lines, lines_of, opt_view, same, trim_end, trimmed_end, views,
};

verus! {

/// The state in which a fingerprint starts.
pub const OFFSET_BASIS: u64 = 0xcbf2_9ce4_8422_2325;

/// What the state is multiplied by for every byte.
pub const PRIME: u64 = 0x0000_0100_0000_01b3;

/// The state after one more byte.
pub open spec fn fnv_step(state: u64, byte: u8) -> u64 {
    (state ^ (byte as u64)).wrapping_mul(PRIME)
}

/// The state after all of `bytes`.
pub open spec fn fnv(state: u64, bytes: Seq<u8>) -> u64
    decreases bytes.len(),
{
    if bytes.len() == 0 {
        state
    } else {
        fnv_step(fnv(state, bytes.drop_last()), bytes.last())
    }
}

/// What a fingerprint takes in of a source text: the bytes of every line that is not blank,
/// without the white space at its end, each followed by a newline.
pub open spec fn content_bytes(lines: Seq<Seq<char>>) -> Seq<u8>
    decreases lines.len(),
{
    if lines.len() == 0 {
        Seq::empty()
    } else {
        let line = trim_end(lines.last());
        if line.len() == 0 {
            content_bytes(lines.drop_last())
        } else {
            (content_bytes(lines.drop_last()) + encode_utf8(line)).push(10u8)
        }
    }
}

/// The fingerprint of a source text.
pub open spec fn fingerprint_of(source: Seq<char>) -> Seq<char> {
    hex(fnv(OFFSET_BASIS, content_bytes(lines_of(source))) as nat, 16)
}

proof fn lemma_fnv_concat(state: u64, a: Seq<u8>, b: Seq<u8>)
    ensures
        fnv(state, a + b) == fnv(fnv(state, a), b),
    decreases b.len(),
{
    if b.len() == 0 {
        assert(a + b =~= a);
    } else {
        lemma_fnv_concat(state, a, b.drop_last());
        assert((a + b).drop_last() =~= a + b.drop_last());
    }
}

fn step(state: u64, byte: u8) -> (r: u64)
    ensures
        r == fnv_step(state, byte),
{
    (state ^ (byte as u64)).wrapping_mul(PRIME)
}

/// The fingerprint of one test's source text: FNV-1a over its lines, without trailing white
/// space and blank lines, as sixteen lower-case hexadecimal digits.
pub fn fingerprint(source: &str) -> (r: String)
    ensures
        r@ == fingerprint_of(source@),
{
    let all = lines(source);
    let mut state: u64 = OFFSET_BASIS;
    let mut i: usize = 0;
    while i < all.len()
        invariant
            i <= all@.len(),
            state == fnv(OFFSET_BASIS, content_bytes(views(all@).take(i as int))),
        decreases all@.len() - i,
    {
        let line = trimmed_end(&all[i]);
        let ghost before = content_bytes(views(all@).take(i as int));
        proof {
            let t = views(all@).take(i + 1);
            assert(t.drop_last() =~= views(all@).take(i as int));
            assert(t.last() == all@[i as int]@);
        }
        if !line.as_str().is_empty() {
            let bytes = line.as_str().as_bytes();
            let ghost start = state;
            let mut k: usize = 0;
            while k < bytes.len()
                invariant
                    k <= bytes@.len(),
                    state == fnv(start, bytes@.take(k as int)),
                decreases bytes@.len() - k,
            {
                state = step(state, bytes[k]);
                proof {
                    let t = bytes@.take(k + 1);
                    assert(t.drop_last() =~= bytes@.take(k as int));
                }
                k += 1;
            }
            proof {
                assert(bytes@.take(k as int) =~= bytes@);
                lemma_fnv_concat(OFFSET_BASIS, before, bytes@);
                assert((before + bytes@).push(10u8).drop_last() =~= before + bytes@);
            }
            state = step(state, 10u8);
        }
        i += 1;
    }
    proof {
        assert(views(all@).take(i as int) =~= views(all@));
    }
    hex16(state)
}

/// The baseline that is looked for where none is named.
pub const DEFAULT_ACCEPT_FILENAME: &'static str = ".pycoati-accept.toml";

/// The one schema version that a baseline may declare.
pub const ACCEPT_SCHEMA_VERSION: &'static str = "1";

/// Lines of setup for each assertion from which on `Signal::HighSetupRatio` fires. It is the
/// point at which the setup term of the suspicion score turns.
pub const HIGH_SETUP_RATIO: u64 = SETUP_RATIO_INFLECTION;

/// A finding that can be accepted.
#[derive(Copy, Clone, Debug, PartialEq, Eq, PartialOrd, Ord, Structural)]
pub enum Signal {
    /// Every assertion of the test is about a mock.
    MockOnlyAssertions,
    /// The test replaces far more than it asserts.
    MockOveruse,
    /// The test verifies nothing.
    ZeroAsserts,
    /// The test has many lines of setup for each assertion.
    HighSetupRatio,
}

/// The name of a signal.
pub open spec fn signal_name(signal: Signal) -> Seq<char> {
    match signal {
        Signal::MockOnlyAssertions => "mock_only_assertions"@,
        Signal::MockOveruse => "mock_overuse"@,
        Signal::ZeroAsserts => "zero_asserts"@,
        Signal::HighSetupRatio => "high_setup_ratio"@,
    }
}

/// The signal with a given name.
pub open spec fn signal_named(name: Seq<char>) -> Option<Signal> {
    if name == signal_name(Signal::MockOnlyAssertions) {
        Some(Signal::MockOnlyAssertions)
    } else if name == signal_name(Signal::MockOveruse) {
        Some(Signal::MockOveruse)
    } else if name == signal_name(Signal::ZeroAsserts) {
        Some(Signal::ZeroAsserts)
    } else if name == signal_name(Signal::HighSetupRatio) {
        Some(Signal::HighSetupRatio)
    } else {
        None
    }
}

/// Every signal leads to its name and back, and no two signals share one.
pub proof fn signal_names_round_trip(signal: Signal, other: Signal)
    ensures
        signal_named(signal_name(signal)) == Some(signal),
        signal_name(signal) == signal_name(other) ==> signal == other,
{
    reveal_strlit("mock_only_assertions");
    reveal_strlit("mock_overuse");
    reveal_strlit("zero_asserts");
    reveal_strlit("high_setup_ratio");
    assert(signal_name(Signal::MockOnlyAssertions).len() == 20);
    assert(signal_name(Signal::MockOveruse)[0] == 'm');
    assert(signal_name(Signal::ZeroAsserts)[0] == 'z');
    assert(signal_name(Signal::HighSetupRatio)[0] == 'h');
}

/// All signal names, for messages.
pub open spec fn all_signal_names() -> Seq<char> {
    "mock_only_assertions"@ + ", "@ + "mock_overuse"@ + ", "@ + "zero_asserts"@ + ", "@
        + "high_setup_ratio"@
}

impl Signal {
    /// The name of the signal.
    pub fn as_str(self) -> (r: &'static str)
        ensures
            r@ == signal_name(self),
    {
        match self {
            Signal::MockOnlyAssertions => "mock_only_assertions",
            Signal::MockOveruse => "mock_overuse",
            Signal::ZeroAsserts => "zero_asserts",
            Signal::HighSetupRatio => "high_setup_ratio",
        }
    }

    /// The name of the signal as a string of its own.
    pub fn to_text(self) -> (r: String)
        ensures
            r@ == signal_name(self),
    {
        self.as_str().to_owned()
    }

    /// The signal with the given name, if there is one.
    pub fn parse(name: &str) -> (r: Option<Signal>)
        ensures
            r == signal_named(name@),
    {
        if same(name, "mock_only_assertions") {
            Some(Signal::MockOnlyAssertions)
        } else if same(name, "mock_overuse") {
            Some(Signal::MockOveruse)
        } else if same(name, "zero_asserts") {
            Some(Signal::ZeroAsserts)
        } else if same(name, "high_setup_ratio") {
            Some(Signal::HighSetupRatio)
        } else {
            None
        }
    }

    /// Every valid name, separated by commas.
    pub fn all_names() -> (r: String)
        ensures
            r@ == all_signal_names(),
    {
        let mut out = "mock_only_assertions".to_owned();
        out.append(", ");
        out.append("mock_overuse");
        out.append(", ");
        out.append("zero_asserts");
        out.append(", ");
        out.append("high_setup_ratio");
        out
    }

    /// Every signal, in order.
    pub fn all() -> (r: Vec<Signal>)
        ensures
            r@ == all_signals(),
    {
        let r = vec![
            Signal::MockOnlyAssertions,
            Signal::MockOveruse,
            Signal::ZeroAsserts,
            Signal::HighSetupRatio,
        ];
        assert(r@ =~= all_signals());
        r
    }
}

/// Every signal, in order.
pub open spec fn all_signals() -> Seq<Signal> {
    seq![
        Signal::MockOnlyAssertions,
        Signal::MockOveruse,
        Signal::ZeroAsserts,
        Signal::HighSetupRatio,
    ]
}

/// Among how many assertions the lines of setup are shared out: at least one.
pub open spec fn shared_by(ratio: SetupRatio) -> u64 {
    if ratio.assertions == 0 {
        1
    } else {
        ratio.assertions
    }
}

/// `signal` fires on `test`: a smell bears its name, or the counts that it reads call for it.
pub open spec fn fires(test: TestModel, signal: Signal) -> bool {
    ||| exists|i: int|
        0 <= i < test.smell_hits.len() && (#[trigger] test.smell_hits[i]).category == signal_name(
            signal,
        )
    ||| signal == Signal::ZeroAsserts && test.assertion_count == 0
        && test.external_verification_count == 0
    ||| signal == Signal::HighSetupRatio && test.setup_to_assertion_ratio.lines
        >= HIGH_SETUP_RATIO * shared_by(test.setup_to_assertion_ratio)
}

/// Being a signal that fires on `test`.
pub open spec fn firing(test: TestModel) -> spec_fn(Signal) -> bool {
    |signal: Signal| fires(test, signal)
}

fn smell_named(hits: &Vec<SmellHit>, name: &str) -> (r: bool)
    ensures
        r == exists|i: int|
            0 <= i < hits@.len() && (#[trigger] smell_views(hits@)[i]).category == name@,
{
    let mut i: usize = 0;
    while i < hits.len()
        invariant
            i <= hits@.len(),
            forall|k: int| 0 <= k < i ==> (#[trigger] smell_views(hits@)[k]).category != name@,
        decreases hits@.len() - i,
    {
        if same(&hits[i].category, name) {
            assert(smell_views(hits@)[i as int].category == name@);
            return true;
        }
        i += 1;
    }
    false
}

/// Whether `signal` fires on `test`.
pub fn signal_fires(test: &TestRecord, signal: Signal) -> (r: bool)
    ensures
        r == fires(test@, signal),
{
    if smell_named(&test.smell_hits, signal.as_str()) {
        return true;
    }
    let ratio = test.setup_to_assertion_ratio;
    match signal {
        Signal::ZeroAsserts => test.assertion_count == 0 && test.external_verification_count == 0,
        Signal::HighSetupRatio => {
            let sharers: u64 = if ratio.assertions == 0 {
                1
            } else {
                ratio.assertions
            };
            ratio.lines / HIGH_SETUP_RATIO >= sharers
        },
        _ => false,
    }
}

/// The signals that fire on `test`, each once, in order.
pub fn active_signals(test: &TestRecord) -> (r: Vec<Signal>)
    ensures
        r@ == all_signals().filter(firing(test@)),
        forall|signal: Signal| r@.contains(signal) == fires(test@, signal),
{
    let all = Signal::all();
    let ghost p = firing(test@);
    let mut out: Vec<Signal> = Vec::new();
    let mut i: usize = 0;
    assert(all@.take(0).filter(p) =~= Seq::<Signal>::empty()) by {
        reveal(Seq::filter);
    }
    while i < all.len()
        invariant
            i <= all@.len(),
            all@ == all_signals(),
            p == firing(test@),
            out@ == all@.take(i as int).filter(p),
        decreases all@.len() - i,
    {
        proof {
            reveal(Seq::filter);
            let part = all@.take(i + 1);
            assert(part.drop_last() =~= all@.take(i as int));
            assert(part.last() == all@[i as int]);
        }
        let signal: Signal = all[i];
        if signal_fires(test, signal) {
            out.push(signal);
        }
        i += 1;
    }
    proof {
        broadcast use vstd::seq_lib::group_filter_ensures;

        assert(all@.take(i as int) =~= all@);
        assert forall|signal: Signal| out@.contains(signal) == fires(test@, signal) by {
            assert(all@[match signal {
                Signal::MockOnlyAssertions => 0int,
                Signal::MockOveruse => 1int,
                Signal::ZeroAsserts => 2int,
                Signal::HighSetupRatio => 3int,
            }] == signal);
            if out@.contains(signal) {
                let k = choose|k: int| 0 <= k < out@.len() && out@[k] == signal;
                assert(p(out@[k]));
            }
        }
    }
    out
}

/// Every signal that fires on the test was accepted, and at least one does.
pub open spec fn fully_accepted(test: TestModel) -> bool {
    &&& exists|signal: Signal| fires(test, signal)
    &&& forall|signal: Signal|
        fires(test, signal) ==> test.accepted_signals.contains(signal_name(signal))
}

impl TestRecord {
    /// Whether everything that was found in this test was accepted. A test in which nothing was
    /// found is not.
    pub fn accepted_in_full(&self) -> (r: bool)
        ensures
            r == fully_accepted(self@),
    {
        let active = active_signals(self);
        let mut i: usize = 0;
        while i < active.len()
            invariant
                i <= active@.len(),
                forall|signal: Signal| active@.contains(signal) == fires(self@, signal),
                forall|k: int|
                    0 <= k < i ==> self@.accepted_signals.contains(
                        signal_name(#[trigger] active@[k]),
                    ),
            decreases active@.len() - i,
        {
            if !contains_text(&self.accepted_signals, active[i].as_str()) {
                assert(active@.contains(active@[i as int]));
                return false;
            }
            i += 1;
        }
        proof {
            if active@.len() > 0 {
                assert(active@.contains(active@[0]));
            }
            assert forall|signal: Signal| fires(self@, signal) implies
                self@.accepted_signals.contains(signal_name(signal)) by {
                assert(active@.contains(signal));
                let k = choose|k: int| 0 <= k < active@.len() && active@[k] == signal;
                assert(active@[k] == signal);
            }
        }
        active.len() > 0
    }
}

/// Why an entry accepts nothing.
#[derive(Copy, Clone, Debug, PartialEq, Eq, Structural)]
pub enum Status {
    /// No test has the entry's identity.
    UnknownTest,
    /// The accepted signal does not fire on the test.
    SignalNotActive,
    /// The test is not the one that was looked at.
    ContentChanged,
}

/// The name of a status.
pub open spec fn status_name(status: Status) -> Seq<char> {
    match status {
        Status::UnknownTest => "unknown_test"@,
        Status::SignalNotActive => "signal_not_active"@,
        Status::ContentChanged => "content_changed"@,
    }
}

impl Status {
    /// The name of the status.
    pub fn as_str(self) -> (r: &'static str)
        ensures
            r@ == status_name(self),
    {
        match self {
            Status::UnknownTest => "unknown_test",
            Status::SignalNotActive => "signal_not_active",
            Status::ContentChanged => "content_changed",
        }
    }
}

/// One acceptance in effect.
#[derive(Debug)]
pub struct AcceptedFinding {
    pub test: String,
    pub signal: String,
    pub reason: String,
    pub reviewed: Option<String>,
    pub fingerprint: Option<String>,
}

/// What an `AcceptedFinding` says.
#[verifier::ext_equal]
pub struct FindingModel {
    pub test: Seq<char>,
    pub signal: Seq<char>,
    pub reason: Seq<char>,
    pub reviewed: Option<Seq<char>>,
    pub fingerprint: Option<Seq<char>>,
}

impl View for AcceptedFinding {
    type V = FindingModel;

    open spec fn view(&self) -> FindingModel {
        FindingModel {
            test: self.test@,
            signal: self.signal@,
            reason: self.reason@,
            reviewed: opt_view(self.reviewed),
            fingerprint: opt_view(self.fingerprint),
        }
    }
}

/// One acceptance that applies no longer.
#[derive(Debug)]
pub struct StaleAcceptance {
    pub test: String,
    pub signal: String,
    pub reason: String,
    /// The name of a `Status`.
    pub status: String,
    /// What does not match, for a reader.
    pub detail: String,
}

/// What a `StaleAcceptance` says.
#[verifier::ext_equal]
pub struct StaleModel {
    pub test: Seq<char>,
    pub signal: Seq<char>,
    pub reason: Seq<char>,
    pub status: Seq<char>,
    pub detail: Seq<char>,
}

impl View for StaleAcceptance {
    type V = StaleModel;

    open spec fn view(&self) -> StaleModel {
        StaleModel {
            test: self.test@,
            signal: self.signal@,
            reason: self.reason@,
            status: self.status@,
            detail: self.detail@,
        }
    }
}

pub open spec fn finding_views(v: Seq<AcceptedFinding>) -> Seq<FindingModel> {
    Seq::new(v.len(), |i: int| v[i]@)
}

pub open spec fn stale_views(v: Seq<StaleAcceptance>) -> Seq<StaleModel> {
    Seq::new(v.len(), |i: int| v[i]@)
}

/// What a run made of its accepted findings.
#[derive(Debug)]
pub struct Accepted {
    /// The file in effect, if one was.
    pub path: Option<String>,
    /// Whether accepted tests were left on the shortlist.
    pub included_in_shortlist: bool,
    /// The entries that met a finding.
    pub findings: Vec<AcceptedFinding>,
    /// The entries that met none, and why.
    pub stale: Vec<StaleAcceptance>,
}

impl Accepted {
    /// What a run makes of no file.
    pub fn none(included_in_shortlist: bool) -> (r: Accepted)
        ensures
            r.path is None,
            r.included_in_shortlist == included_in_shortlist,
            r.findings@.len() == 0,
            r.stale@.len() == 0,
    {
        Accepted { path: None, included_in_shortlist, findings: Vec::new(), stale: Vec::new() }
    }
}

/// The last test before position `n` with the identity `id`.
pub open spec fn last_with_id(tests: Seq<TestModel>, id: Seq<char>, n: int) -> Option<int>
    decreases n,
{
    if n <= 0 || n > tests.len() {
        None
    } else if tests[n - 1].nodeid == id {
        Some(n - 1)
    } else {
        last_with_id(tests, id, n - 1)
    }
}

/// The test that an entry is about.
pub open spec fn subject(tests: Seq<TestModel>, entry: EntryModel) -> Option<int> {
    last_with_id(tests, entry.test, tests.len() as int)
}

/// Why an entry accepts nothing, if it does not: its test is gone; or its test is not the one
/// that was looked at, whatever its signals say now; or its signal does not fire.
pub open spec fn lapse(tests: Seq<TestModel>, entry: EntryModel) -> Option<(Status, Seq<char>)> {
    match subject(tests, entry) {
        None => Some(
            (
                Status::UnknownTest,
                "no test function with this nodeid in the current inventory"@,
            ),
        ),
        Some(i) => if entry.fingerprint is Some && entry.fingerprint != tests[i].fingerprint {
            Some(
                (
                    Status::ContentChanged,
                    match tests[i].fingerprint {
                        None => "this test has no fingerprint in this run, so the recorded "@
                            + entry.fingerprint->0
                            + " cannot be confirmed; re-review and update the entry"@,
                        Some(current) => "test content changed since review (recorded "@
                            + entry.fingerprint->0 + ", current "@ + current
                            + "); re-review and update the entry"@,
                    },
                ),
            )
        } else if !fires(tests[i], entry.signal) {
            Some(
                (
                    Status::SignalNotActive,
                    "`"@ + signal_name(entry.signal) + "` does not fire on this test in this run"@,
                ),
            )
        } else {
            None
        },
    }
}

/// How a lapsed entry is reported.
pub open spec fn stale_of(entry: EntryModel, why: (Status, Seq<char>)) -> StaleModel {
    StaleModel {
        test: entry.test,
        signal: signal_name(entry.signal),
        reason: entry.reason,
        status: status_name(why.0),
        detail: why.1,
    }
}

/// How an entry in effect is reported.
pub open spec fn finding_of(entry: EntryModel) -> FindingModel {
    FindingModel {
        test: entry.test,
        signal: signal_name(entry.signal),
        reason: entry.reason,
        reviewed: entry.reviewed,
        fingerprint: entry.fingerprint,
    }
}

/// The entries in effect among the first `n`, as they are reported.
pub open spec fn live_findings(tests: Seq<TestModel>, entries: Seq<EntryModel>, n: int) -> Seq<
    FindingModel,
>
    decreases n,
{
    if n <= 0 {
        Seq::empty()
    } else {
        let before = live_findings(tests, entries, n - 1);
        if lapse(tests, entries[n - 1]) is None {
            before.push(finding_of(entries[n - 1]))
        } else {
            before
        }
    }
}

/// The lapsed entries among the first `n`, as they are reported.
pub open spec fn lapsed_entries(tests: Seq<TestModel>, entries: Seq<EntryModel>, n: int) -> Seq<
    StaleModel,
>
    decreases n,
{
    if n <= 0 {
        Seq::empty()
    } else {
        let before = lapsed_entries(tests, entries, n - 1);
        match lapse(tests, entries[n - 1]) {
            Some(why) => before.push(stale_of(entries[n - 1], why)),
            None => before,
        }
    }
}

/// The signals that the first `n` entries accept on test `i`, in the order of the entries.
pub open spec fn accepted_on(
    tests: Seq<TestModel>,
    entries: Seq<EntryModel>,
    i: int,
    n: int,
) -> Seq<Seq<char>>
    decreases n,
{
    if n <= 0 {
        Seq::empty()
    } else {
        let before = accepted_on(tests, entries, i, n - 1);
        if lapse(tests, entries[n - 1]) is None && subject(tests, entries[n - 1]) == Some(i) {
            before.push(signal_name(entries[n - 1].signal))
        } else {
            before
        }
    }
}

/// A test after the entries are applied: the signals accepted on it are added, and all put in
/// order; nothing else about it changes.
pub open spec fn with_acceptances(tests: Seq<TestModel>, entries: Seq<EntryModel>, i: int) -> TestModel {
    let added = accepted_on(tests, entries, i, entries.len() as int);
    TestModel {
        accepted_signals: if added.len() == 0 {
            tests[i].accepted_signals
        } else {
            (tests[i].accepted_signals + added).sort_by(text_leq())
        },
        ..tests[i]
    }
}

/// The last test with the identity `id`.
pub fn find_test(tests: &Vec<TestRecord>, id: &str) -> (r: Option<usize>)
    ensures
        match r {
            Some(i) => i < tests@.len() && last_with_id(
                test_views(tests@),
                id@,
                tests@.len() as int,
            ) == Some(i as int),
            None => last_with_id(test_views(tests@), id@, tests@.len() as int) is None,
        },
{
    let mut n: usize = tests.len();
    while n > 0
        invariant
            n <= tests@.len(),
            last_with_id(test_views(tests@), id@, n as int) == last_with_id(
                test_views(tests@),
                id@,
                tests@.len() as int,
            ),
        decreases n,
    {
        assert(test_views(tests@)[n - 1] == tests@[n - 1]@);
        if same(&tests[n - 1].nodeid, id) {
            return Some(n - 1);
        }
        n -= 1;
    }
    None
}

/// The view of why an entry lapsed.
pub open spec fn lapse_view(o: Option<(Status, String)>) -> Option<(Status, Seq<char>)> {
    match o {
        Some((status, detail)) => Some((status, detail@)),
        None => None,
    }
}

fn same_option(a: &Option<String>, b: &Option<String>) -> (r: bool)
    ensures
        r == (opt_view(*a) == opt_view(*b)),
{
    match (a, b) {
        (Some(x), Some(y)) => same(x, y),
        (None, None) => true,
        _ => false,
    }
}

fn changed_detail(recorded: &str, current: &Option<String>) -> (r: String)
    ensures
        r@ == (match opt_view(*current) {
            None => "this test has no fingerprint in this run, so the recorded "@ + recorded@
                + " cannot be confirmed; re-review and update the entry"@,
            Some(c) => "test content changed since review (recorded "@ + recorded@ + ", current "@
                + c + "); re-review and update the entry"@,
        }),
{
    match current {
        None => {
            let mut out = "this test has no fingerprint in this run, so the recorded ".to_owned();
            out.append(recorded);
            out.append(" cannot be confirmed; re-review and update the entry");
            out
        },
        Some(c) => {
            let mut out = "test content changed since review (recorded ".to_owned();
            out.append(recorded);
            out.append(", current ");
            out.append(c);
            out.append("); re-review and update the entry");
            out
        },
    }
}

/// Why an entry accepts nothing on the test at `position`, if it does not.
fn why_lapsed(tests: &Vec<TestRecord>, entry: &Entry, position: Option<usize>) -> (r: Option<
    (Status, String),
>)
    requires
        match position {
            Some(i) => i < tests@.len() && subject(test_views(tests@), entry@) == Some(i as int),
            None => subject(test_views(tests@), entry@) is None,
        },
    ensures
        lapse_view(r) == lapse(test_views(tests@), entry@),
{
    let i: usize = match position {
        Some(i) => i,
        None => {
            return Some(
                (
                    Status::UnknownTest,
                    "no test function with this nodeid in the current inventory".to_owned(),
                ),
            );
        },
    };
    assert(test_views(tests@)[i as int] == tests@[i as int]@);
    if let Some(recorded) = &entry.fingerprint {
        if !same_option(&entry.fingerprint, &tests[i].fingerprint) {
            return Some(
                (Status::ContentChanged, changed_detail(recorded, &tests[i].fingerprint)),
            );
        }
    }
    if !signal_fires(&tests[i], entry.signal) {
        let mut out = "`".to_owned();
        out.append(entry.signal.as_str());
        out.append("` does not fire on this test in this run");
        return Some((Status::SignalNotActive, out));
    }
    None
}

/// How a lapsed entry is reported.
pub fn stale_entry(entry: &Entry, status: Status, detail: String) -> (r: StaleAcceptance)
    ensures
        r@ == stale_of(entry@, (status, detail@)),
{
    StaleAcceptance {
        test: entry.test.clone(),
        signal: entry.signal.to_text(),
        reason: entry.reason.clone(),
        status: status.as_str().to_owned(),
        detail,
    }
}

fn finding_entry(entry: &Entry) -> (r: AcceptedFinding)
    ensures
        r@ == finding_of(entry@),
{
    AcceptedFinding {
        test: entry.test.clone(),
        signal: entry.signal.to_text(),
        reason: entry.reason.clone(),
        reviewed: entry.reviewed.clone(),
        fingerprint: entry.fingerprint.clone(),
    }
}

fn signals_after(test: &TestRecord, added: &Vec<String>) -> (r: Vec<String>)
    ensures
        views(r@) == if added@.len() == 0 {
            views(test.accepted_signals@)
        } else {
            (views(test.accepted_signals@) + views(added@)).sort_by(text_leq())
        },
{
    let mut all: Vec<String> = Vec::new();
    let mut i: usize = 0;
    while i < test.accepted_signals.len()
        invariant
            i <= test.accepted_signals@.len(),
            all@.len() == i,
            forall|k: int| 0 <= k < i ==> (#[trigger] all@[k])@ == test.accepted_signals@[k]@,
        decreases test.accepted_signals@.len() - i,
    {
        all.push(test.accepted_signals[i].clone());
        i += 1;
    }
    assert(views(all@) =~= views(test.accepted_signals@));
    if added.len() == 0 {
        return all;
    }
    let mut k: usize = 0;
    while k < added.len()
        invariant
            k <= added@.len(),
            views(all@) =~= views(test.accepted_signals@) + views(added@).take(k as int),
        decreases added@.len() - k,
    {
        let ghost before = views(all@);
        all.push(added[k].clone());
        proof {
            assert(views(all@) =~= before.push(added@[k as int]@));
            assert(views(added@).take(k + 1) =~= views(added@).take(k as int).push(
                views(added@)[k as int],
            ));
        }
        k += 1;
    }
    assert(views(added@).take(k as int) =~= views(added@));
    sort_texts(all)
}

/// Holds accepted findings against the tests. Every test on which a signal is accepted gets the
/// signal's name; nothing else about a test changes. Every entry is reported either as a finding
/// or as stale.
pub fn apply(tests: &mut Vec<TestRecord>, baseline: Option<Baseline>, include_accepted: bool) -> (r:
    Accepted)
    ensures
        final(tests)@.len() == old(tests)@.len(),
        r.included_in_shortlist == include_accepted,
        match baseline {
            None => r.path is None && r.findings@.len() == 0 && r.stale@.len() == 0
                && *final(tests) == *old(tests),
            Some(b) => {
                let before = test_views(old(tests)@);
                let entries = entry_views(b.entries@);
                &&& opt_view(r.path) == Some(b.path@)
                &&& finding_views(r.findings@) == live_findings(
                    before,
                    entries,
                    entries.len() as int,
                )
                &&& stale_views(r.stale@) == lapsed_entries(before, entries, entries.len() as int)
                &&& forall|i: int|
                    0 <= i < before.len() ==> (#[trigger] final(tests)@[i])@ == with_acceptances(
                        before,
                        entries,
                        i,
                    )
            },
        },
{
    let accepted = match baseline {
        Some(b) => b,
        None => {
            return Accepted::none(include_accepted);
        },
    };
    let entries = accepted.entries;
    let ghost before = test_views(tests@);
    let ghost model = entry_views(entries@);
    let mut findings: Vec<AcceptedFinding> = Vec::new();
    let mut stale: Vec<StaleAcceptance> = Vec::new();
    let mut added: Vec<Vec<String>> = Vec::new();
    let mut t: usize = 0;
    while t < tests.len()
        invariant
            t <= tests@.len(),
            added@.len() == t,
            forall|k: int| 0 <= k < t ==> (#[trigger] added@[k])@.len() == 0,
        decreases tests@.len() - t,
    {
        added.push(Vec::new());
        t += 1;
    }
    proof {
        assert(finding_views(findings@) =~= live_findings(before, model, 0));
        assert(stale_views(stale@) =~= lapsed_entries(before, model, 0));
        assert forall|k: int| 0 <= k < added@.len() implies views((#[trigger] added@[k])@)
            == accepted_on(before, model, k, 0) by {
            assert(views(added@[k]@) =~= Seq::<Seq<char>>::empty());
        }
    }
    let mut n: usize = 0;
    while n < entries.len()
        invariant
            n <= entries@.len(),
            before == test_views(tests@),
            model == entry_views(entries@),
            finding_views(findings@) == live_findings(before, model, n as int),
            stale_views(stale@) == lapsed_entries(before, model, n as int),
            added@.len() == tests@.len(),
            forall|k: int|
                0 <= k < added@.len() ==> views((#[trigger] added@[k])@) == accepted_on(
                    before,
                    model,
                    k,
                    n as int,
                ),
        decreases entries@.len() - n,
    {
        let entry = &entries[n];
        assert(model[n as int] == entry@);
        let position = find_test(tests, &entry.test);
        let ghost findings_before = finding_views(findings@);
        let ghost stale_before = stale_views(stale@);
        let ghost added_before = added@;
        match why_lapsed(tests, entry, position) {
            Some((status, detail)) => {
                stale.push(stale_entry(entry, status, detail));
                assert(stale_views(stale@) =~= stale_before.push(
                    stale_of(entry@, (status, detail@)),
                ));
            },
            None => {
                if let Some(i) = position {
                    let signals = signals_pushed(&added[i], entry.signal);
                    added[i] = signals;
                    assert forall|k: int| 0 <= k < added@.len() implies views(
                        (#[trigger] added@[k])@,
                    ) == accepted_on(before, model, k, n + 1) by {
                        if k != i {
                            assert(added@[k] == added_before[k]);
                        }
                    }
                }
                findings.push(finding_entry(entry));
                assert(finding_views(findings@) =~= findings_before.push(finding_of(entry@)));
            },
        }
        n += 1;
    }
    let ghost start = tests@;
    let mut i: usize = 0;
    while i < tests.len()
        invariant
            i <= tests@.len(),
            tests@.len() == start.len(),
            added@.len() == tests@.len(),
            before == test_views(start),
            model == entry_views(entries@),
            n == model.len(),
            forall|k: int|
                0 <= k < added@.len() ==> views((#[trigger] added@[k])@) == accepted_on(
                    before,
                    model,
                    k,
                    n as int,
                ),
            forall|k: int|
                0 <= k < i ==> (#[trigger] tests@[k])@ == with_acceptances(before, model, k),
            forall|k: int| i <= k < tests@.len() ==> #[trigger] tests@[k] == start[k],
        decreases tests@.len() - i,
    {
        let signals = signals_after(&tests[i], &added[i]);
        proof {
            assert(tests@[i as int] == start[i as int]);
            assert(before[i as int] == start[i as int]@);
            assert(views(added@[i as int]@).len() == added@[i as int]@.len());
        }
        tests[i].accepted_signals = signals;
        assert(tests@[i as int]@ =~= with_acceptances(before, model, i as int));
        i += 1;
    }
    Accepted {
        path: Some(accepted.path),
        included_in_shortlist: include_accepted,
        findings,
        stale,
    }
}

fn signals_pushed(so_far: &Vec<String>, signal: Signal) -> (r: Vec<String>)
    ensures
        views(r@) == views(so_far@).push(signal_name(signal)),
{
    let mut out: Vec<String> = Vec::new();
    let mut i: usize = 0;
    while i < so_far.len()
        invariant
            i <= so_far@.len(),
            out@.len() == i,
            forall|k: int| 0 <= k < i ==> (#[trigger] out@[k])@ == so_far@[k]@,
        decreases so_far@.len() - i,
    {
        out.push(so_far[i].clone());
        i += 1;
    }
    out.push(signal.to_text());
    assert(views(out@) =~= views(so_far@).push(signal_name(signal)));
    out
}

/// How a run treats accepted findings.
#[derive(Debug)]
pub struct AcceptOptions {
    /// The file to read; it must exist.
    pub file: Option<String>,
    /// Read no file at all.
    pub disabled: bool,
    /// Leave accepted tests on the shortlist.
    pub include_accepted: bool,
}

impl Default for AcceptOptions {
    fn default() -> (r: AcceptOptions)
        ensures
            r.file is None && !r.disabled && !r.include_accepted,
    {
        AcceptOptions { file: None, disabled: false, include_accepted: false }
    }
}

/// Which file is read: none where reading is off; else the named one, which must exist; else the
/// one that was found, if one was.
pub open spec fn chosen_file(
    options: AcceptOptions,
    named_exists: bool,
    found: Option<Seq<char>>,
) -> Result<Option<Seq<char>>, Seq<char>> {
    if options.disabled {
        Ok(None)
    } else {
        match options.file {
            Some(named) => if named_exists {
                Ok(Some(named@))
            } else {
                Err("accept file not found: "@ + named@)
            },
            None => Ok(found),
        }
    }
}

/// The first of a list of places at which there is a file.
pub open spec fn first_there(places: Seq<(String, bool)>, from: int) -> Option<Seq<char>>
    decreases places.len() - from,
{
    if from < 0 || from >= places.len() {
        None
    } else if places[from].1 {
        Some(places[from].0@)
    } else {
        first_there(places, from + 1)
    }
}

impl AcceptOptions {
    /// Which file is read, given whether the named one exists and which one was found.
    pub fn resolve_with(&self, named_exists: bool, found: Option<String>) -> (r: Result<
        Option<String>,
        String,
    >)
        ensures
            match chosen_file(*self, named_exists, opt_view(found)) {
                Ok(path) => r is Ok && opt_view(r->Ok_0) == path,
                Err(e) => r is Err && r->Err_0@ == e,
            },
    {
        if self.disabled {
            return Ok(None);
        }
        match &self.file {
            Some(named) => {
                if named_exists {
                    Ok(Some(named.clone()))
                } else {
                    let mut out = "accept file not found: ".to_owned();
                    out.append(named);
                    Err(out)
                }
            },
            None => Ok(found),
        }
    }
}

/// The first of a list of places at which there is a file: for a single file the directories
/// above it, the nearest first; for a project its root.
pub fn discover(places: &Vec<(String, bool)>) -> (r: Option<String>)
    ensures
        opt_view(r) == first_there(places@, 0),
{
    let mut i: usize = 0;
    while i < places.len()
        invariant
            i <= places@.len(),
            first_there(places@, 0) == first_there(places@, i as int),
        decreases places@.len() - i,
    {
        if places[i].1 {
            return Some(places[i].0.clone());
        }
        i += 1;
    }
    None
}

} // verus!
