//! What holds of accepted findings.
use vstd::prelude::*;

use crate::accept::{
    all_signal_names, all_signals, chosen_file, finding_of, fires, first_there, fnv, fully_accepted,
    lapse, lapsed_entries, last_with_id, live_findings, signal_name, signal_named, stale_of,
    subject, AcceptOptions, Signal, Status, OFFSET_BASIS,
};
use crate::baseline::EntryModel;
use crate::laws::texts::texts_are_found_where_they_stand;
use crate::numerals::has_text;
use crate::records::TestModel;
use crate::text::hex;

verus! {

/// Whether a test bears a smell of a category.
pub open spec fn bears(test: TestModel, category: Seq<char>) -> bool {
    exists|i: int| 0 <= i < test.smell_hits.len() && (#[trigger] test.smell_hits[i]).category == category
}

/// Each signal fires where the test bears the smell of its name; two of them also by what the test
/// is: where it verifies nothing at all, and where it has eight lines of setup or more for each
/// assertion, a test without one counting as one with one.
pub proof fn signals_fire_by_what_a_test_is(test: TestModel)
    ensures
        fires(test, Signal::MockOnlyAssertions) == bears(test, "mock_only_assertions"@),
        fires(test, Signal::MockOveruse) == bears(test, "mock_overuse"@),
        fires(test, Signal::ZeroAsserts) == (bears(test, "zero_asserts"@) || (test.assertion_count
            == 0 && test.external_verification_count == 0)),
        fires(test, Signal::HighSetupRatio) == (bears(test, "high_setup_ratio"@) || (
        test.setup_to_assertion_ratio.assertions > 0 && test.setup_to_assertion_ratio.lines >= 8
            * test.setup_to_assertion_ratio.assertions) || (test.setup_to_assertion_ratio.assertions
            == 0 && test.setup_to_assertion_ratio.lines >= 8)),
{
}

/// A check in a child process, or an assertion, keeps the assertionless signal from firing on a
/// test that bears no such smell; one more of either never makes it fire.
pub proof fn verifying_tests_are_not_assertionless(test: TestModel)
    requires
        !bears(test, "zero_asserts"@),
        test.assertion_count > 0 || test.external_verification_count > 0,
    ensures
        !fires(test, Signal::ZeroAsserts),
{
}

/// Less setup, or more assertions to share it, never makes the setup signal fire.
pub proof fn setup_signal_follows_the_ratio(test: TestModel, other: TestModel)
    requires
        test.smell_hits == other.smell_hits,
        other.setup_to_assertion_ratio.lines <= test.setup_to_assertion_ratio.lines,
        other.setup_to_assertion_ratio.assertions >= test.setup_to_assertion_ratio.assertions,
        fires(other, Signal::HighSetupRatio),
    ensures
        fires(test, Signal::HighSetupRatio),
{
    assert forall|i: int|
        0 <= i < other.smell_hits.len() && (#[trigger] other.smell_hits[i]).category == signal_name(
            Signal::HighSetupRatio,
        ) implies fires(test, Signal::HighSetupRatio) by {
        assert(test.smell_hits[i].category == signal_name(Signal::HighSetupRatio));
    }
}

/// The names of the signals, and that no other text names one.
pub proof fn signals_have_four_names(name: Seq<char>)
    ensures
        signal_named("mock_only_assertions"@) == Some(Signal::MockOnlyAssertions),
        signal_named("mock_overuse"@) == Some(Signal::MockOveruse),
        signal_named("zero_asserts"@) == Some(Signal::ZeroAsserts),
        signal_named("high_setup_ratio"@) == Some(Signal::HighSetupRatio),
        name != "mock_only_assertions"@ && name != "mock_overuse"@ && name != "zero_asserts"@ && name
            != "high_setup_ratio"@ ==> signal_named(name) is None,
        all_signals().len() == 4,
{
    reveal_strlit("mock_only_assertions");
    reveal_strlit("mock_overuse");
    reveal_strlit("zero_asserts");
    reveal_strlit("high_setup_ratio");
    assert("mock_only_assertions"@.len() == 20 && "mock_overuse"@.len() == 12 && "zero_asserts"@.len()
        == 12 && "high_setup_ratio"@.len() == 16);
    assert("mock_overuse"@[0] == 'm' && "zero_asserts"@[0] == 'z');
}

/// Every signal is one of those that are gone through, and its name is one of those that are shown.
pub proof fn every_signal_is_gone_through(signal: Signal)
    ensures
        all_signals().contains(signal),
        has_text(all_signal_names(), signal_name(signal)),
{
    let all = all_signals();
    assert(all[0] == Signal::MockOnlyAssertions && all[1] == Signal::MockOveruse && all[2]
        == Signal::ZeroAsserts && all[3] == Signal::HighSetupRatio);
    let a = "mock_only_assertions"@;
    let b = "mock_overuse"@;
    let c = "zero_asserts"@;
    let d = "high_setup_ratio"@;
    let s = ", "@;
    let names = all_signal_names();
    let none = Seq::<char>::empty();
    assert(names =~= none + a + (s + b + s + c + s + d));
    assert(names =~= (a + s) + b + (s + c + s + d));
    assert(names =~= (a + s + b + s) + c + (s + d));
    assert(names =~= (a + s + b + s + c + s) + d + none);
    texts_are_found_where_they_stand(names, a, none, s + b + s + c + s + d);
    texts_are_found_where_they_stand(names, b, a + s, s + c + s + d);
    texts_are_found_where_they_stand(names, c, a + s + b + s, s + d);
    texts_are_found_where_they_stand(names, d, a + s + b + s + c + s, none);
}

proof fn lemma_last_with_id(tests: Seq<TestModel>, id: Seq<char>, n: int)
    requires
        0 <= n <= tests.len(),
    ensures
        match last_with_id(tests, id, n) {
            Some(i) => 0 <= i < n && tests[i].nodeid == id && forall|j: int|
                i < j < n ==> (#[trigger] tests[j]).nodeid != id,
            None => forall|j: int| 0 <= j < n ==> (#[trigger] tests[j]).nodeid != id,
        },
    decreases n,
{
    if n > 0 && tests[n - 1].nodeid != id {
        lemma_last_with_id(tests, id, n - 1);
    }
}

/// An entry is in effect exactly where there is a test with its identity, where the test has the
/// fingerprint that the entry records, if it records one, and where its signal fires on the test.
pub proof fn entries_in_effect(tests: Seq<TestModel>, entry: EntryModel, i: int)
    requires
        0 <= i < tests.len(),
        tests[i].nodeid == entry.test,
        forall|j: int| 0 <= j < tests.len() && j != i ==> (#[trigger] tests[j]).nodeid != entry.test,
    ensures
        subject(tests, entry) == Some(i),
        lapse(tests, entry) is None <==> {
            &&& entry.fingerprint is None || entry.fingerprint == tests[i].fingerprint
            &&& fires(tests[i], entry.signal)
        },
        entry.fingerprint is Some && entry.fingerprint != tests[i].fingerprint ==> (lapse(
            tests,
            entry,
        ) matches Some((why, detail)) && why == Status::ContentChanged && has_text(
            detail,
            entry.fingerprint->0,
        ) && (tests[i].fingerprint matches Some(current) ==> has_text(detail, current))),
        (entry.fingerprint is None || entry.fingerprint == tests[i].fingerprint) && !fires(
            tests[i],
            entry.signal,
        ) ==> (lapse(tests, entry) matches Some((why, detail)) && why == Status::SignalNotActive
            && has_text(detail, signal_name(entry.signal))),
{
    lemma_last_with_id(tests, entry.test, tests.len() as int);
    let name = signal_name(entry.signal);
    texts_are_found_where_they_stand(
        name,
        name,
        "`"@,
        "` does not fire on this test in this run"@,
    );
    if entry.fingerprint is Some {
        let old = entry.fingerprint->0;
        match tests[i].fingerprint {
            None => {
                texts_are_found_where_they_stand(
                    old,
                    old,
                    "this test has no fingerprint in this run, so the recorded "@,
                    " cannot be confirmed; re-review and update the entry"@,
                );
            },
            Some(current) => {
                let a = "test content changed since review (recorded "@;
                let b = ", current "@;
                let c = "); re-review and update the entry"@;
                assert(a + old + b + current + c =~= a + old + (b + current + c));
                texts_are_found_where_they_stand(old, old, a, b + current + c);
                texts_are_found_where_they_stand(old, current, a + old + b, c);
            },
        }
    }
}

/// An entry about a test that is not there lapses for that reason, and only such an entry does.
pub proof fn entries_about_no_test_lapse(tests: Seq<TestModel>, entry: EntryModel)
    ensures
        (lapse(tests, entry) matches Some((why, detail)) && why == Status::UnknownTest) == (forall|
            j: int,
        |
            0 <= j < tests.len() ==> (#[trigger] tests[j]).nodeid != entry.test),
{
    lemma_last_with_id(tests, entry.test, tests.len() as int);
    if let Some(i) = subject(tests, entry) {
        assert(tests[i].nodeid == entry.test);
    }
}

/// What is reported of an entry is what the entry says, and why it lapsed under the reason's name.
pub proof fn reports_repeat_the_entries(entry: EntryModel, why: Status, detail: Seq<char>)
    ensures
        finding_of(entry).test == entry.test,
        finding_of(entry).signal == signal_name(entry.signal),
        finding_of(entry).reason == entry.reason,
        finding_of(entry).reviewed == entry.reviewed,
        finding_of(entry).fingerprint == entry.fingerprint,
        stale_of(entry, (why, detail)).test == entry.test,
        stale_of(entry, (why, detail)).signal == signal_name(entry.signal),
        stale_of(entry, (why, detail)).reason == entry.reason,
        stale_of(entry, (why, detail)).detail == detail,
        stale_of(entry, (Status::UnknownTest, detail)).status == "unknown_test"@,
        stale_of(entry, (Status::SignalNotActive, detail)).status == "signal_not_active"@,
        stale_of(entry, (Status::ContentChanged, detail)).status == "content_changed"@,
{
}

/// Entries are reported in their order: one more entry adds one report behind the others, on the
/// list of findings where it is in effect and on that of stale entries where it lapsed.
pub proof fn reports_stand_in_order(tests: Seq<TestModel>, entries: Seq<EntryModel>, n: int)
    requires
        0 <= n < entries.len(),
    ensures
        lapse(tests, entries[n]) is None ==> live_findings(tests, entries, n + 1) == live_findings(
            tests,
            entries,
            n,
        ).push(finding_of(entries[n])) && lapsed_entries(tests, entries, n + 1) == lapsed_entries(
            tests,
            entries,
            n,
        ),
        lapse(tests, entries[n]) matches Some(why) ==> live_findings(tests, entries, n + 1)
            == live_findings(tests, entries, n) && lapsed_entries(tests, entries, n + 1)
            == lapsed_entries(tests, entries, n).push(stale_of(entries[n], why)),
        live_findings(tests, entries, 0).len() == 0,
        lapsed_entries(tests, entries, 0).len() == 0,
{
}

/// A test is accepted in full where at least one signal fires on it and each that fires is among
/// its accepted ones; accepting more never undoes that.
pub proof fn accepting_more_keeps_a_test_accepted(test: TestModel, more: Seq<Seq<char>>)
    requires
        fully_accepted(test),
    ensures
        fully_accepted(TestModel { accepted_signals: test.accepted_signals + more, ..test }),
        exists|signal: Signal| fires(test, signal),
{
    let after = TestModel { accepted_signals: test.accepted_signals + more, ..test };
    assert forall|signal: Signal| fires(after, signal) == fires(test, signal) by {
        if fires(test, signal) {
        }
    }
    let one = choose|signal: Signal| fires(test, signal);
    assert(fires(after, one));
    assert forall|signal: Signal| fires(after, signal) implies after.accepted_signals.contains(
        signal_name(signal),
    ) by {
        assert(fires(test, signal));
        let name = signal_name(signal);
        let k = choose|k: int| 0 <= k < test.accepted_signals.len() && test.accepted_signals[k] == name;
        assert(after.accepted_signals[k] == name);
    }
}

/// Where no file is to be read none is; a file that is named has to be there, and is read whatever
/// else is found; otherwise what is found is read.
pub proof fn the_named_file_comes_first(
    options: AcceptOptions,
    named_exists: bool,
    found: Option<Seq<char>>,
    other: Option<Seq<char>>,
)
    ensures
        options.disabled ==> chosen_file(options, named_exists, found) == Ok::<
            Option<Seq<char>>,
            Seq<char>,
        >(None),
        !options.disabled && options.file is Some ==> chosen_file(options, named_exists, found)
            == chosen_file(options, named_exists, other),
        !options.disabled ==> (options.file matches Some(name) ==> (chosen_file(
            options,
            true,
            found,
        ) == Ok::<Option<Seq<char>>, Seq<char>>(Some(name@)) && (chosen_file(options, false, found)
            matches Err(e) && has_text(e, name@)))),
        !options.disabled && options.file is None ==> chosen_file(options, named_exists, found)
            == Ok::<Option<Seq<char>>, Seq<char>>(found),
{
    if let Some(name) = options.file {
        let told = "accept file not found: "@ + name@;
        assert(told =~= "accept file not found: "@ + name@ + Seq::<char>::empty());
        texts_are_found_where_they_stand(told, name@, "accept file not found: "@, Seq::empty());
    }
}

/// Of the places where a file is looked for, the first that is there decides.
pub proof fn the_first_place_decides(places: Seq<(String, bool)>, i: int)
    requires
        0 <= i < places.len(),
        forall|j: int| 0 <= j < i ==> !(#[trigger] places[j]).1,
    ensures
        places[i].1 ==> first_there(places, 0) == Some(places[i].0@),
        i == places.len() - 1 && !places[i].1 ==> first_there(places, 0) is None,
{
    lemma_first_there(places, 0, i);
}

proof fn lemma_first_there(places: Seq<(String, bool)>, from: int, i: int)
    requires
        0 <= from <= i < places.len(),
        forall|j: int| from <= j < i ==> !(#[trigger] places[j]).1,
    ensures
        places[i].1 ==> first_there(places, from) == Some(places[i].0@),
        i == places.len() - 1 && !places[i].1 ==> first_there(places, from) is None,
    decreases i - from,
{
    if from < i {
        assert(!places[from].1);
        lemma_first_there(places, from + 1, i);
    } else if !places[i].1 && i == places.len() - 1 {
        assert(first_there(places, i + 1) is None);
    }
}

/// The hash takes the bytes one after the other, so that what a text adds does not depend on what
/// stands before it but through the state; each byte is taken in before the state is multiplied.
pub proof fn hashes_go_byte_by_byte(state: u64, a: Seq<u8>, b: Seq<u8>, byte: u8)
    ensures
        fnv(state, a + b) == fnv(fnv(state, a), b),
        fnv(state, Seq::empty()) == state,
        fnv(state, seq![byte]) == (state ^ byte as u64).wrapping_mul(0x100_0000_01b3),
        OFFSET_BASIS == 0xcbf2_9ce4_8422_2325,
    decreases b.len(),
{
    if b.len() > 0 {
        hashes_go_byte_by_byte(state, a, b.drop_last(), byte);
        assert((a + b).drop_last() =~= a + b.drop_last());
        assert((a + b).last() == b.last());
    } else {
        assert(a + b =~= a);
    }
    assert(seq![byte].drop_last() =~= Seq::<u8>::empty());
    assert(fnv(state, seq![byte].drop_last()) == state);
}

/// A number in base sixteen: the digits of its sixteens, and behind them that of its ones, a letter
/// from ten on; as many digits as asked for.
pub proof fn hexadecimals_are_sixteens_and_ones(n: nat, ones: nat, width: nat)
    requires
        ones < 16,
    ensures
        hex(16 * n + ones, width + 1) == hex(n, width).push(
            if ones < 10 {
                (48 + ones) as char
            } else {
                (87 + ones) as char
            },
        ),
        hex(n, 0) == Seq::<char>::empty(),
        hex(n, width).len() == width,
    decreases width,
{
    assert((16 * n + ones) / 16 == n && (16 * n + ones) % 16 == ones);
    if width > 0 {
        hexadecimals_are_sixteens_and_ones(n / 16, 0, (width - 1) as nat);
    }
}

} // verus!
