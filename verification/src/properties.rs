//! What holds of the library as a whole.
use vstd::prelude::*;
use vstd::seq_lib::*;
use vstd::relations::*;

use crate::accept::{
    accepted_on, fires, fully_accepted, lapse, lapsed_entries, live_findings, signal_name, subject,
    with_acceptances, Signal,
};
use crate::baseline::{entered, entries_of, names_of, required_text, EntryModel, RawEntryModel};
use crate::expressions::{call_head, chain, leftmost, mock_construction, name_of};
use crate::mock_api::{among, stub_heads_are_no_mock_constructors, STUB_HEADS};
use crate::parser::{
    called_set, class_doubles, class_tests, function_behind, gathered, member_tests, module_tests,
    no_class, on_self, record_of, statement_tests, test_of, ClassModel, FileContext,
};
use crate::paths::{basename, lies_under};
use crate::ranking::{
    lemma_path_total, lemma_text_total, path_leq, ranked, ranking_orders_what_it_is_given, text_leq,
    top,
};
use crate::records::TestModel;
use crate::suspicion::{eligible, open_test, scored_tests, terms_of};
use crate::sut_calls::{
    call_summary, called_by_any, callers, dotted, head_of, in_project, resolved, tail_of,
    ImportModel,
};
use crate::syntax::{child_by_field, children, NodeModel};
use crate::text::{
    find, is_prefix, lemma_find, lemma_find_is, lemma_lt_total, lemma_lt_transitive, sorted_of,
    strictly_sorted, text_lt,
};
use crate::walker::{test_file_name, test_files_of, test_path};
use crate::workspace::{exact_members, listed_members, star_members};

verus! {

/// Accepting findings changes nothing about a test but the list of what was accepted on it: every
/// count, smell, score and signal stays as it was measured.
pub proof fn acceptance_changes_no_evidence(
    tests: Seq<TestModel>,
    entries: Seq<EntryModel>,
    i: int,
    signal: Signal,
)
    ensures
        (TestModel {
            accepted_signals: tests[i].accepted_signals,
            ..with_acceptances(tests, entries, i)
        }) == tests[i],
        fires(with_acceptances(tests, entries, i), signal) == fires(tests[i], signal),
        terms_of(with_acceptances(tests, entries, i)) == terms_of(tests[i]),
{
}

/// A test that no entry is about stays as it was.
pub proof fn acceptance_touches_only_named_tests(
    tests: Seq<TestModel>,
    entries: Seq<EntryModel>,
    i: int,
)
    requires
        forall|n: int|
            0 <= n < entries.len() ==> subject(tests, #[trigger] entries[n]) != Some(i),
    ensures
        with_acceptances(tests, entries, i) == tests[i],
{
    lemma_accepted_on_none(tests, entries, i, entries.len() as int);
}

/// An entry that lapsed accepts nothing: where all entries about a test lapsed, it stays as it
/// was.
pub proof fn lapsed_entries_accept_nothing(
    tests: Seq<TestModel>,
    entries: Seq<EntryModel>,
    i: int,
)
    requires
        forall|n: int|
            0 <= n < entries.len() && subject(tests, #[trigger] entries[n]) == Some(i)
                ==> lapse(tests, entries[n]) is Some,
    ensures
        with_acceptances(tests, entries, i) == tests[i],
{
    lemma_accepted_on_none(tests, entries, i, entries.len() as int);
}

proof fn lemma_accepted_on_none(
    tests: Seq<TestModel>,
    entries: Seq<EntryModel>,
    i: int,
    n: int,
)
    requires
        0 <= n <= entries.len(),
        forall|k: int|
            0 <= k < entries.len() ==> subject(tests, #[trigger] entries[k]) != Some(i) || lapse(
                tests,
                entries[k],
            ) is Some,
    ensures
        accepted_on(tests, entries, i, n) == Seq::<Seq<char>>::empty(),
    decreases n,
{
    if n > 0 {
        lemma_accepted_on_none(tests, entries, i, n - 1);
    }
}

/// Every entry is reported exactly once: as a finding or as stale.
pub proof fn every_entry_is_reported_once(tests: Seq<TestModel>, entries: Seq<EntryModel>, n: int)
    requires
        0 <= n <= entries.len(),
    ensures
        live_findings(tests, entries, n).len() + lapsed_entries(tests, entries, n).len() == n,
    decreases n,
{
    if n > 0 {
        every_entry_is_reported_once(tests, entries, n - 1);
    }
}

/// A signal that fires and was not accepted keeps a test on the list that shortlists are taken
/// from; and so does a test in which nothing was found.
pub proof fn unaccepted_signals_keep_a_test_listed(tests: Seq<TestModel>, i: int, signal: Signal)
    requires
        0 <= i < tests.len(),
        (fires(tests[i], signal) && !tests[i].accepted_signals.contains(signal_name(signal))) || (
        forall|s: Signal| !fires(tests[i], s)),
    ensures
        eligible(tests, false).contains(tests[i]),
{
    broadcast use group_filter_ensures;

    let p = open_test();
    assert(p(tests[i]));
    assert(tests.contains(tests[i]));
}

/// Without an acceptance nothing is held back.
pub proof fn without_acceptances_nothing_is_held_back(tests: Seq<TestModel>)
    requires
        forall|i: int|
            0 <= i < tests.len() ==> (#[trigger] tests[i]).accepted_signals.len() == 0,
    ensures
        eligible(tests, false) == eligible(tests, true),
    decreases tests.len(),
{
    reveal(Seq::filter);
    if tests.len() > 0 {
        let front = tests.drop_last();
        assert forall|i: int| 0 <= i < front.len() implies (#[trigger] front[i]).accepted_signals.len()
            == 0 by {
            assert(front[i] == tests[i]);
        }
        without_acceptances_nothing_is_held_back(front);
        let p = open_test();
        let last = tests.last();
        assert(last == tests[tests.len() - 1]);
        assert(!fully_accepted(last));
        assert(tests =~= front.push(last));
    } else {
        assert(eligible(tests, false) =~= tests);
    }
}

/// One of the entries is in effect on test `i` and accepts the signal with the name `name`.
pub open spec fn accepted_by_entry(
    tests: Seq<TestModel>,
    entries: Seq<EntryModel>,
    i: int,
    name: Seq<char>,
) -> bool {
    exists|n: int|
        0 <= n < entries.len() && lapse(tests, #[trigger] entries[n]) is None && subject(
            tests,
            entries[n],
        ) == Some(i) && signal_name(entries[n].signal) == name
}

proof fn lemma_accepted_on(
    tests: Seq<TestModel>,
    entries: Seq<EntryModel>,
    i: int,
    n: int,
    name: Seq<char>,
)
    requires
        0 <= n <= entries.len(),
    ensures
        accepted_on(tests, entries, i, n).contains(name) == accepted_by_entry(
            tests,
            entries.take(n),
            i,
            name,
        ),
    decreases n,
{
    let some = entries.take(n);
    if n == 0 {
        assert(!accepted_on(tests, entries, i, n).contains(name));
    } else {
        let fewer = entries.take(n - 1);
        let before = accepted_on(tests, entries, i, n - 1);
        let after = accepted_on(tests, entries, i, n);
        lemma_accepted_on(tests, entries, i, n - 1, name);
        assert(some[n - 1] == entries[n - 1]);
        if accepted_by_entry(tests, fewer, i, name) {
            let k = choose|k: int|
                0 <= k < fewer.len() && lapse(tests, #[trigger] fewer[k]) is None && subject(
                    tests,
                    fewer[k],
                ) == Some(i) && signal_name(fewer[k].signal) == name;
            assert(some[k] == fewer[k]);
            let j = choose|j: int| 0 <= j < before.len() && before[j] == name;
            assert(after[j] == name);
        }
        if after.contains(name) {
            let j = choose|j: int| 0 <= j < after.len() && after[j] == name;
            if j < before.len() {
                assert(before[j] == name);
            }
        }
        if accepted_by_entry(tests, some, i, name) {
            let k = choose|k: int|
                0 <= k < some.len() && lapse(tests, #[trigger] some[k]) is None && subject(
                    tests,
                    some[k],
                ) == Some(i) && signal_name(some[k].signal) == name;
            if k < n - 1 {
                assert(fewer[k] == some[k]);
            } else {
                assert(after.last() == name);
            }
        }
    }
}

/// What is accepted on a test after a run is what was before and what the entries in effect on it
/// name, and it stands in order where any entry is in effect.
pub proof fn accepted_signals_are_what_entries_name(
    tests: Seq<TestModel>,
    entries: Seq<EntryModel>,
    i: int,
    name: Seq<char>,
)
    ensures
        with_acceptances(tests, entries, i).accepted_signals.contains(name) == (
        tests[i].accepted_signals.contains(name) || accepted_by_entry(tests, entries, i, name)),
        accepted_by_entry(tests, entries, i, name) ==> sorted_by(
            with_acceptances(tests, entries, i).accepted_signals,
            text_leq(),
        ),
{
    broadcast use group_to_multiset_ensures;

    let n = entries.len() as int;
    lemma_accepted_on(tests, entries, i, n, name);
    assert(entries.take(n) =~= entries);
    let before = tests[i].accepted_signals;
    let added = accepted_on(tests, entries, i, n);
    let all = before + added;
    lemma_text_total();
    all.lemma_sort_by_ensures(text_leq());
    let order = all.sort_by(text_leq());
    assert(order.contains(name) == (order.to_multiset().count(name) > 0));
    assert(all.contains(name) == (all.to_multiset().count(name) > 0));
    assert(all.contains(name) == (before.contains(name) || added.contains(name))) by {
        if all.contains(name) {
            let k = choose|k: int| 0 <= k < all.len() && all[k] == name;
            if k < before.len() {
                assert(before[k] == name);
            } else {
                assert(added[k - before.len()] == name);
            }
        }
        if before.contains(name) {
            let k = choose|k: int| 0 <= k < before.len() && before[k] == name;
            assert(all[k] == name);
        }
        if added.contains(name) {
            let k = choose|k: int| 0 <= k < added.len() && added[k] == name;
            assert(all[before.len() + k] == name);
        }
    }
}

/// A test on which something was found, and on which every signal that fires is accepted by an
/// entry in effect, is held back from the shortlist; one signal that none accepts brings it back.
pub proof fn tests_accepted_in_full_are_held_back(
    tests: Seq<TestModel>,
    entries: Seq<EntryModel>,
    i: int,
)
    requires
        tests[i].accepted_signals.len() == 0,
        exists|signal: Signal| fires(tests[i], signal),
    ensures
        fully_accepted(with_acceptances(tests, entries, i)) == (forall|signal: Signal|
            #[trigger] fires(tests[i], signal) ==> accepted_by_entry(
                tests,
                entries,
                i,
                signal_name(signal),
            )),
{
    let after = with_acceptances(tests, entries, i);
    assert forall|signal: Signal| #[trigger] fires(after, signal) == fires(tests[i], signal) by {
        acceptance_changes_no_evidence(tests, entries, i, signal);
    }
    assert forall|signal: Signal|
        after.accepted_signals.contains(signal_name(signal)) == #[trigger] accepted_by_entry(
            tests,
            entries,
            i,
            signal_name(signal),
        ) by {
        accepted_signals_are_what_entries_name(tests, entries, i, signal_name(signal));
    }
    let found = choose|signal: Signal| fires(tests[i], signal);
    assert(fires(after, found));
    if fully_accepted(after) {
        assert forall|signal: Signal| #[trigger] fires(tests[i], signal) implies accepted_by_entry(
            tests,
            entries,
            i,
            signal_name(signal),
        ) by {
            assert(fires(after, signal));
        }
    }
}

/// An entry that records a fingerprint is in effect only on a test with that fingerprint; one that
/// records none is in effect wherever its signal fires on its test, whatever the test says now.
pub proof fn pinned_entries_follow_the_content(tests: Seq<TestModel>, entry: EntryModel, i: int)
    requires
        subject(tests, entry) == Some(i),
    ensures
        entry.fingerprint is None ==> (lapse(tests, entry) is None == fires(
            tests[i],
            entry.signal,
        )),
        entry.fingerprint is Some ==> (lapse(tests, entry) is None == (entry.fingerprint
            == tests[i].fingerprint && fires(tests[i], entry.signal))),
{
}

/// A smaller cap on a shortlist gives the beginning of the longer one; a cap of zero gives nothing.
pub proof fn smaller_caps_give_beginnings(items: Seq<(u64, Seq<char>)>, n: nat, m: nat)
    requires
        n <= m,
    ensures
        top(items, n).is_prefix_of(top(items, m)),
        top(items, 0).len() == 0,
{
}

/// A shortlist names only tests that are there, and unless accepted ones are asked for none that
/// was accepted in full; it is no longer than asked for.
pub proof fn shortlists_hold_open_tests(
    tests: Seq<TestModel>,
    include_accepted: bool,
    n: nat,
    k: int,
)
    requires
        0 <= k < top(scored_tests(eligible(tests, include_accepted)), n).len(),
    ensures
        top(scored_tests(eligible(tests, include_accepted)), n).len() <= n,
        exists|i: int|
            0 <= i < tests.len() && (#[trigger] tests[i]).nodeid == top(
                scored_tests(eligible(tests, include_accepted)),
                n,
            )[k] && (include_accepted || !fully_accepted(tests[i])),
{
    broadcast use {group_filter_ensures, group_to_multiset_ensures};

    let pool = eligible(tests, include_accepted);
    let items = scored_tests(pool);
    ranking_orders_what_it_is_given(items, n);
    let order = ranked(items);
    let entry = order[k];
    assert(order.contains(entry));
    assert(order.to_multiset().count(entry) > 0);
    assert(items.contains(entry));
    let j = choose|j: int| 0 <= j < items.len() && items[j] == entry;
    assert(pool[j].nodeid == entry.1);
    let p = open_test();
    if include_accepted {
        assert(tests[j].nodeid == entry.1);
    } else {
        assert(pool.contains(pool[j]));
        tests.lemma_filter_contains_rev(p, pool[j]);
        assert(p(pool[j]));
        assert(tests.contains(pool[j]));
        let i = choose|i: int| 0 <= i < tests.len() && tests[i] == pool[j];
        assert(tests[i].nodeid == entry.1);
    }
}

/// The assertionless term of the score and the assertionless signal agree: the score counts a test
/// as verifying nothing exactly where the signal fires. No smell bears the signal's name.
pub proof fn score_and_signal_agree_on_zero_asserts(test: TestModel)
    requires
        forall|i: int|
            0 <= i < test.smell_hits.len() ==> (#[trigger] test.smell_hits[i]).category
                != signal_name(Signal::ZeroAsserts),
    ensures
        terms_of(test).zero_asserts == fires(test, Signal::ZeroAsserts),
        test.external_verification_count > 0 ==> !terms_of(test).zero_asserts,
{
}

/// The head of a dotted chain is that of the module it begins with.
proof fn lemma_head_of_dotted(module: Seq<char>, rest: Option<Seq<char>>)
    ensures
        head_of(dotted(module, rest)) == head_of(module),
{
    if let Some(t) = rest {
        reveal_strlit(".");
        let whole = module + "."@ + t;
        lemma_find(module, '.', 0);
        let e = find(module, '.', 0);
        assert forall|i: int| 0 <= i < e implies whole[i] != '.' by {
            assert(whole[i] == module[i]);
        }
        if e < module.len() {
            assert(whole[e] == module[e]);
        } else {
            assert(whole[e] == '.');
        }
        lemma_find_is(whole, '.', 0, e);
        assert(whole.subrange(0, e) =~= module.subrange(0, e));
    }
}

/// Every name that a call resolves to lies in one of the project's packages; a chain on `self`
/// resolves to nothing.
pub proof fn resolved_names_lie_in_the_project(
    raw: Seq<char>,
    imports: ImportModel,
    packages: Set<Seq<char>>,
)
    ensures
        resolved(raw, imports, packages) matches Some(name) ==> packages.contains(head_of(name)),
        raw == "self"@ || is_prefix("self."@, raw) ==> resolved(raw, imports, packages) is None,
{
    broadcast use group_filter_ensures;

    let head = head_of(raw);
    if imports.aliases.contains_key(head) {
        lemma_head_of_dotted(imports.aliases[head], tail_of(raw));
    }
    let p = in_project(packages);
    let stars = sorted_of(imports.star_sources).filter(p);
    if stars.len() > 0 {
        assert(stars.contains(stars[0]));
        assert(p(stars[0]));
        lemma_head_of_dotted(stars[0], Some(raw));
    }
}

/// Every member of a workspace lies under its root.
pub proof fn members_lie_under_the_root(
    root: Seq<char>,
    pattern: Seq<char>,
    one: Option<(Seq<char>, bool)>,
    many: Seq<(Seq<char>, bool)>,
)
    ensures
        exact_members(root, pattern, one) matches Ok(v) ==> forall|i: int|
            0 <= i < v.len() ==> lies_under(#[trigger] v[i], root),
        star_members(root, pattern, many) matches Ok(v) ==> forall|i: int|
            0 <= i < v.len() ==> lies_under(#[trigger] v[i], root),
{
    broadcast use group_to_multiset_ensures;

    lemma_listed_lies_under(root, pattern, many, many.len() as int);
    if let Ok(v) = listed_members(root, pattern, many, many.len() as int) {
        let leq = path_leq();
        lemma_path_total();
        v.lemma_sort_by_ensures(leq);
        let w = v.sort_by(leq);
        assert forall|i: int| 0 <= i < w.len() implies lies_under(#[trigger] w[i], root) by {
            assert(w.contains(w[i]));
            assert(v.contains(w[i]));
            let j = choose|j: int| 0 <= j < v.len() && v[j] == w[i];
            assert(lies_under(v[j], root));
        }
    }
}

proof fn lemma_listed_lies_under(
    root: Seq<char>,
    prefix: Seq<char>,
    found: Seq<(Seq<char>, bool)>,
    n: int,
)
    ensures
        listed_members(root, prefix, found, n) matches Ok(v) ==> forall|i: int|
            0 <= i < v.len() ==> lies_under(#[trigger] v[i], root),
    decreases n,
{
    if n > 0 {
        lemma_listed_lies_under(root, prefix, found, n - 1);
    }
}

/// No two entries of a list are for the same signal on the same test.
pub open spec fn entries_distinct(entries: Seq<EntryModel>) -> bool {
    forall|i: int, j: int|
        0 <= i < j < entries.len() ==> !((#[trigger] entries[i]).test == (
        #[trigger] entries[j]).test && entries[i].signal == entries[j].signal)
}

/// Every entry of a list names a test and gives a reason.
pub open spec fn entries_complete(entries: Seq<EntryModel>) -> bool {
    forall|i: int|
        0 <= i < entries.len() ==> (#[trigger] entries[i]).test.len() > 0 && entries[i].reason.len()
            > 0
}

proof fn lemma_entered(
    before: Seq<EntryModel>,
    raw: RawEntryModel,
    test: Seq<char>,
    reason: Seq<char>,
    names: Seq<Seq<char>>,
    n: int,
    path: Seq<char>,
    position: nat,
)
    requires
        entries_distinct(before),
        entries_complete(before),
        test.len() > 0,
        reason.len() > 0,
    ensures
        entered(before, raw, test, reason, names, n, path, position) matches Ok(v) ==> {
            &&& entries_distinct(v)
            &&& entries_complete(v)
        },
    decreases n,
{
    if n > 0 {
        lemma_entered(before, raw, test, reason, names, n - 1, path, position);
    }
}

/// A file that is accepted records no acceptance twice, and none without a test and a reason.
pub proof fn accepted_files_hold_each_acceptance_once(
    blocks: Seq<RawEntryModel>,
    n: int,
    path: Seq<char>,
)
    ensures
        entries_of(blocks, n, path) matches Ok(v) ==> {
            &&& entries_distinct(v)
            &&& entries_complete(v)
        },
    decreases n,
{
    if n > 0 {
        accepted_files_hold_each_acceptance_once(blocks, n - 1, path);
        if let Ok(before) = entries_of(blocks, n - 1, path) {
            let raw = blocks[n - 1];
            if let Ok(test) = required_text(raw.test, "test"@, path, n as nat) {
                if let Ok(reason) = required_text(raw.reason, "reason"@, path, n as nat) {
                    if let Ok(names) = names_of(raw, path, n as nat, test) {
                        lemma_entered(
                            before,
                            raw,
                            test,
                            reason,
                            names,
                            names.len() as int,
                            path,
                            n as nat,
                        );
                    }
                }
            }
        }
    }
}

/// A record of a test says that it asserts on mocks alone only if it asserts at all; its lines of
/// setup are shared out among all its assertions, where it has any; its identity begins with its
/// file.
pub open spec fn sound_record(test: TestModel, file: Seq<char>) -> bool {
    &&& test.only_asserts_on_mock ==> test.assertion_count > 0
    &&& test.file == file
    &&& is_prefix(file + "::"@, test.nodeid)
    &&& test.smell_hits.len() == 0
    &&& test.accepted_signals.len() == 0
    &&& test.setup_to_assertion_ratio.assertions > 0
    &&& test.assertion_count > 0 ==> test.setup_to_assertion_ratio.assertions
        == test.assertion_count
}

/// Every test of a list has a sound record.
pub open spec fn sound_records(tests: Seq<(TestModel, u64)>, file: Seq<char>) -> bool {
    forall|i: int| 0 <= i < tests.len() ==> sound_record((#[trigger] tests[i]).0, file)
}

proof fn lemma_sound_record(
    t: Seq<NodeModel>,
    func: int,
    decorated: Option<int>,
    name: Seq<char>,
    class: ClassModel,
    context: FileContext,
)
    ensures
        sound_record(record_of(t, func, decorated, name, class, context).0, context.file),
{
    let record = record_of(t, func, decorated, name, class, context).0;
    let start = context.file + "::"@;
    assert(record.nodeid.subrange(0, start.len() as int) =~= start);
}

proof fn lemma_gathered_sound(
    items: Seq<int>,
    f: spec_fn(int) -> Seq<(TestModel, u64)>,
    file: Seq<char>,
)
    requires
        forall|k: int| sound_records(#[trigger] f(k), file),
    ensures
        sound_records(gathered(items, f), file),
    decreases items.len(),
{
    if items.len() > 0 {
        lemma_gathered_sound(items.drop_last(), f, file);
        assert(sound_records(f(items.last()), file));
    }
}

proof fn lemma_test_of_sound(
    t: Seq<NodeModel>,
    func: int,
    decorated: Option<int>,
    class: ClassModel,
    context: FileContext,
)
    ensures
        sound_records(test_of(t, func, decorated, class, context), context.file),
{
    if let Some(name) = name_of(t, func) {
        lemma_sound_record(t, func, decorated, name, class, context);
    }
}

proof fn lemma_class_tests_sound(
    t: Seq<NodeModel>,
    class_node: int,
    decorated: Option<int>,
    context: FileContext,
)
    ensures
        sound_records(class_tests(t, class_node, decorated, context), context.file),
{
    if let (Some(name), Some(body)) = (
        name_of(t, class_node),
        child_by_field(t, class_node, "body"@),
    ) {
        let class = ClassModel {
            name: Some(name),
            shadows: class_doubles(t, body, decorated, context.imports),
        };
        let f = member_tests(t, class, context);
        assert forall|k: int| sound_records(#[trigger] f(k), context.file) by {
            if let Some(func) = function_behind(t, k) {
                lemma_test_of_sound(
                    t,
                    func,
                    if func == k {
                        None
                    } else {
                        Some(k)
                    },
                    class,
                    context,
                );
            }
        }
        lemma_gathered_sound(children(t, body), f, context.file);
    }
}

/// Every test that is read off a file has a sound record, whatever the tree.
pub proof fn records_are_sound(t: Seq<NodeModel>, context: FileContext)
    ensures
        sound_records(module_tests(t, context), context.file),
{
    let f = statement_tests(t, context);
    assert forall|k: int| sound_records(#[trigger] f(k), context.file) by {
        lemma_test_of_sound(t, k, None, no_class(), context);
        lemma_class_tests_sound(t, k, None, context);
        if let Some(inner) = child_by_field(t, k, "definition"@) {
            lemma_test_of_sound(t, inner, Some(k), no_class(), context);
            lemma_class_tests_sound(t, inner, Some(k), context);
        }
    }
    lemma_gathered_sound(children(t, 0), f, context.file);
}

/// Every finite set of names can be put in order.
pub proof fn finite_sets_can_be_ordered(set: Set<Seq<char>>)
    requires
        set.finite(),
    ensures
        strictly_sorted(sorted_of(set)),
        sorted_of(set).to_set() == set,
{
    let v = lemma_ordered_list(set);
    assert(strictly_sorted(v) && v.to_set() == set);
}

proof fn lemma_ordered_list(set: Set<Seq<char>>) -> (v: Seq<Seq<char>>)
    requires
        set.finite(),
    ensures
        strictly_sorted(v),
        v.to_set() == set,
    decreases set.len(),
{
    if set.len() == 0 {
        let v = Seq::<Seq<char>>::empty();
        assert(v.to_set() =~= set);
        v
    } else {
        let x = set.choose();
        assert(set.contains(x));
        let rest = set.remove(x);
        let w = lemma_ordered_list(rest);
        assert(!w.contains(x)) by {
            if w.contains(x) {
                assert(w.to_set().contains(x));
            }
        }
        let v = lemma_insert_ordered(w, x, 0);
        assert(v.to_set() =~= set) by {
            assert forall|s: Seq<char>| v.to_set().contains(s) == set.contains(s) by {
                assert(w.to_set().contains(s) == w.contains(s));
                assert(v.to_set().contains(s) == v.contains(s));
            }
        }
        v
    }
}

proof fn lemma_insert_ordered(w: Seq<Seq<char>>, x: Seq<char>, at: int) -> (v: Seq<Seq<char>>)
    requires
        strictly_sorted(w),
        !w.contains(x),
        0 <= at <= w.len(),
        forall|k: int| 0 <= k < at ==> text_lt(#[trigger] w[k], x),
    ensures
        strictly_sorted(v),
        forall|s: Seq<char>| #[trigger] v.contains(s) == (w.contains(s) || s == x),
    decreases w.len() - at,
{
    if at < w.len() && text_lt(w[at], x) {
        lemma_insert_ordered(w, x, at + 1)
    } else {
        let v = w.insert(at, x);
        if at < w.len() {
            assert(w.contains(w[at]));
            lemma_lt_total(w[at], x);
        }
        assert forall|k: int| at <= k < w.len() implies text_lt(x, #[trigger] w[k]) by {
            if k > at {
                lemma_lt_transitive(x, w[at], w[k]);
            }
        }
        assert forall|i: int, j: int| 0 <= i < j < v.len() implies text_lt(
            #[trigger] v[i],
            #[trigger] v[j],
        ) by {
            let a = if i < at {
                i
            } else {
                i - 1
            };
            let b = if j < at {
                j
            } else {
                j - 1
            };
            if i != at && j != at {
                assert(v[i] == w[a] && v[j] == w[b]);
            } else if i == at {
                assert(v[j] == w[b]);
            } else {
                assert(v[i] == w[a]);
            }
        }
        assert forall|s: Seq<char>| #[trigger] v.contains(s) == (w.contains(s) || s == x) by {
            if w.contains(s) {
                let k = choose|k: int| 0 <= k < w.len() && w[k] == s;
                assert(v[if k < at {
                    k
                } else {
                    k + 1
                }] == s);
            }
            assert(v[at] == x);
            if v.contains(s) && s != x {
                let k = choose|k: int| 0 <= k < v.len() && v[k] == s;
                assert(w[if k < at {
                    k
                } else {
                    k - 1
                }] == s);
            }
        }
        v
    }
}

/// The chains that a list of calls call are finitely many.
pub proof fn lemma_called_set_finite(t: Seq<NodeModel>, calls: Seq<int>)
    ensures
        called_set(t, calls).finite(),
    decreases calls.len(),
{
    if calls.len() == 0 {
        assert(called_set(t, calls) =~= Set::<Seq<char>>::empty());
    } else {
        let front = calls.drop_last();
        lemma_called_set_finite(t, front);
        let bound = match call_head(t, calls.last()) {
            Some(s) => called_set(t, front).insert(s),
            None => called_set(t, front),
        };
        assert forall|s: Seq<char>| called_set(t, calls).contains(s) implies bound.contains(s) by {
            let n = choose|n: int|
                0 <= n < calls.len() && call_head(t, #[trigger] calls[n]) == Some(s);
            if n < front.len() {
                assert(front[n] == calls[n]);
            }
        }
        vstd::set_lib::lemma_set_subset_finite(bound, called_set(t, calls));
    }
}

/// The names that a test calls are listed in order, each once, and none of them is on `self`.
pub proof fn called_names_are_ordered(t: Seq<NodeModel>, calls: Seq<int>)
    ensures
        strictly_sorted(sorted_of(called_set(t, calls))),
        forall|i: int|
            0 <= i < sorted_of(called_set(t, calls)).len() ==> !on_self(
                #[trigger] sorted_of(called_set(t, calls))[i],
            ),
{
    let set = called_set(t, calls);
    lemma_called_set_finite(t, calls);
    finite_sets_can_be_ordered(set);
    let v = sorted_of(set);
    assert forall|i: int| 0 <= i < v.len() implies !on_self(#[trigger] v[i]) by {
        assert(v.to_set().contains(v[i]));
    }
}

pub proof fn lemma_callers_finite(tests: Seq<TestModel>, name: Seq<char>)
    ensures
        callers(tests, name).finite(),
    decreases tests.len(),
{
    if tests.len() == 0 {
        assert(callers(tests, name) =~= Set::<Seq<char>>::empty());
    } else {
        let front = tests.drop_last();
        lemma_callers_finite(front, name);
        let bound = callers(front, name).insert(tests.last().nodeid);
        assert forall|s: Seq<char>| callers(tests, name).contains(s) implies bound.contains(s) by {
            let n = choose|n: int|
                0 <= n < tests.len() && (#[trigger] tests[n]).nodeid == s
                    && tests[n].called_names.contains(name);
            if n < front.len() {
                assert(front[n] == tests[n]);
            }
        }
        vstd::set_lib::lemma_set_subset_finite(bound, callers(tests, name));
    }
}

pub proof fn lemma_called_by_any_finite(tests: Seq<TestModel>)
    ensures
        called_by_any(tests).finite(),
    decreases tests.len(),
{
    if tests.len() == 0 {
        assert(called_by_any(tests) =~= Set::<Seq<char>>::empty());
    } else {
        let front = tests.drop_last();
        lemma_called_by_any_finite(front);
        let own = tests.last().called_names.to_set();
        seq_to_set_is_finite(tests.last().called_names);
        let bound = called_by_any(front).union(own);
        assert forall|s: Seq<char>| called_by_any(tests).contains(s) implies bound.contains(s) by {
            let n = choose|n: int|
                0 <= n < tests.len() && (#[trigger] tests[n]).called_names.contains(s);
            if n < front.len() {
                assert(front[n] == tests[n]);
            } else {
                assert(own.contains(s));
            }
        }
        vstd::set_lib::lemma_set_union_finite_iff(called_by_any(front), own);
        vstd::set_lib::lemma_set_subset_finite(bound, called_by_any(tests));
    }
}

/// The summary of calls lists every called name once, in order, with its callers, each once, in
/// order; each name has a caller, and at most twenty names are called the most called.
pub proof fn call_summaries_are_ordered(tests: Seq<TestModel>, i: int)
    requires
        0 <= i < call_summary(tests).by_name.len(),
    ensures
        strictly_sorted(
            Seq::new(
                call_summary(tests).by_name.len(),
                |k: int| call_summary(tests).by_name[k].name,
            ),
        ),
        called_by_any(tests).contains(call_summary(tests).by_name[i].name),
        strictly_sorted(call_summary(tests).by_name[i].test_nodeids),
        call_summary(tests).by_name[i].test_nodeids.to_set() == callers(
            tests,
            call_summary(tests).by_name[i].name,
        ),
        call_summary(tests).by_name[i].test_nodeids.len() > 0,
        call_summary(tests).top_called.len() <= 20,
{
    let summary = call_summary(tests);
    let names = sorted_of(called_by_any(tests));
    lemma_called_by_any_finite(tests);
    finite_sets_can_be_ordered(called_by_any(tests));
    assert(Seq::new(summary.by_name.len(), |k: int| summary.by_name[k].name) =~= names);
    assert(names.to_set().contains(names[i]));
    lemma_callers_finite(tests, names[i]);
    finite_sets_can_be_ordered(callers(tests, names[i]));
    let n = choose|n: int|
        0 <= n < tests.len() && (#[trigger] tests[n]).called_names.contains(names[i]);
    assert(callers(tests, names[i]).contains(tests[n].nodeid));
    let ids = sorted_of(callers(tests, names[i]));
    assert(ids.to_set().contains(tests[n].nodeid));
    let items = Seq::new(
        summary.by_name.len(),
        |k: int| (summary.by_name[k].test_function_count, summary.by_name[k].name),
    );
    ranking_orders_what_it_is_given(items, 20);
}

/// A filter keeps of equal collections equal ones.
proof fn lemma_filter_multiset(a: Seq<Seq<char>>, p: spec_fn(Seq<char>) -> bool, x: Seq<char>)
    ensures
        a.filter(p).to_multiset().count(x) == if p(x) {
            a.to_multiset().count(x)
        } else {
            0
        },
    decreases a.len(),
{
    broadcast use group_to_multiset_ensures;

    reveal(Seq::filter);
    if a.len() == 0 {
        assert(a.filter(p) =~= a);
    } else {
        lemma_filter_multiset(a.drop_last(), p, x);
        assert(a =~= a.drop_last().push(a.last()));
        to_multiset_build(a.drop_last(), a.last());
        if p(a.last()) {
            to_multiset_build(a.drop_last().filter(p), a.last());
        }
    }
}

/// The test files that are found, and their order, do not depend on the order in which a walk met
/// them; every one of them is a test file that was met, and every test file that was met is one of
/// them.
pub proof fn discovery_does_not_depend_on_the_walk(a: Seq<Seq<char>>, b: Seq<Seq<char>>)
    requires
        a.to_multiset() == b.to_multiset(),
    ensures
        test_files_of(a) == test_files_of(b),
        sorted_by(test_files_of(a), path_leq()),
        forall|path: Seq<char>|
            #[trigger] test_files_of(a).contains(path) == (a.contains(path) && test_file_name(
                basename(path),
            )),
{
    broadcast use group_to_multiset_ensures;

    let p = test_path();
    let leq = path_leq();
    lemma_path_total();
    let x = a.filter(p);
    let y = b.filter(p);
    assert(x.to_multiset() =~= y.to_multiset()) by {
        assert forall|v: Seq<char>| x.to_multiset().count(v) == y.to_multiset().count(v) by {
            lemma_filter_multiset(a, p, v);
            lemma_filter_multiset(b, p, v);
        }
    }
    x.lemma_sort_by_ensures(leq);
    y.lemma_sort_by_ensures(leq);
    lemma_sorted_unique(x.sort_by(leq), y.sort_by(leq), leq);
    assert forall|path: Seq<char>| #[trigger] test_files_of(a).contains(path) == (a.contains(path)
        && test_file_name(basename(path))) by {
        lemma_filter_multiset(a, p, path);
        assert(test_files_of(a).contains(path) == (x.to_multiset().count(path) > 0));
        assert(a.contains(path) == (a.to_multiset().count(path) > 0));
    }
}

/// The leftmost identifier of a dotted chain is how the chain begins.
proof fn lemma_chain_begins(t: Seq<NodeModel>, i: int)
    requires
        chain(t, i) is Some,
    ensures
        leftmost(t, i) is Some,
        is_prefix(leftmost(t, i)->0, chain(t, i)->0),
    decreases t.len() - i,
{
    if t[i].kind == "identifier"@ {
        let c = chain(t, i)->0;
        assert(c.subrange(0, c.len() as int) =~= c);
    } else {
        let object = child_by_field(t, i, "object"@)->0;
        lemma_chain_begins(t, object);
        let left = chain(t, object)->0;
        let whole = chain(t, i)->0;
        let head = leftmost(t, object)->0;
        assert(whole.subrange(0, head.len() as int) =~= left.subrange(0, head.len() as int));
    }
}

/// A call by which a fixture rewires the system under test is never also counted as the
/// construction of a mock.
pub proof fn stub_calls_construct_no_mocks(t: Seq<NodeModel>, call: int)
    requires
        call_head(t, call) matches Some(head) && among(STUB_HEADS@, head),
    ensures
        !mock_construction(t, call),
{
    let head = call_head(t, call)->0;
    let f = child_by_field(t, call, "function"@)->0;
    stub_heads_are_no_mock_constructors(head);
    lemma_chain_begins(t, f);
    let first = leftmost(t, f)->0;
    reveal_strlit("monkeypatch.setattr");
    reveal_strlit("monkeypatch.setenv");
    reveal_strlit("monkeypatch.delattr");
    reveal_strlit("monkeypatch.delenv");
    reveal_strlit("monkeypatch.context");
    reveal_strlit("monkeypatch.syspath_prepend");
    reveal_strlit("monkeypatch.chdir");
    reveal_strlit("mocker.patch");
    reveal_strlit("mocker.patch.object");
    reveal_strlit("mocker.patch.dict");
    reveal_strlit("mocker.patch.multiple");
    reveal_strlit("mocker.spy");
    reveal_strlit("mocker.stub");
    reveal_strlit("mocker.MagicMock");
    assert(head[0] == 'm');
    reveal_strlit("Mock");
    reveal_strlit("MagicMock");
    reveal_strlit("AsyncMock");
    reveal_strlit("create_autospec");
    reveal_strlit("patch");
    if first.len() > 0 {
        assert(head.subrange(0, first.len() as int)[0] == head[0]);
        assert(first[0] == 'm');
    }
}

} // verus!
