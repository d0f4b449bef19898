//! What holds of a file of acceptances as it is read.
use vstd::prelude::*;

use crate::accept::{all_signal_names, signal_named};
use crate::baseline::{
    block_entered, declared, entered, entries_of, entry_label, names_of, no_signal, parsed_baseline,
    quoted_text, raw_baseline, raw_entries, raw_entry, recorded, required_text, stray_from,
    validated, EntryModel, RawBaselineModel, RawEntryModel, BASELINE_MEMBERS, ENTRY_MEMBERS,
};
use crate::document::{
    all_texts, entry_from, list_member, text_member, texts_of, toml_document, ItemModel,
};
use crate::laws::texts::texts_are_found_where_they_stand;
use crate::mock_api::among;
use crate::numerals::has_text;
use crate::text::{decimal, is_prefix, trim};

verus! {

/// A text that has to be there is taken without the white space around it, and refused exactly where
/// nothing is left of it.
pub proof fn required_texts_are_trimmed(
    value: Option<Seq<char>>,
    field: Seq<char>,
    path: Seq<char>,
    position: nat,
)
    ensures
        required_text(value, field, path, position) is Ok <==> value is Some && trim(value->0).len() > 0,
        required_text(value, field, path, position) matches Ok(text) ==> text == trim(value->0),
        required_text(value, field, path, position) matches Err(e) ==> is_prefix(
            entry_label(path, position),
            e,
        ) && has_text(e, field),
{
    let label = entry_label(path, position);
    let tail = "`; every acceptance must record one"@;
    let empty = " has an empty `"@;
    let missing = " is missing `"@;
    texts_are_found_where_they_stand(field, field, label + empty, tail);
    texts_are_found_where_they_stand(field, field, label + missing, tail);
    lemma_begins(label, empty + field + tail);
    lemma_begins(label, missing + field + tail);
    assert(label + empty + field + tail =~= label + (empty + field + tail));
    assert(label + missing + field + tail =~= label + (missing + field + tail));
}

proof fn lemma_begins(a: Seq<char>, b: Seq<char>)
    ensures
        is_prefix(a, a + b),
{
    assert((a + b).subrange(0, a.len() as int) =~= a);
}

/// An entry is named in messages by the file and its place in it, counted from one.
pub proof fn entries_are_named_by_their_place(path: Seq<char>, position: nat)
    ensures
        entry_label(path, position) == path + ": accept entry "@ + decimal(position),
{
}

/// An entry names its signals in one of two ways, and not in both: one, or a list that is not empty.
/// The names are taken in their order, without the white space around them.
pub proof fn signals_are_named_in_one_way(
    raw: RawEntryModel,
    path: Seq<char>,
    position: nat,
    test: Seq<char>,
    i: int,
)
    ensures
        names_of(raw, path, position, test) is Ok <==> {
            ||| raw.signal is Some && raw.signals is None
            ||| raw.signal is None && raw.signals is Some && raw.signals->0.len() > 0
        },
        names_of(raw, path, position, test) matches Ok(names) ==> {
            &&& raw.signal matches Some(one) ==> names.len() == 1 && names[0] == trim(one)
            &&& raw.signals matches Some(many) ==> names.len() == many.len() && (0 <= i < many.len()
                ==> names[i] == trim(many[i]))
        },
{
}

/// What an entry enters: one acceptance for each of its names, in their order, all with its test,
/// its reason and its notes, behind those that were there. It is refused exactly where a name is
/// no signal's, stands in it twice, or is already recorded for the test.
pub proof fn entries_enter_each_of_their_names(
    before: Seq<EntryModel>,
    raw: RawEntryModel,
    test: Seq<char>,
    reason: Seq<char>,
    names: Seq<Seq<char>>,
    n: int,
    path: Seq<char>,
    position: nat,
)
    requires
        0 <= n <= names.len(),
    ensures
        entered(before, raw, test, reason, names, n, path, position) matches Ok(after) ==> {
            &&& after.len() == before.len() + n
            &&& after.subrange(0, before.len() as int) == before
            &&& forall|k: int|
                0 <= k < n ==> #[trigger] after[before.len() + k] == (EntryModel {
                    test,
                    signal: signal_named(names[k])->0,
                    reason,
                    reviewed: raw.reviewed,
                    fingerprint: raw.fingerprint,
                })
            &&& forall|k: int| 0 <= k < n ==> signal_named(#[trigger] names[k]) is Some
            &&& forall|k: int|
                0 <= k < n ==> !recorded(before, test, signal_named(#[trigger] names[k])->0)
            &&& forall|j: int, k: int|
                0 <= j < k < n ==> signal_named(#[trigger] names[j]) != signal_named(
                    #[trigger] names[k],
                )
        },
        entered(before, raw, test, reason, names, n, path, position) is Err ==> {
            ||| exists|k: int| 0 <= k < n && signal_named(#[trigger] names[k]) is None
            ||| exists|k: int|
                0 <= k < n && recorded(before, test, signal_named(#[trigger] names[k])->0)
            ||| exists|j: int, k: int|
                0 <= j < k < n && signal_named(#[trigger] names[j]) == signal_named(
                    #[trigger] names[k],
                )
        },
    decreases n,
{
    if n <= 0 {
        assert(before.subrange(0, before.len() as int) =~= before);
    } else {
        entries_enter_each_of_their_names(before, raw, test, reason, names, n - 1, path, position);
        if let Ok(entries) = entered(before, raw, test, reason, names, n - 1, path, position) {
            let name = names[n - 1];
            if let Some(signal) = signal_named(name) {
                let b = before.len() as int;
                if recorded(entries, test, signal) {
                    let i = choose|i: int|
                        0 <= i < entries.len() && (#[trigger] entries[i]).test == test
                            && entries[i].signal == signal;
                    if i < b {
                        assert(entries.subrange(0, b)[i] == entries[i]);
                        assert(before[i].test == test);
                        assert(recorded(before, test, signal));
                    } else {
                        let j = i - b;
                        assert(entries[b + j].signal == signal_named(names[j])->0);
                        assert(signal_named(names[j]) == signal_named(names[n - 1]));
                    }
                } else {
                    let after = entered(before, raw, test, reason, names, n, path, position)->Ok_0;
                    assert(after.subrange(0, b) =~= before) by {
                        assert forall|i: int| 0 <= i < b implies after[i] == before[i] by {
                            assert(entries.subrange(0, b)[i] == entries[i]);
                        }
                    }
                    if recorded(before, test, signal) {
                        let i = choose|i: int|
                            0 <= i < before.len() && (#[trigger] before[i]).test == test
                                && before[i].signal == signal;
                        assert(entries.subrange(0, b)[i] == entries[i]);
                        assert(entries[i].test == test);
                    }
                    assert forall|j: int, k: int| 0 <= j < k < n implies signal_named(
                        #[trigger] names[j],
                    ) != signal_named(#[trigger] names[k]) by {
                        if k == n - 1 {
                            assert(entries[b + j].signal == signal_named(names[j])->0);
                            assert(entries[b + j].test == test);
                        }
                    }
                }
            }
        }
    }
}

/// The entries of a file are entered one after the other; the first that is refused decides, and
/// what is said of it names its place.
pub proof fn blocks_are_entered_in_order(blocks: Seq<RawEntryModel>, n: int, path: Seq<char>)
    requires
        0 <= n < blocks.len(),
    ensures
        entries_of(blocks, 0, path) == Ok::<Seq<EntryModel>, Seq<char>>(Seq::empty()),
        entries_of(blocks, n, path) matches Ok(before) ==> entries_of(blocks, n + 1, path)
            == block_entered(before, blocks[n], path, (n + 1) as nat),
        entries_of(blocks, n, path) is Err ==> entries_of(blocks, n + 1, path) == entries_of(
            blocks,
            n,
            path,
        ),
{
}

/// What is said of a refused entry begins with its place.
pub proof fn refusals_name_the_place(
    before: Seq<EntryModel>,
    raw: RawEntryModel,
    path: Seq<char>,
    position: nat,
)
    ensures
        block_entered(before, raw, path, position) matches Err(e) ==> is_prefix(
            entry_label(path, position),
            e,
        ),
{
    let label = entry_label(path, position);
    required_texts_are_trimmed(raw.test, "test"@, path, position);
    required_texts_are_trimmed(raw.reason, "reason"@, path, position);
    if let Ok(test) = required_text(raw.test, "test"@, path, position) {
        if let Ok(reason) = required_text(raw.reason, "reason"@, path, position) {
            match names_of(raw, path, position, test) {
                Ok(names) => {
                    lemma_entered_refusal(
                        before,
                        raw,
                        test,
                        reason,
                        names,
                        names.len() as int,
                        path,
                        position,
                    );
                },
                Err(e) => {
                    let a = " ("@ + test + ") sets both `signal` and `signals`; use one or the other"@;
                    let b = " ("@ + test
                        + ") must name a signal via `signal` or a non-empty `signals`; valid signals are: "@
                        + all_signal_names();
                    lemma_begins(label, a);
                    lemma_begins(label, b);
                    assert(label + " ("@ + test
                        + ") sets both `signal` and `signals`; use one or the other"@ =~= label + a);
                    assert(no_signal(path, position, test) =~= label + b);
                },
            }
        }
    }
}

proof fn lemma_entered_refusal(
    before: Seq<EntryModel>,
    raw: RawEntryModel,
    test: Seq<char>,
    reason: Seq<char>,
    names: Seq<Seq<char>>,
    n: int,
    path: Seq<char>,
    position: nat,
)
    ensures
        entered(before, raw, test, reason, names, n, path, position) matches Err(e) ==> is_prefix(
            entry_label(path, position),
            e,
        ),
    decreases n,
{
    if n > 0 {
        lemma_entered_refusal(before, raw, test, reason, names, n - 1, path, position);
        let label = entry_label(path, position);
        let shown = quoted_text(names[n - 1]);
        let a = " ("@ + test + ") names unknown signal "@ + shown + "; valid signals are: "@
            + all_signal_names();
        let b = " repeats an acceptance already recorded for "@ + test + " / "@ + names[n - 1]
            + "; keep one entry per test and signal"@;
        lemma_begins(label, a);
        lemma_begins(label, b);
        assert(label + " ("@ + test + ") names unknown signal "@ + shown
            + "; valid signals are: "@ + all_signal_names() =~= label + a);
        assert(label + " repeats an acceptance already recorded for "@ + test + " / "@ + names[n
            - 1] + "; keep one entry per test and signal"@ =~= label + b);
    }
}

/// Only a file that declares the one version that is read is read further.
pub proof fn files_declare_their_version(raw: RawBaselineModel, path: Seq<char>)
    ensures
        raw.schema_version == Some("1"@) ==> validated(raw, path) == entries_of(
            raw.accept,
            raw.accept.len() as int,
            path,
        ),
        raw.schema_version != Some("1"@) ==> (validated(raw, path) matches Err(e) && is_prefix(path, e)),
{
    reveal_strlit("1");
    if raw.schema_version != Some("1"@) {
        let a = ": expected schema_version = \"1\", found "@;
        let e = validated(raw, path)->Err_0;
        let b = if declared(raw).len() == 0 {
            "no schema_version key"@
        } else {
            quoted_text(declared(raw))
        };
        lemma_begins(path, a + b);
        assert(e =~= path + (a + b));
    }
}

proof fn lemma_stray(
    entries: Seq<(Seq<char>, ItemModel)>,
    names: Seq<&'static str>,
    from: int,
)
    requires
        0 <= from <= entries.len(),
    ensures
        match stray_from(entries, names, from) {
            Some(key) => !among(names, key) && exists|i: int|
                from <= i < entries.len() && (#[trigger] entries[i]).0 == key,
            None => forall|i: int|
                from <= i < entries.len() ==> among(names, (#[trigger] entries[i]).0),
        },
    decreases entries.len() - from,
{
    if from < entries.len() && among(names, entries[from].0) {
        lemma_stray(entries, names, from + 1);
    }
}

/// The value under a key of a table is that of the first entry with the key.
pub proof fn keys_lead_to_their_values(entries: Seq<(Seq<char>, ItemModel)>, key: Seq<char>, from: int)
    requires
        0 <= from <= entries.len(),
    ensures
        match entry_from(entries, key, from) {
            Some(value) => exists|i: int|
                from <= i < entries.len() && (#[trigger] entries[i]).0 == key && entries[i].1 == value
                    && forall|j: int| from <= j < i ==> (#[trigger] entries[j]).0 != key,
            None => forall|i: int| from <= i < entries.len() ==> (#[trigger] entries[i]).0 != key,
        },
    decreases entries.len() - from,
{
    if from < entries.len() && entries[from].0 != key {
        keys_lead_to_their_values(entries, key, from + 1);
        if let Some(value) = entry_from(entries, key, from + 1) {
            let i = choose|i: int|
                from + 1 <= i < entries.len() && (#[trigger] entries[i]).0 == key && entries[i].1
                    == value && forall|j: int| from + 1 <= j < i ==> (#[trigger] entries[j]).0 != key;
            assert(entries[i].0 == key);
        }
    } else if from < entries.len() {
        assert(entries[from].0 == key);
    }
}

/// An entry's fields are read from under their own keys, each a text but for the list of signals;
/// an entry with any other key is refused.
pub proof fn fields_are_read_from_under_their_keys(entries: Seq<(Seq<char>, ItemModel)>, i: int)
    requires
        0 <= i < entries.len(),
    ensures
        raw_entry(ItemModel::Table(entries)) matches Ok(raw) ==> {
            &&& raw.test == read_text(entries, "test"@)
            &&& raw.signal == read_text(entries, "signal"@)
            &&& raw.reason == read_text(entries, "reason"@)
            &&& raw.reviewed == read_text(entries, "reviewed"@)
            &&& raw.fingerprint == read_text(entries, "fingerprint"@)
            &&& raw.signals == (match entry_from(entries, "signals"@, 0) {
                Some(ItemModel::List(values)) => Some(texts_of(values)),
                _ => None,
            })
            &&& {
                ||| entries[i].0 == "test"@
                ||| entries[i].0 == "signal"@
                ||| entries[i].0 == "signals"@
                ||| entries[i].0 == "reason"@
                ||| entries[i].0 == "reviewed"@
                ||| entries[i].0 == "fingerprint"@
            }
        },
{
    let names = ENTRY_MEMBERS@;
    assert(names[0]@ == "test"@ && names[1]@ == "signal"@ && names[2]@ == "signals"@ && names[3]@
        == "reason"@ && names[4]@ == "reviewed"@ && names[5]@ == "fingerprint"@);
    lemma_stray(entries, names, 0);
    if raw_entry(ItemModel::Table(entries)) is Ok {
        assert(among(names, entries[i].0));
    }
}

/// An entry all of whose keys are known, each with a value of its type, is read.
pub proof fn well_formed_entries_are_read(entries: Seq<(Seq<char>, ItemModel)>)
    requires
        forall|i: int|
            #![trigger entries[i]]
            0 <= i < entries.len() ==> {
                ||| entries[i].0 == "signals"@ && entries[i].1 is List && all_texts(
                    entries[i].1->List_0,
                )
                ||| entries[i].1 is Text && (entries[i].0 == "test"@ || entries[i].0 == "signal"@
                    || entries[i].0 == "reason"@ || entries[i].0 == "reviewed"@ || entries[i].0
                    == "fingerprint"@)
            },
    ensures
        raw_entry(ItemModel::Table(entries)) is Ok,
{
    let names = ENTRY_MEMBERS@;
    assert(names[0]@ == "test"@ && names[1]@ == "signal"@ && names[2]@ == "signals"@ && names[3]@
        == "reason"@ && names[4]@ == "reviewed"@ && names[5]@ == "fingerprint"@);
    lemma_stray(entries, names, 0);
    assert forall|i: int| 0 <= i < entries.len() implies among(names, (#[trigger] entries[i]).0) by {}
    keys_lead_to_their_values(entries, "test"@, 0);
    keys_lead_to_their_values(entries, "signal"@, 0);
    keys_lead_to_their_values(entries, "signals"@, 0);
    keys_lead_to_their_values(entries, "reason"@, 0);
    keys_lead_to_their_values(entries, "reviewed"@, 0);
    keys_lead_to_their_values(entries, "fingerprint"@, 0);
    reveal_strlit("test");
    reveal_strlit("signal");
    reveal_strlit("signals");
    reveal_strlit("reason");
    reveal_strlit("reviewed");
    reveal_strlit("fingerprint");
    assert("signals"@.len() == 7 && "test"@.len() == 4 && "signal"@.len() == 6 && "reason"@.len()
        == 6 && "reviewed"@.len() == 8 && "fingerprint"@.len() == 11);
}

/// The text under a key, where one is there.
pub open spec fn read_text(entries: Seq<(Seq<char>, ItemModel)>, key: Seq<char>) -> Option<Seq<char>> {
    match entry_from(entries, key, 0) {
        Some(ItemModel::Text(s)) => Some(s),
        _ => None,
    }
}

/// Under a key where a text belongs, nothing but a text is taken; nothing at all is no text.
pub proof fn texts_are_asked_for(item: Option<ItemModel>, name: Seq<char>)
    ensures
        text_member(item, name) is Ok <==> item is None || item->0 is Text,
        item is None ==> text_member(item, name) == Ok::<Option<Seq<char>>, Seq<char>>(None),
        list_member(item, name) is Ok <==> item is None || (item->0 is List && all_texts(
            item->0->List_0,
        )),
        item is None ==> list_member(item, name) == Ok::<Option<Seq<Seq<char>>>, Seq<char>>(None),
        text_member(item, name) matches Err(e) ==> has_text(e, name),
        list_member(item, name) matches Err(e) ==> has_text(e, name),
{
    let a = "invalid type for `"@;
    let b = "`, expected "@;
    let c = "a string"@;
    let d = "a list of strings"@;
    assert(a + name + b + c =~= a + name + (b + c));
    assert(a + name + b + d =~= a + name + (b + d));
    texts_are_found_where_they_stand(name, name, a, b + c);
    texts_are_found_where_they_stand(name, name, a, b + d);
}

/// A file holds its version and a list of entries, which may be missing, and nothing else; every
/// entry is read, in their order, and one that cannot be read refuses the file.
pub proof fn files_hold_a_version_and_entries(entries: Seq<(Seq<char>, ItemModel)>, i: int)
    requires
        0 <= i < entries.len(),
    ensures
        raw_baseline(ItemModel::Table(entries)) matches Ok(raw) ==> {
            &&& raw.schema_version == read_text(entries, "schema_version"@)
            &&& entries[i].0 == "schema_version"@ || entries[i].0 == "accept"@
            &&& entry_from(entries, "accept"@, 0) is None ==> raw.accept.len() == 0
            &&& entry_from(entries, "accept"@, 0) matches Some(value) ==> value is List && raw_entries(
                value->List_0,
            ) == Ok::<Seq<RawEntryModel>, Seq<char>>(raw.accept)
        },
{
    let names = BASELINE_MEMBERS@;
    assert(names[0]@ == "schema_version"@ && names[1]@ == "accept"@);
    lemma_stray(entries, names, 0);
    if raw_baseline(ItemModel::Table(entries)) is Ok {
        assert(among(names, entries[i].0));
    }
}

/// Entries that are read are read one by one.
pub proof fn every_entry_is_read(items: Seq<ItemModel>, i: int)
    requires
        0 <= i < items.len(),
        raw_entries(items) is Ok,
    ensures
        raw_entries(items)->Ok_0.len() == items.len(),
        raw_entry(items[i]) == Ok::<RawEntryModel, Seq<char>>(raw_entries(items)->Ok_0[i]),
    decreases items.len(),
{
    let front = items.drop_last();
    if front.len() == 0 {
        assert(raw_entries(front) == Ok::<Seq<RawEntryModel>, Seq<char>>(Seq::empty()));
    } else {
        if i < front.len() {
            every_entry_is_read(front, i);
            assert(front[i] == items[i]);
        } else {
            every_entry_is_read(front, 0);
        }
    }
}

/// An entry that is written as a list has its fields by their places in it, whatever follows them.
pub proof fn entries_may_be_written_as_lists(
    test: Seq<char>,
    signal: Seq<char>,
    signals: Seq<ItemModel>,
    reason: Seq<char>,
    reviewed: Seq<char>,
    fingerprint: Seq<char>,
    more: Seq<ItemModel>,
)
    requires
        all_texts(signals),
    ensures
        raw_entry(
            ItemModel::List(
                seq![
                    ItemModel::Text(test),
                    ItemModel::Text(signal),
                    ItemModel::List(signals),
                    ItemModel::Text(reason),
                    ItemModel::Text(reviewed),
                    ItemModel::Text(fingerprint),
                ] + more,
            ),
        ) == Ok::<RawEntryModel, Seq<char>>(
            RawEntryModel {
                test: Some(test),
                signal: Some(signal),
                signals: Some(texts_of(signals)),
                reason: Some(reason),
                reviewed: Some(reviewed),
                fingerprint: Some(fingerprint),
            },
        ),
{
}

/// A file that cannot be read as what it should be is refused with its path; any other goes by what
/// it holds.
pub proof fn unreadable_files_are_refused(contents: Seq<char>, path: Seq<char>)
    ensures
        toml_document(contents) is Err ==> parsed_baseline(contents, path) is Err,
        toml_document(contents) matches Ok(document) ==> {
            &&& raw_baseline(document) is Err ==> parsed_baseline(contents, path) is Err
            &&& raw_baseline(document) matches Ok(raw) ==> parsed_baseline(contents, path)
                == validated(raw, path)
        },
        toml_document(contents) is Err || raw_baseline(toml_document(contents)->Ok_0) is Err ==> (
        parsed_baseline(contents, path) matches Err(e) && has_text(e, path)),
{
    let a = "failed to parse accept file "@;
    let b = ": "@;
    if let Err(e) = toml_document(contents) {
        assert(a + path + b + e =~= a + path + (b + e));
        texts_are_found_where_they_stand(path, path, a, b + e);
    }
    if let Ok(document) = toml_document(contents) {
        if let Err(e) = raw_baseline(document) {
            assert(a + path + b + e =~= a + path + (b + e));
            texts_are_found_where_they_stand(path, path, a, b + e);
        }
    }
}

} // verus!
