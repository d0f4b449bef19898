//! The file of accepted findings: how it is read, and what makes it invalid.
use vstd::prelude::*;
use vstd::string::*;

use crate::accept::{all_signal_names, signal_named, ACCEPT_SCHEMA_VERSION, Signal};
use crate::document::{
    is_record, lemma_table_view, list_member, member, opt_views, read_list, read_text, read_toml,
    table_entries, text_member, toml_document, unknown_field, unknown_field_text, wrong_type,
    wrong_type_text, Item, ItemModel,
};
use crate::mock_api::{among, listed};
use crate::text::{decimal, number, opt_view, same, trim, trimmed, views};

verus! {

/// The members of the file.
pub const BASELINE_MEMBERS: [&'static str; 2] = ["schema_version", "accept"];

/// The members of one block of the file.
pub const ENTRY_MEMBERS: [&'static str; 6] = [
    "test",
    "signal",
    "signals",
    "reason",
    "reviewed",
    "fingerprint",
];

/// One block of the file as it stands there.
#[derive(Debug)]
pub struct RawEntry {
    pub test: Option<String>,
    pub signal: Option<String>,
    pub signals: Option<Vec<String>>,
    pub reason: Option<String>,
    pub reviewed: Option<String>,
    pub fingerprint: Option<String>,
}

/// What a `RawEntry` says.
#[verifier::ext_equal]
pub struct RawEntryModel {
    pub test: Option<Seq<char>>,
    pub signal: Option<Seq<char>>,
    pub signals: Option<Seq<Seq<char>>>,
    pub reason: Option<Seq<char>>,
    pub reviewed: Option<Seq<char>>,
    pub fingerprint: Option<Seq<char>>,
}

impl View for RawEntry {
    type V = RawEntryModel;

    open spec fn view(&self) -> RawEntryModel {
        RawEntryModel {
            test: opt_view(self.test),
            signal: opt_view(self.signal),
            signals: opt_views(self.signals),
            reason: opt_view(self.reason),
            reviewed: opt_view(self.reviewed),
            fingerprint: opt_view(self.fingerprint),
        }
    }
}

/// The file as it stands there.
#[derive(Debug)]
pub struct RawBaseline {
    pub schema_version: Option<String>,
    pub accept: Vec<RawEntry>,
}

/// What a `RawBaseline` says.
#[verifier::ext_equal]
pub struct RawBaselineModel {
    pub schema_version: Option<Seq<char>>,
    pub accept: Seq<RawEntryModel>,
}

pub open spec fn raw_views(v: Seq<RawEntry>) -> Seq<RawEntryModel> {
    Seq::new(v.len(), |i: int| v[i]@)
}

impl View for RawBaseline {
    type V = RawBaselineModel;

    open spec fn view(&self) -> RawBaselineModel {
        RawBaselineModel {
            schema_version: opt_view(self.schema_version),
            accept: raw_views(self.accept@),
        }
    }
}

/// One acceptance: one signal on one test.
#[derive(Debug)]
pub struct Entry {
    pub test: String,
    pub signal: Signal,
    pub reason: String,
    /// A note on when or by whom; never interpreted.
    pub reviewed: Option<String>,
    /// The fingerprint that the test had; nothing where edits do not matter.
    pub fingerprint: Option<String>,
}

/// What an `Entry` says.
#[verifier::ext_equal]
pub struct EntryModel {
    pub test: Seq<char>,
    pub signal: Signal,
    pub reason: Seq<char>,
    pub reviewed: Option<Seq<char>>,
    pub fingerprint: Option<Seq<char>>,
}

impl View for Entry {
    type V = EntryModel;

    open spec fn view(&self) -> EntryModel {
        EntryModel {
            test: self.test@,
            signal: self.signal,
            reason: self.reason@,
            reviewed: opt_view(self.reviewed),
            fingerprint: opt_view(self.fingerprint),
        }
    }
}

pub open spec fn entry_views(v: Seq<Entry>) -> Seq<EntryModel> {
    Seq::new(v.len(), |i: int| v[i]@)
}

/// A valid file: where it is, and one entry for each signal that it accepts on a test.
#[derive(Debug)]
pub struct Baseline {
    pub path: String,
    pub entries: Vec<Entry>,
}

/// How a text is written between quotation marks.
pub uninterp spec fn quoted_text(s: Seq<char>) -> Seq<char>;

/// The `Debug` formatting of `str`. Claims that it depends on the text alone.
#[verifier::external_body]
fn quoted(s: &str) -> (r: String)
    ensures
        r@ == quoted_text(s@),
{
    format!("{s:?}")
}

/// The first key of a table that is no member of the record.
pub open spec fn stray_key(record: ItemModel, names: Seq<&'static str>) -> Option<Seq<char>> {
    match record {
        ItemModel::Table(entries) => stray_from(entries, names, 0),
        _ => None,
    }
}

/// The first key from entry `from` on that is no member of the record.
pub open spec fn stray_from(
    entries: Seq<(Seq<char>, ItemModel)>,
    names: Seq<&'static str>,
    from: int,
) -> Option<Seq<char>>
    decreases entries.len() - from,
{
    if from < 0 || from >= entries.len() {
        None
    } else if !among(names, entries[from].0) {
        Some(entries[from].0)
    } else {
        stray_from(entries, names, from + 1)
    }
}

fn find_stray(record: &Item, names: &[&'static str]) -> (r: Option<String>)
    ensures
        opt_view(r) == stray_key(record@, names@),
{
    match record {
        Item::Table(entries) => {
            let ghost model = record@->Table_0;
            proof {
                lemma_table_view(*record, *entries);
            }
            let mut i: usize = 0;
            while i < entries.len()
                invariant
                    i <= entries@.len(),
                    record@ == ItemModel::Table(model),
                    model == table_entries(entries@),
                    stray_from(model, names@, 0) == stray_from(model, names@, i as int),
                decreases entries@.len() - i,
            {
                if !listed(names, &entries[i].0) {
                    return Some(entries[i].0.clone());
                }
                i += 1;
            }
            None
        },
        _ => None,
    }
}

/// The block that an item of the file stands for, or what is wrong with it.
pub open spec fn raw_entry(item: ItemModel) -> Result<RawEntryModel, Seq<char>> {
    let names = ENTRY_MEMBERS@;
    if !is_record(item, names) {
        Err(wrong_type("accept"@, "a table"@))
    } else if stray_key(item, names) is Some {
        Err(unknown_field(stray_key(item, names)->0))
    } else {
        match (
            text_member(member(item, names, 0), "test"@),
            text_member(member(item, names, 1), "signal"@),
            list_member(member(item, names, 2), "signals"@),
            text_member(member(item, names, 3), "reason"@),
            text_member(member(item, names, 4), "reviewed"@),
            text_member(member(item, names, 5), "fingerprint"@),
        ) {
            (
                Ok(test),
                Ok(signal),
                Ok(signals),
                Ok(reason),
                Ok(reviewed),
                Ok(fingerprint),
            ) => Ok(RawEntryModel { test, signal, signals, reason, reviewed, fingerprint }),
            (Err(e), _, _, _, _, _) => Err(e),
            (_, Err(e), _, _, _, _) => Err(e),
            (_, _, Err(e), _, _, _) => Err(e),
            (_, _, _, Err(e), _, _) => Err(e),
            (_, _, _, _, Err(e), _) => Err(e),
            (_, _, _, _, _, Err(e)) => Err(e),
        }
    }
}

/// The blocks that a list of items stands for, or what is wrong with the first that is wrong.
pub open spec fn raw_entries(items: Seq<ItemModel>) -> Result<Seq<RawEntryModel>, Seq<char>>
    decreases items.len(),
{
    if items.len() == 0 {
        Ok(Seq::empty())
    } else {
        match raw_entries(items.drop_last()) {
            Err(e) => Err(e),
            Ok(before) => match raw_entry(items.last()) {
                Err(e) => Err(e),
                Ok(entry) => Ok(before.push(entry)),
            },
        }
    }
}

/// The file that a document stands for, or what is wrong with it.
pub open spec fn raw_baseline(document: ItemModel) -> Result<RawBaselineModel, Seq<char>> {
    let names = BASELINE_MEMBERS@;
    if !is_record(document, names) {
        Err(wrong_type("document"@, "a table"@))
    } else if stray_key(document, names) is Some {
        Err(unknown_field(stray_key(document, names)->0))
    } else {
        match text_member(member(document, names, 0), "schema_version"@) {
            Err(e) => Err(e),
            Ok(schema_version) => match member(document, names, 1) {
                None => Ok(RawBaselineModel { schema_version, accept: Seq::empty() }),
                Some(ItemModel::List(items)) => match raw_entries(items) {
                    Err(e) => Err(e),
                    Ok(accept) => Ok(RawBaselineModel { schema_version, accept }),
                },
                Some(_) => Err(wrong_type("accept"@, "a list of tables"@)),
            },
        }
    }
}

/// Reads one block.
pub fn read_entry(item: &Item) -> (r: Result<RawEntry, String>)
    ensures
        match raw_entry(item@) {
            Ok(model) => r is Ok && r->Ok_0@ == model,
            Err(e) => r is Err && r->Err_0@ == e,
        },
{
    let names = ENTRY_MEMBERS.as_slice();
    if !item.is_record(names) {
        return Err(wrong_type_text("accept", "a table"));
    }
    if let Some(key) = find_stray(item, names) {
        return Err(unknown_field_text(&key));
    }
    let test = match read_text(item.member(names, 0), "test") {
        Ok(v) => v,
        Err(e) => {
            return Err(e);
        },
    };
    let signal = match read_text(item.member(names, 1), "signal") {
        Ok(v) => v,
        Err(e) => {
            return Err(e);
        },
    };
    let signals = match read_list(item.member(names, 2), "signals") {
        Ok(v) => v,
        Err(e) => {
            return Err(e);
        },
    };
    let reason = match read_text(item.member(names, 3), "reason") {
        Ok(v) => v,
        Err(e) => {
            return Err(e);
        },
    };
    let reviewed = match read_text(item.member(names, 4), "reviewed") {
        Ok(v) => v,
        Err(e) => {
            return Err(e);
        },
    };
    let fingerprint = match read_text(item.member(names, 5), "fingerprint") {
        Ok(v) => v,
        Err(e) => {
            return Err(e);
        },
    };
    Ok(RawEntry { test, signal, signals, reason, reviewed, fingerprint })
}

/// Reads the file out of a document.
pub fn read_baseline(document: &Item) -> (r: Result<RawBaseline, String>)
    ensures
        match raw_baseline(document@) {
            Ok(model) => r is Ok && r->Ok_0@ == model,
            Err(e) => r is Err && r->Err_0@ == e,
        },
{
    let names = BASELINE_MEMBERS.as_slice();
    if !document.is_record(names) {
        return Err(wrong_type_text("document", "a table"));
    }
    if let Some(key) = find_stray(document, names) {
        return Err(unknown_field_text(&key));
    }
    let schema_version = match read_text(document.member(names, 0), "schema_version") {
        Ok(v) => v,
        Err(e) => {
            return Err(e);
        },
    };
    let mut accept: Vec<RawEntry> = Vec::new();
    assert(raw_views(accept@) =~= Seq::<RawEntryModel>::empty());
    match document.member(names, 1) {
        None => {},
        Some(Item::List(items)) => {
            let ghost whole = Item::List(*items);
            let ghost model = whole@->List_0;
            proof {
                reveal_with_fuel(<Item as View>::view, 2);
                assert(model.len() == items@.len());
            }
            let mut i: usize = 0;
            while i < items.len()
                invariant
                    i <= items@.len(),
                    model.len() == items@.len(),
                    forall|k: int| 0 <= k < model.len() ==> #[trigger] model[k] == items@[k]@,
                    names@ == BASELINE_MEMBERS@,
                    member(document@, names@, 1) == Some(ItemModel::List(model)),
                    is_record(document@, names@),
                    stray_key(document@, names@) is None,
                    text_member(member(document@, names@, 0), "schema_version"@) is Ok,
                    raw_entries(model.take(i as int)) == Ok::<Seq<RawEntryModel>, Seq<char>>(
                        raw_views(accept@),
                    ),
                decreases items@.len() - i,
            {
                let ghost before = raw_views(accept@);
                proof {
                    let part = model.take(i + 1);
                    assert(part.drop_last() =~= model.take(i as int));
                    assert(part.last() == items@[i as int]@);
                }
                match read_entry(&items[i]) {
                    Ok(entry) => {
                        accept.push(entry);
                        assert(raw_views(accept@) =~= before.push(entry@));
                    },
                    Err(e) => {
                        proof {
                            lemma_raw_error(model, i + 1, e@);
                        }
                        return Err(e);
                    },
                }
                i += 1;
            }
            assert(model.take(i as int) =~= model);
        },
        Some(_) => {
            return Err(wrong_type_text("accept", "a list of tables"));
        },
    }
    Ok(RawBaseline { schema_version, accept })
}

/// What is wrong with the first blocks is what is wrong with all of them.
proof fn lemma_raw_error(items: Seq<ItemModel>, n: int, e: Seq<char>)
    requires
        0 <= n <= items.len(),
        raw_entries(items.take(n)) == Err::<Seq<RawEntryModel>, Seq<char>>(e),
    ensures
        raw_entries(items) == Err::<Seq<RawEntryModel>, Seq<char>>(e),
    decreases items.len() - n,
{
    if n == items.len() {
        assert(items.take(n) =~= items);
    } else {
        assert(items.take(n + 1).drop_last() =~= items.take(n));
        lemma_raw_error(items, n + 1, e);
    }
}

/// Where in the file something is wrong.
pub open spec fn entry_label(path: Seq<char>, position: nat) -> Seq<char> {
    path + ": accept entry "@ + decimal(position)
}

/// A text that a block has to have, without the white space around it.
pub open spec fn required_text(
    value: Option<Seq<char>>,
    field: Seq<char>,
    path: Seq<char>,
    position: nat,
) -> Result<Seq<char>, Seq<char>> {
    match value {
        Some(s) => if trim(s).len() > 0 {
            Ok(trim(s))
        } else {
            Err(
                entry_label(path, position) + " has an empty `"@ + field
                    + "`; every acceptance must record one"@,
            )
        },
        None => Err(
            entry_label(path, position) + " is missing `"@ + field
                + "`; every acceptance must record one"@,
        ),
    }
}

/// Names without the white space around them.
pub open spec fn trimmed_all(names: Seq<Seq<char>>) -> Seq<Seq<char>> {
    Seq::new(names.len(), |i: int| trim(names[i]))
}

/// The signal names of a block: from `signal` or from `signals`, not from both.
pub open spec fn names_of(
    raw: RawEntryModel,
    path: Seq<char>,
    position: nat,
    test: Seq<char>,
) -> Result<Seq<Seq<char>>, Seq<char>> {
    match (raw.signal, raw.signals) {
        (Some(_), Some(_)) => Err(
            entry_label(path, position) + " ("@ + test
                + ") sets both `signal` and `signals`; use one or the other"@,
        ),
        (Some(one), None) => Ok(seq![trim(one)]),
        (None, Some(many)) => if many.len() > 0 {
            Ok(trimmed_all(many))
        } else {
            Err(no_signal(path, position, test))
        },
        (None, None) => Err(no_signal(path, position, test)),
    }
}

/// The message for a block that names no signal.
pub open spec fn no_signal(path: Seq<char>, position: nat, test: Seq<char>) -> Seq<char> {
    entry_label(path, position) + " ("@ + test
        + ") must name a signal via `signal` or a non-empty `signals`; valid signals are: "@
        + all_signal_names()
}

/// The acceptance is recorded already.
pub open spec fn recorded(entries: Seq<EntryModel>, test: Seq<char>, signal: Signal) -> bool {
    exists|i: int|
        0 <= i < entries.len() && (#[trigger] entries[i]).test == test && entries[i].signal
            == signal
}

/// The entries after the first `n` names of a block are entered, or what is wrong with a name.
pub open spec fn entered(
    before: Seq<EntryModel>,
    raw: RawEntryModel,
    test: Seq<char>,
    reason: Seq<char>,
    names: Seq<Seq<char>>,
    n: int,
    path: Seq<char>,
    position: nat,
) -> Result<Seq<EntryModel>, Seq<char>>
    decreases n,
{
    if n <= 0 {
        Ok(before)
    } else {
        match entered(before, raw, test, reason, names, n - 1, path, position) {
            Err(e) => Err(e),
            Ok(entries) => match signal_named(names[n - 1]) {
                None => Err(
                    entry_label(path, position) + " ("@ + test + ") names unknown signal "@
                        + quoted_text(names[n - 1]) + "; valid signals are: "@
                        + all_signal_names(),
                ),
                Some(signal) => if recorded(entries, test, signal) {
                    Err(
                        entry_label(path, position)
                            + " repeats an acceptance already recorded for "@ + test + " / "@
                            + names[n - 1] + "; keep one entry per test and signal"@,
                    )
                } else {
                    Ok(
                        entries.push(
                            EntryModel {
                                test,
                                signal,
                                reason,
                                reviewed: raw.reviewed,
                                fingerprint: raw.fingerprint,
                            },
                        ),
                    )
                },
            },
        }
    }
}

/// The entries after one more block, or what is wrong with it.
pub open spec fn block_entered(
    before: Seq<EntryModel>,
    raw: RawEntryModel,
    path: Seq<char>,
    position: nat,
) -> Result<Seq<EntryModel>, Seq<char>> {
    match required_text(raw.test, "test"@, path, position) {
        Err(e) => Err(e),
        Ok(test) => match required_text(raw.reason, "reason"@, path, position) {
            Err(e) => Err(e),
            Ok(reason) => match names_of(raw, path, position, test) {
                Err(e) => Err(e),
                Ok(names) => entered(
                    before,
                    raw,
                    test,
                    reason,
                    names,
                    names.len() as int,
                    path,
                    position,
                ),
            },
        },
    }
}

/// The entries of the first `n` blocks, or what is wrong with the first block that is wrong.
pub open spec fn entries_of(blocks: Seq<RawEntryModel>, n: int, path: Seq<char>) -> Result<
    Seq<EntryModel>,
    Seq<char>,
>
    decreases n,
{
    if n <= 0 {
        Ok(Seq::empty())
    } else {
        match entries_of(blocks, n - 1, path) {
            Err(e) => Err(e),
            Ok(before) => block_entered(before, blocks[n - 1], path, n as nat),
        }
    }
}

/// The version that a file declares; nothing where it declares none.
pub open spec fn declared(raw: RawBaselineModel) -> Seq<char> {
    match raw.schema_version {
        Some(s) => s,
        None => Seq::empty(),
    }
}

/// The entries of a file, or what is wrong with it.
pub open spec fn validated(raw: RawBaselineModel, path: Seq<char>) -> Result<
    Seq<EntryModel>,
    Seq<char>,
> {
    if declared(raw) != ACCEPT_SCHEMA_VERSION@ {
        Err(
            path + ": expected schema_version = \"1\", found "@ + if declared(raw).len() == 0 {
                "no schema_version key"@
            } else {
                quoted_text(declared(raw))
            },
        )
    } else {
        entries_of(raw.accept, raw.accept.len() as int, path)
    }
}

/// The entries of the file that a text is, or what is wrong with it.
pub open spec fn parsed_baseline(contents: Seq<char>, path: Seq<char>) -> Result<
    Seq<EntryModel>,
    Seq<char>,
> {
    match toml_document(contents) {
        Err(e) => Err(unreadable(path, e)),
        Ok(document) => match raw_baseline(document) {
            Err(e) => Err(unreadable(path, e)),
            Ok(raw) => validated(raw, path),
        },
    }
}

/// The message for a file that cannot be read.
pub open spec fn unreadable(path: Seq<char>, why: Seq<char>) -> Seq<char> {
    "failed to parse accept file "@ + path + ": "@ + why
}

fn label(path: &str, position: usize) -> (r: String)
    ensures
        r@ == entry_label(path@, position as nat),
{
    let mut out = path.to_owned();
    out.append(": accept entry ");
    out.append(&number(position as u64));
    out
}

/// A text that a block has to have.
pub fn required(value: &Option<String>, field: &str, path: &str, position: usize) -> (r: Result<
    String,
    String,
>)
    ensures
        match required_text(opt_view(*value), field@, path@, position as nat) {
            Ok(s) => r is Ok && r->Ok_0@ == s,
            Err(e) => r is Err && r->Err_0@ == e,
        },
{
    match value {
        Some(s) => {
            let text = trimmed(s);
            if !text.as_str().is_empty() {
                return Ok(text);
            }
            let mut out = label(path, position);
            out.append(" has an empty `");
            out.append(field);
            out.append("`; every acceptance must record one");
            Err(out)
        },
        None => {
            let mut out = label(path, position);
            out.append(" is missing `");
            out.append(field);
            out.append("`; every acceptance must record one");
            Err(out)
        },
    }
}

fn no_signal_text(path: &str, position: usize, test: &str) -> (r: String)
    ensures
        r@ == no_signal(path@, position as nat, test@),
{
    let mut out = label(path, position);
    out.append(" (");
    out.append(test);
    out.append(") must name a signal via `signal` or a non-empty `signals`; valid signals are: ");
    out.append(&Signal::all_names());
    out
}

/// The signal names of a block.
pub fn signal_names(raw: &RawEntry, path: &str, position: usize, test: &str) -> (r: Result<
    Vec<String>,
    String,
>)
    ensures
        match names_of(raw@, path@, position as nat, test@) {
            Ok(v) => r is Ok && views(r->Ok_0@) == v,
            Err(e) => r is Err && r->Err_0@ == e,
        },
{
    match (&raw.signal, &raw.signals) {
        (Some(_), Some(_)) => {
            let mut out = label(path, position);
            out.append(" (");
            out.append(test);
            out.append(") sets both `signal` and `signals`; use one or the other");
            Err(out)
        },
        (Some(one), None) => {
            let mut names: Vec<String> = Vec::new();
            names.push(trimmed(one));
            assert(views(names@) =~= seq![trim(one@)]);
            Ok(names)
        },
        (None, Some(many)) => {
            assert(views(many@).len() == many@.len());
            if many.len() == 0 {
                return Err(no_signal_text(path, position, test));
            }
            let mut names: Vec<String> = Vec::new();
            let mut i: usize = 0;
            while i < many.len()
                invariant
                    i <= many@.len(),
                    names@.len() == i,
                    forall|k: int| 0 <= k < i ==> (#[trigger] names@[k])@ == trim(many@[k]@),
                decreases many@.len() - i,
            {
                names.push(trimmed(&many[i]));
                i += 1;
            }
            assert(views(names@) =~= trimmed_all(views(many@)));
            Ok(names)
        },
        (None, None) => Err(no_signal_text(path, position, test)),
    }
}

fn is_recorded(entries: &Vec<Entry>, test: &str, signal: Signal) -> (r: bool)
    ensures
        r == recorded(entry_views(entries@), test@, signal),
{
    let mut i: usize = 0;
    while i < entries.len()
        invariant
            i <= entries@.len(),
            forall|k: int|
                0 <= k < i ==> !((#[trigger] entry_views(entries@)[k]).test == test@ && entry_views(
                    entries@,
                )[k].signal == signal),
        decreases entries@.len() - i,
    {
        if entries[i].signal == signal && same(&entries[i].test, test) {
            assert(entry_views(entries@)[i as int].test == test@);
            return true;
        }
        i += 1;
    }
    false
}

/// What is wrong with the first names is what is wrong with all of them.
proof fn lemma_entered_error(
    before: Seq<EntryModel>,
    raw: RawEntryModel,
    test: Seq<char>,
    reason: Seq<char>,
    names: Seq<Seq<char>>,
    n: int,
    m: int,
    path: Seq<char>,
    position: nat,
)
    requires
        0 <= n <= m,
        entered(before, raw, test, reason, names, n, path, position) is Err,
    ensures
        entered(before, raw, test, reason, names, m, path, position) == entered(
            before,
            raw,
            test,
            reason,
            names,
            n,
            path,
            position,
        ),
    decreases m - n,
{
    if n < m {
        lemma_entered_error(before, raw, test, reason, names, n, m - 1, path, position);
    }
}

/// What is wrong with the first blocks is what is wrong with all of them.
proof fn lemma_block_error(blocks: Seq<RawEntryModel>, n: int, m: int, path: Seq<char>)
    requires
        0 <= n <= m,
        entries_of(blocks, n, path) is Err,
    ensures
        entries_of(blocks, m, path) == entries_of(blocks, n, path),
    decreases m - n,
{
    if n < m {
        lemma_block_error(blocks, n, m - 1, path);
    }
}

fn enter_block(entries: &mut Vec<Entry>, raw: &RawEntry, path: &str, position: usize) -> (r: Result<
    (),
    String,
>)
    ensures
        match block_entered(entry_views(old(entries)@), raw@, path@, position as nat) {
            Ok(v) => r is Ok && entry_views(final(entries)@) == v,
            Err(e) => r is Err && r->Err_0@ == e,
        },
{
    let ghost before = entry_views(entries@);
    let test = match required(&raw.test, "test", path, position) {
        Ok(v) => v,
        Err(e) => {
            return Err(e);
        },
    };
    let reason = match required(&raw.reason, "reason", path, position) {
        Ok(v) => v,
        Err(e) => {
            return Err(e);
        },
    };
    let names = match signal_names(raw, path, position, &test) {
        Ok(v) => v,
        Err(e) => {
            return Err(e);
        },
    };
    assert(views(names@).len() == names@.len());
    let mut i: usize = 0;
    while i < names.len()
        invariant
            i <= names@.len(),
            views(names@).len() == names@.len(),
            required_text(raw@.test, "test"@, path@, position as nat) == Ok::<Seq<char>, Seq<char>>(
                test@,
            ),
            required_text(raw@.reason, "reason"@, path@, position as nat) == Ok::<
                Seq<char>,
                Seq<char>,
            >(reason@),
            names_of(raw@, path@, position as nat, test@) == Ok::<Seq<Seq<char>>, Seq<char>>(
                views(names@),
            ),
            before == entry_views(old(entries)@),
            entered(
                before,
                raw@,
                test@,
                reason@,
                views(names@),
                i as int,
                path@,
                position as nat,
            ) == Ok::<Seq<EntryModel>, Seq<char>>(entry_views(entries@)),
        decreases names@.len() - i,
    {
        let name = &names[i];
        assert(views(names@)[i as int] == name@);
        let signal = match Signal::parse(name) {
            Some(signal) => signal,
            None => {
                let mut out = label(path, position);
                out.append(" (");
                out.append(&test);
                out.append(") names unknown signal ");
                out.append(&quoted(name));
                out.append("; valid signals are: ");
                out.append(&Signal::all_names());
                proof {
                    lemma_entered_error(
                        before,
                        raw@,
                        test@,
                        reason@,
                        views(names@),
                        i + 1,
                        names@.len() as int,
                        path@,
                        position as nat,
                    );
                }
                return Err(out);
            },
        };
        if is_recorded(entries, &test, signal) {
            let mut out = label(path, position);
            out.append(" repeats an acceptance already recorded for ");
            out.append(&test);
            out.append(" / ");
            out.append(name);
            out.append("; keep one entry per test and signal");
            proof {
                lemma_entered_error(
                    before,
                    raw@,
                    test@,
                    reason@,
                    views(names@),
                    i + 1,
                    names@.len() as int,
                    path@,
                    position as nat,
                );
            }
            return Err(out);
        }
        let ghost so_far = entry_views(entries@);
        let entry = Entry {
            test: test.clone(),
            signal,
            reason: reason.clone(),
            reviewed: raw.reviewed.clone(),
            fingerprint: raw.fingerprint.clone(),
        };
        assert(entry@ =~= EntryModel {
            test: test@,
            signal,
            reason: reason@,
            reviewed: raw@.reviewed,
            fingerprint: raw@.fingerprint,
        });
        entries.push(entry);
        assert(entry_views(entries@) =~= so_far.push(entry@));
        i += 1;
    }
    Ok(())
}

/// Checks a file as it stands, and makes one entry of each signal that it accepts on a test.
pub fn validate(raw: &RawBaseline, path: &str) -> (r: Result<Baseline, String>)
    ensures
        match validated(raw@, path@) {
            Ok(v) => r is Ok && entry_views(r->Ok_0.entries@) == v && r->Ok_0.path@ == path@,
            Err(e) => r is Err && r->Err_0@ == e,
        },
{
    let version = match &raw.schema_version {
        Some(s) => s.clone(),
        None => String::new(),
    };
    assert(version@ == declared(raw@));
    if !same(&version, ACCEPT_SCHEMA_VERSION) {
        let mut out = path.to_owned();
        out.append(": expected schema_version = \"1\", found ");
        if version.as_str().is_empty() {
            out.append("no schema_version key");
        } else {
            out.append(&quoted(&version));
        }
        return Err(out);
    }
    let mut entries: Vec<Entry> = Vec::new();
    let mut i: usize = 0;
    assert(entry_views(entries@) =~= Seq::<EntryModel>::empty());
    while i < raw.accept.len()
        invariant
            i <= raw.accept@.len(),
            declared(raw@) == ACCEPT_SCHEMA_VERSION@,
            raw@.accept.len() == raw.accept@.len(),
            entries_of(raw@.accept, i as int, path@) == Ok::<Seq<EntryModel>, Seq<char>>(
                entry_views(entries@),
            ),
        decreases raw.accept@.len() - i,
    {
        assert(raw@.accept[i as int] == raw.accept@[i as int]@);
        if let Err(e) = enter_block(&mut entries, &raw.accept[i], path, i + 1) {
            proof {
                lemma_block_error(raw@.accept, i + 1, raw@.accept.len() as int, path@);
            }
            return Err(e);
        }
        i += 1;
    }
    Ok(Baseline { path: path.to_owned(), entries })
}

fn unreadable_text(path: &str, why: &str) -> (r: String)
    ensures
        r@ == unreadable(path@, why@),
{
    let mut out = "failed to parse accept file ".to_owned();
    out.append(path);
    out.append(": ");
    out.append(why);
    out
}

/// Reads the contents of a file of accepted findings. `path` names it in messages.
pub fn parse(contents: &str, path: &str) -> (r: Result<Baseline, String>)
    ensures
        match parsed_baseline(contents@, path@) {
            Ok(v) => r is Ok && entry_views(r->Ok_0.entries@) == v && r->Ok_0.path@ == path@,
            Err(e) => r is Err && r->Err_0@ == e,
        },
{
    match read_toml(contents) {
        Err(e) => Err(unreadable_text(path, &e)),
        Ok(document) => match read_baseline(&document) {
            Err(e) => Err(unreadable_text(path, &e)),
            Ok(raw) => validate(&raw, path),
        },
    }
}

} // verus!
