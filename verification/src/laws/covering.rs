//! What holds of coverage reports and of failed coverage runs.
use vstd::prelude::*;

use crate::coverage::{
    clipped, coverage_warning, exit_text, failure_headline, failure_line, last_line, percent_of,
    report_of, shown_error, PercentModel, ReportModel,
};
use crate::json::{json_document, key_from, under_key, JsonModel};
use crate::laws::texts::{beginnings_and_ends, texts_are_found_where_they_stand};
use crate::numerals::{has_text, writes_float};
use crate::text::{decimal, is_prefix, lines_of, trim};

verus! {

/// The value under a key of an object is that of the first entry with the key; nothing else has
/// keys.
pub proof fn keys_lead_to_their_values(entries: Seq<(Seq<char>, JsonModel)>, key: Seq<char>, from: int)
    requires
        0 <= from <= entries.len(),
    ensures
        match key_from(entries, key, from) {
            Some(value) => exists|i: int|
                from <= i < entries.len() && (#[trigger] entries[i]).0 == key && entries[i].1 == value
                    && forall|j: int| from <= j < i ==> (#[trigger] entries[j]).0 != key,
            None => forall|i: int| from <= i < entries.len() ==> (#[trigger] entries[i]).0 != key,
        },
        under_key(JsonModel::Object(entries), key) == key_from(entries, key, 0),
    decreases entries.len() - from,
{
    if from < entries.len() && entries[from].0 != key {
        keys_lead_to_their_values(entries, key, from + 1);
        if let Some(value) = key_from(entries, key, from + 1) {
            let i = choose|i: int|
                from + 1 <= i < entries.len() && (#[trigger] entries[i]).0 == key && entries[i].1
                    == value && forall|j: int| from + 1 <= j < i ==> (#[trigger] entries[j]).0 != key;
            assert(entries[i].0 == key);
        }
    } else if from < entries.len() {
        assert(entries[from].0 == key);
    }
}

/// Only objects have keys.
pub proof fn only_objects_have_keys(value: JsonModel, key: Seq<char>)
    requires
        !(value is Object),
    ensures
        under_key(value, key) is None,
{
}

/// The coverage of a report is the number under `totals.percent_covered`; where none stands there,
/// the text under `totals.percent_covered_display`, if it writes a number; otherwise there is none.
pub proof fn coverage_stands_under_totals(report: JsonModel, totals: JsonModel, bits: u64, shown: Seq<char>)
    ensures
        under_key(report, "totals"@) is None ==> percent_of(report) is None,
        under_key(report, "totals"@) == Some(totals) ==> {
            let covered = under_key(totals, "percent_covered"@);
            let display = under_key(totals, "percent_covered_display"@);
            &&& covered == Some(JsonModel::Number(bits)) ==> percent_of(report) == Some(
                PercentModel::Number(bits),
            )
            &&& !(covered is Some && covered->0 is Number) && display == Some(JsonModel::Text(shown))
                ==> percent_of(report) == if writes_float(shown) {
                Some(PercentModel::Text(shown))
            } else {
                None
            }
            &&& !(covered is Some && covered->0 is Number) && !(display is Some && display->0 is Text)
                ==> percent_of(report) is None
        },
{
}

/// A report of white space is an empty one, whatever else could be said of it; any other is what it
/// says, or malformed.
pub proof fn blank_reports_are_empty(raw: Seq<char>)
    ensures
        trim(raw).len() == 0 <==> report_of(raw) is Empty,
        trim(raw).len() > 0 && json_document(raw) is Ok ==> report_of(raw) == ReportModel::Parsed(
            json_document(raw)->Ok_0,
        ),
        trim(raw).len() > 0 && json_document(raw) is Err ==> report_of(raw) is Malformed,
{
}

/// There is something to say of a coverage run exactly where it measured nothing.
pub proof fn runs_are_warned_of_where_nothing_was_measured(
    exit_code: i32,
    stderr: Seq<char>,
    report: Option<Seq<char>>,
)
    ensures
        coverage_warning(exit_code, stderr, report) is None <==> (report matches Some(raw)
            && report_of(raw) matches ReportModel::Parsed(value) && percent_of(value) is Some),
{
}

/// What is shown of a text of errors is its last line that is not blank, without the white space
/// around it.
pub proof fn the_last_line_that_says_something_is_shown(all: Seq<Seq<char>>, n: int, i: int)
    requires
        0 <= i < n <= all.len(),
        trim(all[i]).len() > 0,
        forall|j: int| i < j < n ==> trim(#[trigger] all[j]).len() == 0,
    ensures
        last_line(all, n) == Some(trim(all[i])),
    decreases n,
{
    if i < n - 1 {
        assert(trim(all[n - 1]).len() == 0);
        the_last_line_that_says_something_is_shown(all, n - 1, i);
    }
}

/// Blank lines alone show nothing.
pub proof fn blank_lines_show_nothing(all: Seq<Seq<char>>, n: int)
    requires
        0 <= n <= all.len(),
        forall|j: int| 0 <= j < n ==> trim(#[trigger] all[j]).len() == 0,
    ensures
        last_line(all, n) is None,
    decreases n,
{
    if n > 0 {
        assert(trim(all[n - 1]).len() == 0);
        blank_lines_show_nothing(all, n - 1);
    }
}

/// A line is shown whole up to three hundred characters, and no further than that.
pub proof fn lines_are_shown_up_to_a_limit(line: Seq<char>)
    ensures
        line.len() <= 300 ==> clipped(line) == line,
        line.len() > 300 ==> clipped(line).len() == 300,
        is_prefix(clipped(line), line),
{
    assert(line.subrange(0, line.len() as int) =~= line);
}

/// What is said of a failed run states how it ended, and then the last thing that it said; where it
/// does not know the coverage option, what to do about that.
pub proof fn failures_state_how_the_run_ended(exit_code: i32, stderr: Seq<char>)
    ensures
        is_prefix(failure_headline(exit_code), failure_line(exit_code, stderr)),
        has_text(failure_headline(exit_code), exit_text(exit_code)),
        exit_code >= 0 ==> exit_text(exit_code) == decimal(exit_code as nat),
        exit_code < 0 ==> exit_text(exit_code) == seq!['-'] + decimal((-exit_code) as nat),
        has_text(stderr, "unrecognized arguments"@) && has_text(stderr, "--cov"@) ==> has_text(
            failure_line(exit_code, stderr),
            "install pytest-cov"@,
        ),
        !(has_text(stderr, "unrecognized arguments"@) && has_text(stderr, "--cov"@)) ==> (
        last_line(lines_of(stderr), lines_of(stderr).len() as int) matches Some(line) ==> has_text(
            failure_line(exit_code, stderr),
            clipped(line),
        )),
{
    reveal_strlit("-");
    assert("-"@ =~= seq!['-']);
    let head = failure_headline(exit_code);
    let code = exit_text(exit_code);
    texts_are_found_where_they_stand(code, code, "no coverage data produced (pytest exit="@, ")"@);
    let advice = ": pytest does not recognise --cov; install pytest-cov (`uv add --dev pytest-cov`) or pass --no-coverage"@;
    lemma_advice(head);
    beginnings_and_ends(head, head, advice);
    beginnings_and_ends(head, head, Seq::empty());
    assert(head + Seq::<char>::empty() =~= head);
    if let Some(line) = shown_error(stderr) {
        beginnings_and_ends(head, head, ": "@ + line);
        assert(head + ": "@ + line =~= head + (": "@ + line));
        assert(head + ": "@ + line =~= head + ": "@ + line + Seq::<char>::empty());
        texts_are_found_where_they_stand(line, line, head + ": "@, Seq::empty());
    }
}

proof fn lemma_advice(head: Seq<char>)
    ensures
        has_text(
            head
                + ": pytest does not recognise --cov; install pytest-cov (`uv add --dev pytest-cov`) or pass --no-coverage"@,
            "install pytest-cov"@,
        ),
{
    reveal_strlit(
        ": pytest does not recognise --cov; install pytest-cov (`uv add --dev pytest-cov`) or pass --no-coverage",
    );
    reveal_strlit("install pytest-cov");
    let advice = ": pytest does not recognise --cov; install pytest-cov (`uv add --dev pytest-cov`) or pass --no-coverage"@;
    let what = "install pytest-cov"@;
    let a = advice.subrange(0, 35);
    let b = advice.subrange(53, advice.len() as int);
    assert(advice.subrange(35, 53) =~= what);
    assert(advice =~= a + what + b);
    assert(head + advice =~= (head + a) + what + b);
    texts_are_found_where_they_stand(what, what, head + a, b);
}

} // verus!
