//! What holds of the report that is printed.
use vstd::prelude::*;

use crate::accept::{last_with_id, Accepted, AcceptedFinding, StaleAcceptance};
use crate::inventory::{Inventory, Suite};
use crate::laws::texts::{beginnings_and_ends, texts_are_found_where_they_stand};
use crate::numerals::has_text;
use crate::ordering::slowness;
use crate::paths::basename;
use crate::pretty::{
    accepted_text, at_most_len, call_rows, categories, cells_text, count_for, file_alignment,
    file_headings, file_row, file_rows, finding_lines, inventory_text, last_with_path, members_text,
    padded, rows_text, shown_count, shown_measure, shown_smells, stale_lines, suite_text,
    sut_calls_text, table, table_section, test_alignment, test_headings, test_row, test_rows,
    top_files_text, top_tests_text, underlined, width_of, workspace_title,
};
use crate::records::{
    file_views, test_views, FileModel, Measure, SmellModel, SutCallsModel, TestModel,
};
use crate::text::{
    decimal, is_prefix, is_suffix, lemma_sorted_of, repeated, sorted_of, strictly_sorted, views,
};

verus! {

/// A title stands on a line, and under it a line as long of marks alone.
pub proof fn titles_are_underlined(title: Seq<char>, mark: char, i: int)
    ensures
        ({
            let text = underlined(title, mark);
            let n = title.len() as int;
            &&& text.len() == 2 * n + 2
            &&& text.subrange(0, n) == title
            &&& text[n] == '\n'
            &&& n < i < 2 * n + 1 ==> text[i] == mark
            &&& text[2 * n + 1] == '\n'
        }),
{
    reveal_strlit("\n");
    let text = underlined(title, mark);
    assert(text.subrange(0, title.len() as int) =~= title);
}

/// What is measured is shown, and a dash where nothing was; the unit stands behind it.
pub proof fn measures_are_shown(measure: Measure, unit: Seq<char>, n: u64)
    ensures
        shown_measure(Some(measure), unit) == measure.shown@ + unit,
        shown_measure(None, unit) == "—"@ + unit,
        shown_count(Some(n)) == decimal(n as nat),
        shown_count(None) == "—"@,
{
}

/// The first section of a report shows the number of tests, the seconds and the coverage, in this
/// order, each on its line.
pub proof fn suites_are_shown_line_by_line(suite: Suite)
    ensures
        exists|a: Seq<char>, b: Seq<char>, c: Seq<char>|
            {
                &&& suite_text(suite) == #[trigger] shown_in_order(
                    a,
                    shown_count(suite.test_count),
                    b,
                    shown_measure(suite.runtime_seconds, "s"@),
                    c,
                    shown_measure(suite.line_coverage_pct, "%"@),
                )
                &&& has_text(a, "tests"@) && has_text(b, "runtime"@) && has_text(c, "coverage"@)
                &&& is_prefix("\n"@, b) && is_prefix("\n"@, c)
            },
{
    reveal_strlit("\n");
    reveal_strlit("tests");
    reveal_strlit("runtime");
    reveal_strlit("coverage");
    reveal_strlit("  tests           ");
    reveal_strlit("\n  runtime         ");
    reveal_strlit("\n  coverage        ");
    let title = underlined("Suite"@, '-');
    let tests = "  tests           "@;
    let runtime = "\n  runtime         "@;
    let coverage = "\n  coverage        "@;
    let a = title + tests;
    lemma_holds(tests, "tests"@, 2);
    lemma_holds(runtime, "runtime"@, 3);
    lemma_holds(coverage, "coverage"@, 3);
    assert(tests =~= tests.subrange(0, 2) + "tests"@ + tests.subrange(7, tests.len() as int));
    assert(a =~= (title + tests.subrange(0, 2)) + "tests"@ + tests.subrange(7, tests.len() as int));
    texts_are_found_where_they_stand(
        a,
        "tests"@,
        title + tests.subrange(0, 2),
        tests.subrange(7, tests.len() as int),
    );
    assert(runtime.subrange(0, 1) =~= "\n"@);
    assert(coverage.subrange(0, 1) =~= "\n"@);
    assert(suite_text(suite) =~= shown_in_order(
        a,
        shown_count(suite.test_count),
        runtime,
        shown_measure(suite.runtime_seconds, "s"@),
        coverage,
        shown_measure(suite.line_coverage_pct, "%"@),
    ));
}

/// Three values, each behind its label, and the end of the line.
pub open spec fn shown_in_order(
    a: Seq<char>,
    x: Seq<char>,
    b: Seq<char>,
    y: Seq<char>,
    c: Seq<char>,
    z: Seq<char>,
) -> Seq<char> {
    a + x + b + y + c + z + "\n"@
}

proof fn lemma_holds(s: Seq<char>, what: Seq<char>, at: int)
    requires
        0 <= at <= s.len() - what.len(),
        s.subrange(at, at + what.len()) =~= what,
    ensures
        has_text(s, what),
{
    let a = s.subrange(0, at);
    let b = s.subrange(at + what.len(), s.len() as int);
    assert(s =~= a + what + b);
    texts_are_found_where_they_stand(s, what, a, b);
}

/// The row of a test shows, under each heading, what the record says of it.
pub proof fn rows_of_tests_show_their_records(test: TestModel, c: int)
    requires
        0 <= c < test_headings().len(),
    ensures
        test_row(test).len() == test_headings().len(),
        test_alignment().len() == test_headings().len(),
        test_headings()[c] == "score"@ ==> test_row(test)[c] == test.suspicion_score.shown,
        test_headings()[c] == "nodeid"@ ==> test_row(test)[c] == test.nodeid,
        test_headings()[c] == "asserts"@ ==> test_row(test)[c] == decimal(test.assertion_count as nat),
        test_headings()[c] == "mocks"@ ==> test_row(test)[c] == decimal(
            test.patch_decorator_count as nat,
        ),
        test_headings()[c] == "stubs"@ ==> test_row(test)[c] == decimal(test.stubs_count as nat),
        test_headings()[c] == "smells"@ ==> test_row(test)[c] == shown_smells(test.smell_hits),
        test_headings().contains("score"@) && test_headings().contains("nodeid"@)
            && test_headings().contains("asserts"@) && test_headings().contains("mocks"@)
            && test_headings().contains("stubs"@) && test_headings().contains("smells"@),
{
    lemma_headings_differ();
    let h = test_headings();
    assert(h[0] == "score"@ && h[1] == "nodeid"@ && h[2] == "asserts"@ && h[3] == "mocks"@ && h[4]
        == "stubs"@ && h[5] == "smells"@);
}

proof fn lemma_headings_differ()
    ensures
        "score"@.len() == 5 && "score"@[1] == 'c',
        "path"@.len() == 4,
        "tests"@.len() == 5 && "tests"@[1] == 'e',
        "nodeid"@.len() == 6 && "nodeid"@[0] == 'n',
        "asserts"@.len() == 7,
        "mocks"@.len() == 5 && "mocks"@[1] == 'o',
        "stubs"@.len() == 5 && "stubs"@[1] == 't',
        "smells"@.len() == 6 && "smells"@[0] == 's',
{
    reveal_strlit("score");
    reveal_strlit("path");
    reveal_strlit("tests");
    reveal_strlit("nodeid");
    reveal_strlit("asserts");
    reveal_strlit("mocks");
    reveal_strlit("stubs");
    reveal_strlit("smells");
}

/// The row of a file shows, under each heading, what the record says of it: its mocks are those that
/// it constructs and those that decorators patch in.
pub proof fn rows_of_files_show_their_records(file: FileModel, score: Seq<char>, c: int)
    requires
        0 <= c < file_headings().len(),
        file.mock_construction_count + file.patch_decorator_count <= u64::MAX,
    ensures
        file_row(file, score).len() == file_headings().len(),
        file_alignment().len() == file_headings().len(),
        file_headings()[c] == "score"@ ==> file_row(file, score)[c] == score,
        file_headings()[c] == "path"@ ==> file_row(file, score)[c] == file.path,
        file_headings()[c] == "tests"@ ==> file_row(file, score)[c] == decimal(
            file.test_function_count as nat,
        ),
        file_headings()[c] == "asserts"@ ==> file_row(file, score)[c] == decimal(
            file.assertion_count as nat,
        ),
        file_headings()[c] == "mocks"@ ==> file_row(file, score)[c] == decimal(
            (file.mock_construction_count + file.patch_decorator_count) as nat,
        ),
        file_headings()[c] == "stubs"@ ==> file_row(file, score)[c] == decimal(
            file.stubs_count as nat,
        ),
        file_headings()[c] == "smells"@ ==> file_row(file, score)[c] == decimal(
            file.smell_hits.len(),
        ),
        file_headings().contains("score"@) && file_headings().contains("path"@)
            && file_headings().contains("tests"@) && file_headings().contains("asserts"@)
            && file_headings().contains("mocks"@) && file_headings().contains("stubs"@)
            && file_headings().contains("smells"@),
{
    lemma_headings_differ();
    let h = file_headings();
    assert(h[0] == "score"@ && h[1] == "path"@ && h[2] == "tests"@ && h[3] == "asserts"@ && h[4]
        == "mocks"@ && h[5] == "stubs"@ && h[6] == "smells"@);
}

/// The smells of a test are shown by their categories, each once, in order, and a dash where there is
/// none.
pub proof fn smells_are_shown_by_category(hits: Seq<SmellModel>, hit: SmellModel)
    ensures
        shown_smells(Seq::empty()) == "—"@,
        shown_smells(seq![hit]) == hit.category,
        shown_smells(seq![hit, hit]) == hit.category,
        hits.len() > 0 && (forall|i: int|
            0 <= i < hits.len() ==> (#[trigger] hits[i]).category == hit.category) ==> shown_smells(
            hits,
        ) == hit.category,
{
    lemma_one_category(seq![hit], hit.category);
    lemma_one_category(seq![hit, hit], hit.category);
    if hits.len() > 0 && (forall|i: int|
        0 <= i < hits.len() ==> (#[trigger] hits[i]).category == hit.category) {
        lemma_one_category(hits, hit.category);
    }
}

proof fn lemma_one_category(hits: Seq<SmellModel>, category: Seq<char>)
    requires
        hits.len() > 0,
        forall|i: int| 0 <= i < hits.len() ==> (#[trigger] hits[i]).category == category,
    ensures
        shown_smells(hits) == category,
{
    let one = seq![category];
    assert(hits[0].category == category);
    assert(categories(hits) =~= Set::<Seq<char>>::empty().insert(category));
    assert(one.to_set() =~= categories(hits)) by {
        assert(one[0] == category);
        assert(one.contains(category));
    }
    assert(strictly_sorted(one));
    lemma_sorted_of(one);
    assert(sorted_of(categories(hits)) == one);
}

proof fn lemma_last_with_id(tests: Seq<TestModel>, i: int, n: int)
    requires
        0 <= i < n <= tests.len(),
        forall|j: int| i < j < n ==> (#[trigger] tests[j]).nodeid != tests[i].nodeid,
    ensures
        last_with_id(tests, tests[i].nodeid, n) == Some(i),
    decreases n,
{
    if i < n - 1 {
        assert(tests[n - 1].nodeid != tests[i].nodeid);
        lemma_last_with_id(tests, i, n - 1);
    }
}

/// The rows of a shortlist are those of its tests, in its order: one more test on the list is one
/// more row behind the others.
pub proof fn rows_follow_the_shortlist(ids: Seq<Seq<char>>, tests: Seq<TestModel>, n: int, i: int)
    requires
        0 <= n < ids.len(),
        0 <= i < tests.len(),
        ids[n] == tests[i].nodeid,
        forall|j: int| 0 <= j < tests.len() && j != i ==> (#[trigger] tests[j]).nodeid != ids[n],
    ensures
        test_rows(ids, tests, n + 1) == test_rows(ids, tests, n).push(test_row(tests[i])),
        test_rows(ids, tests, 0).len() == 0,
{
    lemma_last_with_id(tests, i, tests.len() as int);
}

proof fn lemma_last_with_path(files: Seq<FileModel>, i: int, n: int)
    requires
        0 <= i < n <= files.len(),
        forall|j: int| i < j < n ==> (#[trigger] files[j]).path != files[i].path,
    ensures
        last_with_path(files, files[i].path, n) == Some(i),
    decreases n,
{
    if i < n - 1 {
        assert(files[n - 1].path != files[i].path);
        lemma_last_with_path(files, i, n - 1);
    }
}

/// The rows of a shortlist of files are those of its files, in its order, each with its own score.
pub proof fn rows_follow_the_shortlist_of_files(
    paths: Seq<Seq<char>>,
    files: Seq<FileModel>,
    scores: Seq<Measure>,
    n: int,
    i: int,
)
    requires
        0 <= n < paths.len(),
        0 <= i < files.len(),
        files.len() == scores.len(),
        paths[n] == files[i].path,
        forall|j: int| 0 <= j < files.len() && j != i ==> (#[trigger] files[j]).path != paths[n],
    ensures
        file_rows(paths, files, scores, n + 1) == file_rows(paths, files, scores, n).push(
            file_row(files[i], scores[i].shown@),
        ),
        file_rows(paths, files, scores, 0).len() == 0,
{
    lemma_last_with_path(files, i, files.len() as int);
}

/// No more of a list is shown than asked for, and no less than there is.
pub proof fn lists_are_shown_up_to_a_limit(n: nat, len: nat)
    ensures
        at_most_len(n, len) <= n && at_most_len(n, len) <= len,
        at_most_len(n, len) == n || at_most_len(n, len) == len,
{
}

/// A section without rows says so; one with rows is a table under the headings.
pub proof fn empty_sections_say_so(
    title: Seq<char>,
    headings: Seq<Seq<char>>,
    rows: Seq<Seq<Seq<char>>>,
    right: Seq<bool>,
)
    ensures
        is_prefix(underlined(title, '-'), table_section(title, headings, rows, right)),
        rows.len() == 0 ==> is_suffix("  (none)\n"@, table_section(title, headings, rows, right)),
        rows.len() > 0 ==> is_suffix(
            table(seq![headings] + rows, right),
            table_section(title, headings, rows, right),
        ),
{
    let head = underlined(title, '-');
    let none = "  (none)\n"@;
    let full = table(seq![headings] + rows, right);
    beginnings_and_ends(head, head, none);
    beginnings_and_ends(head, head, full);
    beginnings_and_ends(head, none, head);
    beginnings_and_ends(head, full, head);
}

/// A table has one line for each row, which shows every cell of it in order, two spaces before each.
pub proof fn tables_show_every_cell(
    rows: Seq<Seq<Seq<char>>>,
    right: Seq<bool>,
    r: int,
    c: int,
)
    requires
        0 <= r < rows.len(),
        0 <= c < rows[r].len(),
    ensures
        rows_text(rows, right, 0).len() == 0,
        rows_text(rows, right, r + 1) == rows_text(rows, right, r) + cells_text(
            rows[r],
            rows,
            right,
            rows[r].len() as int,
        ) + seq!['\n'],
        cells_text(rows[r], rows, right, 0).len() == 0,
        c == rows[r].len() - 1 ==> cells_text(rows[r], rows, right, c + 1) == cells_text(
            rows[r],
            rows,
            right,
            c,
        ) + seq![' ', ' '] + rows[r][c],
        c < rows[r].len() - 1 ==> cells_text(rows[r], rows, right, c + 1) == cells_text(
            rows[r],
            rows,
            right,
            c,
        ) + seq![' ', ' '] + padded(rows[r][c], width_of(rows, c, rows.len() as int), right[c]),
{
    reveal_strlit("\n");
    reveal_strlit("  ");
    assert("\n"@ =~= seq!['\n']);
    assert("  "@ =~= seq![' ', ' ']);
}

/// A cell that is filled up on the left ends with what it holds, one that is filled up on the right
/// begins with it; the rest are spaces.
pub proof fn cells_are_filled_up_with_spaces(cell: Seq<char>, width: nat, i: int)
    ensures
        is_suffix(cell, padded(cell, width, true)),
        is_prefix(cell, padded(cell, width, false)),
        padded(cell, width, true).len() == if width > cell.len() {
            width
        } else {
            cell.len()
        },
        padded(cell, width, false).len() == padded(cell, width, true).len(),
        0 <= i < padded(cell, width, true).len() - cell.len() ==> padded(cell, width, true)[i] == ' ',
        cell.len() <= i < padded(cell, width, false).len() ==> padded(cell, width, false)[i] == ' ',
{
    let r = padded(cell, width, true);
    let l = padded(cell, width, false);
    assert(r.subrange(r.len() - cell.len(), r.len() as int) =~= cell);
    assert(l.subrange(0, cell.len() as int) =~= cell);
}

/// The number beside a called name is that of its callers in the summary.
pub proof fn calls_are_shown_with_their_callers(calls: SutCallsModel, i: int, k: int)
    requires
        0 <= i < calls.top_called.len(),
        0 <= k < calls.by_name.len(),
        calls.by_name[k].name == calls.top_called[i],
        forall|j: int|
            0 <= j < calls.by_name.len() && j != k ==> (#[trigger] calls.by_name[j]).name
                != calls.top_called[i],
    ensures
        call_rows(calls).len() == calls.top_called.len(),
        call_rows(calls)[i] == seq![
            decimal(calls.by_name[k].test_function_count as nat),
            calls.top_called[i],
        ],
{
    lemma_count_for(calls, k, calls.by_name.len() as int);
}

proof fn lemma_count_for(calls: SutCallsModel, k: int, n: int)
    requires
        0 <= k < n <= calls.by_name.len(),
        forall|j: int| k < j < n ==> (#[trigger] calls.by_name[j]).name != calls.by_name[k].name,
    ensures
        count_for(calls, calls.by_name[k].name, n) == calls.by_name[k].test_function_count,
    decreases n,
{
    if k < n - 1 {
        assert(calls.by_name[n - 1].name != calls.by_name[k].name);
        lemma_count_for(calls, k, n - 1);
    }
}

/// Accepted findings and stale acceptances are shown one to a line, in their order: the test, the
/// signal, and why.
pub proof fn acceptances_are_shown_line_by_line(
    findings: Seq<AcceptedFinding>,
    stale: Seq<StaleAcceptance>,
    n: int,
    m: int,
)
    requires
        0 <= n < findings.len(),
        0 <= m < stale.len(),
    ensures
        finding_lines(findings, 0).len() == 0,
        finding_lines(findings, n + 1) == finding_lines(findings, n) + seq![' ', ' ']
            + findings[n].test@ + seq![' ', ' '] + findings[n].signal@ + seq![' ', ' ']
            + findings[n].reason@ + seq!['\n'],
        stale_lines(stale, 0).len() == 0,
        stale_lines(stale, m + 1) == stale_lines(stale, m) + seq![' ', ' '] + stale[m].test@
            + seq![' ', ' '] + stale[m].signal@ + seq![' ', ' '] + stale[m].status@ + seq![
            ' ',
            ' ',
        ] + stale[m].detail@ + seq!['\n'],
{
    reveal_strlit("\n");
    reveal_strlit("  ");
    assert("\n"@ =~= seq!['\n']);
    assert("  "@ =~= seq![' ', ' ']);
}

/// The section on acceptances is missing where there are none, and shows both lists where there
/// are.
pub proof fn acceptances_are_shown_where_there_are_any(accepted: Accepted)
    ensures
        accepted.findings@.len() == 0 && accepted.stale@.len() == 0 ==> accepted_text(accepted).len() == 0,
        has_text(
            accepted_text(accepted),
            finding_lines(accepted.findings@, accepted.findings@.len() as int),
        ),
        has_text(
            accepted_text(accepted),
            stale_lines(accepted.stale@, accepted.stale@.len() as int),
        ),
{
    reveal_strlit("\n");
    let text = accepted_text(accepted);
    let lines = finding_lines(accepted.findings@, accepted.findings@.len() as int);
    let old = stale_lines(accepted.stale@, accepted.stale@.len() as int);
    let none = Seq::<char>::empty();
    let title = underlined(
        if accepted.included_in_shortlist {
            "Accepted findings (kept on the shortlist)"@
        } else {
            "Accepted findings (held back from the shortlist)"@
        },
        '-',
    );
    let a = if accepted.findings@.len() == 0 {
        none
    } else {
        "\n"@ + title
    };
    let b = if accepted.stale@.len() == 0 {
        none
    } else {
        "\n"@ + underlined("Stale acceptances (actionable again)"@, '-')
    };
    assert(text =~= a + lines + (b + old));
    assert(text =~= (a + lines + b) + old + none);
    texts_are_found_where_they_stand(text, lines, a, b + old);
    texts_are_found_where_they_stand(text, old, a + lines + b, none);
}

/// A report of a workspace is that of its members, in their order, each under its name.
pub proof fn members_are_shown_in_order(
    members: Seq<Inventory>,
    scores: Seq<Vec<Measure>>,
    top_n: nat,
    n: int,
)
    requires
        0 <= n < members.len(),
        members.len() == scores.len(),
    ensures
        members_text(members, scores, top_n, 0).len() == 0,
        members_text(members, scores, top_n, n + 1) == members_text(members, scores, top_n, n)
            + seq!['\n'] + underlined("Member: "@ + members[n].project.name@, '-') + inventory_text(
            members[n],
            scores[n]@,
            top_n,
        ),
{
    reveal_strlit("\n");
    assert("\n"@ =~= seq!['\n']);
}

/// Slow tests are ordered by their time, the longest first; a time of less than nothing comes last,
/// and both zeros are one.
pub proof fn the_slowest_come_first(a: u64, b: u64)
    ensures
        a < b < 0x8000_0000_0000_0000 ==> slowness(b) < slowness(a),
        a < 0x8000_0000_0000_0000 < b ==> slowness(a) < slowness(b),
        0x8000_0000_0000_0000 < a < b ==> slowness(a) < slowness(b),
        slowness(0x8000_0000_0000_0000) == slowness(0),
{
}

proof fn lemma_test_rows(a: Seq<Seq<char>>, b: Seq<Seq<char>>, tests: Seq<TestModel>, n: int)
    requires
        0 <= n <= a.len(),
        n <= b.len(),
        forall|i: int| 0 <= i < n ==> #[trigger] a[i] == b[i],
    ensures
        test_rows(a, tests, n) == test_rows(b, tests, n),
    decreases n,
{
    if n > 0 {
        assert(a[n - 1] == b[n - 1]);
        lemma_test_rows(a, b, tests, n - 1);
    }
}

/// To show at most so many of a shortlist is to show its beginning; where it is no longer than that
/// it is shown whole.
pub proof fn beginnings_of_shortlists_are_shown(
    ids: Seq<Seq<char>>,
    tests: Seq<TestModel>,
    n: nat,
    m: nat,
)
    requires
        n <= m,
    ensures
        n <= ids.len() ==> top_tests_text(ids, tests, n) == top_tests_text(
            ids.subrange(0, n as int),
            tests,
            m,
        ),
        ids.len() <= n ==> top_tests_text(ids, tests, n) == top_tests_text(ids, tests, m),
        is_prefix(underlined("Top suspicious tests"@, '-'), top_tests_text(ids, tests, n)),
{
    if n <= ids.len() {
        let short = ids.subrange(0, n as int);
        lemma_test_rows(ids, short, tests, n as int);
    }
    empty_sections_say_so(
        "Top suspicious tests"@,
        test_headings(),
        test_rows(ids, tests, at_most_len(n, ids.len())),
        test_alignment(),
    );
}

/// The report of a project shows its name, and behind it the suite, the shortlists of tests and of
/// files, what the tests call, and what was accepted.
pub proof fn reports_show_every_section(inventory: Inventory, scores: Seq<Measure>, top_n: nat)
    ensures
        ({
            let text = inventory_text(inventory, scores, top_n);
            &&& has_text(text, inventory.project.name@)
            &&& has_text(text, suite_text(inventory.suite))
            &&& has_text(
                text,
                top_tests_text(
                    views(inventory.top_suspicious.test_functions@),
                    test_views(inventory.test_functions@),
                    top_n,
                ),
            )
            &&& has_text(
                text,
                top_files_text(
                    views(inventory.top_suspicious.files@),
                    file_views(inventory.files@),
                    scores,
                    top_n,
                ),
            )
            &&& has_text(text, sut_calls_text(inventory.sut_calls@))
            &&& is_suffix(accepted_text(inventory.accepted), text)
        }),
{
    reveal_strlit("\n");
    let text = inventory_text(inventory, scores, top_n);
    let name = inventory.project.name@;
    let end = "\n"@;
    let title = "coati audit — "@ + name;
    let t0 = title + end + repeated('=', title.len()) + end;
    let a = suite_text(inventory.suite);
    let b = top_tests_text(
        views(inventory.top_suspicious.test_functions@),
        test_views(inventory.test_functions@),
        top_n,
    );
    let c = top_files_text(
        views(inventory.top_suspicious.files@),
        file_views(inventory.files@),
        scores,
        top_n,
    );
    let d = sut_calls_text(inventory.sut_calls@);
    let e = accepted_text(inventory.accepted);
    let t1 = t0 + end + a;
    let t2 = t1 + end + b;
    let t3 = t2 + end + c;
    let t4 = t3 + end + d;
    assert(text == t4 + e);
    lemma_at_the_end("coati audit — "@, name);
    lemma_followed(title, end, repeated('=', title.len()), name);
    lemma_followed(title + end + repeated('=', title.len()), end, end, name);
    lemma_followed(t0, end, a, name);
    lemma_followed(t1, end, b, name);
    lemma_followed(t2, end, c, name);
    lemma_followed(t3, end, d, name);
    lemma_followed(t4, e, e, name);
    lemma_at_the_end(t0 + end, a);
    lemma_followed(t1, end, b, a);
    lemma_followed(t2, end, c, a);
    lemma_followed(t3, end, d, a);
    lemma_followed(t4, e, e, a);
    lemma_at_the_end(t1 + end, b);
    lemma_followed(t2, end, c, b);
    lemma_followed(t3, end, d, b);
    lemma_followed(t4, e, e, b);
    lemma_at_the_end(t2 + end, c);
    lemma_followed(t3, end, d, c);
    lemma_followed(t4, e, e, c);
    lemma_at_the_end(t3 + end, d);
    lemma_followed(t4, e, e, d);
    beginnings_and_ends(text, e, t4);
}

proof fn lemma_at_the_end(before: Seq<char>, what: Seq<char>)
    ensures
        has_text(before + what, what),
{
    let none = Seq::<char>::empty();
    assert(before + what + none =~= before + what);
    texts_are_found_where_they_stand(what, what, before, none);
}

/// What a text holds, it still holds where more follows.
proof fn lemma_followed(s: Seq<char>, more: Seq<char>, still: Seq<char>, what: Seq<char>)
    requires
        has_text(s, what),
    ensures
        has_text(s + more, what),
        has_text(s + more + still, what),
{
    texts_are_found_where_they_stand(s, what, s, s);
    let i = choose|i: int|
        0 <= i <= s.len() - what.len() && s == s.subrange(0, i) + what + #[trigger] s.subrange(
            i + what.len(),
            s.len() as int,
        );
    let a = s.subrange(0, i);
    let b = s.subrange(i + what.len(), s.len() as int);
    assert(a + what + b + more =~= a + what + (b + more));
    assert(a + what + b + more + still =~= a + what + (b + more + still));
    texts_are_found_where_they_stand(s, what, a, b + more);
    texts_are_found_where_they_stand(s, what, a, b + more + still);
}

/// The title of a workspace's report shows the name of its directory and how many members it has.
pub proof fn workspaces_are_named_and_counted(root: Seq<char>, count: nat)
    ensures
        has_text(workspace_title(root, count), basename(root)),
        has_text(workspace_title(root, count), " ("@ + decimal(count) + " members)"@),
{
    let name = basename(root);
    let a = "pycoati workspace audit — "@;
    let b = " ("@ + decimal(count) + " members)"@;
    let title = a + name + " ("@ + decimal(count) + " members)"@;
    let text = workspace_title(root, count);
    let tail = "\n"@ + repeated('=', title.len()) + "\n"@;
    assert(title =~= a + name + b);
    assert(text =~= a + name + (b + tail));
    assert(text =~= (a + name) + b + tail);
    texts_are_found_where_they_stand(text, name, a, b + tail);
    texts_are_found_where_they_stand(text, b, a + name, tail);
}

/// Numbers are shown to the right of their columns, names to the left.
pub proof fn numbers_stand_to_the_right(c: int, d: int)
    requires
        0 <= c < test_headings().len(),
        0 <= d < file_headings().len(),
    ensures
        test_alignment()[c] == (test_headings()[c] != "nodeid"@ && test_headings()[c] != "smells"@),
        file_alignment()[d] == (file_headings()[d] != "path"@ && file_headings()[d] != "smells"@),
{
    lemma_headings_differ();
    let h = test_headings();
    assert(h[0] == "score"@ && h[1] == "nodeid"@ && h[2] == "asserts"@ && h[3] == "mocks"@ && h[4]
        == "stubs"@ && h[5] == "smells"@);
    let g = file_headings();
    assert(g[0] == "score"@ && g[1] == "path"@ && g[2] == "tests"@ && g[3] == "asserts"@ && g[4]
        == "mocks"@ && g[5] == "stubs"@ && g[6] == "smells"@);
}

/// The sections of a report stand under their titles.
pub proof fn sections_have_their_titles(
    paths: Seq<Seq<char>>,
    files: Seq<FileModel>,
    scores: Seq<Measure>,
    n: nat,
    calls: SutCallsModel,
    suite: Suite,
)
    ensures
        is_prefix(underlined("Top suspicious files"@, '-'), top_files_text(paths, files, scores, n)),
        is_prefix(underlined("SUT calls (top 20)"@, '-'), sut_calls_text(calls)),
        is_prefix(underlined("Suite"@, '-'), suite_text(suite)),
{
    empty_sections_say_so(
        "Top suspicious files"@,
        file_headings(),
        file_rows(paths, files, scores, at_most_len(n, paths.len())),
        file_alignment(),
    );
    empty_sections_say_so(
        "SUT calls (top 20)"@,
        seq!["count"@, "name"@],
        call_rows(calls),
        seq![true, false],
    );
    let title = underlined("Suite"@, '-');
    assert(suite_text(suite).subrange(0, title.len() as int) =~= title);
}

} // verus!
