//! An inventory as plain text for a terminal: titled sections of aligned columns.
use vstd::prelude::*;
use vstd::string::*;

use crate::accept::{find_test, last_with_id, Accepted, AcceptedFinding, StaleAcceptance};
use crate::inventory::{Inventory, Suite, WorkspaceInventory};
use crate::names::NameSet;
use crate::parser::capped;
use crate::paths::{basename, file_name};
use crate::records::{
    file_views, smell_views, test_views, FileModel, FileRecord, Measure, SmellHit, SmellModel,
    SutCalls, SutCallsModel, TestModel, TestRecord,
};
use crate::text::{
    decimal, is_prefix, is_suffix, join, joined, number, repeat_char, repeated, same, sorted_of,
    views,
};

verus! {

/// What is shown where there is nothing to show.
pub open spec fn dash() -> Seq<char> {
    "—"@
}

/// A title and a line of `mark` under it, as long as it.
pub open spec fn underlined(title: Seq<char>, mark: char) -> Seq<char> {
    title + "\n"@ + repeated(mark, title.len()) + "\n"@
}

/// What a cell looks like in a column of a width: padded on the left where the column is aligned
/// to the right, else on the right.
pub open spec fn padded(cell: Seq<char>, width: nat, right: bool) -> Seq<char> {
    let fill = repeated(
        ' ',
        if width > cell.len() {
            (width - cell.len()) as nat
        } else {
            0
        },
    );
    if right {
        fill + cell
    } else {
        cell + fill
    }
}

/// The rows of a table.
pub open spec fn grid(rows: Seq<Vec<String>>) -> Seq<Seq<Seq<char>>> {
    Seq::new(rows.len(), |i: int| views(rows[i]@))
}

/// The width of column `c`: that of its widest cell among the first `n` rows.
pub open spec fn width_of(rows: Seq<Seq<Seq<char>>>, c: int, n: int) -> nat
    decreases n,
{
    if n <= 0 {
        0
    } else {
        let before = width_of(rows, c, n - 1);
        if 0 <= c < rows[n - 1].len() && rows[n - 1][c].len() > before {
            rows[n - 1][c].len()
        } else {
            before
        }
    }
}

/// The first `c` cells of a row, each behind two spaces. The last cell of a row is not padded.
pub open spec fn cells_text(
    row: Seq<Seq<char>>,
    rows: Seq<Seq<Seq<char>>>,
    right: Seq<bool>,
    c: int,
) -> Seq<char>
    decreases c,
{
    if c <= 0 {
        Seq::empty()
    } else {
        cells_text(row, rows, right, c - 1) + "  "@ + if c == row.len() {
            row[c - 1]
        } else {
            padded(row[c - 1], width_of(rows, c - 1, rows.len() as int), right[c - 1])
        }
    }
}

/// The first `n` rows of a table, each on a line of its own.
pub open spec fn rows_text(rows: Seq<Seq<Seq<char>>>, right: Seq<bool>, n: int) -> Seq<char>
    decreases n,
{
    if n <= 0 {
        Seq::empty()
    } else {
        rows_text(rows, right, n - 1) + cells_text(
            rows[n - 1],
            rows,
            right,
            rows[n - 1].len() as int,
        ) + "\n"@
    }
}

/// A table: rows of cells in aligned columns. The first row holds the headings.
pub open spec fn table(rows: Seq<Seq<Seq<char>>>, right: Seq<bool>) -> Seq<char> {
    rows_text(rows, right, rows.len() as int)
}

proof fn lemma_widest(rows: Seq<Seq<Seq<char>>>, r: int, c: int, n: int)
    requires
        0 <= r < n <= rows.len(),
        0 <= c < rows[r].len(),
    ensures
        rows[r][c].len() <= width_of(rows, c, n),
    decreases n,
{
    if r < n - 1 {
        lemma_widest(rows, r, c, n - 1);
    }
}

/// The cells of a column are all shown as wide as the widest of them, so that the columns of a
/// table line up; and padding hides nothing of a cell.
pub proof fn columns_line_up(rows: Seq<Seq<Seq<char>>>, r: int, c: int, right: bool)
    requires
        0 <= r < rows.len(),
        0 <= c < rows[r].len(),
    ensures
        padded(rows[r][c], width_of(rows, c, rows.len() as int), right).len() == width_of(
            rows,
            c,
            rows.len() as int,
        ),
        if right {
            is_suffix(rows[r][c], padded(rows[r][c], width_of(rows, c, rows.len() as int), right))
        } else {
            is_prefix(rows[r][c], padded(rows[r][c], width_of(rows, c, rows.len() as int), right))
        },
{
    let cell = rows[r][c];
    let width = width_of(rows, c, rows.len() as int);
    lemma_widest(rows, r, c, rows.len() as int);
    let shown = padded(cell, width, right);
    if right {
        assert(shown.subrange(shown.len() - cell.len(), shown.len() as int) =~= cell);
    } else {
        assert(shown.subrange(0, cell.len() as int) =~= cell);
    }
}

fn heading(title: &str, mark: char) -> (r: String)
    ensures
        r@ == underlined(title@, mark),
{
    let mut out = title.to_owned();
    out.append("\n");
    let n: usize = title.unicode_len();
    out.append(&repeat_char(mark, n));
    out.append("\n");
    out
}

/// The title of a document, underlined.
pub fn render_title(project_name: &str) -> (r: String)
    ensures
        r@ == underlined("coati audit — "@ + project_name@, '='),
{
    let mut title = "coati audit — ".to_owned();
    title.append(project_name);
    heading(&title, '=')
}

/// The title of a section, underlined.
pub fn render_section_header(header: &str) -> (r: String)
    ensures
        r@ == underlined(header@, '-'),
{
    heading(header, '-')
}

fn pad(cell: &str, width: usize, right: bool) -> (r: String)
    ensures
        r@ == padded(cell@, width as nat, right),
{
    let n: usize = cell.unicode_len();
    let fill = if width > n {
        repeat_char(' ', width - n)
    } else {
        repeat_char(' ', 0)
    };
    if right {
        fill.concat(cell)
    } else {
        cell.to_owned().concat(&fill)
    }
}

fn column_width(rows: &Vec<Vec<String>>, c: usize) -> (r: usize)
    ensures
        r == width_of(grid(rows@), c as int, rows@.len() as int),
{
    let mut width: usize = 0;
    let mut i: usize = 0;
    while i < rows.len()
        invariant
            i <= rows@.len(),
            width == width_of(grid(rows@), c as int, i as int),
        decreases rows@.len() - i,
    {
        assert(grid(rows@)[i as int] == views(rows@[i as int]@));
        assert(views(rows@[i as int]@).len() == rows@[i as int]@.len());
        if c < rows[i].len() {
            let n: usize = rows[i][c].as_str().unicode_len();
            if n > width {
                width = n;
            }
        }
        i += 1;
    }
    width
}

fn render_row(row: &Vec<String>, widths: &Vec<usize>, right: &Vec<bool>, Ghost(rows): Ghost<
    Seq<Seq<Seq<char>>>,
>) -> (r: String)
    requires
        row@.len() <= widths@.len(),
        row@.len() <= right@.len(),
        forall|c: int|
            0 <= c < widths@.len() ==> #[trigger] widths@[c] == width_of(
                rows,
                c,
                rows.len() as int,
            ),
    ensures
        r@ == cells_text(views(row@), rows, right@, row@.len() as int),
{
    let mut out = String::new();
    let mut c: usize = 0;
    while c < row.len()
        invariant
            c <= row@.len(),
            row@.len() <= widths@.len(),
            row@.len() <= right@.len(),
            views(row@).len() == row@.len(),
            forall|c: int|
                0 <= c < widths@.len() ==> #[trigger] widths@[c] == width_of(
                    rows,
                    c,
                    rows.len() as int,
                ),
            out@ == cells_text(views(row@), rows, right@, c as int),
        decreases row@.len() - c,
    {
        assert(views(row@)[c as int] == row@[c as int]@);
        out.append("  ");
        if c + 1 == row.len() {
            out.append(&row[c]);
        } else {
            out.append(&pad(&row[c], widths[c], right[c]));
        }
        c += 1;
    }
    out
}

/// A table: rows of cells in aligned columns, as many as `right` says how to align.
pub fn render_table(rows: &Vec<Vec<String>>, right: &Vec<bool>) -> (r: String)
    requires
        forall|i: int| 0 <= i < rows@.len() ==> (#[trigger] rows@[i])@.len() == right@.len(),
    ensures
        r@ == table(grid(rows@), right@),
{
    let ghost model = grid(rows@);
    let mut widths: Vec<usize> = Vec::new();
    let mut c: usize = 0;
    while c < right.len()
        invariant
            c <= right@.len(),
            model == grid(rows@),
            widths@.len() == c,
            forall|k: int|
                0 <= k < c ==> #[trigger] widths@[k] == width_of(model, k, model.len() as int),
        decreases right@.len() - c,
    {
        widths.push(column_width(rows, c));
        c += 1;
    }
    let mut out = String::new();
    let mut i: usize = 0;
    while i < rows.len()
        invariant
            i <= rows@.len(),
            model == grid(rows@),
            widths@.len() == right@.len(),
            forall|i: int| 0 <= i < rows@.len() ==> (#[trigger] rows@[i])@.len() == right@.len(),
            forall|k: int|
                0 <= k < widths@.len() ==> #[trigger] widths@[k] == width_of(
                    model,
                    k,
                    model.len() as int,
                ),
            out@ == rows_text(model, right@, i as int),
        decreases rows@.len() - i,
    {
        assert(model[i as int] == views(rows@[i as int]@));
        assert(views(rows@[i as int]@).len() == rows@[i as int]@.len());
        let line = render_row(&rows[i], &widths, right, Ghost(model));
        out.append(&line);
        out.append("\n");
        i += 1;
    }
    out
}

/// What is shown of a number that may not have been measured, with a unit behind it.
pub open spec fn shown_measure(measure: Option<Measure>, unit: Seq<char>) -> Seq<char> {
    match measure {
        Some(m) => m.shown@ + unit,
        None => dash() + unit,
    }
}

/// What is shown of a count that may not have been taken.
pub open spec fn shown_count(count: Option<u64>) -> Seq<char> {
    match count {
        Some(n) => decimal(n as nat),
        None => dash(),
    }
}

/// The section on the suite.
pub open spec fn suite_text(suite: Suite) -> Seq<char> {
    underlined("Suite"@, '-') + "  tests           "@ + shown_count(suite.test_count)
        + "\n  runtime         "@ + shown_measure(suite.runtime_seconds, "s"@)
        + "\n  coverage        "@ + shown_measure(suite.line_coverage_pct, "%"@) + "\n"@
}

fn measure_text(measure: &Option<Measure>, unit: &str) -> (r: String)
    ensures
        r@ == shown_measure(*measure, unit@),
{
    match measure {
        Some(m) => m.shown.clone().concat(unit),
        None => "—".to_owned().concat(unit),
    }
}

/// The section on the suite.
pub fn render_suite(suite: &Suite) -> (r: String)
    ensures
        r@ == suite_text(*suite),
{
    let mut out = render_section_header("Suite");
    out.append("  tests           ");
    match suite.test_count {
        Some(n) => {
            out.append(&number(n));
        },
        None => {
            out.append("—");
        },
    }
    out.append("\n  runtime         ");
    out.append(&measure_text(&suite.runtime_seconds, "s"));
    out.append("\n  coverage        ");
    out.append(&measure_text(&suite.line_coverage_pct, "%"));
    out.append("\n");
    out
}

/// The categories of a list of smells.
pub open spec fn categories(hits: Seq<SmellModel>) -> Set<Seq<char>> {
    Set::new(
        |c: Seq<char>|
            exists|i: int| 0 <= i < hits.len() && (#[trigger] hits[i]).category == c,
    )
}

/// The categories of a list of smells as they are shown: each once, in order.
pub open spec fn shown_smells(hits: Seq<SmellModel>) -> Seq<char> {
    if hits.len() == 0 {
        dash()
    } else {
        join(sorted_of(categories(hits)), ", "@)
    }
}

/// The categories of a list of smells as they are shown.
pub fn join_smell_categories(hits: &Vec<SmellHit>) -> (r: String)
    ensures
        r@ == shown_smells(smell_views(hits@)),
{
    assert(smell_views(hits@).len() == hits@.len());
    if hits.len() == 0 {
        return "—".to_owned();
    }
    let mut set = NameSet::new();
    let mut n: usize = 0;
    assert(set@ =~= categories(smell_views(hits@).take(0)));
    while n < hits.len()
        invariant
            n <= hits@.len(),
            set@ == categories(smell_views(hits@).take(n as int)),
        decreases hits@.len() - n,
    {
        set.insert(hits[n].category.clone());
        proof {
            let short = smell_views(hits@).take(n as int);
            let long = smell_views(hits@).take(n + 1);
            assert(long[n as int] == hits@[n as int]@);
            assert forall|s: Seq<char>| set@.contains(s) == categories(long).contains(s) by {
                if categories(short).contains(s) {
                    let k = choose|k: int|
                        0 <= k < short.len() && (#[trigger] short[k]).category == s;
                    assert(long[k] == short[k]);
                }
                if categories(long).contains(s) {
                    let k = choose|k: int|
                        0 <= k < long.len() && (#[trigger] long[k]).category == s;
                    if k < n {
                        assert(long[k] == short[k]);
                    }
                }
            }
            assert(set@ =~= categories(long));
        }
        n += 1;
    }
    assert(smell_views(hits@).take(n as int) =~= smell_views(hits@));
    let list = set.to_list();
    joined(&list, ", ")
}

/// The headings of the table of tests.
pub open spec fn test_headings() -> Seq<Seq<char>> {
    seq!["score"@, "nodeid"@, "asserts"@, "mocks"@, "stubs"@, "smells"@]
}

/// The row of a test.
pub open spec fn test_row(test: TestModel) -> Seq<Seq<char>> {
    seq![
        test.suspicion_score.shown,
        test.nodeid,
        decimal(test.assertion_count as nat),
        decimal(test.patch_decorator_count as nat),
        decimal(test.stubs_count as nat),
        shown_smells(test.smell_hits),
    ]
}

/// The rows of those of the first `n` identities that belong to a test.
pub open spec fn test_rows(ids: Seq<Seq<char>>, tests: Seq<TestModel>, n: int) -> Seq<
    Seq<Seq<char>>,
>
    decreases n,
{
    if n <= 0 {
        Seq::empty()
    } else {
        let before = test_rows(ids, tests, n - 1);
        match last_with_id(tests, ids[n - 1], tests.len() as int) {
            Some(i) => before.push(test_row(tests[i])),
            None => before,
        }
    }
}

/// `n`, or the length of a list where that is less.
pub open spec fn at_most_len(n: nat, len: nat) -> int {
    if n < len {
        n as int
    } else {
        len as int
    }
}

/// A section with a table, or with a word where the table has no rows.
pub open spec fn table_section(
    title: Seq<char>,
    headings: Seq<Seq<char>>,
    rows: Seq<Seq<Seq<char>>>,
    right: Seq<bool>,
) -> Seq<char> {
    underlined(title, '-') + if rows.len() == 0 {
        "  (none)\n"@
    } else {
        table(seq![headings] + rows, right)
    }
}

/// Which columns of the table of tests are aligned to the right.
pub open spec fn test_alignment() -> Seq<bool> {
    seq![true, false, true, true, true, false]
}

/// The section on the most suspicious tests.
pub open spec fn top_tests_text(ids: Seq<Seq<char>>, tests: Seq<TestModel>, top_n: nat) -> Seq<char> {
    table_section(
        "Top suspicious tests"@,
        test_headings(),
        test_rows(ids, tests, at_most_len(top_n, ids.len())),
        test_alignment(),
    )
}

fn push_cell(row: &mut Vec<String>, cell: String)
    ensures
        views(final(row)@) == views(old(row)@).push(cell@),
        final(row)@.len() == old(row)@.len() + 1,
{
    let ghost before = views(row@);
    row.push(cell);
    assert(views(row@) =~= before.push(cell@));
}

/// The row of a test.
pub fn build_test_row(test: &TestRecord) -> (r: Vec<String>)
    ensures
        views(r@) == test_row(test@),
        r@.len() == 6,
{
    let mut row: Vec<String> = Vec::new();
    push_cell(&mut row, test.suspicion_score.shown.clone());
    push_cell(&mut row, test.nodeid.clone());
    push_cell(&mut row, number(test.assertion_count));
    push_cell(&mut row, number(test.patch_decorator_count));
    push_cell(&mut row, number(test.stubs_count));
    push_cell(&mut row, join_smell_categories(&test.smell_hits));
    assert(views(row@) =~= test_row(test@));
    row
}

fn headings_row(cells: Vec<&'static str>) -> (r: Vec<String>)
    ensures
        views(r@) == Seq::new(cells@.len(), |i: int| cells@[i]@),
        r@.len() == cells@.len(),
{
    let mut row: Vec<String> = Vec::new();
    let mut i: usize = 0;
    while i < cells.len()
        invariant
            i <= cells@.len(),
            row@.len() == i,
            forall|k: int| 0 <= k < i ==> (#[trigger] row@[k])@ == cells@[k]@,
        decreases cells@.len() - i,
    {
        row.push(cells[i].to_owned());
        i += 1;
    }
    assert(views(row@) =~= Seq::new(cells@.len(), |i: int| cells@[i]@));
    row
}

fn section_with_table(title: &str, rows: &Vec<Vec<String>>, right: &Vec<bool>) -> (r: String)
    requires
        rows@.len() > 0,
        forall|i: int| 0 <= i < rows@.len() ==> (#[trigger] rows@[i])@.len() == right@.len(),
    ensures
        r@ == table_section(
            title@,
            grid(rows@)[0],
            grid(rows@).skip(1),
            right@,
        ),
{
    let mut out = render_section_header(title);
    proof {
        assert(grid(rows@).skip(1).len() == rows@.len() - 1);
        assert(seq![grid(rows@)[0]] + grid(rows@).skip(1) =~= grid(rows@));
    }
    if rows.len() == 1 {
        out.append("  (none)\n");
    } else {
        out.append(&render_table(rows, right));
    }
    out
}

fn push_row(rows: &mut Vec<Vec<String>>, row: Vec<String>)
    ensures
        grid(final(rows)@) == grid(old(rows)@).push(views(row@)),
        final(rows)@ == old(rows)@.push(row),
{
    let ghost before = rows@;
    rows.push(row);
    assert(grid(rows@) =~= grid(before).push(views(row@)));
}

/// The section on the most suspicious tests.
pub fn render_top_tests(ids: &Vec<String>, tests: &Vec<TestRecord>, top_n: usize) -> (r: String)
    ensures
        r@ == top_tests_text(views(ids@), test_views(tests@), top_n as nat),
{
    let right: Vec<bool> = vec![true, false, true, true, true, false];
    let first = headings_row(vec!["score", "nodeid", "asserts", "mocks", "stubs", "smells"]);
    let mut rows: Vec<Vec<String>> = Vec::new();
    push_row(&mut rows, first);
    proof {
        assert(right@ =~= test_alignment());
        assert(views(first@) =~= test_headings());
        assert(grid(rows@) =~= seq![test_headings()]);
        assert(grid(rows@) =~= seq![test_headings()] + test_rows(
            views(ids@),
            test_views(tests@),
            0,
        ));
        assert(views(ids@).len() == ids@.len());
    }
    let mut n: usize = 0;
    while n < top_n && n < ids.len()
        invariant
            n <= top_n,
            n <= ids@.len(),
            rows@.len() > 0,
            forall|i: int| 0 <= i < rows@.len() ==> (#[trigger] rows@[i])@.len() == 6,
            grid(rows@) == seq![test_headings()] + test_rows(
                views(ids@),
                test_views(tests@),
                n as int,
            ),
        decreases ids@.len() - n,
    {
        assert(views(ids@)[n as int] == ids@[n as int]@);
        let ghost before = grid(rows@);
        if let Some(i) = find_test(tests, &ids[n]) {
            assert(test_views(tests@)[i as int] == tests@[i as int]@);
            let row = build_test_row(&tests[i]);
            push_row(&mut rows, row);
            assert(before.push(views(row@)) =~= seq![test_headings()] + test_rows(
                views(ids@),
                test_views(tests@),
                n + 1,
            ));
        }
        n += 1;
    }
    proof {
        assert(grid(rows@)[0] == test_headings());
        assert(grid(rows@).skip(1) =~= test_rows(views(ids@), test_views(tests@), n as int));
    }
    section_with_table("Top suspicious tests", &rows, &right)
}

/// The headings of the table of files.
pub open spec fn file_headings() -> Seq<Seq<char>> {
    seq!["score"@, "path"@, "tests"@, "asserts"@, "mocks"@, "stubs"@, "smells"@]
}

/// Which columns of the table of files are aligned to the right.
pub open spec fn file_alignment() -> Seq<bool> {
    seq![true, false, true, true, true, true, false]
}

/// The row of a file with the score that is shown for it.
pub open spec fn file_row(file: FileModel, score: Seq<char>) -> Seq<Seq<char>> {
    seq![
        score,
        file.path,
        decimal(file.test_function_count as nat),
        decimal(file.assertion_count as nat),
        decimal(capped(file.mock_construction_count + file.patch_decorator_count) as nat),
        decimal(file.stubs_count as nat),
        decimal(file.smell_hits.len()),
    ]
}

/// The score that is shown for file `i`.
pub open spec fn file_score(scores: Seq<Measure>, i: int) -> Seq<char> {
    if i < scores.len() {
        scores[i].shown@
    } else {
        "0.00"@
    }
}

/// The last file before position `n` with the path `path`.
pub open spec fn last_with_path(files: Seq<FileModel>, path: Seq<char>, n: int) -> Option<int>
    decreases n,
{
    if n <= 0 || n > files.len() {
        None
    } else if files[n - 1].path == path {
        Some(n - 1)
    } else {
        last_with_path(files, path, n - 1)
    }
}

/// The rows of those of the first `n` paths that belong to a file.
pub open spec fn file_rows(
    paths: Seq<Seq<char>>,
    files: Seq<FileModel>,
    scores: Seq<Measure>,
    n: int,
) -> Seq<Seq<Seq<char>>>
    decreases n,
{
    if n <= 0 {
        Seq::empty()
    } else {
        let before = file_rows(paths, files, scores, n - 1);
        match last_with_path(files, paths[n - 1], files.len() as int) {
            Some(i) => before.push(file_row(files[i], file_score(scores, i))),
            None => before,
        }
    }
}

/// The section on the most suspicious files.
pub open spec fn top_files_text(
    paths: Seq<Seq<char>>,
    files: Seq<FileModel>,
    scores: Seq<Measure>,
    top_n: nat,
) -> Seq<char> {
    table_section(
        "Top suspicious files"@,
        file_headings(),
        file_rows(paths, files, scores, at_most_len(top_n, paths.len())),
        file_alignment(),
    )
}

/// The row of a file.
pub fn build_file_row(file: &FileRecord, score: &str) -> (r: Vec<String>)
    ensures
        views(r@) == file_row(file@, score@),
        r@.len() == 7,
{
    let mut row: Vec<String> = Vec::new();
    push_cell(&mut row, score.to_owned());
    push_cell(&mut row, file.path.clone());
    push_cell(&mut row, number(file.test_function_count));
    push_cell(&mut row, number(file.assertion_count));
    push_cell(
        &mut row,
        number(file.mock_construction_count.saturating_add(file.patch_decorator_count)),
    );
    push_cell(&mut row, number(file.stubs_count));
    assert(smell_views(file.smell_hits@).len() == file.smell_hits@.len());
    push_cell(&mut row, number(file.smell_hits.len() as u64));
    assert(views(row@) =~= file_row(file@, score@));
    row
}

fn find_file(files: &Vec<FileRecord>, path: &str) -> (r: Option<usize>)
    ensures
        match last_with_path(file_views(files@), path@, files@.len() as int) {
            Some(i) => r is Some && r->0 == i && r->0 < files@.len(),
            None => r is None,
        },
{
    let mut n: usize = files.len();
    while n > 0
        invariant
            n <= files@.len(),
            last_with_path(file_views(files@), path@, n as int) == last_with_path(
                file_views(files@),
                path@,
                files@.len() as int,
            ),
        decreases n,
    {
        assert(file_views(files@)[n - 1] == files@[n - 1]@);
        if same(&files[n - 1].path, path) {
            return Some(n - 1);
        }
        n -= 1;
    }
    None
}

fn score_of(scores: &Vec<Measure>, i: usize) -> (r: String)
    ensures
        r@ == file_score(scores@, i as int),
{
    if i < scores.len() {
        scores[i].shown.clone()
    } else {
        "0.00".to_owned()
    }
}

/// The section on the most suspicious files; `scores` are those of the files in their order.
pub fn render_top_files(
    paths: &Vec<String>,
    files: &Vec<FileRecord>,
    scores: &Vec<Measure>,
    top_n: usize,
) -> (r: String)
    ensures
        r@ == top_files_text(views(paths@), file_views(files@), scores@, top_n as nat),
{
    let right: Vec<bool> = vec![true, false, true, true, true, true, false];
    let first = headings_row(
        vec!["score", "path", "tests", "asserts", "mocks", "stubs", "smells"],
    );
    let mut rows: Vec<Vec<String>> = Vec::new();
    push_row(&mut rows, first);
    proof {
        assert(right@ =~= file_alignment());
        assert(views(first@) =~= file_headings());
        assert(grid(rows@) =~= seq![file_headings()]);
        assert(grid(rows@) =~= seq![file_headings()] + file_rows(
            views(paths@),
            file_views(files@),
            scores@,
            0,
        ));
        assert(views(paths@).len() == paths@.len());
    }
    let mut n: usize = 0;
    while n < top_n && n < paths.len()
        invariant
            n <= top_n,
            n <= paths@.len(),
            rows@.len() > 0,
            forall|i: int| 0 <= i < rows@.len() ==> (#[trigger] rows@[i])@.len() == 7,
            grid(rows@) == seq![file_headings()] + file_rows(
                views(paths@),
                file_views(files@),
                scores@,
                n as int,
            ),
        decreases paths@.len() - n,
    {
        assert(views(paths@)[n as int] == paths@[n as int]@);
        let ghost before = grid(rows@);
        if let Some(i) = find_file(files, &paths[n]) {
            assert(file_views(files@)[i as int] == files@[i as int]@);
            let row = build_file_row(&files[i], &score_of(scores, i));
            push_row(&mut rows, row);
            assert(before.push(views(row@)) =~= seq![file_headings()] + file_rows(
                views(paths@),
                file_views(files@),
                scores@,
                n + 1,
            ));
        }
        n += 1;
    }
    proof {
        assert(grid(rows@)[0] == file_headings());
        assert(grid(rows@).skip(1) =~= file_rows(
            views(paths@),
            file_views(files@),
            scores@,
            n as int,
        ));
    }
    section_with_table("Top suspicious files", &rows, &right)
}

/// How often `name` is called, by the last of the first `n` entries with that name; never where
/// there is none.
pub open spec fn count_for(calls: SutCallsModel, name: Seq<char>, n: int) -> u64
    decreases n,
{
    if n <= 0 {
        0
    } else if calls.by_name[n - 1].name == name {
        calls.by_name[n - 1].test_function_count
    } else {
        count_for(calls, name, n - 1)
    }
}

/// The rows of the most called names.
pub open spec fn call_rows(calls: SutCallsModel) -> Seq<Seq<Seq<char>>> {
    Seq::new(
        calls.top_called.len(),
        |i: int|
            seq![
                decimal(
                    count_for(calls, calls.top_called[i], calls.by_name.len() as int) as nat,
                ),
                calls.top_called[i],
            ],
    )
}

/// The section on the most called names.
pub open spec fn sut_calls_text(calls: SutCallsModel) -> Seq<char> {
    table_section(
        "SUT calls (top 20)"@,
        seq!["count"@, "name"@],
        call_rows(calls),
        seq![true, false],
    )
}

fn count_of(calls: &SutCalls, name: &str) -> (r: u64)
    ensures
        r == count_for(calls@, name@, calls@.by_name.len() as int),
{
    let mut n: usize = calls.by_name.len();
    while n > 0
        invariant
            n <= calls.by_name@.len(),
            calls@.by_name.len() == calls.by_name@.len(),
            count_for(calls@, name@, n as int) == count_for(
                calls@,
                name@,
                calls@.by_name.len() as int,
            ),
        decreases n,
    {
        assert(calls@.by_name[n - 1] == calls.by_name@[n - 1]@);
        if same(&calls.by_name[n - 1].name, name) {
            return calls.by_name[n - 1].test_function_count;
        }
        n -= 1;
    }
    0
}

/// The section on the most called names.
pub fn render_sut_calls(calls: &SutCalls) -> (r: String)
    ensures
        r@ == sut_calls_text(calls@),
{
    let right: Vec<bool> = vec![true, false];
    let first = headings_row(vec!["count", "name"]);
    let mut rows: Vec<Vec<String>> = Vec::new();
    push_row(&mut rows, first);
    let ghost headings = seq!["count"@, "name"@];
    proof {
        assert(right@ =~= seq![true, false]);
        assert(views(first@) =~= headings);
        assert(grid(rows@) =~= seq![headings] + call_rows(calls@).take(0));
    }
    let mut n: usize = 0;
    while n < calls.top_called.len()
        invariant
            n <= calls.top_called@.len(),
            headings == seq!["count"@, "name"@],
            rows@.len() > 0,
            calls@.top_called.len() == calls.top_called@.len(),
            forall|i: int| 0 <= i < rows@.len() ==> (#[trigger] rows@[i])@.len() == 2,
            grid(rows@) == seq![headings] + call_rows(calls@).take(n as int),
        decreases calls.top_called@.len() - n,
    {
        assert(calls@.top_called[n as int] == calls.top_called@[n as int]@);
        let ghost before = grid(rows@);
        let mut row: Vec<String> = Vec::new();
        push_cell(&mut row, number(count_of(calls, &calls.top_called[n])));
        push_cell(&mut row, calls.top_called[n].clone());
        proof {
            assert(views(row@) =~= call_rows(calls@)[n as int]);
        }
        push_row(&mut rows, row);
        proof {
            assert(call_rows(calls@).take(n + 1) =~= call_rows(calls@).take(n as int).push(
                call_rows(calls@)[n as int],
            ));
            assert(before.push(views(row@)) =~= seq![headings] + call_rows(calls@).take(n + 1));
        }
        n += 1;
    }
    proof {
        assert(grid(rows@)[0] == headings);
        assert(grid(rows@).skip(1) =~= call_rows(calls@));
    }
    section_with_table("SUT calls (top 20)", &rows, &right)
}

/// One line for each of the first `n` acceptances in effect.
pub open spec fn finding_lines(findings: Seq<AcceptedFinding>, n: int) -> Seq<char>
    decreases n,
{
    if n <= 0 {
        Seq::empty()
    } else {
        let f = findings[n - 1];
        finding_lines(findings, n - 1) + "  "@ + f.test@ + "  "@ + f.signal@ + "  "@ + f.reason@
            + "\n"@
    }
}

/// One line for each of the first `n` acceptances that apply no longer.
pub open spec fn stale_lines(stale: Seq<StaleAcceptance>, n: int) -> Seq<char>
    decreases n,
{
    if n <= 0 {
        Seq::empty()
    } else {
        let s = stale[n - 1];
        stale_lines(stale, n - 1) + "  "@ + s.test@ + "  "@ + s.signal@ + "  "@ + s.status@ + "  "@
            + s.detail@ + "\n"@
    }
}

/// The sections on accepted findings; each is left out where it would be empty.
pub open spec fn accepted_text(accepted: Accepted) -> Seq<char> {
    let findings = if accepted.findings@.len() == 0 {
        Seq::empty()
    } else {
        "\n"@ + underlined(
            if accepted.included_in_shortlist {
                "Accepted findings (kept on the shortlist)"@
            } else {
                "Accepted findings (held back from the shortlist)"@
            },
            '-',
        ) + finding_lines(accepted.findings@, accepted.findings@.len() as int)
    };
    let stale = if accepted.stale@.len() == 0 {
        Seq::empty()
    } else {
        "\n"@ + underlined("Stale acceptances (actionable again)"@, '-') + stale_lines(
            accepted.stale@,
            accepted.stale@.len() as int,
        )
    };
    findings + stale
}

fn render_findings(findings: &Vec<AcceptedFinding>) -> (r: String)
    ensures
        r@ == finding_lines(findings@, findings@.len() as int),
{
    let mut out = String::new();
    let mut n: usize = 0;
    while n < findings.len()
        invariant
            n <= findings@.len(),
            out@ == finding_lines(findings@, n as int),
        decreases findings@.len() - n,
    {
        out.append("  ");
        out.append(&findings[n].test);
        out.append("  ");
        out.append(&findings[n].signal);
        out.append("  ");
        out.append(&findings[n].reason);
        out.append("\n");
        n += 1;
    }
    out
}

fn render_stale(stale: &Vec<StaleAcceptance>) -> (r: String)
    ensures
        r@ == stale_lines(stale@, stale@.len() as int),
{
    let mut out = String::new();
    let mut n: usize = 0;
    while n < stale.len()
        invariant
            n <= stale@.len(),
            out@ == stale_lines(stale@, n as int),
        decreases stale@.len() - n,
    {
        out.append("  ");
        out.append(&stale[n].test);
        out.append("  ");
        out.append(&stale[n].signal);
        out.append("  ");
        out.append(&stale[n].status);
        out.append("  ");
        out.append(&stale[n].detail);
        out.append("\n");
        n += 1;
    }
    out
}

/// The sections on accepted findings.
pub fn render_accepted(accepted: &Accepted) -> (r: String)
    ensures
        r@ == accepted_text(*accepted),
{
    let mut first = String::new();
    if accepted.findings.len() > 0 {
        first.append("\n");
        if accepted.included_in_shortlist {
            first.append(&render_section_header("Accepted findings (kept on the shortlist)"));
        } else {
            first.append(
                &render_section_header("Accepted findings (held back from the shortlist)"),
            );
        }
        first.append(&render_findings(&accepted.findings));
        assert(first@ =~= "\n"@ + underlined(
            if accepted.included_in_shortlist {
                "Accepted findings (kept on the shortlist)"@
            } else {
                "Accepted findings (held back from the shortlist)"@
            },
            '-',
        ) + finding_lines(accepted.findings@, accepted.findings@.len() as int));
    }
    let mut second = String::new();
    if accepted.stale.len() > 0 {
        second.append("\n");
        second.append(&render_section_header("Stale acceptances (actionable again)"));
        second.append(&render_stale(&accepted.stale));
        assert(second@ =~= "\n"@ + underlined("Stale acceptances (actionable again)"@, '-')
            + stale_lines(accepted.stale@, accepted.stale@.len() as int));
    }
    first.concat(&second)
}

/// An inventory as text: its title, its suite, its shortlists of tests and files, its calls, and
/// its accepted findings.
pub open spec fn inventory_text(inventory: Inventory, file_scores: Seq<Measure>, top_n: nat) -> Seq<
    char,
> {
    underlined("coati audit — "@ + inventory.project.name@, '=') + "\n"@ + suite_text(
        inventory.suite,
    ) + "\n"@ + top_tests_text(
        views(inventory.top_suspicious.test_functions@),
        test_views(inventory.test_functions@),
        top_n,
    ) + "\n"@ + top_files_text(
        views(inventory.top_suspicious.files@),
        file_views(inventory.files@),
        file_scores,
        top_n,
    ) + "\n"@ + sut_calls_text(inventory.sut_calls@) + accepted_text(inventory.accepted)
}

/// An inventory as text. `file_scores` are the scores of its files in their order.
pub fn render(inventory: &Inventory, file_scores: &Vec<Measure>, top_n: usize) -> (r: String)
    ensures
        r@ == inventory_text(*inventory, file_scores@, top_n as nat),
{
    let mut out = render_title(&inventory.project.name);
    out.append("\n");
    out.append(&render_suite(&inventory.suite));
    out.append("\n");
    out.append(
        &render_top_tests(
            &inventory.top_suspicious.test_functions,
            &inventory.test_functions,
            top_n,
        ),
    );
    out.append("\n");
    out.append(
        &render_top_files(
            &inventory.top_suspicious.files,
            &inventory.files,
            file_scores,
            top_n,
        ),
    );
    out.append("\n");
    out.append(&render_sut_calls(&inventory.sut_calls));
    out.append(&render_accepted(&inventory.accepted));
    out
}

/// The title of the audit of a workspace.
pub open spec fn workspace_title(root: Seq<char>, count: nat) -> Seq<char> {
    underlined(
        "pycoati workspace audit — "@ + basename(root) + " ("@ + decimal(count) + " members)"@,
        '=',
    )
}

/// The first `n` members of a workspace, each behind its name.
pub open spec fn members_text(
    members: Seq<Inventory>,
    file_scores: Seq<Vec<Measure>>,
    top_n: nat,
    n: int,
) -> Seq<char>
    decreases n,
{
    if n <= 0 {
        Seq::empty()
    } else {
        let m = members[n - 1];
        members_text(members, file_scores, top_n, n - 1) + "\n"@ + underlined(
            "Member: "@ + m.project.name@,
            '-',
        ) + inventory_text(m, file_scores[n - 1]@, top_n)
    }
}

/// The audit of a workspace as text: its title, and each member behind its name. `file_scores`
/// are the scores of the members' files.
pub fn render_workspace(
    workspace: &WorkspaceInventory,
    file_scores: &Vec<Vec<Measure>>,
    top_n: usize,
) -> (r: String)
    requires
        file_scores@.len() == workspace.members@.len(),
    ensures
        r@ == workspace_title(workspace.workspace_root@, workspace.members@.len()) + members_text(
            workspace.members@,
            file_scores@,
            top_n as nat,
            workspace.members@.len() as int,
        ),
{
    let mut title = "pycoati workspace audit — ".to_owned();
    title.append(&file_name(&workspace.workspace_root));
    title.append(" (");
    title.append(&number(workspace.members.len() as u64));
    title.append(" members)");
    let mut body = String::new();
    let mut i: usize = 0;
    while i < workspace.members.len()
        invariant
            i <= workspace.members@.len(),
            file_scores@.len() == workspace.members@.len(),
            body@ == members_text(workspace.members@, file_scores@, top_n as nat, i as int),
        decreases workspace.members@.len() - i,
    {
        let member = &workspace.members[i];
        let mut name = "Member: ".to_owned();
        name.append(&member.project.name);
        body.append("\n");
        body.append(&render_section_header(&name));
        body.append(&render(member, &file_scores[i], top_n));
        i += 1;
    }
    heading(&title, '=').concat(&body)
}

/// The line behind an audit that found something to look at.
pub const SCAN_FOOTER: &'static str = "\nnext: run `pycoati guide analyze`";

/// What is written for a reader: the rendered audit, and where it found something to look at the
/// line that says how to go on.
pub fn with_footer(rendered: String, found_candidates: bool) -> (r: String)
    ensures
        r@ == if found_candidates {
            rendered@ + SCAN_FOOTER@
        } else {
            rendered@
        },
{
    if found_candidates {
        rendered.concat(SCAN_FOOTER)
    } else {
        rendered
    }
}

} // verus!
