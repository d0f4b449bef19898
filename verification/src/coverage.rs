//! What a coverage run leaves behind, and how its failure is reported.
use vstd::prelude::*;
use vstd::string::*;

use crate::content::{lines_hold_no_newline, single_lines};
use crate::json::{json_document, read_json, under_key, Json, JsonModel};
use crate::numerals::{contains_sub, has_text, is_float_text, writes_float};
use crate::text::{
    chars_of, cut, decimal, lines, lines_of, number, opt_view, trim, trim_end, trim_start, trimmed,
    views,
};

verus! {

/// What the report file of a coverage run holds.
#[derive(Debug)]
pub enum ReportOutcome {
    /// A JSON value.
    Parsed(Json),
    /// Nothing but white space.
    Empty,
    /// Something that is not JSON, and why it is not.
    Malformed(String),
}

/// What a `ReportOutcome` says.
pub enum ReportModel {
    Parsed(JsonModel),
    Empty,
    Malformed(Seq<char>),
}

impl View for ReportOutcome {
    type V = ReportModel;

    open spec fn view(&self) -> ReportModel {
        match self {
            ReportOutcome::Parsed(v) => ReportModel::Parsed(v@),
            ReportOutcome::Empty => ReportModel::Empty,
            ReportOutcome::Malformed(e) => ReportModel::Malformed(e@),
        }
    }
}

/// What a report file with the contents `raw` holds.
pub open spec fn report_of(raw: Seq<char>) -> ReportModel {
    if trim(raw).len() == 0 {
        ReportModel::Empty
    } else {
        match json_document(raw) {
            Ok(value) => ReportModel::Parsed(value),
            Err(e) => ReportModel::Malformed(e),
        }
    }
}

/// What a report file with the contents `raw` holds.
pub fn classify_raw_report(raw: &str) -> (r: ReportOutcome)
    ensures
        r@ == report_of(raw@),
{
    if trimmed(raw).as_str().is_empty() {
        return ReportOutcome::Empty;
    }
    match read_json(raw) {
        Ok(value) => ReportOutcome::Parsed(value),
        Err(e) => ReportOutcome::Malformed(e),
    }
}

/// An exit code in decimal.
pub open spec fn exit_text(code: i32) -> Seq<char> {
    if code < 0 {
        "-"@ + decimal((-(code as int)) as nat)
    } else {
        decimal(code as nat)
    }
}

/// The last of the first `n` lines that is not blank, without the white space around it.
pub open spec fn last_line(all: Seq<Seq<char>>, n: int) -> Option<Seq<char>>
    decreases n,
{
    if n <= 0 {
        None
    } else if trim(all[n - 1]).len() > 0 {
        Some(trim(all[n - 1]))
    } else {
        last_line(all, n - 1)
    }
}

/// So many characters of a line are shown.
pub const SHOWN_CHARACTERS: usize = 300;

/// The first characters of a line, as many as are shown.
pub open spec fn clipped(line: Seq<char>) -> Seq<char> {
    if line.len() > SHOWN_CHARACTERS {
        line.subrange(0, SHOWN_CHARACTERS as int)
    } else {
        line
    }
}

/// What is shown of an error output: its last line that is not blank.
pub open spec fn shown_error(stderr: Seq<char>) -> Option<Seq<char>> {
    match last_line(lines_of(stderr), lines_of(stderr).len() as int) {
        Some(line) => Some(clipped(line)),
        None => None,
    }
}

/// How every report of a failed coverage run begins.
pub open spec fn failure_headline(exit_code: i32) -> Seq<char> {
    "no coverage data produced (pytest exit="@ + exit_text(exit_code) + ")"@
}

/// How a failed coverage run is reported: that the plugin is missing where the error output says
/// so, else the last line of the error output.
pub open spec fn failure_line(exit_code: i32, stderr: Seq<char>) -> Seq<char> {
    if has_text(stderr, "unrecognized arguments"@) && has_text(stderr, "--cov"@) {
        failure_headline(exit_code)
            + ": pytest does not recognise --cov; install pytest-cov (`uv add --dev pytest-cov`) or pass --no-coverage"@
    } else {
        match shown_error(stderr) {
            Some(line) => failure_headline(exit_code) + ": "@ + line,
            None => failure_headline(exit_code),
        }
    }
}

fn exit_number(code: i32) -> (r: String)
    ensures
        r@ == exit_text(code),
{
    if code < 0 {
        let mut out = "-".to_owned();
        let magnitude: u64 = (-(code as i64)) as u64;
        out.append(&number(magnitude));
        out
    } else {
        number(code as u64)
    }
}

/// The last line of an error output that is not blank, as much of it as is shown.
pub fn last_stderr_line(stderr: &str) -> (r: Option<String>)
    ensures
        opt_view(r) == shown_error(stderr@),
{
    let all = lines(stderr);
    assert(views(all@).len() == all@.len());
    let mut n: usize = all.len();
    while n > 0
        invariant
            n <= all@.len(),
            views(all@) == lines_of(stderr@),
            last_line(views(all@), n as int) == last_line(views(all@), views(all@).len() as int),
        decreases n,
    {
        assert(views(all@)[n - 1] == all@[n - 1]@);
        let line = trimmed(&all[n - 1]);
        if !line.as_str().is_empty() {
            let chars = chars_of(&line);
            if chars.len() > SHOWN_CHARACTERS {
                return Some(cut(&chars, 0, SHOWN_CHARACTERS));
            }
            return Some(line);
        }
        n -= 1;
    }
    None
}

/// How a failed coverage run is reported, in one line.
pub fn coverage_failure_line(exit_code: i32, stderr: &str) -> (r: String)
    ensures
        r@ == failure_line(exit_code, stderr@),
{
    let mut out = "no coverage data produced (pytest exit=".to_owned();
    out.append(&exit_number(exit_code));
    out.append(")");
    if contains_sub(stderr, "unrecognized arguments") && contains_sub(stderr, "--cov") {
        out.append(
            ": pytest does not recognise --cov; install pytest-cov (`uv add --dev pytest-cov`) or pass --no-coverage",
        );
        return out;
    }
    if let Some(line) = last_stderr_line(stderr) {
        out.append(": ");
        out.append(&line);
    }
    out
}

/// The coverage that a report states.
#[derive(Debug)]
pub enum Percent {
    /// As a number, by its bit pattern.
    Number(u64),
    /// As a text that writes a number.
    Text(String),
}

/// What a `Percent` says.
pub enum PercentModel {
    Number(u64),
    Text(Seq<char>),
}

pub open spec fn percent_view(o: Option<Percent>) -> Option<PercentModel> {
    match o {
        Some(Percent::Number(bits)) => Some(PercentModel::Number(bits)),
        Some(Percent::Text(s)) => Some(PercentModel::Text(s@)),
        None => None,
    }
}

/// The coverage that a report states in its totals: as a number, or else as a displayed text that
/// writes one.
pub open spec fn percent_of(report: JsonModel) -> Option<PercentModel> {
    match under_key(report, "totals"@) {
        Some(totals) => match under_key(totals, "percent_covered"@) {
            Some(JsonModel::Number(bits)) => Some(PercentModel::Number(bits)),
            _ => match under_key(totals, "percent_covered_display"@) {
                Some(JsonModel::Text(s)) => if writes_float(s) {
                    Some(PercentModel::Text(s))
                } else {
                    None
                },
                _ => None,
            },
        },
        None => None,
    }
}

/// The coverage that a report states.
pub fn extract_percent_covered(report: &Json) -> (r: Option<Percent>)
    ensures
        percent_view(r) == percent_of(report@),
{
    let totals = match report.get("totals") {
        Some(totals) => totals,
        None => {
            return None;
        },
    };
    if let Some(Json::Number(bits)) = totals.get("percent_covered") {
        return Some(Percent::Number(*bits));
    }
    if let Some(Json::Text(s)) = totals.get("percent_covered_display") {
        if is_float_text(s) {
            return Some(Percent::Text(s.clone()));
        }
    }
    None
}

/// What a coverage run comes to.
#[derive(Debug)]
pub struct CoverageOutcome {
    /// The coverage that it measured.
    pub percent: Option<Percent>,
    /// What there is to say where it measured none.
    pub warning: Option<String>,
    /// What kept its report from being read, beside that.
    pub cause: Option<String>,
}

/// What there is to say of a coverage run that measured nothing.
pub open spec fn coverage_warning(exit_code: i32, stderr: Seq<char>, report: Option<Seq<char>>) -> Option<
    Seq<char>,
> {
    match report {
        None => Some("coverage JSON report was not written"@),
        Some(raw) => match report_of(raw) {
            ReportModel::Parsed(value) => if percent_of(value) is Some {
                None
            } else {
                Some(
                    "coverage JSON missing both totals.percent_covered and percent_covered_display"@,
                )
            },
            _ => Some(failure_line(exit_code, stderr)),
        },
    }
}

/// What a coverage run comes to, given how it ended and the contents of its report, if it wrote
/// one.
pub fn conclude_coverage(exit_code: i32, stderr: &str, report: &Option<String>) -> (r:
    CoverageOutcome)
    ensures
        percent_view(r.percent) == (match opt_view(*report) {
            Some(raw) => match report_of(raw) {
                ReportModel::Parsed(value) => percent_of(value),
                _ => None,
            },
            None => None,
        }),
        opt_view(r.warning) == coverage_warning(exit_code, stderr@, opt_view(*report)),
        opt_view(r.cause) == (match opt_view(*report) {
            Some(raw) => match report_of(raw) {
                ReportModel::Malformed(e) => Some(e),
                _ => None,
            },
            None => None,
        }),
{
    let raw = match report {
        Some(raw) => raw,
        None => {
            return CoverageOutcome {
                percent: None,
                warning: Some("coverage JSON report was not written".to_owned()),
                cause: None,
            };
        },
    };
    match classify_raw_report(raw) {
        ReportOutcome::Parsed(value) => {
            let percent = extract_percent_covered(&value);
            let warning = match &percent {
                Some(_) => None,
                None => Some(
                    "coverage JSON missing both totals.percent_covered and percent_covered_display".to_owned(),
                ),
            };
            CoverageOutcome { percent, warning, cause: None }
        },
        ReportOutcome::Empty => CoverageOutcome {
            percent: None,
            warning: Some(coverage_failure_line(exit_code, stderr)),
            cause: None,
        },
        ReportOutcome::Malformed(e) => CoverageOutcome {
            percent: None,
            warning: Some(coverage_failure_line(exit_code, stderr)),
            cause: Some(e),
        },
    }
}

/// A text without a newline.
pub open spec fn one_line(s: Seq<char>) -> bool {
    forall|i: int| 0 <= i < s.len() ==> #[trigger] s[i] != '\n'
}

proof fn lemma_decimal_one_line(n: nat)
    ensures
        one_line(decimal(n)),
    decreases n,
{
    if n >= 10 {
        lemma_decimal_one_line(n / 10);
    }
}

proof fn lemma_trim_one_line(s: Seq<char>)
    requires
        one_line(s),
    ensures
        one_line(trim(s)),
{
    lemma_trim_end_one_line(s);
    lemma_trim_start_one_line(trim_end(s));
}

proof fn lemma_trim_end_one_line(s: Seq<char>)
    requires
        one_line(s),
    ensures
        one_line(trim_end(s)),
    decreases s.len(),
{
    if s.len() > 0 {
        lemma_trim_end_one_line(s.drop_last());
    }
}

proof fn lemma_trim_start_one_line(s: Seq<char>)
    requires
        one_line(s),
    ensures
        one_line(trim_start(s)),
    decreases s.len(),
{
    if s.len() > 0 {
        lemma_trim_start_one_line(s.drop_first());
    }
}

proof fn lemma_last_line_one_line(all: Seq<Seq<char>>, n: int)
    requires
        0 <= n <= all.len(),
        single_lines(all),
    ensures
        last_line(all, n) matches Some(line) ==> one_line(line),
    decreases n,
{
    if n > 0 {
        lemma_last_line_one_line(all, n - 1);
        let line = all[n - 1];
        assert forall|k: int| 0 <= k < line.len() implies #[trigger] line[k] != '\n' by {
            assert(all[n - 1][k] != '\n');
        }
        lemma_trim_one_line(line);
    }
}

/// The report of a failed coverage run is a single line, and shows no more than so many characters
/// of the error output.
pub proof fn coverage_failures_take_one_line(exit_code: i32, stderr: Seq<char>)
    ensures
        one_line(failure_line(exit_code, stderr)),
        shown_error(stderr) matches Some(line) ==> line.len() <= SHOWN_CHARACTERS,
{
    reveal_strlit("no coverage data produced (pytest exit=");
    reveal_strlit(")");
    reveal_strlit(": ");
    reveal_strlit("-");
    reveal_strlit(
        ": pytest does not recognise --cov; install pytest-cov (`uv add --dev pytest-cov`) or pass --no-coverage",
    );
    if exit_code < 0 {
        lemma_decimal_one_line((-(exit_code as int)) as nat);
    } else {
        lemma_decimal_one_line(exit_code as nat);
    }
    lines_hold_no_newline(stderr);
    lemma_last_line_one_line(lines_of(stderr), lines_of(stderr).len() as int);
    assert(one_line(failure_headline(exit_code)));
}

} // verus!
