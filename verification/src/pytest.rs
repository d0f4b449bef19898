//! What pytest is asked, and what its answers say.
use vstd::prelude::*;
use vstd::string::*;

use crate::numerals::{
    ascii_lower, contains_sub, find_in, find_text, has_text, is_float_text, lower_from,
    parse_unsigned, unsigned_value, writes_float,
};
use crate::text::{
    chars_of, cut, is_space, join, joined, lines, lines_of, opt_view, same, space, split_whitespace,
    trim, trimmed, views, words,
};

verus! {

/// How many of the slowest tests are kept.
pub const SLOWEST_TESTS_CAP: usize = 20;

/// What a collection run gives.
#[derive(Debug)]
pub struct CollectionOutcome {
    pub test_count: Option<u64>,
}

impl Default for CollectionOutcome {
    fn default() -> (r: CollectionOutcome)
        ensures
            r.test_count is None,
    {
        CollectionOutcome { test_count: None }
    }
}

/// A part of the arguments that every run has: `addopts=` takes back what the project's own
/// configuration adds.
pub open spec fn pytest_call(flags: Seq<Seq<char>>) -> Seq<Seq<char>> {
    seq!["-m"@, "pytest"@, "-o"@, "addopts="@] + flags
}

/// The arguments of a run: those of the interpreter, the flags of the run, where the tests are,
/// and what the user adds.
pub open spec fn run_args(
    extra: Seq<Seq<char>>,
    flags: Seq<Seq<char>>,
    tests_dir: Seq<char>,
    user: Seq<Seq<char>>,
) -> Seq<Seq<char>> {
    (extra + pytest_call(flags)).push(tests_dir) + user
}

fn push_all(out: &mut Vec<String>, more: &Vec<String>)
    ensures
        views(final(out)@) == views(old(out)@) + views(more@),
{
    let ghost start = views(out@);
    let mut i: usize = 0;
    assert(start + views(more@).take(0) =~= start);
    while i < more.len()
        invariant
            i <= more@.len(),
            views(out@) == start + views(more@).take(i as int),
        decreases more@.len() - i,
    {
        let ghost before = views(out@);
        out.push(more[i].clone());
        proof {
            assert(views(out@) =~= before.push(more@[i as int]@));
            assert(views(more@).take(i + 1) =~= views(more@).take(i as int).push(
                views(more@)[i as int],
            ));
            assert(start + views(more@).take(i + 1) =~= (start + views(more@).take(i as int)).push(
                views(more@)[i as int],
            ));
        }
        i += 1;
    }
    assert(views(more@).take(i as int) =~= views(more@));
}

fn push_text(out: &mut Vec<String>, text: &str)
    ensures
        views(final(out)@) == views(old(out)@).push(text@),
{
    let ghost start = views(out@);
    out.push(text.to_owned());
    assert(views(out@) =~= start.push(text@));
}

fn build_args(extra: &Vec<String>, flags: &Vec<String>, tests_dir: &str, user: &Vec<String>) -> (r:
    Vec<String>)
    ensures
        views(r@) == run_args(views(extra@), views(flags@), tests_dir@, views(user@)),
{
    let mut args: Vec<String> = Vec::new();
    push_all(&mut args, extra);
    push_text(&mut args, "-m");
    push_text(&mut args, "pytest");
    push_text(&mut args, "-o");
    push_text(&mut args, "addopts=");
    push_all(&mut args, flags);
    proof {
        assert(views(args@) =~= views(extra@) + pytest_call(views(flags@)));
    }
    push_text(&mut args, tests_dir);
    push_all(&mut args, user);
    args
}

/// The flags of a collection run.
pub open spec fn collection_flags() -> Seq<Seq<char>> {
    seq!["--collect-only"@, "-q"@]
}

/// The flags of a durations run.
pub open spec fn durations_flags() -> Seq<Seq<char>> {
    seq!["--durations=0"@, "--durations-min=0"@, "-q"@]
}

/// The flags of a coverage run for a package that writes its report to a file.
pub open spec fn coverage_flags(package: Seq<char>, report: Seq<char>) -> Seq<Seq<char>> {
    seq!["--cov="@ + package, "--cov-report=json:"@ + report, "-q"@]
}

/// The arguments of a collection run.
pub fn collection_args(extra_python_args: &Vec<String>, tests_dir: &str, pytest_args: &Vec<String>) -> (r:
    Vec<String>)
    ensures
        views(r@) == run_args(
            views(extra_python_args@),
            collection_flags(),
            tests_dir@,
            views(pytest_args@),
        ),
{
    let mut flags: Vec<String> = Vec::new();
    push_text(&mut flags, "--collect-only");
    push_text(&mut flags, "-q");
    assert(views(flags@) =~= collection_flags());
    build_args(extra_python_args, &flags, tests_dir, pytest_args)
}

/// The arguments of a durations run.
pub fn durations_args(extra_python_args: &Vec<String>, tests_dir: &str, pytest_args: &Vec<String>) -> (r:
    Vec<String>)
    ensures
        views(r@) == run_args(
            views(extra_python_args@),
            durations_flags(),
            tests_dir@,
            views(pytest_args@),
        ),
{
    let mut flags: Vec<String> = Vec::new();
    push_text(&mut flags, "--durations=0");
    push_text(&mut flags, "--durations-min=0");
    push_text(&mut flags, "-q");
    assert(views(flags@) =~= durations_flags());
    build_args(extra_python_args, &flags, tests_dir, pytest_args)
}

/// The arguments of a coverage run.
pub fn coverage_args(
    extra_python_args: &Vec<String>,
    tests_dir: &str,
    pytest_args: &Vec<String>,
    package: &str,
    report: &str,
) -> (r: Vec<String>)
    ensures
        views(r@) == run_args(
            views(extra_python_args@),
            coverage_flags(package@, report@),
            tests_dir@,
            views(pytest_args@),
        ),
{
    let mut flags: Vec<String> = Vec::new();
    let mut cov = "--cov=".to_owned();
    cov.append(package);
    let mut target = "--cov-report=json:".to_owned();
    target.append(report);
    push_text(&mut flags, &cov);
    push_text(&mut flags, &target);
    push_text(&mut flags, "-q");
    assert(views(flags@) =~= coverage_flags(package@, report@));
    build_args(extra_python_args, &flags, tests_dir, pytest_args)
}

/// The number before the word `test` or `tests`, where these two are all that a line says before
/// the first ` collected`.
pub open spec fn counted_tests(line: Seq<char>) -> Option<u64> {
    match find_text(line, " collected"@, 0) {
        Some(i) => {
            let found = words(line.subrange(0, i));
            if found.len() == 2 && (found[1] == "test"@ || found[1] == "tests"@) {
                unsigned_value(found[0])
            } else {
                None
            }
        },
        None => None,
    }
}

/// The count that a line states, if it is a summary: `<N> tests collected`, whatever follows.
pub open spec fn stated_count(line: Seq<char>) -> Option<u64> {
    if has_text(trim(line), " collected"@) {
        counted_tests(trim(line))
    } else {
        None
    }
}

/// The count that the first summary at or after line `i` states.
pub open spec fn first_count(all: Seq<Seq<char>>, i: int) -> Option<u64>
    decreases all.len() - i,
{
    if i < 0 || i >= all.len() {
        None
    } else {
        match stated_count(all[i]) {
            Some(n) => Some(n),
            None => first_count(all, i + 1),
        }
    }
}

/// A line that is a test's identity: it holds `::` and begins with neither white space nor a
/// separator.
pub open spec fn nodeid_line(line: Seq<char>) -> bool {
    line.len() > 0 && !is_space(line[0]) && line[0] != '=' && line[0] != '_' && has_text(
        line,
        "::"@,
    )
}

/// How many of the first `n` lines are tests' identities.
pub open spec fn nodeid_lines(all: Seq<Seq<char>>, n: int) -> nat
    decreases n,
{
    if n <= 0 {
        0
    } else {
        nodeid_lines(all, n - 1) + if nodeid_line(all[n - 1]) {
            1nat
        } else {
            0nat
        }
    }
}

/// How many tests a collection run found: what it states, or else how many it lists.
pub open spec fn collection_count(stdout: Seq<char>) -> Option<u64> {
    let all = lines_of(stdout);
    match first_count(all, 0) {
        Some(n) => Some(n),
        None => if nodeid_lines(all, all.len() as int) > 0 {
            Some(nodeid_lines(all, all.len() as int) as u64)
        } else {
            None
        },
    }
}

fn read_counted_tests(line: &str) -> (r: Option<u64>)
    ensures
        r == counted_tests(line@),
{
    let chars = chars_of(line);
    let front = match find_in(&chars, " collected", 0) {
        Some(i) => cut(&chars, 0, i),
        None => {
            return None;
        },
    };
    let found = split_whitespace(&front);
    assert(views(found@).len() == found@.len());
    if found.len() == 2 {
        assert(views(found@)[0] == found@[0]@);
        assert(views(found@)[1] == found@[1]@);
        if same(&found[1], "test") || same(&found[1], "tests") {
            return parse_unsigned(&found[0]);
        }
    }
    None
}

fn is_nodeid_line(line: &str) -> (r: bool)
    ensures
        r == nodeid_line(line@),
{
    let chars = chars_of(line);
    chars.len() > 0 && !space(chars[0]) && chars[0] != '=' && chars[0] != '_' && contains_sub(
        line,
        "::",
    )
}

/// How many tests a collection run found.
pub fn parse_collection_count(stdout: &str) -> (r: Option<u64>)
    ensures
        r == collection_count(stdout@),
{
    let all = lines(stdout);
    let mut i: usize = 0;
    while i < all.len()
        invariant
            i <= all@.len(),
            views(all@) == lines_of(stdout@),
            first_count(views(all@), 0) == first_count(views(all@), i as int),
        decreases all@.len() - i,
    {
        assert(views(all@)[i as int] == all@[i as int]@);
        let line = trimmed(&all[i]);
        let stated = read_counted_tests(&line);
        if stated.is_some() {
            return stated;
        }
        i += 1;
    }
    let mut count: u64 = 0;
    let mut k: usize = 0;
    while k < all.len()
        invariant
            k <= all@.len(),
            count <= k,
            count == nodeid_lines(views(all@), k as int),
        decreases all@.len() - k,
    {
        assert(views(all@)[k as int] == all@[k as int]@);
        if is_nodeid_line(&all[k]) {
            count += 1;
        }
        k += 1;
    }
    assert(views(all@).len() == all@.len());
    if count > 0 {
        Some(count)
    } else {
        None
    }
}

/// What a collection run gives: the count its output states, nothing where there is no output.
pub fn run_collection(stdout: &Option<String>) -> (r: CollectionOutcome)
    ensures
        r.test_count == (match opt_view(*stdout) {
            Some(s) => collection_count(s),
            None => None,
        }),
{
    match stdout {
        Some(s) => CollectionOutcome { test_count: parse_collection_count(s) },
        None => CollectionOutcome::default(),
    }
}

/// What precedes the `s` that a token ends with, if that writes a number.
pub open spec fn seconds_in(token: Seq<char>) -> Option<Seq<char>> {
    if token.len() > 0 && token.last() == 's' && writes_float(token.drop_last()) {
        Some(token.drop_last())
    } else {
        None
    }
}

fn read_seconds(token: &str) -> (r: Option<String>)
    ensures
        opt_view(r) == seconds_in(token@),
{
    let chars = chars_of(token);
    let n: usize = chars.len();
    if n == 0 || chars[n - 1] != 's' {
        return None;
    }
    let number = cut(&chars, 0, n - 1);
    assert(number@ =~= token@.drop_last());
    if is_float_text(&number) {
        Some(number)
    } else {
        None
    }
}

/// The seconds and the identity on a line of the durations report, if it is about the call of a
/// test and not about its setup or teardown.
pub open spec fn duration_of(line: Seq<char>) -> Option<(Seq<char>, Seq<char>)> {
    let found = words(line);
    if found.len() >= 3 && found[1] == "call"@ {
        match seconds_in(found[0]) {
            Some(seconds) => Some((seconds, found[2])),
            None => None,
        }
    } else {
        None
    }
}

pub open spec fn pair_view(o: Option<(String, String)>) -> Option<(Seq<char>, Seq<char>)> {
    match o {
        Some((a, b)) => Some((a@, b@)),
        None => None,
    }
}

/// The seconds and the identity on a line of the durations report.
pub fn parse_duration_line(line: &str) -> (r: Option<(String, String)>)
    ensures
        pair_view(r) == duration_of(line@),
{
    let found = split_whitespace(line);
    assert(views(found@).len() == found@.len());
    if found.len() < 3 {
        return None;
    }
    assert(views(found@)[0] == found@[0]@);
    assert(views(found@)[1] == found@[1]@);
    assert(views(found@)[2] == found@[2]@);
    if !same(&found[1], "call") {
        return None;
    }
    match read_seconds(&found[0]) {
        Some(seconds) => Some((seconds, found[2].clone())),
        None => None,
    }
}

/// A line that heads the durations report.
pub open spec fn durations_header(line: Seq<char>) -> bool {
    has_text(ascii_lower(line), "slowest durations"@)
}

/// The first line at or after `i` that heads the durations report.
pub open spec fn header_from(all: Seq<Seq<char>>, i: int) -> Option<int>
    decreases all.len() - i,
{
    if i < 0 || i >= all.len() {
        None
    } else if durations_header(all[i]) {
        Some(i)
    } else {
        header_from(all, i + 1)
    }
}

/// The durations from line `i` on, down to the line of `=` that closes the report.
pub open spec fn durations_from(all: Seq<Seq<char>>, i: int) -> Seq<(Seq<char>, Seq<char>)>
    decreases all.len() - i,
{
    if i < 0 || i >= all.len() {
        Seq::empty()
    } else {
        let line = trim(all[i]);
        if line.len() > 0 && line[0] == '=' {
            Seq::empty()
        } else {
            match duration_of(line) {
                Some(entry) => seq![entry] + durations_from(all, i + 1),
                None => durations_from(all, i + 1),
            }
        }
    }
}

/// The durations that a run reports, in the order of the report.
pub open spec fn reported_durations(stdout: Seq<char>) -> Seq<(Seq<char>, Seq<char>)> {
    let all = lines_of(stdout);
    match header_from(all, 0) {
        Some(i) => durations_from(all, i + 1),
        None => Seq::empty(),
    }
}

pub open spec fn pair_views(v: Seq<(String, String)>) -> Seq<(Seq<char>, Seq<char>)> {
    Seq::new(v.len(), |i: int| (v[i].0@, v[i].1@))
}

fn is_durations_header(line: &str) -> (r: bool)
    ensures
        r == durations_header(line@),
{
    let chars = chars_of(line);
    let low = lower_from(&chars, 0);
    assert(line@.subrange(0, line@.len() as int) =~= line@);
    contains_sub(&low, "slowest durations")
}

/// The durations that a run reports for the calls of tests, in the order of the report: the text
/// of the seconds and the identity of the test. The seconds always write a number.
pub fn parse_slowest_tests(stdout: &str) -> (r: Vec<(String, String)>)
    ensures
        pair_views(r@) == reported_durations(stdout@),
{
    let all = lines(stdout);
    let mut out: Vec<(String, String)> = Vec::new();
    assert(pair_views(out@) =~= Seq::<(Seq<char>, Seq<char>)>::empty());
    let mut i: usize = 0;
    while i < all.len() && !is_durations_header(&all[i])
        invariant
            i <= all@.len(),
            views(all@) == lines_of(stdout@),
            header_from(views(all@), 0) == header_from(views(all@), i as int),
        decreases all@.len() - i,
    {
        assert(views(all@)[i as int] == all@[i as int]@);
        i += 1;
    }
    assert(views(all@).len() == all@.len());
    if i >= all.len() {
        return out;
    }
    assert(views(all@)[i as int] == all@[i as int]@);
    let ghost start = i + 1;
    let mut k: usize = i + 1;
    assert(pair_views(out@) + durations_from(views(all@), k as int) =~= durations_from(
        views(all@),
        start,
    ));
    while k < all.len()
        invariant
            k <= all@.len(),
            views(all@).len() == all@.len(),
            pair_views(out@) + durations_from(views(all@), k as int) == durations_from(
                views(all@),
                start,
            ),
            reported_durations(stdout@) == durations_from(views(all@), start),
        decreases all@.len() - k,
    {
        assert(views(all@)[k as int] == all@[k as int]@);
        let line = trimmed(&all[k]);
        let chars = chars_of(&line);
        if chars.len() > 0 && chars[0] == '=' {
            assert(pair_views(out@) + Seq::<(Seq<char>, Seq<char>)>::empty() =~= pair_views(out@));
            return out;
        }
        let ghost before = pair_views(out@);
        if let Some(entry) = parse_duration_line(&line) {
            out.push(entry);
            proof {
                let x = (entry.0@, entry.1@);
                assert(pair_views(out@) =~= before.push(x));
                assert(before + (seq![x] + durations_from(views(all@), k + 1)) =~= pair_views(out@)
                    + durations_from(views(all@), k + 1));
            }
        }
        k += 1;
    }
    assert(pair_views(out@) + Seq::<(Seq<char>, Seq<char>)>::empty() =~= pair_views(out@));
    out
}

/// The first word behind position `i` of a line.
pub open spec fn word_behind(line: Seq<char>, i: int) -> Seq<char> {
    let found = words(line.subrange(i, line.len() as int));
    if found.len() > 0 {
        found[0]
    } else {
        Seq::empty()
    }
}

/// The seconds behind the first ` in ` of a line, at or after `from`, that is followed by seconds.
pub open spec fn runtime_in(line: Seq<char>, from: int) -> Option<Seq<char>>
    decreases line.len() - from,
{
    match find_text(line, " in "@, from) {
        Some(i) => if 0 <= from <= i && i + 4 <= line.len() {
            match seconds_in(word_behind(line, i + 4)) {
                Some(seconds) => Some(seconds),
                None => runtime_in(line, i + 4),
            }
        } else {
            None
        },
        None => None,
    }
}

/// The seconds that the last of the first `n` lines to state any states.
pub open spec fn last_runtime(all: Seq<Seq<char>>, n: int) -> Option<Seq<char>>
    decreases n,
{
    if n <= 0 {
        None
    } else {
        match runtime_in(all[n - 1], 0) {
            Some(seconds) => Some(seconds),
            None => last_runtime(all, n - 1),
        }
    }
}

/// The seconds on one line.
pub fn extract_runtime_from_line(line: &str) -> (r: Option<String>)
    ensures
        opt_view(r) == runtime_in(line@, 0),
{
    let chars = chars_of(line);
    let n: usize = chars.len();
    let mut from: usize = 0;
    proof {
        reveal_strlit(" in ");
    }
    loop
        invariant
            from <= chars@.len(),
            n == chars@.len(),
            chars@ == line@,
            " in "@.len() == 4,
            runtime_in(line@, from as int) == runtime_in(line@, 0),
        decreases chars@.len() - from,
    {
        let i: usize = match find_in(&chars, " in ", from) {
            Some(i) => i,
            None => {
                return None;
            },
        };
        let behind = cut(&chars, i + 4, n);
        let found = split_whitespace(&behind);
        assert(views(found@).len() == found@.len());
        let token = if found.len() > 0 {
            assert(views(found@)[0] == found@[0]@);
            found[0].clone()
        } else {
            String::new()
        };
        if let Some(seconds) = read_seconds(&token) {
            return Some(seconds);
        }
        from = i + 4;
    }
}

/// The seconds that a whole run took: the text of the number that the last line to state it
/// states.
pub fn parse_runtime_seconds(stdout: &str) -> (r: Option<String>)
    ensures
        opt_view(r) == last_runtime(lines_of(stdout@), lines_of(stdout@).len() as int),
{
    let all = lines(stdout);
    assert(views(all@).len() == all@.len());
    let mut n: usize = all.len();
    while n > 0
        invariant
            n <= all@.len(),
            views(all@).len() == all@.len(),
            views(all@) == lines_of(stdout@),
            last_runtime(views(all@), n as int) == last_runtime(
                views(all@),
                views(all@).len() as int,
            ),
        decreases n,
    {
        assert(views(all@)[n - 1] == all@[n - 1]@);
        if let Some(seconds) = extract_runtime_from_line(&all[n - 1]) {
            return Some(seconds);
        }
        n -= 1;
    }
    None
}

/// What a durations run says: the runtime that it states, and the durations that it reports.
#[derive(Debug)]
pub struct DurationsOutcome {
    /// The text of the seconds.
    pub runtime: Option<String>,
    /// The text of the seconds of each call, and the test.
    pub calls: Vec<(String, String)>,
}

/// Where the runtime of a suite comes from.
#[derive(Copy, Clone, Debug, PartialEq, Eq, Structural)]
pub enum RuntimeSource {
    /// The run states it.
    Stated,
    /// The calls that the run reports add up to it.
    SumOfCalls,
    /// The run says nothing of it.
    Unknown,
}

/// What a durations run says; nothing where there is no output.
pub fn run_durations(stdout: &Option<String>) -> (r: DurationsOutcome)
    ensures
        match opt_view(*stdout) {
            Some(s) => opt_view(r.runtime) == last_runtime(lines_of(s), lines_of(s).len() as int)
                && pair_views(r.calls@) == reported_durations(s),
            None => r.runtime is None && r.calls@.len() == 0,
        },
{
    match stdout {
        Some(s) => DurationsOutcome {
            runtime: parse_runtime_seconds(s),
            calls: parse_slowest_tests(s),
        },
        None => DurationsOutcome { runtime: None, calls: Vec::new() },
    }
}

impl DurationsOutcome {
    /// Where the runtime comes from: what is stated goes before what the calls add up to.
    pub fn runtime_source(&self) -> (r: RuntimeSource)
        ensures
            r == if self.runtime is Some {
                RuntimeSource::Stated
            } else if self.calls@.len() > 0 {
                RuntimeSource::SumOfCalls
            } else {
                RuntimeSource::Unknown
            },
    {
        if self.runtime.is_some() {
            RuntimeSource::Stated
        } else if self.calls.len() > 0 {
            RuntimeSource::SumOfCalls
        } else {
            RuntimeSource::Unknown
        }
    }
}

/// What there is to say where the Python that was chosen cannot import pytest.
pub open spec fn unavailable_text(program: Seq<char>, extra: Seq<Seq<char>>) -> Seq<char> {
    "pytest unavailable in resolved python; try --python \"uv run python\" or .venv/bin/python (resolved: "@
        + program + if join(extra, " "@).len() == 0 {
        Seq::empty()
    } else {
        " "@
    } + join(extra, " "@) + ")"@
}

/// What there is to say where the Python that was chosen cannot import pytest.
pub fn unavailable_warning(program: &str, extra_python_args: &Vec<String>) -> (r: String)
    ensures
        r@ == unavailable_text(program@, views(extra_python_args@)),
{
    let extra = joined(extra_python_args, " ");
    let separator = if extra.as_str().is_empty() {
        String::new()
    } else {
        " ".to_owned()
    };
    let mut out =
        "pytest unavailable in resolved python; try --python \"uv run python\" or .venv/bin/python (resolved: ".to_owned();
    out.append(program);
    out.append(&separator);
    out.append(&extra);
    out.append(")");
    out
}

} // verus!
