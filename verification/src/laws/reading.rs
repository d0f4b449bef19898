//! What holds of what a run of pytest says.
use vstd::prelude::*;

use crate::laws::numbers::{decimals_are_read_back, decimals_hold_digits};
use crate::laws::texts::{
    lines_end_at_line_endings, texts_are_found_where_they_stand, words_stand_between_white_space,
};
use crate::numerals::{
    ascii_lower, find_text, has_text, lowered, stands_at, unsigned_value, writes_float,
};
use crate::pytest::{
    collection_count, collection_flags, coverage_flags, duration_of, durations_flags,
    durations_from, durations_header, first_count, header_from, last_runtime, nodeid_line,
    nodeid_lines, reported_durations, run_args, runtime_in, stated_count, unavailable_text,
    word_behind,
};
use crate::text::{decimal, is_space, join, lines_of, trim, trim_end, trim_start, words};

verus! {

proof fn lemma_find_text_is(s: Seq<char>, pat: Seq<char>, from: int, at: int)
    requires
        0 <= from <= at,
        stands_at(s, pat, at),
        forall|j: int| from <= j < at ==> !#[trigger] stands_at(s, pat, j),
    ensures
        find_text(s, pat, from) == Some(at),
    decreases at - from,
{
    if from < at {
        assert(!stands_at(s, pat, from));
        lemma_find_text_is(s, pat, from + 1, at);
    }
}

/// What stands before the first ` collected` of a line is what it counts.
proof fn lemma_counted(number: Seq<char>, noun: Seq<char>, tail: Seq<char>)
    requires
        one_word(number),
        one_word(noun),
        noun[0] != 'c',
    ensures
        ({
            let line = number + seq![' '] + noun + " collected"@ + tail;
            &&& find_text(line, " collected"@, 0) == Some((number.len() + 1 + noun.len()) as int)
            &&& words(line.subrange(0, (number.len() + 1 + noun.len()) as int)) == seq![number, noun]
        }),
{
    reveal_strlit(" collected");
    let head = number + seq![' '] + noun;
    let pat = " collected"@;
    let line = head + pat + tail;
    let n = head.len() as int;
    assert(line.subrange(n, n + pat.len()) =~= pat);
    assert forall|j: int| 0 <= j < n implies !#[trigger] stands_at(line, pat, j) by {
        if stands_at(line, pat, j) {
            let there = line.subrange(j, j + pat.len());
            assert(there[0] == line[j] && there[1] == line[j + 1]);
            assert(pat[0] == ' ' && pat[1] == 'c');
            if j < number.len() {
                assert(line[j] == number[j]);
                assert(is_space(' '));
            } else if j == number.len() {
                assert(line[j + 1] == noun[0]);
            } else {
                assert(line[j] == noun[j - number.len() - 1]);
                assert(is_space(' '));
            }
        }
    }
    lemma_find_text_is(line, pat, 0, n);
    assert(line.subrange(0, n) =~= head);
    lemma_two_words(number, noun);
}

/// Whether a text is one word.
pub open spec fn one_word(s: Seq<char>) -> bool {
    s.len() > 0 && forall|i: int| 0 <= i < s.len() ==> !is_space(#[trigger] s[i])
}

proof fn lemma_two_words(a: Seq<char>, b: Seq<char>)
    requires
        one_word(a),
        one_word(b),
    ensures
        words(a + seq![' '] + b) == seq![a, b],
{
    assert(is_space(' '));
    words_stand_between_white_space(a, ' ', b);
    words_stand_between_white_space(b, ' ', b);
    assert(seq![a] + seq![b] =~= seq![a, b]);
}

proof fn lemma_three_words(a: Seq<char>, b: Seq<char>, c: Seq<char>)
    requires
        one_word(a),
        one_word(b),
        one_word(c),
    ensures
        words(a + seq![' '] + (b + seq![' '] + c)) == seq![a, b, c],
{
    assert(is_space(' '));
    words_stand_between_white_space(a, ' ', b + seq![' '] + c);
    lemma_two_words(b, c);
    assert(seq![a] + seq![b, c] =~= seq![a, b, c]);
}

/// Trimming keeps a text that begins and ends with what is not white space, whatever white space
/// stands behind it.
proof fn lemma_trim_behind(kept: Seq<char>, tail: Seq<char>)
    requires
        kept.len() > 0,
        !is_space(kept[0]),
        !is_space(kept.last()),
    ensures
        trim(kept + tail) == kept + trim_end(tail),
    decreases tail.len(),
{
    let s = kept + tail;
    if tail.len() > 0 && is_space(tail.last()) {
        assert(s.drop_last() =~= kept + tail.drop_last());
        assert(s.last() == tail.last());
        lemma_trim_behind(kept, tail.drop_last());
    } else {
        if tail.len() > 0 {
            assert(s.last() == tail.last());
        } else {
            assert(s =~= kept);
        }
        assert(trim_end(s) == s);
        assert(s[0] == kept[0]);
        assert(trim_start(s) == s);
        assert(trim_end(tail) == tail);
    }
}

/// The count that a run of pytest states in decimal is the count that is read, whatever follows it
/// on the line: for every number that the machine can hold, and for none beyond.
pub proof fn stated_counts_are_read_back(n: nat, tail: Seq<char>)
    ensures
        n <= u64::MAX ==> stated_count(decimal(n) + " tests collected"@ + tail) == Some(n as u64),
        n <= u64::MAX ==> stated_count(decimal(n) + " test collected"@ + tail) == Some(n as u64),
        n > u64::MAX ==> stated_count(decimal(n) + " tests collected"@ + tail) is None,
{
    reveal_strlit("test");
    reveal_strlit("tests");
    reveal_strlit(" collected");
    reveal_strlit(" test collected");
    reveal_strlit(" tests collected");
    let number = decimal(n);
    decimals_hold_digits(n);
    decimals_are_read_back(n);
    assert forall|i: int| 0 <= i < number.len() implies !is_space(#[trigger] number[i]) by {
        assert('0' <= number[i] <= '9');
    }
    lemma_stated(number, "tests"@, tail);
    lemma_stated(number, "test"@, tail);
    assert(number + " tests collected"@ + tail =~= number + seq![' '] + "tests"@ + " collected"@
        + tail);
    assert(number + " test collected"@ + tail =~= number + seq![' '] + "test"@ + " collected"@
        + tail);
}

/// A line that counts something states a number of tests exactly where it is tests that it counts,
/// and where what it begins with is a number.
pub proof fn counts_are_of_tests(number: Seq<char>, noun: Seq<char>, tail: Seq<char>)
    requires
        one_word(number),
        one_word(noun),
        noun[0] != 'c',
    ensures
        stated_count(number + seq![' '] + noun + " collected"@ + tail) == if noun == "test"@ || noun
            == "tests"@ {
            unsigned_value(number)
        } else {
            None
        },
{
    lemma_stated(number, noun, tail);
}

proof fn lemma_stated(number: Seq<char>, noun: Seq<char>, tail: Seq<char>)
    requires
        one_word(number),
        one_word(noun),
        noun[0] != 'c',
    ensures
        stated_count(number + seq![' '] + noun + " collected"@ + tail) == if noun == "test"@ || noun
            == "tests"@ {
            unsigned_value(number)
        } else {
            None
        },
{
    reveal_strlit(" collected");
    let kept = number + seq![' '] + noun + " collected"@;
    let line = kept + tail;
    assert(kept.last() == 'd');
    assert(kept[0] == number[0]);
    lemma_trim_behind(kept, tail);
    lemma_counted(number, noun, trim_end(tail));
}

/// A line that does not say ` collected` states no count.
pub proof fn other_lines_state_no_count(line: Seq<char>)
    requires
        forall|i: int| !#[trigger] stands_at(trim(line), " collected"@, i),
    ensures
        stated_count(line) is None,
{
    texts_are_found_where_they_stand(
        trim(line),
        " collected"@,
        Seq::empty(),
        Seq::empty(),
    );
    if has_text(trim(line), " collected"@) {
        lemma_found_there(trim(line), " collected"@, 0);
    }
}

proof fn lemma_found_there(s: Seq<char>, pat: Seq<char>, from: int)
    requires
        find_text(s, pat, from) is Some,
    ensures
        stands_at(s, pat, find_text(s, pat, from)->0),
    decreases s.len() + 1 - from,
{
    if !stands_at(s, pat, from) {
        lemma_found_there(s, pat, from + 1);
    }
}

proof fn lemma_first_count_shift(a: Seq<Seq<char>>, x: Seq<char>, i: int)
    requires
        0 <= i <= a.len(),
    ensures
        first_count(seq![x] + a, i + 1) == first_count(a, i),
    decreases a.len() - i,
{
    if i < a.len() {
        assert((seq![x] + a)[i + 1] == a[i]);
        lemma_first_count_shift(a, x, i + 1);
    }
}

proof fn lemma_nodeids_shift(a: Seq<Seq<char>>, x: Seq<char>, n: int)
    requires
        0 <= n <= a.len(),
    ensures
        nodeid_lines(seq![x] + a, n + 1) == nodeid_lines(a, n) + if nodeid_line(x) {
            1nat
        } else {
            0nat
        },
    decreases n,
{
    let b = seq![x] + a;
    if n > 0 {
        assert(b[n] == a[n - 1]);
        lemma_nodeids_shift(a, x, n - 1);
    } else {
        assert(b[0] == x);
        assert(nodeid_lines(b, 0) == 0);
    }
}

/// The first line that states a count decides. Where none does, the count is that of the lines that
/// name a test, one by one; where there is none of those either, there is no count.
pub proof fn the_first_stated_count_decides(line: Seq<char>, rest: Seq<char>)
    requires
        !line.contains('\n'),
        line.len() > 0 ==> line.last() != '\r',
    ensures
        stated_count(line) is Some ==> collection_count(line + seq!['\n'] + rest) == stated_count(
            line,
        ),
        stated_count(line) is None && first_count(lines_of(rest), 0) is Some ==> collection_count(
            line + seq!['\n'] + rest,
        ) == collection_count(rest) && collection_count(rest) == first_count(lines_of(rest), 0),
        stated_count(line) is None && first_count(lines_of(rest), 0) is None && !nodeid_line(line)
            ==> collection_count(line + seq!['\n'] + rest) == collection_count(rest),
        stated_count(line) is None && first_count(lines_of(rest), 0) is None && nodeid_line(line)
            && lines_of(rest).len() < u64::MAX ==> collection_count(line + seq!['\n'] + rest)
            == Some(
            match collection_count(rest) {
                Some(n) => (n + 1) as u64,
                None => 1,
            },
        ),
        collection_count(Seq::<char>::empty()) is None,
{
    lines_end_at_line_endings(line, rest);
    let a = lines_of(rest);
    let b = seq![line] + a;
    assert(b[0] == line);
    lemma_first_count_shift(a, line, 0);
    lemma_nodeids_shift(a, line, a.len() as int);
    lemma_nodeids_bound(a, a.len() as int);
}

proof fn lemma_nodeids_bound(a: Seq<Seq<char>>, n: int)
    requires
        0 <= n <= a.len(),
    ensures
        nodeid_lines(a, n) <= n,
    decreases n,
{
    if n > 0 {
        lemma_nodeids_bound(a, n - 1);
    }
}

/// A line names a test where it names a file and, behind two colons, something in it; indented
/// lines, rules and headings name none, and no line without two colons does.
pub proof fn tests_are_named_behind_colons(file: Seq<char>, name: Seq<char>, line: Seq<char>)
    ensures
        file.len() > 0 && !is_space(file[0]) && file[0] != '=' && file[0] != '_' ==> nodeid_line(
            file + "::"@ + name,
        ),
        line.len() > 0 && (is_space(line[0]) || line[0] == '=' || line[0] == '_') ==> !nodeid_line(
            line,
        ),
        (forall|i: int| 0 <= i < line.len() - 1 ==> !(#[trigger] line[i] == ':' && line[i + 1]
            == ':')) ==> !nodeid_line(line),
        !nodeid_line(Seq::empty()),
{
    reveal_strlit("::");
    texts_are_found_where_they_stand(line, "::"@, file, name);
    if file.len() > 0 {
        assert((file + "::"@ + name)[0] == file[0]);
    }
    if has_text(line, "::"@) {
        lemma_found_there(line, "::"@, 0);
        let i = find_text(line, "::"@, 0)->0;
        let there = line.subrange(i, i + 2);
        assert(there[0] == line[i] && there[1] == line[i + 1]);
    }
}

/// The time of a call is read from the line that reports it: the seconds, the phase, the test. What
/// other phases take is not.
pub proof fn calls_are_read_back(
    seconds: Seq<char>,
    phase: Seq<char>,
    test: Seq<char>,
)
    requires
        one_word(seconds),
        one_word(phase),
        one_word(test),
    ensures
        duration_of(seconds + seq!['s', ' '] + phase + seq![' '] + test) == if phase == "call"@
            && writes_float(seconds) {
            Some((seconds, test))
        } else {
            None
        },
        duration_of(seconds + seq![' '] + phase + seq![' '] + test) == if phase == "call"@
            && seconds.last() == 's' && writes_float(seconds.drop_last()) {
            Some((seconds.drop_last(), test))
        } else {
            None
        },
{
    let token = seconds + seq!['s'];
    lemma_token(seconds);
    let behind = phase + seq![' '] + test;
    lemma_three_words(token, phase, test);
    lemma_three_words(seconds, phase, test);
    assert(seconds + seq!['s', ' '] + phase + seq![' '] + test =~= token + seq![' '] + behind);
    assert(seconds + seq![' '] + phase + seq![' '] + test =~= seconds + seq![' '] + behind);
}

proof fn lemma_token(seconds: Seq<char>)
    requires
        one_word(seconds),
    ensures
        one_word(seconds + seq!['s']),
        (seconds + seq!['s']).last() == 's',
        (seconds + seq!['s']).drop_last() == seconds,
{
    let token = seconds + seq!['s'];
    assert forall|i: int| 0 <= i < token.len() implies !is_space(#[trigger] token[i]) by {
        if i < seconds.len() {
            assert(token[i] == seconds[i]);
        } else {
            assert(!is_space('s'));
        }
    }
    assert(token.drop_last() =~= seconds);
}

proof fn lemma_header_shift(a: Seq<Seq<char>>, x: Seq<char>, i: int)
    requires
        0 <= i <= a.len(),
    ensures
        header_from(seq![x] + a, i + 1) == (match header_from(a, i) {
            Some(k) => Some(k + 1),
            None => None,
        }),
        header_from(a, i) matches Some(k) ==> i <= k < a.len(),
    decreases a.len() - i,
{
    if i < a.len() {
        assert((seq![x] + a)[i + 1] == a[i]);
        lemma_header_shift(a, x, i + 1);
    }
}

proof fn lemma_durations_shift(a: Seq<Seq<char>>, x: Seq<char>, i: int)
    requires
        0 <= i <= a.len(),
    ensures
        durations_from(seq![x] + a, i + 1) == durations_from(a, i),
    decreases a.len() - i,
{
    if i < a.len() {
        assert((seq![x] + a)[i + 1] == a[i]);
        lemma_durations_shift(a, x, i + 1);
    }
}

/// Times are reported under a heading and up to the next rule. Lines before the heading, and lines
/// below it that report no call, have no say; those that report one are kept in their order.
pub proof fn calls_are_reported_under_the_heading(
    heading: Seq<char>,
    line: Seq<char>,
    rest: Seq<char>,
)
    requires
        !heading.contains('\n') && (heading.len() > 0 ==> heading.last() != '\r'),
        !line.contains('\n') && (line.len() > 0 ==> line.last() != '\r'),
        durations_header(heading),
    ensures
        reported_durations(Seq::<char>::empty()).len() == 0,
        !durations_header(line) ==> reported_durations(line + seq!['\n'] + rest)
            == reported_durations(rest),
        ({
            let under = reported_durations(heading + seq!['\n'] + rest);
            let whole = reported_durations(heading + seq!['\n'] + (line + seq!['\n'] + rest));
            let said = trim(line);
            if said.len() > 0 && said[0] == '=' {
                whole.len() == 0
            } else {
                match duration_of(said) {
                    Some(call) => whole == seq![call] + under,
                    None => whole == under,
                }
            }
        }),
{
    lines_end_at_line_endings(line, rest);
    lines_end_at_line_endings(heading, rest);
    lines_end_at_line_endings(heading, line + seq!['\n'] + rest);
    let a = lines_of(rest);
    let b = seq![line] + a;
    let c = seq![heading] + b;
    let d = seq![heading] + a;
    assert(b[0] == line && c[0] == heading && d[0] == heading && c[1] == line);
    lemma_header_shift(a, line, 0);
    if let Some(k) = header_from(a, 0) {
        lemma_durations_shift(a, line, k + 1);
    }
    lemma_durations_shift(a, heading, 0);
    lemma_durations_shift(b, heading, 0);
    lemma_durations_shift(a, line, 0);
}

/// The heading is told by its words, whatever stands around them.
pub proof fn headings_are_told_by_their_words(before: Seq<char>, after: Seq<char>)
    ensures
        durations_header(before + "slowest durations"@ + after),
{
    reveal_strlit("slowest durations");
    let words = "slowest durations"@;
    let whole = before + words + after;
    let low = ascii_lower(whole);
    let n = before.len() as int;
    assert(low.subrange(n, n + words.len()) =~= words) by {
        assert forall|i: int| 0 <= i < words.len() implies low[n + i] == #[trigger] words[i] by {
            assert(whole[n + i] == words[i]);
            assert(!('A' <= words[i] <= 'Z'));
        }
    }
    assert(low =~= ascii_lower(before) + words + ascii_lower(after));
    texts_are_found_where_they_stand(low, words, ascii_lower(before), ascii_lower(after));
}

/// The capital letters have their small ones, and nothing else changes.
pub proof fn only_capitals_are_lowered(c: char)
    ensures
        'A' <= c <= 'Z' ==> 'a' <= lowered(c) <= 'z' && lowered(c) as u32 - 'a' as u32 == c as u32
            - 'A' as u32,
        !('A' <= c <= 'Z') ==> lowered(c) == c,
{
}

/// The seconds behind the first ` in ` of a line are the time that the line states, where they are a
/// number and an `s`.
pub proof fn stated_times_are_read_back(before: Seq<char>, seconds: Seq<char>, tail: Seq<char>)
    requires
        one_word(seconds),
        tail.len() > 0 ==> is_space(tail[0]),
        writes_float(seconds),
        forall|j: int|
            0 <= j < before.len() ==> !#[trigger] stands_at(
                before + " in "@ + seconds + seq!['s'] + tail,
                " in "@,
                j,
            ),
    ensures
        runtime_in(before + " in "@ + seconds + seq!['s'] + tail, 0) == Some(seconds),
{
    reveal_strlit(" in ");
    let pat = " in "@;
    let token = seconds + seq!['s'];
    let line = before + pat + seconds + seq!['s'] + tail;
    let n = before.len() as int;
    assert(line.subrange(n, n + 4) =~= pat);
    lemma_find_text_is(line, pat, 0, n);
    lemma_token(seconds);
    let behind = line.subrange(n + 4, line.len() as int);
    if tail.len() > 0 {
        let more = tail.drop_first();
        assert(behind =~= token + seq![tail[0]] + more);
        words_stand_between_white_space(token, tail[0], more);
    } else {
        assert(behind =~= token);
        assert(is_space(' '));
        words_stand_between_white_space(token, ' ', token);
    }
    assert(word_behind(line, n + 4) == token);
    assert(token.drop_last() =~= seconds);
}

/// Where no ` in ` stands, no time is stated.
pub proof fn other_lines_state_no_time(line: Seq<char>)
    requires
        forall|i: int| !#[trigger] stands_at(line, " in "@, i),
    ensures
        runtime_in(line, 0) is None,
{
    if find_text(line, " in "@, 0) is Some {
        lemma_found_there(line, " in "@, 0);
    }
}

/// Of the lines that state a time the last decides.
pub proof fn the_last_stated_time_decides(all: Seq<Seq<char>>, line: Seq<char>)
    ensures
        runtime_in(line, 0) is Some ==> last_runtime(all.push(line), (all.len() + 1) as int) == runtime_in(
            line,
            0,
        ),
        runtime_in(line, 0) is None ==> last_runtime(all.push(line), (all.len() + 1) as int) == last_runtime(
            all,
            all.len() as int,
        ),
        last_runtime(Seq::empty(), 0) is None,
{
    lemma_last_runtime_front(all, line, all.len() as int);
}

proof fn lemma_last_runtime_front(all: Seq<Seq<char>>, line: Seq<char>, n: int)
    requires
        0 <= n <= all.len(),
    ensures
        last_runtime(all.push(line), n) == last_runtime(all, n),
    decreases n,
{
    if n > 0 {
        lemma_last_runtime_front(all, line, n - 1);
    }
}

/// What the interpreter takes comes first, then the module, then the flags, then the directory;
/// what the user asks for comes last, so that it has the last word.
pub proof fn arguments_stand_in_order(
    extra: Seq<Seq<char>>,
    flags: Seq<Seq<char>>,
    dir: Seq<char>,
    user: Seq<Seq<char>>,
)
    ensures
        ({
            let all = run_args(extra, flags, dir, user);
            let n = extra.len() as int;
            let m = n + 4 + flags.len();
            &&& all.len() == m + 1 + user.len()
            &&& all.subrange(0, n) == extra
            &&& all[n] == "-m"@ && all[n + 1] == "pytest"@
            &&& all[n + 2] == "-o"@ && all[n + 3] == "addopts="@
            &&& all.subrange(n + 4, m) == flags
            &&& all[m] == dir
            &&& all.subrange(m + 1, all.len() as int) == user
        }),
{
    let all = run_args(extra, flags, dir, user);
    let n = extra.len() as int;
    let m = n + 4 + flags.len();
    assert(all.subrange(0, n) =~= extra);
    assert(all.subrange(n + 4, m) =~= flags);
    assert(all.subrange(m + 1, all.len() as int) =~= user);
}

/// Every run is a quiet one. Tests are counted without being run; all times are asked for, however
/// short; the coverage is that of the package, and goes where the report is read.
pub proof fn runs_ask_for_what_is_read(package: Seq<char>, report: Seq<char>)
    ensures
        collection_flags().contains("-q"@) && collection_flags().contains("--collect-only"@),
        durations_flags().contains("-q"@) && durations_flags().contains("--durations=0"@)
            && durations_flags().contains("--durations-min=0"@),
        coverage_flags(package, report).contains("-q"@),
        coverage_flags(package, report).contains("--cov="@ + package),
        coverage_flags(package, report).contains("--cov-report=json:"@ + report),
        !durations_flags().contains("--collect-only"@),
        !coverage_flags(package, report).contains("--collect-only"@),
        collection_flags().len() == 2 && durations_flags().len() == 3 && coverage_flags(
            package,
            report,
        ).len() == 3,
{
    reveal_strlit("-q");
    reveal_strlit("--collect-only");
    reveal_strlit("--durations=0");
    reveal_strlit("--durations-min=0");
    reveal_strlit("--cov=");
    reveal_strlit("--cov-report=json:");
    let c = collection_flags();
    let d = durations_flags();
    let v = coverage_flags(package, report);
    assert(c[0] == "--collect-only"@ && c[1] == "-q"@);
    assert(d[0] == "--durations=0"@ && d[1] == "--durations-min=0"@ && d[2] == "-q"@);
    assert(v[0] == "--cov="@ + package && v[1] == "--cov-report=json:"@ + report && v[2] == "-q"@);
    assert(v[0][4] == 'v' && v[1][4] == 'v');
    assert("--collect-only"@[4] == 'l');
    assert(d[0].len() == 13 && d[1].len() == 17 && d[2].len() == 2);
}

/// What is said where pytest cannot be run names the interpreter, with what it takes.
pub proof fn missing_pytest_names_the_interpreter(program: Seq<char>, extra: Seq<Seq<char>>)
    ensures
        has_text(unavailable_text(program, extra), program),
        has_text(unavailable_text(program, extra), join(extra, " "@)),
{
    let a = "pytest unavailable in resolved python; try --python \"uv run python\" or .venv/bin/python (resolved: "@;
    let gap = if join(extra, " "@).len() == 0 {
        Seq::<char>::empty()
    } else {
        " "@
    };
    let args = join(extra, " "@);
    let text = unavailable_text(program, extra);
    assert(text =~= a + program + (gap + args + ")"@));
    assert(text =~= (a + program + gap) + args + ")"@);
    texts_are_found_where_they_stand(text, program, a, gap + args + ")"@);
    texts_are_found_where_they_stand(text, args, a + program + gap, ")"@);
}

/// Where what follows an ` in ` is no time, what stands behind it decides.
pub proof fn times_are_looked_for_further_on(line: Seq<char>, from: int, i: int)
    requires
        0 <= from <= i,
        stands_at(line, " in "@, i),
        forall|j: int| from <= j < i ==> !#[trigger] stands_at(line, " in "@, j),
    ensures
        ({
            let found = words(line.subrange(i + 4, line.len() as int));
            if found.len() > 0 && found[0].len() > 0 && found[0].last() == 's' && writes_float(
                found[0].drop_last(),
            ) {
                runtime_in(line, from) == Some(found[0].drop_last())
            } else {
                runtime_in(line, from) == runtime_in(line, i + 4)
            }
        }),
{
    reveal_strlit(" in ");
    lemma_find_text_is(line, " in "@, from, i);
}

/// What follows the test on the line of a call has no say.
pub proof fn calls_are_read_whatever_follows(
    seconds: Seq<char>,
    test: Seq<char>,
    more: Seq<char>,
)
    requires
        one_word(seconds),
        one_word(test),
        writes_float(seconds),
    ensures
        duration_of(seconds + seq!['s', ' '] + "call"@ + seq![' '] + test + seq![' '] + more) == Some(
            (seconds, test),
        ),
{
    reveal_strlit("call");
    let phase = "call"@;
    assert(one_word(phase)) by {
        assert(phase.len() == 4);
        assert(phase[0] == 'c' && phase[1] == 'a' && phase[2] == 'l' && phase[3] == 'l');
        assert forall|i: int| 0 <= i < phase.len() implies !is_space(#[trigger] phase[i]) by {
            assert(i == 0 || i == 1 || i == 2 || i == 3);
        }
    }
    assert(is_space(' '));
    let token = seconds + seq!['s'];
    lemma_token(seconds);
    let third = test + seq![' '] + more;
    let second = phase + seq![' '] + third;
    words_stand_between_white_space(test, ' ', more);
    words_stand_between_white_space(phase, ' ', third);
    words_stand_between_white_space(token, ' ', second);
    let whole = seconds + seq!['s', ' '] + phase + seq![' '] + test + seq![' '] + more;
    assert(whole =~= token + seq![' '] + second);
    let found = words(whole);
    assert(found == seq![token] + (seq![phase] + (seq![test] + words(more))));
    assert(found[0] == token && found[1] == phase && found[2] == test);
}

/// A line that has more or less than two words before ` collected` states no count.
pub proof fn counts_have_two_words(head: Seq<char>, tail: Seq<char>)
    requires
        head.len() > 0,
        !is_space(head[0]),
        words(head).len() != 2,
        forall|j: int|
            0 <= j < head.len() ==> !#[trigger] stands_at(
                head + " collected"@ + trim_end(tail),
                " collected"@,
                j,
            ),
    ensures
        stated_count(head + " collected"@ + tail) is None,
{
    reveal_strlit(" collected");
    let pat = " collected"@;
    let kept = head + pat;
    assert(kept.last() == 'd');
    assert(kept[0] == head[0]);
    lemma_trim_behind(kept, tail);
    let line = kept + trim_end(tail);
    let n = head.len() as int;
    assert(line.subrange(n, n + pat.len()) =~= pat);
    lemma_find_text_is(line, pat, 0, n);
    assert(line.subrange(0, n) =~= head);
}

} // verus!
