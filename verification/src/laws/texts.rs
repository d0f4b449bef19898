//! What holds of texts and their pieces.
use vstd::prelude::*;

use crate::numerals::{find_text, has_text, stands_at};
use crate::text::{
    find, find_space, is_prefix, is_space, is_suffix, join, lemma_find, lemma_find_is,
    lemma_find_space, lines_from, lines_of, split, split_from, text_lt, trim, trim_end, trim_start,
    words, words_from,
};

verus! {

/// No piece holds the character that a text was split at.
pub proof fn pieces_hold_no_separator(s: Seq<char>, c: char, start: int)
    requires
        0 <= start <= s.len(),
    ensures
        forall|i: int| 0 <= i < split_from(s, c, start).len() ==> !(#[trigger] split_from(s, c, start)[i]).contains(c),
        split_from(s, c, start).len() > 0,
    decreases s.len() - start,
{
    lemma_find(s, c, start);
    let e = find(s, c, start);
    let all = split_from(s, c, start);
    let first = s.subrange(start, e);
    assert(!first.contains(c)) by {
        if first.contains(c) {
            let i = choose|i: int| 0 <= i < first.len() && first[i] == c;
            assert(s[start + i] == c);
        }
    }
    if e < s.len() {
        pieces_hold_no_separator(s, c, e + 1);
        let rest = split_from(s, c, e + 1);
        assert forall|i: int| 0 <= i < all.len() implies !(#[trigger] all[i]).contains(c) by {
            if i > 0 {
                assert(all[i] == rest[i - 1]);
            }
        }
    }
}

/// Texts put together with a separator: one behind the other, the separator between neighbours.
pub proof fn joining_goes_on_behind_a_separator(parts: Seq<Seq<char>>, x: Seq<char>, sep: Seq<char>)
    ensures
        join(Seq::<Seq<char>>::empty(), sep) == Seq::<char>::empty(),
        join(seq![x], sep) == x,
        parts.len() > 0 ==> join(parts.push(x), sep) == join(parts, sep) + sep + x,
        parts.len() > 0 ==> join(seq![x] + parts, sep) == x + sep + join(parts, sep),
    decreases parts.len(),
{
    assert(parts.push(x).drop_last() =~= parts);
    if parts.len() > 1 {
        let front = parts.drop_last();
        joining_goes_on_behind_a_separator(front, x, sep);
        assert((seq![x] + parts).drop_last() =~= seq![x] + front);
        assert((seq![x] + parts).last() == parts.last());
        assert(join(parts, sep) == join(front, sep) + sep + parts.last());
        assert(join(seq![x] + parts, sep) =~= x + sep + join(parts, sep));
    } else if parts.len() == 1 {
        assert((seq![x] + parts).drop_last() =~= seq![x]);
        assert((seq![x] + parts).last() == parts[0]);
        assert((seq![x] + parts).len() == 2);
        assert(join((seq![x] + parts).drop_last(), sep) == x);
        assert(join(seq![x] + parts, sep) =~= x + sep + join(parts, sep));
    }
}

/// The pieces of a text put together again, with the character that they were split at between
/// them, are the text.
pub proof fn joined_pieces(s: Seq<char>, c: char, start: int)
    requires
        0 <= start <= s.len(),
    ensures
        join(split_from(s, c, start), seq![c]) == s.subrange(start, s.len() as int),
    decreases s.len() - start,
{
    lemma_find(s, c, start);
    let e = find(s, c, start);
    let first = s.subrange(start, e);
    if e < s.len() {
        joined_pieces(s, c, e + 1);
        pieces_hold_no_separator(s, c, e + 1);
        let rest = split_from(s, c, e + 1);
        joining_goes_on_behind_a_separator(rest, first, seq![c]);
        assert(first + seq![c] + s.subrange(e + 1, s.len() as int) =~= s.subrange(
            start,
            s.len() as int,
        ));
    }
}

/// The first piece goes up to the first separator.
pub proof fn first_pieces_end_at_the_separator(s: Seq<char>, c: char)
    ensures
        split(s, c).len() > 0,
        split(s, c)[0].len() <= s.len(),
        !split(s, c)[0].contains(c),
        forall|i: int| 0 <= i < split(s, c)[0].len() ==> #[trigger] split(s, c)[0][i] == s[i],
        split(s, c)[0].len() < s.len() ==> s[split(s, c)[0].len() as int] == c,
{
    pieces_hold_no_separator(s, c, 0);
    lemma_find(s, c, 0);
}

/// The last piece begins behind the last separator.
pub proof fn last_pieces_follow_the_last_separator(s: Seq<char>, c: char)
    ensures
        split(s, c).last().len() <= s.len(),
        !split(s, c).last().contains(c),
        forall|i: int|
            0 <= i < split(s, c).last().len() ==> #[trigger] split(s, c).last()[i] == s[s.len()
                - split(s, c).last().len() + i],
        split(s, c).last().len() < s.len() ==> s[s.len() - split(s, c).last().len() - 1] == c,
{
    lemma_last_piece(s, c, 0);
}

proof fn lemma_last_piece(s: Seq<char>, c: char, start: int)
    requires
        0 <= start <= s.len(),
        start > 0 ==> s[start - 1] == c,
    ensures
        ({
            let last = split_from(s, c, start).last();
            &&& last.len() <= s.len()
            &&& !last.contains(c)
            &&& forall|i: int| 0 <= i < last.len() ==> #[trigger] last[i] == s[s.len() - last.len() + i]
            &&& last.len() < s.len() ==> s[s.len() - last.len() - 1] == c
        }),
    decreases s.len() - start,
{
    lemma_find(s, c, start);
    let e = find(s, c, start);
    pieces_hold_no_separator(s, c, start);
    if e < s.len() {
        lemma_last_piece(s, c, e + 1);
        pieces_hold_no_separator(s, c, e + 1);
        assert(split_from(s, c, start).last() == split_from(s, c, e + 1).last());
    } else {
        let all = split_from(s, c, start);
        assert(all.last() == s.subrange(start, s.len() as int));
        assert(!all[0].contains(c));
    }
}

/// A text begins with another exactly where it is that one and something behind it; it ends with
/// another exactly where it is something and that one behind it.
pub proof fn beginnings_and_ends(s: Seq<char>, p: Seq<char>, rest: Seq<char>)
    ensures
        is_prefix(p, p + rest),
        is_suffix(p, rest + p),
        is_prefix(p, s) ==> s == p + s.subrange(p.len() as int, s.len() as int),
        is_suffix(p, s) ==> s == s.subrange(0, s.len() - p.len()) + p,
        p.len() > s.len() ==> !is_prefix(p, s) && !is_suffix(p, s),
{
    assert((p + rest).subrange(0, p.len() as int) =~= p);
    assert((rest + p).subrange(rest.len() as int, (rest + p).len() as int) =~= p);
    if is_prefix(p, s) {
        assert(s =~= s.subrange(0, p.len() as int) + s.subrange(p.len() as int, s.len() as int));
    }
    if is_suffix(p, s) {
        assert(s =~= s.subrange(0, s.len() - p.len()) + s.subrange(
            s.len() - p.len(),
            s.len() as int,
        ));
    }
}

proof fn lemma_found(s: Seq<char>, pat: Seq<char>, from: int)
    requires
        0 <= from,
    ensures
        match find_text(s, pat, from) {
            Some(i) => from <= i && stands_at(s, pat, i) && forall|j: int|
                from <= j < i ==> !#[trigger] stands_at(s, pat, j),
            None => forall|j: int| from <= j ==> !#[trigger] stands_at(s, pat, j),
        },
    decreases s.len() + 1 - from,
{
    if from <= s.len() && !stands_at(s, pat, from) {
        lemma_found(s, pat, from + 1);
    }
}

proof fn lemma_around(s: Seq<char>, a: int, b: int)
    requires
        0 <= a <= b <= s.len(),
    ensures
        s == s.subrange(0, a) + s.subrange(a, b) + s.subrange(b, s.len() as int),
{
    assert(s =~= s.subrange(0, a) + s.subrange(a, b) + s.subrange(b, s.len() as int));
}

/// A text holds another exactly where it is something, that one, and something behind it; what is
/// found is the first place.
pub proof fn texts_are_found_where_they_stand(
    s: Seq<char>,
    pat: Seq<char>,
    before: Seq<char>,
    after: Seq<char>,
)
    ensures
        has_text(before + pat + after, pat),
        has_text(s, pat) ==> exists|i: int|
            0 <= i <= s.len() - pat.len() && s == s.subrange(0, i) + pat + #[trigger] s.subrange(
                i + pat.len(),
                s.len() as int,
            ),
        find_text(before + pat + after, pat, 0) matches Some(i) && i <= before.len(),
{
    let whole = before + pat + after;
    lemma_found(whole, pat, 0);
    assert(whole.subrange(before.len() as int, (before.len() + pat.len()) as int) =~= pat);
    assert(stands_at(whole, pat, before.len() as int));
    lemma_found(s, pat, 0);
    if let Some(i) = find_text(s, pat, 0) {
        lemma_around(s, i, i + pat.len());
    }
}

/// White space of ASCII: the tab, the line ends and form feeds, and the space. Beyond it: the next
/// line, and the spaces and separators of Unicode.
pub proof fn white_space(c: char)
    ensures
        (c as u32) < 128 ==> is_space(c) == (c == ' ' || c == '\t' || c == '\n' || c == '\r'
            || c as u32 == 11 || c as u32 == 12),
        (c as u32) >= 128 ==> is_space(c) == (c == '\u{85}' || c == '\u{a0}' || c == '\u{1680}' || (
        '\u{2000}' <= c <= '\u{200a}') || c == '\u{2028}' || c == '\u{2029}' || c == '\u{202f}' || c
            == '\u{205f}' || c == '\u{3000}'),
{
}

proof fn lemma_trim_end(s: Seq<char>)
    ensures
        trim_end(s).len() <= s.len(),
        trim_end(s) == s.subrange(0, trim_end(s).len() as int),
        forall|i: int| trim_end(s).len() <= i < s.len() ==> is_space(#[trigger] s[i]),
        trim_end(s).len() > 0 ==> !is_space(trim_end(s).last()),
    decreases s.len(),
{
    if s.len() > 0 && is_space(s.last()) {
        let front = s.drop_last();
        lemma_trim_end(front);
        let n = trim_end(s).len() as int;
        assert(front.subrange(0, n) =~= s.subrange(0, n));
        assert forall|i: int| n <= i < s.len() implies is_space(#[trigger] s[i]) by {
            if i < front.len() {
                assert(front[i] == s[i]);
            }
        }
    } else {
        assert(s.subrange(0, s.len() as int) =~= s);
    }
}

proof fn lemma_trim_start(s: Seq<char>)
    ensures
        trim_start(s).len() <= s.len(),
        trim_start(s) == s.subrange(s.len() - trim_start(s).len(), s.len() as int),
        forall|i: int| 0 <= i < s.len() - trim_start(s).len() ==> is_space(#[trigger] s[i]),
        trim_start(s).len() > 0 ==> !is_space(trim_start(s)[0]),
    decreases s.len(),
{
    if s.len() > 0 && is_space(s[0]) {
        let back = s.drop_first();
        lemma_trim_start(back);
        let n = trim_start(s).len() as int;
        assert(back.subrange(back.len() - n, back.len() as int) =~= s.subrange(
            s.len() - n,
            s.len() as int,
        ));
        assert forall|i: int| 0 <= i < s.len() - n implies is_space(#[trigger] s[i]) by {
            if i > 0 {
                assert(back[i - 1] == s[i]);
            }
        }
    } else {
        assert(s.subrange(0, s.len() as int) =~= s);
    }
}

/// A text without the white space around it: what is taken off at both ends is white space, and
/// none is left there; what has none at its ends stays as it is.
pub proof fn trimming_takes_off_white_space(s: Seq<char>)
    ensures
        exists|a: int, b: int|
            #![trigger s.subrange(a, b)]
            0 <= a <= b <= s.len() && trim(s) == s.subrange(a, b) && (forall|i: int|
                0 <= i < a || b <= i < s.len() ==> is_space(#[trigger] s[i])),
        trim(s).len() > 0 ==> !is_space(trim(s)[0]) && !is_space(trim(s).last()),
        s.len() > 0 && !is_space(s[0]) && !is_space(s.last()) ==> trim(s) == s,
        trim(s).len() == 0 <==> forall|i: int| 0 <= i < s.len() ==> is_space(#[trigger] s[i]),
{
    lemma_trim_end(s);
    let e = trim_end(s);
    lemma_trim_start(e);
    let t = trim(s);
    let a = e.len() - t.len();
    let b = e.len() as int;
    assert(s.subrange(a, b) =~= e.subrange(a, b));
    assert forall|i: int| 0 <= i < a || b <= i < s.len() implies is_space(#[trigger] s[i]) by {
        if i < a {
            assert(e[i] == s[i]);
        }
    }
    if t.len() > 0 {
        assert(t.last() == e.last());
        assert(t[0] == s[a]);
    }
}

proof fn lemma_words_shift(a: Seq<char>, b: Seq<char>, i: int)
    requires
        0 <= i <= b.len(),
    ensures
        words_from(a + b, a.len() + i) == words_from(b, i),
    decreases b.len() - i,
{
    let both = a + b;
    lemma_space_shift(a, b, false, i);
    lemma_find_space(b, false, i);
    let x = find_space(b, false, i);
    lemma_space_shift(a, b, true, x);
    lemma_find_space(b, true, x);
    let y = find_space(b, true, x);
    if x < y {
        assert(both.subrange(a.len() + x, a.len() + y) =~= b.subrange(x, y));
        lemma_words_shift(a, b, y);
    }
}

proof fn lemma_space_shift(a: Seq<char>, b: Seq<char>, space: bool, i: int)
    requires
        0 <= i <= b.len(),
    ensures
        find_space(a + b, space, a.len() + i) == a.len() + find_space(b, space, i),
    decreases b.len() - i,
{
    let both = a + b;
    if i < b.len() {
        assert(both[a.len() + i] == b[i]);
        if is_space(b[i]) != space {
            lemma_space_shift(a, b, space, i + 1);
        }
    }
}

proof fn lemma_run(s: Seq<char>, space: bool, from: int, to: int)
    requires
        0 <= from <= to <= s.len(),
        forall|i: int| from <= i < to ==> is_space(#[trigger] s[i]) != space,
        to < s.len() ==> is_space(s[to]) == space,
    ensures
        find_space(s, space, from) == to,
    decreases to - from,
{
    if from < to {
        assert(is_space(s[from]) != space);
        lemma_run(s, space, from + 1, to);
    }
}

/// The words of a text that begins with a word and a space are that word and the words behind it;
/// white space before a text, and a text of white space alone, have no words.
pub proof fn words_stand_between_white_space(word: Seq<char>, space: char, rest: Seq<char>)
    requires
        word.len() > 0,
        forall|i: int| 0 <= i < word.len() ==> !is_space(#[trigger] word[i]),
        is_space(space),
    ensures
        words(word) == seq![word],
        words(word + seq![space] + rest) == seq![word] + words(rest),
        words(seq![space] + rest) == words(rest),
        words(Seq::<char>::empty()) == Seq::<Seq<char>>::empty(),
{
    let n = word.len() as int;
    lemma_run(word, false, 0, 0);
    lemma_run(word, true, 0, n);
    assert(word.subrange(0, n) =~= word);
    assert(find_space(word, false, n) == n);
    assert(find_space(word, true, n) == n);
    assert(words_from(word, n) =~= Seq::<Seq<char>>::empty());
    assert(words(word) =~= seq![word]);
    let head = word + seq![space];
    let whole = head + rest;
    assert(word + seq![space] + rest =~= whole);
    assert forall|i: int| 0 <= i < n implies !is_space(#[trigger] whole[i]) by {
        assert(whole[i] == word[i]);
    }
    assert(whole[n] == space);
    assert(!is_space(whole[0]));
    lemma_run(whole, false, 0, 0);
    lemma_run(whole, true, 0, n);
    assert(whole.subrange(0, n) =~= word);
    lemma_words_shift(head, rest, 0);
    lemma_skip_space(whole, n);
    assert(words_from(whole, n) == words_from(whole, n + 1));
    let one = seq![space];
    let short = one + rest;
    lemma_words_shift(one, rest, 0);
    assert(short[0] == space);
    lemma_skip_space(short, 0);
}

/// A space at the beginning has no part in the words.
proof fn lemma_skip_space(s: Seq<char>, i: int)
    requires
        0 <= i < s.len(),
        is_space(s[i]),
    ensures
        words_from(s, i) == words_from(s, i + 1),
{
    assert(find_space(s, false, i) == find_space(s, false, i + 1));
    lemma_find_space(s, false, i + 1);
}

/// Texts are ordered by the first character in which they differ: what they have in common at the
/// beginning has no say, and a text comes before what continues it.
pub proof fn texts_are_ordered_by_where_they_differ(
    common: Seq<char>,
    a: Seq<char>,
    b: Seq<char>,
    c: char,
    d: char,
)
    ensures
        text_lt(common + a, common + b) == text_lt(a, b),
        c < d ==> text_lt(seq![c] + a, seq![d] + b),
        a.len() > 0 ==> text_lt(Seq::empty(), a),
        !text_lt(a, Seq::empty()),
    decreases common.len(),
{
    assert((seq![c] + a).drop_first() =~= a);
    if common.len() > 0 {
        let rest = common.drop_first();
        texts_are_ordered_by_where_they_differ(rest, a, b, c, d);
        assert((common + a).drop_first() =~= rest + a);
        assert((common + b).drop_first() =~= rest + b);
    } else {
        assert(common + a =~= a);
        assert(common + b =~= b);
    }
}

proof fn lemma_lines_shift(a: Seq<char>, b: Seq<char>, i: int)
    requires
        0 <= i <= b.len(),
    ensures
        lines_from(a + b, a.len() + i) == lines_from(b, i),
    decreases b.len() - i,
{
    if i < b.len() {
        let both = a + b;
        let e = find(b, '\n', i);
        lemma_find(b, '\n', i);
        assert forall|k: int| a.len() + i <= k < a.len() + e implies both[k] != '\n' by {
            assert(both[k] == b[k - a.len()]);
        }
        if e < b.len() {
            assert(both[a.len() + e] == b[e]);
        }
        lemma_find_is(both, '\n', a.len() + i, a.len() + e);
        assert(both.subrange(a.len() + i, a.len() + e) =~= b.subrange(i, e));
        if e < b.len() {
            lemma_lines_shift(a, b, e + 1);
        }
    }
}

/// The lines of a text that begins with a line and a line ending are that line and the lines behind
/// it, whether the ending has a carriage return or not; a text without an ending is one line,
/// which keeps a carriage return.
pub proof fn lines_end_at_line_endings(line: Seq<char>, rest: Seq<char>)
    requires
        !line.contains('\n'),
        line.len() > 0 ==> line.last() != '\r',
    ensures
        lines_of(line + seq!['\n'] + rest) == seq![line] + lines_of(rest),
        lines_of(line + seq!['\r', '\n'] + rest) == seq![line] + lines_of(rest),
        line.len() > 0 ==> lines_of(line) == seq![line],
        lines_of(line + seq!['\r']) == seq![line + seq!['\r']],
        lines_of(Seq::<char>::empty()) == Seq::<Seq<char>>::empty(),
{
    let n = line.len() as int;
    assert forall|i: int| 0 <= i < n implies line[i] != '\n' by {
        if line[i] == '\n' {
            assert(line.contains('\n'));
        }
    }
    let a = line + seq!['\n'];
    let whole = a + rest;
    assert forall|i: int| 0 <= i < n implies whole[i] != '\n' by {
        assert(whole[i] == line[i]);
    }
    assert(whole[n] == '\n');
    lemma_find_is(whole, '\n', 0, n);
    assert(whole.subrange(0, n) =~= line);
    lemma_lines_shift(a, rest, 0);
    let b = line + seq!['\r', '\n'];
    let other = b + rest;
    assert forall|i: int| 0 <= i < n + 1 implies other[i] != '\n' by {
        if i < n {
            assert(other[i] == line[i]);
        } else {
            assert(other[i] == '\r');
        }
    }
    assert(other[n + 1] == '\n');
    lemma_find_is(other, '\n', 0, n + 1);
    let cut = other.subrange(0, n + 1);
    assert(cut.last() == '\r');
    assert(cut.drop_last() =~= line);
    lemma_lines_shift(b, rest, 0);
    lemma_find_is(line, '\n', 0, n);
    assert(line.subrange(0, n) =~= line);
    let open = line + seq!['\r'];
    assert forall|i: int| 0 <= i < n + 1 implies open[i] != '\n' by {
        if i < n {
            assert(open[i] == line[i]);
        }
    }
    lemma_find_is(open, '\n', 0, n + 1);
    assert(open.subrange(0, n + 1) =~= open);
}

/// A text without the separator is one of the pieces exactly where it stands between separators, or
/// between one and an end.
pub proof fn pieces_stand_between_separators(s: Seq<char>, c: char, w: Seq<char>)
    requires
        !w.contains(c),
    ensures
        split(s, c).contains(w) == exists|a: int|
            {
                &&& 0 <= a <= s.len() - w.len()
                &&& #[trigger] s.subrange(a, a + w.len()) == w
                &&& a == 0 || s[a - 1] == c
                &&& a + w.len() == s.len() || s[a + w.len()] == c
            },
{
    lemma_piece(s, c, w, 0);
}

proof fn lemma_piece(s: Seq<char>, c: char, w: Seq<char>, start: int)
    requires
        !w.contains(c),
        0 <= start <= s.len(),
        start == 0 || s[start - 1] == c,
    ensures
        split_from(s, c, start).contains(w) == exists|a: int|
            {
                &&& start <= a <= s.len() - w.len()
                &&& #[trigger] s.subrange(a, a + w.len()) == w
                &&& a == 0 || s[a - 1] == c
                &&& a + w.len() == s.len() || s[a + w.len()] == c
            },
    decreases s.len() - start,
{
    lemma_find(s, c, start);
    let e = find(s, c, start);
    let all = split_from(s, c, start);
    let first = s.subrange(start, e);
    let n = w.len() as int;
    assert(all[0] == first);
    if e < s.len() {
        let rest = split_from(s, c, e + 1);
        lemma_piece(s, c, w, e + 1);
        assert(all.contains(w) == (first == w || rest.contains(w))) by {
            if rest.contains(w) {
                let i = choose|i: int| 0 <= i < rest.len() && rest[i] == w;
                assert(all[i + 1] == w);
            }
            if all.contains(w) {
                let i = choose|i: int| 0 <= i < all.len() && all[i] == w;
                if i > 0 {
                    assert(rest[i - 1] == w);
                }
            }
        }
    } else {
        assert(all.contains(w) == (first == w)) by {
            if all.contains(w) {
                let i = choose|i: int| 0 <= i < all.len() && all[i] == w;
            }
        }
    }
    if first == w {
        assert(s.subrange(start, start + n) == w);
    }
    assert forall|a: int|
        {
            &&& start <= a <= s.len() - n
            &&& #[trigger] s.subrange(a, a + n) == w
            &&& a == 0 || s[a - 1] == c
            &&& a + n == s.len() || s[a + n] == c
        } && a <= e implies first == w by {
        if a > start {
            assert(s[a - 1] == c);
        }
        assert(a == start);
        if e < a + n {
            assert(s.subrange(a, a + n)[e - a] == c);
            assert(w.contains(c));
        }
        assert(e == a + n);
    }
}

} // verus!
