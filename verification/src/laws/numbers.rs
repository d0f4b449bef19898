//! What holds of numbers as they are written.
use vstd::prelude::*;

use crate::numerals::{
    ascii_lower, decimal_from, digits_end, digits_start, digits_value, lowered, unsigned_value,
    writes_float,
};
use crate::text::decimal;

verus! {

/// A number in decimal: the digits of its tens, and behind them that of its ones. Nothing but
/// digits stands in it, and no zero before other digits.
pub proof fn decimals_are_tens_and_ones(n: nat, ones: nat)
    requires
        ones < 10,
    ensures
        n > 0 ==> decimal(10 * n + ones) == decimal(n).push((48 + ones) as char),
        decimal(ones) == seq![(48 + ones) as char],
{
    if n > 0 {
        assert((10 * n + ones) / 10 == n && (10 * n + ones) % 10 == ones);
    }
}

/// Every character of a number in decimal is a digit.
pub proof fn decimals_hold_digits(n: nat)
    ensures
        decimal(n).len() > 0,
        forall|i: int| 0 <= i < decimal(n).len() ==> '0' <= #[trigger] decimal(n)[i] <= '9',
    decreases n,
{
    if n >= 10 {
        decimals_hold_digits(n / 10);
    }
}

proof fn lemma_digits_end(s: Seq<char>, from: int)
    requires
        0 <= from <= s.len(),
        forall|i: int| from <= i < s.len() ==> '0' <= #[trigger] s[i] <= '9',
    ensures
        digits_end(s, from) == s.len(),
    decreases s.len() - from,
{
    if from < s.len() {
        assert('0' <= s[from] <= '9');
        lemma_digits_end(s, from + 1);
    }
}

proof fn lemma_value_of_front(s: Seq<char>, t: Seq<char>, from: int, by: int, upto: int)
    requires
        0 <= from <= upto <= s.len(),
        upto + by <= t.len(),
        0 <= by,
        forall|i: int| from <= i < upto ==> #[trigger] s[i] == t[i + by],
    ensures
        digits_value(s, from, upto) == digits_value(t, from + by, upto + by),
    decreases upto - from,
{
    if from < upto {
        lemma_value_of_front(s, t, from, by, upto - 1);
        assert(s[upto - 1] == t[upto - 1 + by]);
    }
}

proof fn lemma_value(n: nat)
    ensures
        digits_value(decimal(n), 0, decimal(n).len() as int) == n,
    decreases n,
{
    let s = decimal(n);
    decimals_hold_digits(n);
    if n < 10 {
        assert(digits_value(s, 0, 0) == 0);
    } else {
        let t = decimal(n / 10);
        lemma_value(n / 10);
        decimals_hold_digits(n / 10);
        lemma_value_of_front(t, s, 0, 0, t.len() as int);
    }
}

/// A number that is written in decimal is read back, with or without a plus before it, as long as
/// the machine can hold it; and not at all where it cannot.
pub proof fn decimals_are_read_back(n: nat)
    ensures
        n <= u64::MAX ==> unsigned_value(decimal(n)) == Some(n as u64),
        n <= u64::MAX ==> unsigned_value(seq!['+'] + decimal(n)) == Some(n as u64),
        n > u64::MAX ==> unsigned_value(decimal(n)) is None,
{
    let s = decimal(n);
    decimals_hold_digits(n);
    lemma_digits_end(s, 0);
    lemma_value(n);
    assert(s[0] != '+');
    let t = seq!['+'] + s;
    assert forall|i: int| 1 <= i < t.len() implies '0' <= #[trigger] t[i] <= '9' by {
        assert(t[i] == s[i - 1]);
    }
    lemma_digits_end(t, 1);
    lemma_value_of_front(s, t, 0, 1, s.len() as int);
}

/// What is read as a number holds digits alone, behind at most a plus.
pub proof fn numbers_are_digits(s: Seq<char>)
    requires
        unsigned_value(s) is Some,
    ensures
        s.len() > 0,
        forall|i: int| 1 <= i < s.len() ==> '0' <= #[trigger] s[i] <= '9',
        s[0] == '+' || '0' <= s[0] <= '9',
        s[0] == '+' ==> s.len() > 1,
{
    lemma_digits_from(s, digits_start(s));
}

proof fn lemma_digits_from(s: Seq<char>, from: int)
    requires
        0 <= from <= s.len(),
        digits_end(s, from) == s.len(),
    ensures
        forall|i: int| from <= i < s.len() ==> '0' <= #[trigger] s[i] <= '9',
    decreases s.len() - from,
{
    if from < s.len() {
        lemma_digits_from(s, from + 1);
    }
}

proof fn lemma_run_of_digits(s: Seq<char>, from: int, to: int)
    requires
        0 <= from <= to <= s.len(),
        forall|i: int| from <= i < to ==> '0' <= #[trigger] s[i] <= '9',
        to < s.len() ==> !('0' <= s[to] <= '9'),
    ensures
        digits_end(s, from) == to,
    decreases to - from,
{
    if from < to {
        assert('0' <= s[from] <= '9');
        lemma_run_of_digits(s, from + 1, to);
    }
}

/// Whether a text holds digits alone.
pub open spec fn digits_alone(s: Seq<char>) -> bool {
    forall|i: int| 0 <= i < s.len() ==> '0' <= #[trigger] s[i] <= '9'
}

/// A number with a point: digits may be missing before the point or behind it, but not on both
/// sides. A sign may stand before it, and a power of ten behind it, which needs a digit.
pub proof fn numbers_with_a_point(sign: Seq<char>, whole: Seq<char>, part: Seq<char>, power: Seq<char>)
    requires
        sign.len() == 0 || sign == seq!['+'] || sign == seq!['-'],
        digits_alone(whole),
        digits_alone(part),
        digits_alone(power),
    ensures
        writes_float(sign + whole + seq!['.'] + part) == (whole.len() > 0 || part.len() > 0),
        writes_float(sign + whole + seq!['.'] + part + seq!['e'] + power) == ((whole.len() > 0
            || part.len() > 0) && power.len() > 0),
        writes_float(sign + whole) == (whole.len() > 0),
{
    lemma_plain(sign, whole);
    lemma_pointed(sign, whole, part);
    lemma_powered(sign, whole, part, power);
}

proof fn lemma_plain(sign: Seq<char>, whole: Seq<char>)
    requires
        sign.len() == 0 || sign == seq!['+'] || sign == seq!['-'],
        digits_alone(whole),
    ensures
        writes_float(sign + whole) == (whole.len() > 0),
{
    let n = sign.len() as int;
    let s = sign + whole;
    lemma_no_word(sign, whole);
    assert forall|i: int| n <= i < s.len() implies '0' <= #[trigger] s[i] <= '9' by {
        assert(s[i] == whole[i - n]);
    }
    lemma_run_of_digits(s, n, s.len() as int);
}

proof fn lemma_pointed(sign: Seq<char>, whole: Seq<char>, part: Seq<char>)
    requires
        sign.len() == 0 || sign == seq!['+'] || sign == seq!['-'],
        digits_alone(whole),
        digits_alone(part),
    ensures
        writes_float(sign + whole + seq!['.'] + part) == (whole.len() > 0 || part.len() > 0),
{
    let n = sign.len() as int;
    let w = n + whole.len();
    let number = whole + seq!['.'] + part;
    assert(number[0] == '.' || number[0] == whole[0]);
    lemma_no_word(sign, number);
    let s = sign + whole + seq!['.'] + part;
    assert(s =~= sign + number);
    assert forall|i: int| n <= i < w implies '0' <= #[trigger] s[i] <= '9' by {
        assert(s[i] == whole[i - n]);
    }
    assert forall|i: int| w + 1 <= i < s.len() implies '0' <= #[trigger] s[i] <= '9' by {
        assert(s[i] == part[i - w - 1]);
    }
    lemma_shape(s, n, w, s.len() as int);
}

proof fn lemma_powered(sign: Seq<char>, whole: Seq<char>, part: Seq<char>, power: Seq<char>)
    requires
        sign.len() == 0 || sign == seq!['+'] || sign == seq!['-'],
        digits_alone(whole),
        digits_alone(part),
        digits_alone(power),
    ensures
        writes_float(sign + whole + seq!['.'] + part + seq!['e'] + power) == ((whole.len() > 0
            || part.len() > 0) && power.len() > 0),
{
    let n = sign.len() as int;
    let w = n + whole.len();
    let p = w + 1 + part.len();
    let number = whole + seq!['.'] + part + seq!['e'] + power;
    assert(number[0] == '.' || number[0] == whole[0]);
    lemma_no_word(sign, number);
    let s = sign + whole + seq!['.'] + part + seq!['e'] + power;
    assert(s =~= sign + number);
    assert forall|i: int| n <= i < w implies '0' <= #[trigger] s[i] <= '9' by {
        assert(s[i] == whole[i - n]);
    }
    assert forall|i: int| w + 1 <= i < p implies '0' <= #[trigger] s[i] <= '9' by {
        assert(s[i] == part[i - w - 1]);
    }
    assert forall|i: int| p + 1 <= i < s.len() implies '0' <= #[trigger] s[i] <= '9' by {
        assert(s[i] == power[i - p - 1]);
    }
    lemma_shape(s, n, w, p);
}

proof fn lemma_shape(s: Seq<char>, n: int, w: int, p: int)
    requires
        0 <= n <= w < p <= s.len(),
        forall|i: int| n <= i < w ==> '0' <= #[trigger] s[i] <= '9',
        s[w] == '.',
        forall|i: int| w + 1 <= i < p ==> '0' <= #[trigger] s[i] <= '9',
        p < s.len() ==> s[p] == 'e',
        forall|i: int| p + 1 <= i < s.len() ==> '0' <= #[trigger] s[i] <= '9',
    ensures
        decimal_from(s, n) == ((n < w || w + 1 < p) && (p == s.len() || p + 1 < s.len())),
{
    lemma_run_of_digits(s, n, w);
    lemma_run_of_digits(s, w + 1, p);
    if p < s.len() {
        lemma_run_of_digits(s, p + 1, s.len() as int);
        if p + 1 < s.len() {
            assert('0' <= s[p + 1] <= '9');
        }
    }
}

/// Behind the sign stands the number, and a digit or a point begins none of the words.
proof fn lemma_no_word(sign: Seq<char>, number: Seq<char>)
    requires
        sign.len() == 0 || sign == seq!['+'] || sign == seq!['-'],
        number.len() > 0 ==> number[0] == '.' || '0' <= number[0] <= '9',
    ensures
        writes_float(sign + number) == decimal_from(sign + number, sign.len() as int),
{
    reveal_strlit("inf");
    reveal_strlit("infinity");
    reveal_strlit("nan");
    let s = sign + number;
    assert(s.subrange(sign.len() as int, s.len() as int) =~= number);
    if sign.len() == 0 {
        assert(s =~= number);
    }
    let low = ascii_lower(number);
    assert(low.len() == number.len());
    assert("inf"@.len() == 3 && "infinity"@.len() == 8 && "nan"@.len() == 3);
    if number.len() > 0 {
        assert(low[0] == number[0]);
        assert(low != "inf"@ && low != "infinity"@ && low != "nan"@) by {
            assert("inf"@[0] == 'i' && "infinity"@[0] == 'i' && "nan"@[0] == 'n');
        }
    }
}

/// Two numbers in decimal are the same only if the numbers are.
pub proof fn decimals_tell_numbers_apart(a: nat, b: nat)
    requires
        decimal(a) == decimal(b),
    ensures
        a == b,
{
    lemma_value(a);
    lemma_value(b);
}

/// The words for what is no finite number are numbers too, in any letter case, with or without a
/// sign.
pub proof fn some_words_are_numbers(sign: Seq<char>, word: Seq<char>)
    requires
        sign.len() == 0 || sign == seq!['+'] || sign == seq!['-'],
        ascii_lower(word) == "inf"@ || ascii_lower(word) == "infinity"@ || ascii_lower(word)
            == "nan"@,
    ensures
        writes_float(sign + word),
{
    reveal_strlit("inf");
    reveal_strlit("infinity");
    reveal_strlit("nan");
    let s = sign + word;
    assert(s.subrange(sign.len() as int, s.len() as int) =~= word);
    if sign.len() == 0 {
        assert(s =~= word);
        let low = ascii_lower(word);
        assert(low[0] == 'i' || low[0] == 'n');
        assert(low.len() == word.len());
        assert(low[0] == lowered(word[0]));
    }
}

/// The power of ten may have a sign of its own, and its mark may be a capital.
pub proof fn powers_have_signs(whole: Seq<char>, mark: char, sign: Seq<char>, power: Seq<char>)
    requires
        whole.len() > 0,
        digits_alone(whole),
        digits_alone(power),
        sign.len() == 0 || sign == seq!['+'] || sign == seq!['-'],
    ensures
        mark == 'e' || mark == 'E' ==> writes_float(whole + seq![mark] + sign + power) == (
        power.len() > 0),
        mark != 'e' && mark != 'E' && mark != '.' && !('0' <= mark <= '9') ==> !writes_float(
            whole + seq![mark] + sign + power,
        ),
{
    let s = whole + seq![mark] + sign + power;
    let w = whole.len() as int;
    let p = w + 1 + sign.len();
    let none = Seq::<char>::empty();
    assert(none + s =~= s);
    assert(s[0] == whole[0]);
    lemma_no_word(none, s);
    assert forall|i: int| 0 <= i < w implies '0' <= #[trigger] s[i] <= '9' by {
        assert(s[i] == whole[i]);
    }
    assert(s[w] == mark);
    if !('0' <= mark <= '9') {
        lemma_run_of_digits(s, 0, w);
    }
    assert forall|i: int| p <= i < s.len() implies '0' <= #[trigger] s[i] <= '9' by {
        assert(s[i] == power[i - p]);
    }
    lemma_run_of_digits(s, p, s.len() as int);
    if sign.len() > 0 {
        assert(s[w + 1] == sign[0]);
    } else if power.len() > 0 {
        assert(s[w + 1] == power[0]);
    }
}

} // verus!
