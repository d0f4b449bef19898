//! What a fingerprint takes in of a source text, and what it leaves out.
use vstd::prelude::*;
use vstd::utf8::*;

use crate::accept::{content_bytes, fingerprint_of, fnv, OFFSET_BASIS};
use crate::text::{
    digit, find, hex, is_space, lemma_find, lines_from, lines_of, trim_end, without_cr,
};

verus! {

/// The lines of a text that count: without the white space they end with, and without blank ones.
pub open spec fn content_lines(lines: Seq<Seq<char>>) -> Seq<Seq<char>>
    decreases lines.len(),
{
    if lines.len() == 0 {
        Seq::empty()
    } else {
        let before = content_lines(lines.drop_last());
        let line = trim_end(lines.last());
        if line.len() == 0 {
            before
        } else {
            before.push(line)
        }
    }
}

/// The bytes of lines, each followed by a newline.
pub open spec fn line_bytes(lines: Seq<Seq<char>>) -> Seq<u8>
    decreases lines.len(),
{
    if lines.len() == 0 {
        Seq::empty()
    } else {
        (line_bytes(lines.drop_last()) + encode_utf8(lines.last())).push(10u8)
    }
}

proof fn lemma_content_bytes(lines: Seq<Seq<char>>)
    ensures
        content_bytes(lines) == line_bytes(content_lines(lines)),
    decreases lines.len(),
{
    if lines.len() > 0 {
        lemma_content_bytes(lines.drop_last());
        let before = content_lines(lines.drop_last());
        let line = trim_end(lines.last());
        if line.len() > 0 {
            assert(before.push(line).drop_last() =~= before);
        }
    }
}

/// Two texts that differ only in white space at the ends of lines, and in blank lines, have the
/// same fingerprint.
pub proof fn fingerprints_ignore_layout(a: Seq<char>, b: Seq<char>)
    requires
        content_lines(lines_of(a)) == content_lines(lines_of(b)),
    ensures
        fingerprint_of(a) == fingerprint_of(b),
{
    lemma_content_bytes(lines_of(a));
    lemma_content_bytes(lines_of(b));
}

/// A digit of base sixteen, lower case.
pub open spec fn is_hex_digit(c: char) -> bool {
    '0' <= c <= '9' || 'a' <= c <= 'f'
}

proof fn lemma_hex_digits(n: nat, width: nat)
    ensures
        hex(n, width).len() == width,
        forall|i: int| 0 <= i < width ==> is_hex_digit(#[trigger] hex(n, width)[i]),
    decreases width,
{
    if width > 0 {
        lemma_hex_digits(n / 16, (width - 1) as nat);
        assert(is_hex_digit(digit((n % 16) as int)));
    }
}

/// A fingerprint is sixteen digits of base sixteen, lower case.
pub proof fn fingerprints_are_sixteen_digits(source: Seq<char>)
    ensures
        fingerprint_of(source).len() == 16,
        forall|i: int| 0 <= i < 16 ==> is_hex_digit(#[trigger] fingerprint_of(source)[i]),
{
    lemma_hex_digits(
        fnv(
            OFFSET_BASIS,
            content_bytes(lines_of(source)),
        ) as nat,
        16,
    );
}

proof fn lemma_scalar_bytes(v: u32)
    requires
        is_scalar(v),
        v != 10,
    ensures
        forall|i: int| 0 <= i < encode_scalar(v).len() ==> #[trigger] encode_scalar(v)[i] != 10u8,
{
    assert(v <= 0x7f && v != 10 ==> (v & 0x7F) as u8 != 10u8) by (bit_vector);
    assert(0xC0 | ((v >> 6) & 0x1F) as u8 != 10u8) by (bit_vector);
    assert(0xE0 | ((v >> 12) & 0x0F) as u8 != 10u8) by (bit_vector);
    assert(0xF0 | ((v >> 18) & 0x7) as u8 != 10u8) by (bit_vector);
    assert(0x80 | (v & 0x3F) as u8 != 10u8) by (bit_vector);
    assert(0x80 | ((v >> 6) & 0x3F) as u8 != 10u8) by (bit_vector);
    assert(0x80 | ((v >> 12) & 0x3F) as u8 != 10u8) by (bit_vector);
}

proof fn lemma_no_newline_byte(line: Seq<char>)
    requires
        forall|i: int| 0 <= i < line.len() ==> line[i] != '\n',
    ensures
        forall|i: int| 0 <= i < encode_utf8(line).len() ==> #[trigger] encode_utf8(line)[i] != 10u8,
    decreases line.len(),
{
    if line.len() > 0 {
        let rest = line.drop_first();
        assert forall|i: int| 0 <= i < rest.len() implies rest[i] != '\n' by {
            assert(rest[i] == line[i + 1]);
        }
        lemma_no_newline_byte(rest);
        let c = line[0];
        let v = c as u32;
        char_is_scalar(c);
        if v == 10 {
            char_u32_cast(c, v);
            char_u32_cast('\n', v);
        }
        lemma_scalar_bytes(v);
        let head = encode_scalar(v);
        let tail = encode_utf8(rest);
        assert forall|i: int| 0 <= i < encode_utf8(line).len() implies #[trigger] encode_utf8(
            line,
        )[i] != 10u8 by {
            if i < head.len() {
                assert(encode_utf8(line)[i] == head[i]);
            } else {
                assert(encode_utf8(line)[i] == tail[i - head.len()]);
            }
        }
    }
}

/// No line of a list holds a newline.
pub open spec fn single_lines(lines: Seq<Seq<char>>) -> bool {
    forall|i: int, k: int|
        0 <= i < lines.len() && 0 <= k < lines[i].len() ==> #[trigger] lines[i][k] != '\n'
}

proof fn lemma_lines_from_single(s: Seq<char>, start: int)
    requires
        0 <= start,
    ensures
        single_lines(lines_from(s, start)),
    decreases s.len() - start,
{
    if start < s.len() {
        lemma_find(s, '\n', start);
        let e = find(s, '\n', start);
        let all = lines_from(s, start);
        if e < s.len() {
            lemma_lines_from_single(s, e + 1);
            let rest = lines_from(s, e + 1);
            assert forall|i: int, k: int| 0 <= i < all.len() && 0 <= k < all[i].len() implies
                #[trigger] all[i][k] != '\n' by {
                if i == 0 {
                    assert(all[0] == without_cr(s.subrange(start, e)));
                    assert(all[0][k] == s[start + k]);
                } else {
                    assert(all[i] == rest[i - 1]);
                }
            }
        } else {
            assert forall|i: int, k: int| 0 <= i < all.len() && 0 <= k < all[i].len() implies
                #[trigger] all[i][k] != '\n' by {
                assert(all[i][k] == s[start + k]);
            }
        }
    }
}

/// No line of a text holds a newline.
pub proof fn lines_hold_no_newline(s: Seq<char>)
    ensures
        single_lines(lines_of(s)),
{
    lemma_lines_from_single(s, 0);
}

proof fn lemma_trim_end_prefix(s: Seq<char>)
    ensures
        trim_end(s).len() <= s.len(),
        forall|k: int| 0 <= k < trim_end(s).len() ==> #[trigger] trim_end(s)[k] == s[k],
    decreases s.len(),
{
    if s.len() > 0 && is_space(s.last()) {
        lemma_trim_end_prefix(s.drop_last());
    }
}

proof fn lemma_content_single(lines: Seq<Seq<char>>)
    requires
        single_lines(lines),
    ensures
        single_lines(content_lines(lines)),
    decreases lines.len(),
{
    if lines.len() > 0 {
        let front = lines.drop_last();
        assert forall|i: int, k: int| 0 <= i < front.len() && 0 <= k < front[i].len() implies
            #[trigger] front[i][k] != '\n' by {
            assert(front[i] == lines[i]);
            assert(lines[i][k] != '\n');
        }
        lemma_content_single(front);
        let before = content_lines(front);
        let line = trim_end(lines.last());
        lemma_trim_end_prefix(lines.last());
        let all = content_lines(lines);
        assert forall|i: int, k: int| 0 <= i < all.len() && 0 <= k < all[i].len() implies
            #[trigger] all[i][k] != '\n' by {
            if i < before.len() {
                assert(all[i] == before[i]);
                assert(before[i][k] != '\n');
            } else {
                assert(all[i] == line);
                assert(lines[lines.len() - 1][k] != '\n');
            }
        }
    }
}

proof fn lemma_line_bytes_injective(a: Seq<Seq<char>>, b: Seq<Seq<char>>)
    requires
        single_lines(a),
        single_lines(b),
        line_bytes(a) == line_bytes(b),
    ensures
        a == b,
    decreases a.len(),
{
    if a.len() == 0 || b.len() == 0 {
        assert(a.len() > 0 ==> line_bytes(a).len() > 0);
        assert(b.len() > 0 ==> line_bytes(b).len() > 0);
        assert(a.len() == 0 && b.len() == 0);
        assert(a =~= b);
    } else {
        let fa = a.drop_last();
        let fb = b.drop_last();
        let pa = line_bytes(fa);
        let pb = line_bytes(fb);
        let ea = encode_utf8(a.last());
        let eb = encode_utf8(b.last());
        let whole = line_bytes(a);
        assert forall|i: int| 0 <= i < a.last().len() implies a.last()[i] != '\n' by {
            assert(a[a.len() - 1][i] != '\n');
        }
        assert forall|i: int| 0 <= i < b.last().len() implies b.last()[i] != '\n' by {
            assert(b[b.len() - 1][i] != '\n');
        }
        lemma_no_newline_byte(a.last());
        lemma_no_newline_byte(b.last());
        assert(whole.len() == pa.len() + ea.len() + 1);
        assert(whole.len() == pb.len() + eb.len() + 1);
        assert forall|i: int| pa.len() <= i < whole.len() - 1 implies whole[i] != 10u8 by {
            assert(whole[i] == ea[i - pa.len()]);
        }
        assert forall|i: int| pb.len() <= i < whole.len() - 1 implies whole[i] != 10u8 by {
            assert(whole[i] == eb[i - pb.len()]);
        }
        if pa.len() > 0 {
            assert(fa.len() > 0);
            assert(whole[pa.len() - 1] == pa[pa.len() - 1]);
            assert(pa[pa.len() - 1] == 10u8);
        }
        if pb.len() > 0 {
            assert(fb.len() > 0);
            assert(whole[pb.len() - 1] == pb[pb.len() - 1]);
            assert(pb[pb.len() - 1] == 10u8);
        }
        assert(pa.len() == pb.len());
        assert(pa =~= whole.subrange(0, pa.len() as int));
        assert(pb =~= whole.subrange(0, pb.len() as int));
        assert(ea =~= whole.subrange(pa.len() as int, whole.len() - 1));
        assert(eb =~= whole.subrange(pb.len() as int, whole.len() - 1));
        encode_utf8_decode_utf8(a.last());
        encode_utf8_decode_utf8(b.last());
        assert forall|i: int, k: int| 0 <= i < fa.len() && 0 <= k < fa[i].len() implies
            #[trigger] fa[i][k] != '\n' by {
            assert(a[i][k] != '\n');
        }
        assert forall|i: int, k: int| 0 <= i < fb.len() && 0 <= k < fb[i].len() implies
            #[trigger] fb[i][k] != '\n' by {
            assert(b[i][k] != '\n');
        }
        lemma_line_bytes_injective(fa, fb);
        assert(a =~= fa.push(a.last()));
        assert(b =~= fb.push(b.last()));
    }
}

/// What a fingerprint takes in tells apart any two texts that differ in more than white space at
/// the ends of lines and blank lines; in particular where a line ends.
pub proof fn fingerprinted_bytes_tell_texts_apart(a: Seq<char>, b: Seq<char>)
    requires
        content_lines(lines_of(a)) != content_lines(lines_of(b)),
    ensures
        content_bytes(lines_of(a)) != content_bytes(lines_of(b)),
{
    lemma_content_bytes(lines_of(a));
    lemma_content_bytes(lines_of(b));
    lines_hold_no_newline(a);
    lines_hold_no_newline(b);
    lemma_content_single(lines_of(a));
    lemma_content_single(lines_of(b));
    if content_bytes(lines_of(a)) == content_bytes(lines_of(b)) {
        lemma_line_bytes_injective(content_lines(lines_of(a)), content_lines(lines_of(b)));
    }
}

} // verus!
