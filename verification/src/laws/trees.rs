//! What holds of syntax trees.
use vstd::prelude::*;
use vstd::utf8::*;

use crate::syntax::{
    byte_range, child_by_field, child_test, children, descendants, end_from, end_of, field_test,
    kind_test, named_child, named_child_test, named_children, parent, parent_before, select,
    tree_of, NodeModel, RawModel,
};

verus! {

/// Node `k` stands under node `i`: behind it, and everything from there up to it is deeper.
pub open spec fn stands_under(t: Seq<NodeModel>, i: int, k: int) -> bool {
    0 <= i < k < t.len() && forall|j: int| i < j <= k ==> (#[trigger] t[j]).depth > t[i].depth
}

/// Node `k` is node `i` or stands under it.
pub open spec fn stands_in(t: Seq<NodeModel>, i: int, k: int) -> bool {
    0 <= i < t.len() && (k == i || stands_under(t, i, k))
}

/// Node `k` is a child of node `i`.
pub open spec fn is_child(t: Seq<NodeModel>, i: int, k: int) -> bool {
    stands_under(t, i, k) && t[k].depth == t[i].depth + 1
}

/// Positions one behind the other.
pub open spec fn increasing(s: Seq<int>) -> bool {
    forall|a: int, b: int| 0 <= a < b < s.len() ==> #[trigger] s[a] < #[trigger] s[b]
}

proof fn lemma_end(t: Seq<NodeModel>, depth: nat, k: int)
    requires
        0 <= k <= t.len(),
    ensures
        k <= end_from(t, depth, k) <= t.len(),
        forall|j: int| k <= j < end_from(t, depth, k) ==> (#[trigger] t[j]).depth > depth,
        end_from(t, depth, k) < t.len() ==> t[end_from(t, depth, k)].depth <= depth,
    decreases t.len() - k,
{
    if k < t.len() && t[k].depth > depth {
        lemma_end(t, depth, k + 1);
    }
}

/// What stands under a node is what lies between it and the end of its part of the tree.
pub proof fn parts_end_where_the_depth_falls_back(t: Seq<NodeModel>, i: int, k: int)
    requires
        0 <= i < t.len(),
    ensures
        i < end_of(t, i) <= t.len(),
        stands_under(t, i, k) == (i < k < end_of(t, i)),
{
    lemma_end(t, t[i].depth, i + 1);
    if stands_under(t, i, k) && k >= end_of(t, i) {
        assert(t[end_of(t, i)].depth > t[i].depth);
    }
}

/// A selection holds the positions of its range at which the test holds, and no others, in order.
pub proof fn selections_hold_what_passes(from: int, to: int, p: spec_fn(int) -> bool)
    ensures
        forall|k: int| #[trigger] select(from, to, p).contains(k) == (from <= k < to && p(k)),
        increasing(select(from, to, p)),
    decreases to - from,
{
    let s = select(from, to, p);
    if from < to {
        selections_hold_what_passes(from, to - 1, p);
        let r = select(from, to - 1, p);
        assert forall|k: int| #[trigger] s.contains(k) == (from <= k < to && p(k)) by {
            assert(r.contains(k) == (from <= k < to - 1 && p(k)));
            if r.contains(k) {
                let n = choose|n: int| 0 <= n < r.len() && r[n] == k;
                assert(s[n] == k);
            }
            if p(to - 1) {
                assert(s[s.len() - 1] == to - 1);
            }
            if s.contains(k) {
                let n = choose|n: int| 0 <= n < s.len() && s[n] == k;
                if n < r.len() {
                    assert(r[n] == k);
                }
            }
        }
        assert forall|a: int, b: int| 0 <= a < b < s.len() implies #[trigger] s[a] < #[trigger] s[b] by {
            if b < r.len() {
                assert(s[a] == r[a] && s[b] == r[b]);
            } else {
                assert(s[a] == r[a]);
                assert(r.contains(r[a]));
            }
        }
    }
}

/// The nodes of a kind at or under a node are those that stand there and are of the kind, in order.
pub proof fn descendants_are_what_stands_there(t: Seq<NodeModel>, i: int, kind: Seq<char>)
    requires
        0 <= i < t.len(),
    ensures
        forall|k: int| #[trigger] descendants(t, i, kind).contains(k) == (stands_in(t, i, k) && t[k].kind
            == kind),
        increasing(descendants(t, i, kind)),
{
    selections_hold_what_passes(i, end_of(t, i), kind_test(t, kind));
    assert forall|k: int| #[trigger] descendants(t, i, kind).contains(k) == (stands_in(t, i, k)
        && t[k].kind == kind) by {
        parts_end_where_the_depth_falls_back(t, i, k);
    }
}

/// The children of a node are those that stand directly under it, in order; and the named ones
/// those among them that the grammar names.
pub proof fn children_stand_directly_under(t: Seq<NodeModel>, i: int)
    requires
        0 <= i < t.len(),
    ensures
        forall|k: int| #[trigger] children(t, i).contains(k) == is_child(t, i, k),
        increasing(children(t, i)),
        forall|k: int| #[trigger] named_children(t, i).contains(k) == (is_child(t, i, k) && t[k].named),
        increasing(named_children(t, i)),
{
    selections_hold_what_passes(i + 1, end_of(t, i), child_test(t, i));
    selections_hold_what_passes(i + 1, end_of(t, i), named_child_test(t, i));
    assert forall|k: int| #[trigger] children(t, i).contains(k) == is_child(t, i, k) by {
        parts_end_where_the_depth_falls_back(t, i, k);
    }
    assert forall|k: int| #[trigger] named_children(t, i).contains(k) == (is_child(t, i, k)
        && t[k].named) by {
        parts_end_where_the_depth_falls_back(t, i, k);
    }
}

/// The child under a field name is the first of the children that bears the name; there is none
/// only where no child bears it.
pub proof fn fields_lead_to_the_first_child(t: Seq<NodeModel>, i: int, field: Seq<char>)
    requires
        0 <= i < t.len(),
    ensures
        match child_by_field(t, i, field) {
            Some(k) => {
                &&& is_child(t, i, k)
                &&& t[k].field == Some(field)
                &&& forall|j: int| #[trigger] is_child(t, i, j) && t[j].field == Some(field) ==> k
                    <= j
            },
            None => forall|j: int| #[trigger] is_child(t, i, j) ==> t[j].field != Some(field),
        },
{
    let p = field_test(t, i, field);
    let s = select(i + 1, end_of(t, i), p);
    selections_hold_what_passes(i + 1, end_of(t, i), p);
    assert forall|j: int| #[trigger] is_child(t, i, j) implies (t[j].field == Some(field)
        <==> s.contains(j)) by {
        parts_end_where_the_depth_falls_back(t, i, j);
    }
    if s.len() > 0 {
        assert(s.contains(s[0]));
        parts_end_where_the_depth_falls_back(t, i, s[0]);
        assert forall|j: int| #[trigger] is_child(t, i, j) && t[j].field == Some(field) implies s[0]
            <= j by {
            assert(s.contains(j));
            let n = choose|n: int| 0 <= n < s.len() && s[n] == j;
            if n > 0 {
                assert(s[0] < s[n]);
            }
        }
    } else {
        assert forall|j: int| #[trigger] is_child(t, i, j) implies t[j].field != Some(field) by {
            assert(!s.contains(j));
        }
    }
}

/// The first named child is a child that the grammar names, and none before it is one.
pub proof fn the_first_named_child_comes_first(t: Seq<NodeModel>, i: int)
    requires
        0 <= i < t.len(),
    ensures
        match named_child(t, i) {
            Some(k) => is_child(t, i, k) && t[k].named && forall|j: int|
                #[trigger] is_child(t, i, j) && t[j].named ==> k <= j,
            None => forall|j: int| #[trigger] is_child(t, i, j) ==> !t[j].named,
        },
{
    children_stand_directly_under(t, i);
    let s = named_children(t, i);
    if s.len() > 0 {
        assert(s.contains(s[0]));
        assert forall|j: int| #[trigger] is_child(t, i, j) && t[j].named implies s[0] <= j by {
            assert(s.contains(j));
            let n = choose|n: int| 0 <= n < s.len() && s[n] == j;
            if n > 0 {
                assert(s[0] < s[n]);
            }
        }
    } else {
        assert forall|j: int| #[trigger] is_child(t, i, j) implies !t[j].named by {
            assert(!s.contains(j));
        }
    }
}

proof fn lemma_parent_before(t: Seq<NodeModel>, depth: nat, k: int, i: int)
    requires
        0 <= i < k <= t.len(),
        t[i].depth < depth,
        forall|j: int| i < j < k ==> (#[trigger] t[j]).depth >= depth,
    ensures
        parent_before(t, depth, k) == Some(i),
    decreases k,
{
    if i < k - 1 {
        assert(t[k - 1].depth >= depth);
        lemma_parent_before(t, depth, k - 1, i);
    }
}

/// Every child has its parent for parent.
pub proof fn children_have_their_parent(t: Seq<NodeModel>, i: int, k: int)
    requires
        is_child(t, i, k),
    ensures
        parent(t, k) == Some(i),
{
    assert forall|j: int| i < j < k implies (#[trigger] t[j]).depth >= t[k].depth by {
        assert(t[j].depth > t[i].depth);
    }
    lemma_parent_before(t, t[k].depth, k, i);
}

/// A node of the library's tree says what the parser says of it, and its text is the bytes of the
/// source from where it starts up to where it ends.
pub proof fn nodes_say_what_the_parser_says(raw: Seq<RawModel>, source: Seq<char>, i: int)
    requires
        0 <= i < raw.len(),
    ensures
        tree_of(raw, source).len() == raw.len(),
        tree_of(raw, source)[i].kind == raw[i].kind,
        tree_of(raw, source)[i].field == raw[i].field,
        tree_of(raw, source)[i].named == raw[i].named,
        tree_of(raw, source)[i].depth == raw[i].depth,
        tree_of(raw, source)[i].row == raw[i].row,
        tree_of(raw, source)[i].text == byte_range(source, raw[i].start as int, raw[i].end as int),
{
}

/// A text that is cut out of a source is what its bytes there say.
pub proof fn cut_texts_are_the_bytes_of_the_source(source: Seq<char>, start: int, end: int)
    ensures
        byte_range(source, start, end) matches Some(text) ==> 0 <= start <= end <= encode_utf8(
            source,
        ).len() && encode_utf8(text) == encode_utf8(source).subrange(start, end),
        byte_range(source, 0, encode_utf8(source).len() as int) == Some(source),
{
    let bytes = encode_utf8(source);
    encode_utf8_valid_utf8(source);
    encode_utf8_decode_utf8(source);
    is_char_boundary_start_end_of_seq(bytes);
    assert(bytes.subrange(0, bytes.len() as int) =~= bytes);
    if byte_range(source, start, end) is Some {
        let front = bytes.subrange(0, end);
        valid_utf8_split(bytes, end);
        is_char_boundary_start_end_of_seq(front);
        if start < end {
            is_char_boundary_iff_not_is_continuation_byte(bytes, start);
            is_char_boundary_iff_not_is_continuation_byte(front, start);
        }
        valid_utf8_split(front, start);
        let part = bytes.subrange(start, end);
        assert(front.subrange(start, front.len() as int) =~= part);
        decode_utf8_encode_utf8(part);
    }
}

} // verus!
