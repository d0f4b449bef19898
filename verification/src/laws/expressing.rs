//! What holds of expressions, decorators and the names of the Mock API.
use vstd::prelude::*;

use crate::expressions::{
    asserts_on_mock, chain, changes_literal, decorated_by, first_of_kind, fixture_decorator,
    last_attribute, leftmost, literal, mock_construction, names_raises, opens_plainly,
    patch_decorator, raises_block,
};
use crate::laws::texts::{first_pieces_end_at_the_separator, last_pieces_follow_the_last_separator};
use crate::laws::trees::{
    children_stand_directly_under, fields_lead_to_the_first_child, increasing, is_child,
    the_first_named_child_comes_first,
};
use crate::mock_api::{among, MOCK_API_ATTRIBUTES, MOCK_CONSTRUCTORS, STUB_HEADS};
use crate::syntax::{child_by_field, children, kind_test, named_child, named_children, NodeModel};
use crate::text::{is_prefix, is_suffix, split};

verus! {

/// A dotted expression is written with its dots: an identifier is itself, an attribute is what it
/// is an attribute of, a dot and its name. Nothing else is a chain.
pub proof fn chains_are_written_with_dots(t: Seq<NodeModel>, i: int)
    requires
        0 <= i < t.len(),
    ensures
        t[i].kind == "identifier"@ ==> chain(t, i) == t[i].text,
        t[i].kind == "attribute"@ ==> match chain(t, i) {
            Some(c) => exists|object: int, name: int|
                #![trigger is_child(t, i, object), is_child(t, i, name)]
                {
                    &&& is_child(t, i, object) && t[object].field == Some("object"@)
                    &&& is_child(t, i, name) && t[name].field == Some("attribute"@)
                    &&& chain(t, object) is Some && t[name].text is Some
                    &&& c == chain(t, object)->0 + seq!['.'] + t[name].text->0
                },
            None => true,
        },
        t[i].kind != "identifier"@ && t[i].kind != "attribute"@ ==> chain(t, i) is None,
{
    reveal_strlit(".");
    assert("."@ =~= seq!['.']);
    reveal_strlit("identifier");
    reveal_strlit("attribute");
    assert("identifier"@.len() == 10);
    assert("attribute"@.len() == 9);
    fields_lead_to_the_first_child(t, i, "object"@);
    fields_lead_to_the_first_child(t, i, "attribute"@);
    if t[i].kind == "attribute"@ && chain(t, i) is Some {
        let object = child_by_field(t, i, "object"@)->0;
        let name = child_by_field(t, i, "attribute"@)->0;
        assert(is_child(t, i, object) && is_child(t, i, name));
    }
}

/// What an assertion is about does not depend on parentheses around it; it is about the name
/// behind the last dot of what it reads or calls; anything else is about no mock.
pub proof fn assertions_are_about_the_last_name(t: Seq<NodeModel>, i: int)
    requires
        0 <= i < t.len(),
    ensures
        t[i].kind == "parenthesized_expression"@ ==> match named_child(t, i) {
            Some(inner) => last_attribute(t, i) == last_attribute(t, inner),
            None => last_attribute(t, i) is None,
        },
        t[i].kind == "attribute"@ ==> (child_by_field(t, i, "attribute"@) matches Some(a)
            ==> last_attribute(t, i) == t[a].text),
        t[i].kind == "call"@ ==> (child_by_field(t, i, "function"@) matches Some(f)
            ==> (t[f].kind == "attribute"@ ==> last_attribute(t, i) == last_attribute(t, f))),
        t[i].kind == "identifier"@ || t[i].kind == "comparison_operator"@ || t[i].kind
            == "not_operator"@ || t[i].kind == "boolean_operator"@ ==> last_attribute(t, i) is None,
{
    reveal_strlit("attribute");
    reveal_strlit("call");
    reveal_strlit("parenthesized_expression");
    reveal_strlit("identifier");
    reveal_strlit("comparison_operator");
    reveal_strlit("not_operator");
    reveal_strlit("boolean_operator");
    assert("attribute"@.len() == 9 && "call"@.len() == 4 && "parenthesized_expression"@.len() == 24);
    assert("identifier"@.len() == 10 && "comparison_operator"@.len() == 19 && "not_operator"@.len()
        == 12 && "boolean_operator"@.len() == 16);
    the_first_named_child_comes_first(t, i);
    fields_lead_to_the_first_child(t, i, "function"@);
}

/// An `assert` statement is about a mock exactly where the name that its expression ends in is one
/// of the Mock API; what follows the expression, a message, has no say.
pub proof fn asserts_are_about_what_they_assert(t: Seq<NodeModel>, k: int, e: int)
    requires
        0 <= k < t.len(),
        is_child(t, k, e),
        t[e].named,
        forall|j: int| #[trigger] is_child(t, k, j) && t[j].named ==> e <= j,
    ensures
        asserts_on_mock(t, k) == (last_attribute(t, e) matches Some(s) && is_mock_attribute(s)),
{
    the_first_named_child_comes_first(t, k);
    if let Some(s) = last_attribute(t, e) {
        mock_attributes_are_listed(s);
    }
}

/// A name of the Mock API that an assertion about a mock reads.
pub open spec fn is_mock_attribute(s: Seq<char>) -> bool {
    ||| s == "called"@
    ||| s == "call_count"@
    ||| s == "call_args"@
    ||| s == "call_args_list"@
    ||| s == "assert_called"@
    ||| s == "assert_called_with"@
    ||| s == "assert_called_once"@
    ||| s == "assert_called_once_with"@
    ||| s == "assert_not_called"@
    ||| s == "assert_any_call"@
    ||| s == "assert_has_calls"@
}

/// The attributes of the Mock API are a closed list.
pub proof fn mock_attributes_are_listed(s: Seq<char>)
    ensures
        among(MOCK_API_ATTRIBUTES@, s) == is_mock_attribute(s),
{
    let list = MOCK_API_ATTRIBUTES@;
    assert(list[0]@ == "called"@);
    assert(list[1]@ == "call_count"@);
    assert(list[2]@ == "call_args"@);
    assert(list[3]@ == "call_args_list"@);
    assert(list[4]@ == "assert_called"@);
    assert(list[5]@ == "assert_called_with"@);
    assert(list[6]@ == "assert_called_once"@);
    assert(list[7]@ == "assert_called_once_with"@);
    assert(list[8]@ == "assert_not_called"@);
    assert(list[9]@ == "assert_any_call"@);
    assert(list[10]@ == "assert_has_calls"@);
}

/// The names that construct a mock are a closed list.
pub proof fn mock_constructors_are_listed(s: Seq<char>)
    ensures
        among(MOCK_CONSTRUCTORS@, s) == (s == "Mock"@ || s == "MagicMock"@ || s == "AsyncMock"@ || s
            == "create_autospec"@ || s == "patch"@),
{
    let list = MOCK_CONSTRUCTORS@;
    assert(list[0]@ == "Mock"@);
    assert(list[1]@ == "MagicMock"@);
    assert(list[2]@ == "AsyncMock"@);
    assert(list[3]@ == "create_autospec"@);
    assert(list[4]@ == "patch"@);
}

/// The calls by which a fixture rewires the system are a closed list.
pub proof fn stub_heads_are_listed(s: Seq<char>)
    ensures
        among(STUB_HEADS@, s) == (s == "monkeypatch.setattr"@ || s == "monkeypatch.setenv"@ || s
            == "monkeypatch.delattr"@ || s == "monkeypatch.delenv"@ || s == "monkeypatch.context"@
            || s == "monkeypatch.syspath_prepend"@ || s == "monkeypatch.chdir"@ || s
            == "mocker.patch"@ || s == "mocker.patch.object"@ || s == "mocker.patch.dict"@ || s
            == "mocker.patch.multiple"@ || s == "mocker.spy"@ || s == "mocker.stub"@ || s
            == "mocker.MagicMock"@),
{
    let list = STUB_HEADS@;
    assert(list[0]@ == "monkeypatch.setattr"@);
    assert(list[1]@ == "monkeypatch.setenv"@);
    assert(list[2]@ == "monkeypatch.delattr"@);
    assert(list[3]@ == "monkeypatch.delenv"@);
    assert(list[4]@ == "monkeypatch.context"@);
    assert(list[5]@ == "monkeypatch.syspath_prepend"@);
    assert(list[6]@ == "monkeypatch.chdir"@);
    assert(list[7]@ == "mocker.patch"@);
    assert(list[8]@ == "mocker.patch.object"@);
    assert(list[9]@ == "mocker.patch.dict"@);
    assert(list[10]@ == "mocker.patch.multiple"@);
    assert(list[11]@ == "mocker.spy"@);
    assert(list[12]@ == "mocker.stub"@);
    assert(list[13]@ == "mocker.MagicMock"@);
}

/// A call constructs a mock where it calls a constructor by its name, or something on one that is
/// not `patch`; what a constructor is an attribute of, as in `mock.Mock()`, does not count here.
pub proof fn mocks_are_constructed_by_name(t: Seq<NodeModel>, call: int, f: int)
    requires
        0 <= call < t.len(),
        child_by_field(t, call, "function"@) == Some(f),
    ensures
        t[f].kind == "identifier"@ ==> (t[f].text matches Some(s) ==> mock_construction(t, call) == (
        s == "Mock"@ || s == "MagicMock"@ || s == "AsyncMock"@ || s == "create_autospec"@ || s
            == "patch"@)),
        t[f].kind == "attribute"@ ==> (leftmost(t, f) matches Some(s) ==> mock_construction(t, call)
            == (s == "Mock"@ || s == "MagicMock"@ || s == "AsyncMock"@ || s
            == "create_autospec"@)),
        t[f].kind != "identifier"@ && t[f].kind != "attribute"@ ==> !mock_construction(t, call),
{
    reveal_strlit("identifier");
    reveal_strlit("attribute");
    assert("identifier"@.len() == 10 && "attribute"@.len() == 9);
    if let Some(s) = t[f].text {
        mock_constructors_are_listed(s);
    }
    if let Some(s) = leftmost(t, f) {
        mock_constructors_are_listed(s);
    }
    reveal_strlit("patch");
    reveal_strlit("Mock");
    reveal_strlit("MagicMock");
    reveal_strlit("AsyncMock");
    reveal_strlit("create_autospec");
    assert("patch"@[0] == 'p' && "Mock"@[0] == 'M' && "MagicMock"@[0] == 'M' && "AsyncMock"@[0]
        == 'A' && "create_autospec"@[0] == 'c');
}

/// The first and the last piece of a dotted text are `patch` exactly where it is `patch`, or begins
/// with `patch.`, or ends with `.patch`.
proof fn lemma_patch_ends(c: Seq<char>)
    ensures
        (split(c, '.')[0] == "patch"@) == (c == "patch"@ || is_prefix("patch."@, c)),
        (split(c, '.').last() == "patch"@) == (c == "patch"@ || is_suffix(".patch"@, c)),
{
    reveal_strlit("patch");
    reveal_strlit("patch.");
    reveal_strlit(".patch");
    let pieces = split(c, '.');
    first_pieces_end_at_the_separator(c, '.');
    last_pieces_follow_the_last_separator(c, '.');
    let first = pieces[0];
    let last = pieces.last();
    if is_prefix("patch."@, c) {
        assert forall|i: int| 0 <= i < 6 implies c[i] == "patch."@[i] by {
            assert(c.subrange(0, 6)[i] == c[i]);
        }
        if first.len() > 5 {
            assert(c[5] == first[5]);
            assert(first.contains('.'));
        }
        if first.len() < 5 {
            assert(c[first.len() as int] == '.');
        }
        assert(first =~= "patch"@);
    }
    if c == "patch"@ {
        assert(first.len() == c.len());
        assert(first =~= c);
        assert(last =~= c);
    }
    if first == "patch"@ && c != "patch"@ {
        if c.len() == 5 {
            assert forall|i: int| 0 <= i < 5 implies c[i] == "patch"@[i] by {
                assert(first[i] == c[i]);
            }
            assert(c =~= "patch"@);
        }
        assert(c[5] == '.');
        assert(c.subrange(0, 6) =~= "patch."@) by {
            assert forall|i: int| 0 <= i < 5 implies c[i] == "patch"@[i] by {
                assert(c[i] == first[i]);
            }
        }
    }
    let n = c.len() as int;
    if is_suffix(".patch"@, c) {
        assert forall|i: int| 0 <= i < 6 implies c[n - 6 + i] == ".patch"@[i] by {
            assert(c.subrange(n - 6, n)[i] == c[n - 6 + i]);
        }
        let m = last.len() as int;
        if m > 5 {
            assert(c[n - 6 + 0] == ".patch"@[0]);
            assert(last[m - 6] == c[n - m + (m - 6)]);
            assert(last[m - 6] == '.');
            assert(last.contains('.'));
        }
        if m < 5 {
            assert(c[n - m - 1] == '.');
            assert(c[n - 6 + (5 - m)] == ".patch"@[5 - m]);
        }
        assert(last =~= "patch"@) by {
            assert forall|i: int| 0 <= i < 5 implies last[i] == "patch"@[i] by {
                assert(last[i] == c[n - 5 + i]);
                assert(c[n - 6 + (i + 1)] == ".patch"@[i + 1]);
            }
        }
    }
    if last == "patch"@ && c != "patch"@ {
        if n == 5 {
            assert forall|i: int| 0 <= i < 5 implies c[i] == "patch"@[i] by {
                assert(last[i] == c[i]);
            }
            assert(c =~= "patch"@);
        }
        assert(c[n - 6] == '.');
        assert(c.subrange(n - 6, n) =~= ".patch"@) by {
            assert forall|i: int| 0 <= i < 5 implies c[n - 5 + i] == #[trigger] "patch"@[i] by {
                assert(c[n - 5 + i] == last[i]);
            }
            assert(c[n - 5 + 0] == "patch"@[0] && c[n - 5 + 1] == "patch"@[1] && c[n - 5 + 2]
                == "patch"@[2] && c[n - 5 + 3] == "patch"@[3] && c[n - 5 + 4] == "patch"@[4]);
            assert(c[n - 5] == 'p' && c[n - 4] == 'a' && c[n - 3] == 't' && c[n - 2] == 'c' && c[n
                - 1] == 'h');
        }
    }
}

/// A decorator patches something exactly where its name is `patch`, `patch.` and something behind
/// it, or something that ends in `.patch`; whether it is called has no say.
pub proof fn decorators_patch_by_name(t: Seq<NodeModel>, decorator: int, target: int)
    requires
        decorated_by(t, decorator) == Some(target),
        chain(t, target) is Some,
        0 <= target < t.len(),
    ensures
        patch_decorator(t, decorator) == (chain(t, target) == Some("patch"@) || (t[target].kind
            == "attribute"@ && (is_prefix("patch."@, chain(t, target)->0) || is_suffix(
            ".patch"@,
            chain(t, target)->0,
        )))),
        fixture_decorator(t, decorator) == ((t[target].kind == "identifier"@ && chain(t, target)
            == Some("fixture"@)) || (t[target].kind == "attribute"@ && chain(t, target) == Some(
            "pytest.fixture"@,
        ))),
{
    reveal_strlit("identifier");
    reveal_strlit("attribute");
    assert("identifier"@.len() == 10 && "attribute"@.len() == 9);
    lemma_patch_ends(chain(t, target)->0);
}

/// What a decorator applies is what it names, or what it calls where it is called.
pub proof fn decorators_apply_what_they_name(t: Seq<NodeModel>, decorator: int)
    requires
        0 <= decorator < t.len(),
    ensures
        match named_child(t, decorator) {
            Some(e) => if t[e].kind == "call"@ {
                decorated_by(t, decorator) == child_by_field(t, e, "function"@)
            } else {
                decorated_by(t, decorator) == Some(e)
            },
            None => decorated_by(t, decorator) is None,
        },
{
}

/// An expression names what a test expects an exception with: `raises` alone, or on `pytest`.
pub proof fn exceptions_are_expected_by_name(t: Seq<NodeModel>, f: int)
    ensures
        t[f].kind == "identifier"@ ==> names_raises(t, f) == (t[f].text == Some("raises"@)),
        t[f].kind == "attribute"@ ==> (child_by_field(t, f, "object"@) matches Some(o) ==> (
        child_by_field(t, f, "attribute"@) matches Some(a) ==> names_raises(t, f) == (t[o].text
            == Some("pytest"@) && t[a].text == Some("raises"@)))),
        t[f].kind != "identifier"@ && t[f].kind != "attribute"@ ==> !names_raises(t, f),
{
    reveal_strlit("identifier");
    reveal_strlit("attribute");
    assert("identifier"@.len() == 10 && "attribute"@.len() == 9);
}

/// What a plain string literal says is the one run of characters that it holds.
pub proof fn literals_say_what_they_hold(t: Seq<NodeModel>, i: int)
    requires
        0 <= i < t.len(),
        literal(t, i) is Some,
    ensures
        t[i].kind == "string"@,
        exists|k: int|
            #[trigger] is_child(t, i, k) && t[k].kind == "string_content"@ && t[k].text == literal(
                t,
                i,
            ),
        exists|k: int|
            #[trigger] is_child(t, i, k) && t[k].kind == "string_start"@ && (t[k].text matches Some(
                s,
            ) && !s.contains('f') && !s.contains('F') && !s.contains('b') && !s.contains('B') && !s.contains('t')
                && !s.contains('T')),
{
    broadcast use vstd::seq_lib::group_filter_ensures;

    children_stand_directly_under(t, i);
    let named = named_children(t, i);
    let p = kind_test(t, "string_content"@);
    let content = named.filter(p);
    assert(content.contains(content[0]));
    named.lemma_filter_contains_rev(p, content[0]);
    assert(p(content[0]));
    assert(is_child(t, i, content[0]));
    let q = kind_test(t, "string_start"@);
    let all = children(t, i);
    let starts = all.filter(q);
    assert(starts.contains(starts[0]));
    all.lemma_filter_contains_rev(q, starts[0]);
    assert(q(starts[0]));
    assert(is_child(t, i, starts[0]));
    let s = t[starts[0]].text->0;
    assert(opens_plainly(s));
    assert forall|c: char| #[trigger] s.contains(c) implies !changes_literal(c) by {
        let n = choose|n: int| 0 <= n < s.len() && s[n] == c;
        assert(!changes_literal(s[n]));
    }
}

/// A `with` expects an exception exactly where the first of its items calls what exceptions are
/// expected by, whether what it gives is bound to a name or not.
pub proof fn first_items_expect_exceptions(
    t: Seq<NodeModel>,
    with_stmt: int,
    clause: int,
    item: int,
    value: int,
)
    requires
        0 <= with_stmt < t.len(),
        is_child(t, with_stmt, clause) && t[clause].named && t[clause].kind == "with_clause"@,
        forall|k: int|
            #[trigger] is_child(t, with_stmt, k) && t[k].named && t[k].kind == "with_clause"@
                ==> clause <= k,
        is_child(t, clause, item) && t[item].named && t[item].kind == "with_item"@,
        forall|k: int|
            #[trigger] is_child(t, clause, k) && t[k].named && t[k].kind == "with_item"@ ==> item
                <= k,
        named_child(t, item) == Some(value),
    ensures
        t[value].kind == "call"@ ==> (child_by_field(t, value, "function"@) matches Some(f)
            ==> raises_block(t, with_stmt) == names_raises(t, f)),
        t[value].kind == "as_pattern"@ ==> (named_child(t, value) matches Some(inner) ==> (
        t[inner].kind == "call"@ ==> (child_by_field(t, inner, "function"@) matches Some(f)
            ==> raises_block(t, with_stmt) == names_raises(t, f)))),
        t[value].kind != "call"@ && t[value].kind != "as_pattern"@ ==> !raises_block(t, with_stmt),
{
    reveal_strlit("call");
    reveal_strlit("as_pattern");
    assert("call"@.len() == 4 && "as_pattern"@.len() == 10);
    lemma_first_of_kind(t, with_stmt, clause, "with_clause"@);
    lemma_first_of_kind(t, clause, item, "with_item"@);
}

proof fn lemma_first_of_kind(t: Seq<NodeModel>, i: int, k: int, kind: Seq<char>)
    requires
        0 <= i < t.len(),
        is_child(t, i, k) && t[k].named && t[k].kind == kind,
        forall|j: int| #[trigger] is_child(t, i, j) && t[j].named && t[j].kind == kind ==> k <= j,
    ensures
        first_of_kind(t, named_children(t, i), kind) == Some(k),
{
    broadcast use vstd::seq_lib::group_filter_ensures;

    children_stand_directly_under(t, i);
    let all = named_children(t, i);
    let p = kind_test(t, kind);
    let kept = all.filter(p);
    assert(all.contains(k));
    assert(p(k));
    assert(kept.contains(k));
    let first = kept[0];
    assert(kept.contains(first));
    all.lemma_filter_contains_rev(p, first);
    assert(p(first));
    assert(is_child(t, i, first));
    lemma_kept_in_order(all, p);
    let n = choose|n: int| 0 <= n < kept.len() && kept[n] == k;
    if n > 0 {
        assert(kept[0] < kept[n]);
    }
}

/// What is kept of positions in order is in order.
pub proof fn lemma_kept_in_order(all: Seq<int>, p: spec_fn(int) -> bool)
    requires
        increasing(all),
    ensures
        increasing(all.filter(p)),
    decreases all.len(),
{
    reveal(Seq::filter);
    if all.len() > 0 {
        let front = all.drop_last();
        assert(increasing(front));
        lemma_kept_in_order(front, p);
        let kept = front.filter(p);
        assert forall|i: int| 0 <= i < kept.len() implies #[trigger] kept[i] < all.last() by {
            assert(kept.contains(kept[i]));
            front.lemma_filter_contains_rev(p, kept[i]);
            let k = choose|k: int| 0 <= k < front.len() && front[k] == kept[i];
            assert(all[k] == kept[i]);
            assert(all[all.len() - 1] == all.last());
        }
    }
}

/// A `with` without a clause that the grammar names, or without an item in it, expects nothing.
pub proof fn with_blocks_without_items_expect_nothing(t: Seq<NodeModel>, with_stmt: int)
    requires
        0 <= with_stmt < t.len(),
        forall|k: int| #[trigger] is_child(t, with_stmt, k) && t[k].named ==> t[k].kind
            != "with_clause"@,
    ensures
        !raises_block(t, with_stmt),
{
    broadcast use vstd::seq_lib::group_filter_ensures;

    children_stand_directly_under(t, with_stmt);
    let all = named_children(t, with_stmt);
    let p = kind_test(t, "with_clause"@);
    let kept = all.filter(p);
    if kept.len() > 0 {
        assert(kept.contains(kept[0]));
        all.lemma_filter_contains_rev(p, kept[0]);
        assert(p(kept[0]));
        assert(is_child(t, with_stmt, kept[0]));
    }
}

/// A plain string is a literal exactly where it holds one run of characters: the run is what it says.
pub proof fn plain_strings_with_one_run_are_literals(t: Seq<NodeModel>, i: int, start: int, k: int)
    requires
        0 <= i < t.len(),
        t[i].kind == "string"@,
        is_child(t, i, start) && t[start].kind == "string_start"@,
        forall|j: int| #[trigger] is_child(t, i, j) && t[j].kind == "string_start"@ ==> start <= j,
        is_child(t, i, k) && t[k].named && t[k].kind == "string_content"@,
    ensures
        (t[start].text matches Some(token) && plain_start(token)) && (forall|j: int|
            #[trigger] is_child(t, i, j) && t[j].named && t[j].kind == "string_content"@ ==> j == k)
            ==> literal(t, i) == t[k].text,
        (exists|j: int|
            #[trigger] is_child(t, i, j) && t[j].named && t[j].kind == "string_content"@ && j != k)
            ==> literal(t, i) is None,
        (t[start].text matches Some(token) && !plain_start(token)) ==> literal(t, i) is None,
{
    broadcast use vstd::seq_lib::group_filter_ensures;

    children_stand_directly_under(t, i);
    let all = children(t, i);
    let q = kind_test(t, "string_start"@);
    let starts = all.filter(q);
    assert(all.contains(start));
    assert(q(start));
    assert(starts.contains(start));
    assert(starts.contains(starts[0]));
    all.lemma_filter_contains_rev(q, starts[0]);
    assert(q(starts[0]));
    assert(is_child(t, i, starts[0]));
    lemma_kept_in_order(all, q);
    let m = choose|m: int| 0 <= m < starts.len() && starts[m] == start;
    assert(starts[0] == start) by {
        if m > 0 {
            assert(starts[0] < starts[m]);
        }
    }
    if let Some(token) = t[start].text {
        assert(plain_start(token) == opens_plainly(token)) by {
            if plain_start(token) {
                assert forall|n: int| 0 <= n < token.len() implies !changes_literal(#[trigger] token[n]) by {
                    assert(token.contains(token[n]));
                }
            }
            if opens_plainly(token) {
                assert forall|c: char| #[trigger] token.contains(c) implies !changes_literal(c) by {
                    let n = choose|n: int| 0 <= n < token.len() && token[n] == c;
                    assert(!changes_literal(token[n]));
                }
            }
        }
    }
    let named = named_children(t, i);
    let p = kind_test(t, "string_content"@);
    let content = named.filter(p);
    assert(named.contains(k));
    assert(p(k));
    assert(content.contains(k));
    lemma_kept_in_order(named, p);
    let n = choose|n: int| 0 <= n < content.len() && content[n] == k;
    if forall|j: int|
        #[trigger] is_child(t, i, j) && t[j].named && t[j].kind == "string_content"@ ==> j == k {
        if content.len() > 1 {
            assert(content.contains(content[0]) && content.contains(content[1]));
            named.lemma_filter_contains_rev(p, content[0]);
            named.lemma_filter_contains_rev(p, content[1]);
            assert(p(content[0]) && p(content[1]));
            assert(is_child(t, i, content[0]) && is_child(t, i, content[1]));
            assert(content[0] < content[1]);
        }
    }
    if exists|j: int|
        #[trigger] is_child(t, i, j) && t[j].named && t[j].kind == "string_content"@ && j != k {
        let j = choose|j: int|
            #[trigger] is_child(t, i, j) && t[j].named && t[j].kind == "string_content"@ && j != k;
        assert(named.contains(j));
        assert(p(j));
        assert(content.contains(j));
        if content.len() == 1 {
            let o = choose|o: int| 0 <= o < content.len() && content[o] == j;
            assert(o == n);
        }
    }
}

/// Whether the beginning of a string leaves what stands in it as it is written: no `f`, `t` or `b`.
pub open spec fn plain_start(token: Seq<char>) -> bool {
    &&& !token.contains('f') && !token.contains('F')
    &&& !token.contains('t') && !token.contains('T')
    &&& !token.contains('b') && !token.contains('B')
}

/// A chain begins with its leftmost name, and goes on behind it, if at all, with a dot.
pub proof fn chains_begin_with_their_leftmost_name(t: Seq<NodeModel>, i: int)
    requires
        chain(t, i) is Some,
    ensures
        leftmost(t, i) matches Some(first) && {
            let whole = chain(t, i)->0;
            &&& whole.len() >= first.len()
            &&& whole.subrange(0, first.len() as int) == first
            &&& whole.len() > first.len() ==> whole[first.len() as int] == '.'
        },
        t[i].kind == "identifier"@ ==> leftmost(t, i) == t[i].text,
    decreases t.len() - i,
{
    reveal_strlit(".");
    let whole = chain(t, i)->0;
    if t[i].kind == "identifier"@ {
        assert(whole.subrange(0, whole.len() as int) =~= whole);
    } else {
        let object = child_by_field(t, i, "object"@)->0;
        chains_begin_with_their_leftmost_name(t, object);
        let left = chain(t, object)->0;
        let first = leftmost(t, object)->0;
        assert(whole.subrange(0, first.len() as int) =~= left.subrange(0, first.len() as int));
    }
}

} // verus!
