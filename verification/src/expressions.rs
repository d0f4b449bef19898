//! What single Python expressions, decorators and statements are: dotted chains, literals, mock
//! constructions, `pytest.raises` blocks.
use vstd::prelude::*;
use vstd::string::*;

use crate::mock_api::{
    among, is_mock_api_attribute, is_mock_constructor, MOCK_API_ATTRIBUTES, MOCK_CONSTRUCTORS,
};
use crate::syntax::{
    child_by_field, children, first, kind_test, named_child, named_children, position, positions,
    NodeModel, SyntaxTree,
};
use crate::text::{
    chars_of, cut, is_prefix, join, joined, opt_view, same, split, split_from, split_on,
    starts_with, views,
};
use crate::verification::{CHECK_KEYWORD, TRUE_LITERAL};

verus! {

/// The positions of a list at which a test holds, and only those, in order.
pub fn keep<F: Fn(usize) -> bool>(
    items: &Vec<usize>,
    Ghost(p): Ghost<spec_fn(int) -> bool>,
    f: F,
) -> (r: Vec<usize>)
    requires
        forall|n: int| 0 <= n < items@.len() ==> f.requires((#[trigger] items@[n],)),
        forall|k: usize, b: bool| #[trigger] f.ensures((k,), b) ==> b == p(k as int),
    ensures
        positions(r@) == positions(items@).filter(p),
        forall|n: int| 0 <= n < r@.len() ==> items@.contains(#[trigger] r@[n]),
{
    let mut out: Vec<usize> = Vec::new();
    let mut i: usize = 0;
    assert(positions(out@) =~= positions(items@).take(0).filter(p)) by {
        reveal(Seq::filter);
    }
    while i < items.len()
        invariant
            i <= items@.len(),
            forall|n: int| 0 <= n < items@.len() ==> f.requires((#[trigger] items@[n],)),
            forall|k: usize, b: bool| #[trigger] f.ensures((k,), b) ==> b == p(k as int),
            positions(out@) == positions(items@).take(i as int).filter(p),
            forall|n: int| 0 <= n < out@.len() ==> items@.contains(#[trigger] out@[n]),
        decreases items@.len() - i,
    {
        let k: usize = items[i];
        let ghost before = out@;
        proof {
            reveal(Seq::filter);
            let part = positions(items@).take(i + 1);
            assert(part.drop_last() =~= positions(items@).take(i as int));
            assert(part.last() == k);
        }
        if f(k) {
            out.push(k);
            proof {
                assert(positions(out@) =~= positions(before).push(k as int));
                assert(items@.contains(k));
            }
        }
        i += 1;
    }
    assert(positions(items@).take(i as int) =~= positions(items@));
    out
}

/// The first position of a list whose node is of kind `kind`.
pub open spec fn first_of_kind(t: Seq<NodeModel>, items: Seq<int>, kind: Seq<char>) -> Option<int> {
    first(items.filter(kind_test(t, kind)))
}

/// The first of a list of nodes that is of the kind `kind`.
pub fn find_kind(tree: &SyntaxTree, items: &Vec<usize>, kind: &str) -> (r: Option<usize>)
    requires
        forall|n: int| 0 <= n < items@.len() ==> (#[trigger] items@[n]) < tree@.len(),
    ensures
        position(r) == first_of_kind(tree@, positions(items@), kind@),
        r matches Some(k) ==> items@.contains(k),
{
    let test = |k: usize| -> (b: bool)
        requires
            k < tree@.len(),
        ensures
            b == (tree@[k as int].kind == kind@),
        { tree.is_kind(k, kind) };
    let found = keep(items, Ghost(kind_test(tree@, kind@)), test);
    assert(positions(found@).len() == found@.len());
    if found.len() > 0 {
        Some(found[0])
    } else {
        None
    }
}

/// The text of the node that a node holds under the name `name`.
pub open spec fn name_of(t: Seq<NodeModel>, i: int) -> Option<Seq<char>> {
    match child_by_field(t, i, "name"@) {
        Some(n) => t[n].text,
        None => None,
    }
}

/// The name of a function or class definition.
pub fn node_name(tree: &SyntaxTree, i: usize) -> (r: Option<&String>)
    requires
        i < tree@.len(),
    ensures
        match r {
            Some(s) => name_of(tree@, i as int) == Some(s@),
            None => name_of(tree@, i as int) is None,
        },
{
    match tree.child(i, "name") {
        Some(n) => tree.text_of(n),
        None => None,
    }
}

/// The dotted chain that an expression is, if it is made of identifiers and attributes alone.
pub open spec fn chain(t: Seq<NodeModel>, i: int) -> Option<Seq<char>>
    decreases t.len() - i,
{
    if !(0 <= i < t.len()) {
        None
    } else if t[i].kind == "identifier"@ {
        t[i].text
    } else if t[i].kind == "attribute"@ {
        match (child_by_field(t, i, "object"@), child_by_field(t, i, "attribute"@)) {
            (Some(object), Some(attribute)) => if i < object < t.len() {
                match (chain(t, object), t[attribute].text) {
                    (Some(left), Some(right)) => Some(left + "."@ + right),
                    _ => None,
                }
            } else {
                None
            },
            _ => None,
        }
    } else {
        None
    }
}

/// The dotted chain that an expression is, if it is one.
pub fn attribute_chain_text(tree: &SyntaxTree, i: usize) -> (r: Option<String>)
    requires
        i < tree@.len(),
    ensures
        opt_view(r) == chain(tree@, i as int),
    decreases tree@.len() - i,
{
    if tree.is_kind(i, "identifier") {
        return match tree.text_of(i) {
            Some(s) => Some(s.clone()),
            None => None,
        };
    }
    if !tree.is_kind(i, "attribute") {
        return None;
    }
    let object: usize = match tree.child(i, "object") {
        Some(k) => k,
        None => {
            return None;
        },
    };
    let attribute: usize = match tree.child(i, "attribute") {
        Some(k) => k,
        None => {
            return None;
        },
    };
    match (attribute_chain_text(tree, object), tree.text_of(attribute)) {
        (Some(left), Some(right)) => {
            let mut out = left;
            out.append(".");
            out.append(right);
            Some(out)
        },
        _ => None,
    }
}

/// The leftmost identifier of a dotted expression.
pub open spec fn leftmost(t: Seq<NodeModel>, i: int) -> Option<Seq<char>>
    decreases t.len() - i,
{
    if !(0 <= i < t.len()) {
        None
    } else if t[i].kind == "identifier"@ {
        t[i].text
    } else if t[i].kind == "attribute"@ {
        match child_by_field(t, i, "object"@) {
            Some(object) => if i < object < t.len() {
                leftmost(t, object)
            } else {
                None
            },
            None => None,
        }
    } else {
        None
    }
}

/// The leftmost identifier of a dotted expression.
pub fn head_identifier(tree: &SyntaxTree, i: usize) -> (r: Option<&String>)
    requires
        i < tree@.len(),
    ensures
        match r {
            Some(s) => leftmost(tree@, i as int) == Some(s@),
            None => leftmost(tree@, i as int) is None,
        },
    decreases tree@.len() - i,
{
    if tree.is_kind(i, "identifier") {
        tree.text_of(i)
    } else if tree.is_kind(i, "attribute") {
        match tree.child(i, "object") {
            Some(object) => head_identifier(tree, object),
            None => None,
        }
    } else {
        None
    }
}

/// The dotted chain that a call calls.
pub open spec fn call_head(t: Seq<NodeModel>, call: int) -> Option<Seq<char>> {
    match child_by_field(t, call, "function"@) {
        Some(f) => chain(t, f),
        None => None,
    }
}

/// The dotted chain that a call calls.
pub fn call_head_chain(tree: &SyntaxTree, call: usize) -> (r: Option<String>)
    requires
        call < tree@.len(),
    ensures
        opt_view(r) == call_head(tree@, call as int),
{
    match tree.child(call, "function") {
        Some(f) => attribute_chain_text(tree, f),
        None => None,
    }
}

/// A call of a mock constructor by its bare name, or of something on a constructor other than
/// `patch`.
pub open spec fn mock_construction(t: Seq<NodeModel>, call: int) -> bool {
    match child_by_field(t, call, "function"@) {
        Some(f) => if t[f].kind == "identifier"@ {
            t[f].text matches Some(s) && among(MOCK_CONSTRUCTORS@, s)
        } else if t[f].kind == "attribute"@ {
            leftmost(t, f) matches Some(s) && among(MOCK_CONSTRUCTORS@, s) && s != "patch"@
        } else {
            false
        },
        None => false,
    }
}

/// Whether a call constructs a mock.
pub fn call_head_is_mock_constructor(tree: &SyntaxTree, call: usize) -> (r: bool)
    requires
        call < tree@.len(),
    ensures
        r == mock_construction(tree@, call as int),
{
    match tree.child(call, "function") {
        Some(f) => {
            if tree.is_kind(f, "identifier") {
                match tree.text_of(f) {
                    Some(s) => is_mock_constructor(s),
                    None => false,
                }
            } else if tree.is_kind(f, "attribute") {
                match head_identifier(tree, f) {
                    Some(s) => is_mock_constructor(s) && !same(s, "patch"),
                    None => false,
                }
            } else {
                false
            }
        },
        None => false,
    }
}

/// A letter before a string literal that makes it something else than a text as it stands: one of
/// formatted strings, templates and bytes.
pub open spec fn changes_literal(c: char) -> bool {
    c == 'f' || c == 'F' || c == 't' || c == 'T' || c == 'b' || c == 'B'
}

/// A token that opens a string literal without such a letter.
pub open spec fn opens_plainly(token: Seq<char>) -> bool {
    forall|k: int| 0 <= k < token.len() ==> !changes_literal(#[trigger] token[k])
}

/// A string literal whose opening token makes it a plain one.
pub open spec fn plain_literal(t: Seq<NodeModel>, i: int) -> bool {
    match first_of_kind(t, children(t, i), "string_start"@) {
        Some(k) => t[k].text matches Some(token) && opens_plainly(token),
        None => false,
    }
}

/// The text inside a plain string literal that holds a single run of characters.
pub open spec fn literal(t: Seq<NodeModel>, i: int) -> Option<Seq<char>> {
    let content = named_children(t, i).filter(kind_test(t, "string_content"@));
    if t[i].kind == "string"@ && plain_literal(t, i) && content.len() == 1 {
        t[content[0]].text
    } else {
        None
    }
}

fn opens_plain_literal(token: &str) -> (r: bool)
    ensures
        r == opens_plainly(token@),
{
    let chars = chars_of(token);
    let mut i: usize = 0;
    while i < chars.len()
        invariant
            i <= chars@.len(),
            chars@ == token@,
            forall|k: int| 0 <= k < i ==> !changes_literal(#[trigger] token@[k]),
        decreases chars@.len() - i,
    {
        let c: char = chars[i];
        if c == 'f' || c == 'F' || c == 't' || c == 'T' || c == 'b' || c == 'B' {
            assert(changes_literal(token@[i as int]));
            return false;
        }
        i += 1;
    }
    true
}

fn is_plain_literal(tree: &SyntaxTree, i: usize) -> (r: bool)
    requires
        i < tree@.len(),
    ensures
        r == plain_literal(tree@, i as int),
{
    let all = tree.children_of(i);
    match find_kind(tree, &all, "string_start") {
        Some(k) => match tree.text_of(k) {
            Some(token) => opens_plain_literal(token),
            None => false,
        },
        None => false,
    }
}

/// The text inside a plain string literal.
pub fn string_literal_text(tree: &SyntaxTree, i: usize) -> (r: Option<&String>)
    requires
        i < tree@.len(),
    ensures
        match r {
            Some(s) => literal(tree@, i as int) == Some(s@),
            None => literal(tree@, i as int) is None,
        },
{
    if !tree.is_kind(i, "string") || !is_plain_literal(tree, i) {
        return None;
    }
    let named = tree.named_children_of(i);
    let test = |k: usize| -> (b: bool)
        requires
            k < tree@.len(),
        ensures
            b == kind_test(tree@, "string_content"@)(k as int),
        { tree.is_kind(k, "string_content") };
    let content = keep(&named, Ghost(kind_test(tree@, "string_content"@)), test);
    assert(positions(content@).len() == content@.len());
    if content.len() == 1 {
        assert(positions(content@)[0] == content@[0]);
        assert(named@.contains(content@[0]));
        tree.text_of(content[0])
    } else {
        None
    }
}

/// Being the keyword argument that tells a call to check the exit status.
pub open spec fn check_true_test(t: Seq<NodeModel>) -> spec_fn(int) -> bool {
    |k: int|
        t[k].kind == "keyword_argument"@ && (match child_by_field(t, k, "name"@) {
            Some(n) => t[n].text == Some(CHECK_KEYWORD@),
            None => false,
        }) && (match child_by_field(t, k, "value"@) {
            Some(v) => t[v].text == Some(TRUE_LITERAL@),
            None => false,
        })
}

/// A call that passes `check=True`.
pub open spec fn passes_check_true(t: Seq<NodeModel>, call: int) -> bool {
    match child_by_field(t, call, "arguments"@) {
        Some(args) => named_children(t, args).filter(check_true_test(t)).len() > 0,
        None => false,
    }
}

fn child_text_is(tree: &SyntaxTree, i: usize, field: &str, text: &str) -> (r: bool)
    requires
        i < tree@.len(),
    ensures
        r == (match child_by_field(tree@, i as int, field@) {
            Some(n) => tree@[n].text == Some(text@),
            None => false,
        }),
{
    match tree.child(i, field) {
        Some(n) => match tree.text_of(n) {
            Some(s) => same(s, text),
            None => false,
        },
        None => false,
    }
}

/// Whether a call passes the literal `check=True`.
pub fn call_passes_check_true(tree: &SyntaxTree, call: usize) -> (r: bool)
    requires
        call < tree@.len(),
    ensures
        r == passes_check_true(tree@, call as int),
{
    match tree.child(call, "arguments") {
        Some(args) => {
            let named = tree.named_children_of(args);
            let test = |k: usize| -> (b: bool)
                requires
                    k < tree@.len(),
                ensures
                    b == check_true_test(tree@)(k as int),
                {
                    tree.is_kind(k, "keyword_argument") && child_text_is(
                        tree,
                        k,
                        "name",
                        CHECK_KEYWORD,
                    ) && child_text_is(tree, k, "value", TRUE_LITERAL)
                };
            let found = keep(&named, Ghost(check_true_test(tree@)), test);
            assert(positions(found@).len() == found@.len());
            found.len() > 0
        },
        None => false,
    }
}

/// What a decorator applies: for `@f` and for `@f(..)` the expression `f`.
pub open spec fn decorated_by(t: Seq<NodeModel>, decorator: int) -> Option<int> {
    match named_child(t, decorator) {
        Some(e) => if t[e].kind == "call"@ {
            child_by_field(t, e, "function"@)
        } else {
            Some(e)
        },
        None => None,
    }
}

/// What a decorator applies.
pub fn decorator_target(tree: &SyntaxTree, decorator: usize) -> (r: Option<usize>)
    requires
        decorator < tree@.len(),
    ensures
        position(r) == decorated_by(tree@, decorator as int),
        r matches Some(k) ==> decorator < k < tree@.len(),
{
    match tree.first_named_child(decorator) {
        Some(e) => {
            if tree.is_kind(e, "call") {
                tree.child(e, "function")
            } else {
                Some(e)
            }
        },
        None => None,
    }
}

/// A decorator that is `patch` itself, or a dotted chain that begins or ends with `patch`.
pub open spec fn patch_decorator(t: Seq<NodeModel>, decorator: int) -> bool {
    match decorated_by(t, decorator) {
        Some(target) => if t[target].kind == "identifier"@ {
            t[target].text == Some("patch"@)
        } else if t[target].kind == "attribute"@ {
            chain(t, target) matches Some(c) && {
                ||| split(c, '.')[0] == "patch"@
                ||| split(c, '.').last() == "patch"@
            }
        } else {
            false
        },
        None => false,
    }
}

proof fn lemma_split_not_empty(s: Seq<char>, c: char, start: int)
    ensures
        split_from(s, c, start).len() > 0,
    decreases s.len() - start,
{
}

/// Whether a decorator patches something.
pub fn decorator_is_patch(tree: &SyntaxTree, decorator: usize) -> (r: bool)
    requires
        decorator < tree@.len(),
    ensures
        r == patch_decorator(tree@, decorator as int),
{
    match decorator_target(tree, decorator) {
        Some(target) => {
            if tree.is_kind(target, "identifier") {
                match tree.text_of(target) {
                    Some(s) => same(s, "patch"),
                    None => false,
                }
            } else if tree.is_kind(target, "attribute") {
                match attribute_chain_text(tree, target) {
                    Some(c) => {
                        let segments = split_on(&c, '.');
                        proof {
                            lemma_split_not_empty(c@, '.', 0);
                            assert(views(segments@).len() == segments@.len());
                        }
                        same(&segments[0], "patch") || same(
                            &segments[segments.len() - 1],
                            "patch",
                        )
                    },
                    None => false,
                }
            } else {
                false
            }
        },
        None => false,
    }
}

/// A decorator that is `fixture` or `pytest.fixture`.
pub open spec fn fixture_decorator(t: Seq<NodeModel>, decorator: int) -> bool {
    match decorated_by(t, decorator) {
        Some(target) => if t[target].kind == "identifier"@ {
            t[target].text == Some("fixture"@)
        } else if t[target].kind == "attribute"@ {
            chain(t, target) == Some("pytest.fixture"@)
        } else {
            false
        },
        None => false,
    }
}

/// Whether a decorator declares a fixture.
pub fn decorator_is_fixture(tree: &SyntaxTree, decorator: usize) -> (r: bool)
    requires
        decorator < tree@.len(),
    ensures
        r == fixture_decorator(tree@, decorator as int),
{
    match decorator_target(tree, decorator) {
        Some(target) => {
            if tree.is_kind(target, "identifier") {
                match tree.text_of(target) {
                    Some(s) => same(s, "fixture"),
                    None => false,
                }
            } else if tree.is_kind(target, "attribute") {
                match attribute_chain_text(tree, target) {
                    Some(c) => same(&c, "pytest.fixture"),
                    None => false,
                }
            } else {
                false
            }
        },
        None => false,
    }
}

/// The decorators of a decorated definition.
pub open spec fn decorators(t: Seq<NodeModel>, decorated: int) -> Seq<int> {
    children(t, decorated).filter(kind_test(t, "decorator"@))
}

/// The decorators of a decorated definition, in the order of the source.
pub fn decorator_nodes(tree: &SyntaxTree, decorated: usize) -> (r: Vec<usize>)
    requires
        decorated < tree@.len(),
    ensures
        positions(r@) == decorators(tree@, decorated as int),
        forall|n: int| 0 <= n < r@.len() ==> decorated < #[trigger] r@[n] < tree@.len(),
{
    let all = tree.children_of(decorated);
    let test = |k: usize| -> (b: bool)
        requires
            k < tree@.len(),
        ensures
            b == kind_test(tree@, "decorator"@)(k as int),
        { tree.is_kind(k, "decorator") };
    let found = keep(&all, Ghost(kind_test(tree@, "decorator"@)), test);
    assert forall|n: int| 0 <= n < found@.len() implies decorated < #[trigger] found@[n]
        < tree@.len() by {
        assert(all@.contains(found@[n]));
    }
    found
}

/// `assert` and then nothing or an upper-case letter: the naming of a test case's assertion
/// methods.
pub open spec fn unittest_assert_method(name: Seq<char>) -> bool {
    is_prefix("assert"@, name) && (name.len() == 6 || 'A' <= name[6] <= 'Z')
}

/// Whether `name` is named as a test case's assertion methods are.
pub fn is_unittest_assert_method(name: &str) -> (r: bool)
    ensures
        r == unittest_assert_method(name@),
{
    if !starts_with(name, "assert") {
        return false;
    }
    proof {
        reveal_strlit("assert");
    }
    let chars = chars_of(name);
    if chars.len() == 6 {
        return true;
    }
    let c: char = chars[6];
    let low = 'A';
    let high = 'Z';
    low <= c && c <= high
}

/// A call of an assertion method on `self`.
pub open spec fn unittest_assert(t: Seq<NodeModel>, call: int) -> bool {
    call_head(t, call) matches Some(h) && is_prefix("self."@, h) && unittest_assert_method(
        h.subrange(5, h.len() as int),
    )
}

/// Whether a call is an assertion method called on `self`.
pub fn call_is_unittest_assert(tree: &SyntaxTree, call: usize) -> (r: bool)
    requires
        call < tree@.len(),
    ensures
        r == unittest_assert(tree@, call as int),
{
    match call_head_chain(tree, call) {
        Some(h) => {
            if starts_with(&h, "self.") {
                proof {
                    reveal_strlit("self.");
                }
                let chars = chars_of(&h);
                let n: usize = chars.len();
                let method = cut(&chars, 5, n);
                is_unittest_assert_method(&method)
            } else {
                false
            }
        },
        None => false,
    }
}

/// The expression `raises`, or `raises` on `pytest`.
pub open spec fn names_raises(t: Seq<NodeModel>, f: int) -> bool {
    if t[f].kind == "identifier"@ {
        t[f].text == Some("raises"@)
    } else if t[f].kind == "attribute"@ {
        match (child_by_field(t, f, "object"@), child_by_field(t, f, "attribute"@)) {
            (Some(object), Some(attribute)) => t[object].text == Some("pytest"@)
                && t[attribute].text == Some("raises"@),
            _ => false,
        }
    } else {
        false
    }
}

/// Whether an expression is `raises` or `pytest.raises`.
pub fn call_function_is_pytest_raises(tree: &SyntaxTree, f: usize) -> (r: bool)
    requires
        f < tree@.len(),
    ensures
        r == names_raises(tree@, f as int),
{
    if tree.is_kind(f, "identifier") {
        match tree.text_of(f) {
            Some(s) => same(s, "raises"),
            None => false,
        }
    } else if tree.is_kind(f, "attribute") {
        child_text_is(tree, f, "object", "pytest") && child_text_is(
            tree,
            f,
            "attribute",
            "raises",
        )
    } else {
        false
    }
}

/// The call that the value of a context manager is, with or without a name for what it yields.
pub open spec fn called_value(t: Seq<NodeModel>, value: int) -> Option<int> {
    if t[value].kind == "call"@ {
        Some(value)
    } else if t[value].kind == "as_pattern"@ {
        match named_child(t, value) {
            Some(inner) => if t[inner].kind == "call"@ {
                Some(inner)
            } else {
                None
            },
            None => None,
        }
    } else {
        None
    }
}

/// The call that a context manager is.
pub open spec fn managed_call(t: Seq<NodeModel>, item: int) -> Option<int> {
    match named_child(t, item) {
        Some(value) => called_value(t, value),
        None => None,
    }
}

/// The call that the value of a context manager is.
pub fn call_of_value(tree: &SyntaxTree, value: usize) -> (r: Option<usize>)
    requires
        value < tree@.len(),
    ensures
        position(r) == called_value(tree@, value as int),
        r matches Some(k) ==> value <= k < tree@.len(),
{
    if tree.is_kind(value, "call") {
        Some(value)
    } else if tree.is_kind(value, "as_pattern") {
        match tree.first_named_child(value) {
            Some(inner) => if tree.is_kind(inner, "call") {
                Some(inner)
            } else {
                None
            },
            None => None,
        }
    } else {
        None
    }
}

fn call_of_item(tree: &SyntaxTree, item: usize) -> (r: Option<usize>)
    requires
        item < tree@.len(),
    ensures
        position(r) == managed_call(tree@, item as int),
        r matches Some(k) ==> item < k < tree@.len(),
{
    match tree.first_named_child(item) {
        Some(value) => call_of_value(tree, value),
        None => None,
    }
}

/// A `with` statement whose first context manager calls `raises` or `pytest.raises`.
pub open spec fn raises_block(t: Seq<NodeModel>, with_stmt: int) -> bool {
    match first_of_kind(t, named_children(t, with_stmt), "with_clause"@) {
        Some(clause) => match first_of_kind(t, named_children(t, clause), "with_item"@) {
            Some(item) => match managed_call(t, item) {
                Some(call) => match child_by_field(t, call, "function"@) {
                    Some(f) => names_raises(t, f),
                    None => false,
                },
                None => false,
            },
            None => false,
        },
        None => false,
    }
}

/// Whether a `with` statement expects an exception.
pub fn with_statement_is_pytest_raises(tree: &SyntaxTree, with_stmt: usize) -> (r: bool)
    requires
        with_stmt < tree@.len(),
    ensures
        r == raises_block(tree@, with_stmt as int),
{
    let outer = tree.named_children_of(with_stmt);
    match find_kind(tree, &outer, "with_clause") {
        Some(clause) => {
            let inner = tree.named_children_of(clause);
            match find_kind(tree, &inner, "with_item") {
                Some(item) => match call_of_item(tree, item) {
                    Some(call) => match tree.child(call, "function") {
                        Some(f) => call_function_is_pytest_raises(tree, f),
                        None => false,
                    },
                    None => false,
                },
                None => false,
            }
        },
        None => false,
    }
}

/// The attribute that an expression reads or calls last, looked for through parentheses.
pub open spec fn last_attribute(t: Seq<NodeModel>, i: int) -> Option<Seq<char>>
    decreases t.len() - i,
{
    if !(0 <= i < t.len()) {
        None
    } else if t[i].kind == "attribute"@ {
        match child_by_field(t, i, "attribute"@) {
            Some(a) => t[a].text,
            None => None,
        }
    } else if t[i].kind == "call"@ {
        match child_by_field(t, i, "function"@) {
            Some(f) => if t[f].kind == "attribute"@ {
                match child_by_field(t, f, "attribute"@) {
                    Some(a) => t[a].text,
                    None => None,
                }
            } else {
                None
            },
            None => None,
        }
    } else if t[i].kind == "parenthesized_expression"@ {
        match named_child(t, i) {
            Some(inner) => if i < inner < t.len() {
                last_attribute(t, inner)
            } else {
                None
            },
            None => None,
        }
    } else {
        None
    }
}

fn attribute_text(tree: &SyntaxTree, i: usize) -> (r: Option<&String>)
    requires
        i < tree@.len(),
    ensures
        match child_by_field(tree@, i as int, "attribute"@) {
            Some(a) => match r {
                Some(s) => tree@[a].text == Some(s@),
                None => tree@[a].text is None,
            },
            None => r is None,
        },
{
    match tree.child(i, "attribute") {
        Some(a) => tree.text_of(a),
        None => None,
    }
}

/// The attribute that an expression reads or calls last.
pub fn last_attribute_name(tree: &SyntaxTree, i: usize) -> (r: Option<&String>)
    requires
        i < tree@.len(),
    ensures
        match r {
            Some(s) => last_attribute(tree@, i as int) == Some(s@),
            None => last_attribute(tree@, i as int) is None,
        },
    decreases tree@.len() - i,
{
    if tree.is_kind(i, "attribute") {
        attribute_text(tree, i)
    } else if tree.is_kind(i, "call") {
        match tree.child(i, "function") {
            Some(f) => if tree.is_kind(f, "attribute") {
                attribute_text(tree, f)
            } else {
                None
            },
            None => None,
        }
    } else if tree.is_kind(i, "parenthesized_expression") {
        match tree.first_named_child(i) {
            Some(inner) => last_attribute_name(tree, inner),
            None => None,
        }
    } else {
        None
    }
}

/// An assertion about a mock: what it asserts last reads or calls an attribute of the Mock API.
pub open spec fn asserts_on_mock(t: Seq<NodeModel>, assert_stmt: int) -> bool {
    match named_child(t, assert_stmt) {
        Some(e) => last_attribute(t, e) matches Some(s) && among(MOCK_API_ATTRIBUTES@, s),
        None => false,
    }
}

/// Whether an `assert` statement is about a mock.
pub fn assert_targets_mock_api(tree: &SyntaxTree, assert_stmt: usize) -> (r: bool)
    requires
        assert_stmt < tree@.len(),
    ensures
        r == asserts_on_mock(tree@, assert_stmt as int),
{
    match tree.first_named_child(assert_stmt) {
        Some(e) => match last_attribute_name(tree, e) {
            Some(s) => is_mock_api_attribute(s),
            None => false,
        },
        None => false,
    }
}

/// The texts of the identifiers among a list of nodes.
pub open spec fn identifier_texts(t: Seq<NodeModel>, items: Seq<int>) -> Seq<Seq<char>>
    decreases items.len(),
{
    if items.len() == 0 {
        Seq::empty()
    } else {
        let rest = identifier_texts(t, items.drop_last());
        match t[items.last()].text {
            Some(s) => if t[items.last()].kind == "identifier"@ {
                rest.push(s)
            } else {
                rest
            },
            None => rest,
        }
    }
}

/// The dotted name that an import names.
pub open spec fn dotted_text(t: Seq<NodeModel>, i: int) -> Option<Seq<char>> {
    if t[i].kind == "dotted_name"@ {
        let parts = identifier_texts(t, children(t, i));
        if parts.len() == 0 {
            None
        } else {
            Some(join(parts, "."@))
        }
    } else {
        chain(t, i)
    }
}

/// The dotted name that an import names.
pub fn attribute_or_dotted_text(tree: &SyntaxTree, i: usize) -> (r: Option<String>)
    requires
        i < tree@.len(),
    ensures
        opt_view(r) == dotted_text(tree@, i as int),
{
    if !tree.is_kind(i, "dotted_name") {
        return attribute_chain_text(tree, i);
    }
    let all = tree.children_of(i);
    let mut parts: Vec<String> = Vec::new();
    let mut n: usize = 0;
    assert(views(parts@) =~= identifier_texts(tree@, positions(all@).take(0)));
    while n < all.len()
        invariant
            n <= all@.len(),
            forall|k: int| 0 <= k < all@.len() ==> i < #[trigger] all@[k] < tree@.len(),
            views(parts@) == identifier_texts(tree@, positions(all@).take(n as int)),
        decreases all@.len() - n,
    {
        let k: usize = all[n];
        let ghost before = parts@;
        proof {
            let part = positions(all@).take(n + 1);
            assert(part.drop_last() =~= positions(all@).take(n as int));
            assert(part.last() == k);
        }
        if tree.is_kind(k, "identifier") {
            if let Some(s) = tree.text_of(k) {
                parts.push(s.clone());
                assert(views(parts@) =~= views(before).push(s@));
            }
        }
        n += 1;
    }
    assert(positions(all@).take(n as int) =~= positions(all@));
    assert(views(parts@).len() == parts@.len());
    if parts.len() == 0 {
        None
    } else {
        Some(joined(&parts, "."))
    }
}

} // verus!
