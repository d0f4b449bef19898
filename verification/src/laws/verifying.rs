//! What holds of calls that verify by failing, and of the names that doubles stand behind.
use vstd::prelude::*;

use crate::doubles::{
    assignment_pairs, binds_call, bound_parameter, call_bindings, call_target, call_targets,
    decorator_replaces, decorator_targets, disarms, except_test, flat, named_pairs,
    parameter_shadow, parameter_shadows, patch_target, patches_a_name, positional_test, shadows,
    suppress_test, suppresses, tuple_pairs, union_over, unreliable, verification_test, with_doubles,
    with_pairs, zipped,
};
use crate::expressions::{
    call_head, called_value, chain, check_true_test, decorated_by, decorators, first_of_kind,
    literal, name_of, passes_check_true,
};
use crate::laws::expressing::{lemma_kept_in_order, mock_constructors_are_listed};
use crate::laws::texts::pieces_stand_between_separators;
use crate::laws::trees::{
    children_stand_directly_under, descendants_are_what_stands_there,
    fields_lead_to_the_first_child, increasing, is_child, stands_in, stands_under,
};
use crate::mock_api::{among, last_segment, MOCK_CONSTRUCTORS};
use crate::parser::{class_doubles, function_behind, hook_body, hook_targets, SETUP_METHODS};
use crate::sut_calls::{at_or_under, canonical, head_of, ImportModel};
use crate::syntax::{
    child_by_field, children, descendants, kind_test, named_child, named_children, parent,
    parent_before, NodeModel,
};
use crate::text::{is_suffix, rfind};
use crate::verification::{returncode_check, CHECKABLE_SUBPROCESS_CALLS, CHECKED_SUBPROCESS_CALLS};

verus! {

/// A name lies at another, or a dot and something more behind it: not where it only begins alike.
pub proof fn names_lie_under_what_they_continue(name: Seq<char>, other: Seq<char>, rest: Seq<char>)
    ensures
        at_or_under(name, name),
        at_or_under(name + seq!['.'] + rest, name),
        at_or_under(other, name) ==> other == name || (other.len() > name.len() && other[name.len() as int]
            == '.' && other.subrange(0, name.len() as int) == name),
{
    reveal_strlit(".");
    let dotted = name + "."@;
    let longer = name + seq!['.'] + rest;
    assert("."@ =~= seq!['.']);
    assert(longer.subrange(0, dotted.len() as int) =~= dotted);
    if at_or_under(other, name) && other != name {
        let cut = other.subrange(0, dotted.len() as int);
        assert(cut == dotted);
        assert(cut[name.len() as int] == '.');
        assert(other.subrange(0, name.len() as int) =~= name) by {
            assert forall|i: int| 0 <= i < name.len() implies other[i] == name[i] by {
                assert(cut[i] == dotted[i]);
            }
        }
    }
}

proof fn lemma_rfind(s: Seq<char>, c: char, upto: int)
    requires
        0 <= upto <= s.len(),
    ensures
        -1 <= rfind(s, c, upto) < upto || (upto == 0 && rfind(s, c, upto) == -1),
        rfind(s, c, upto) >= 0 ==> s[rfind(s, c, upto)] == c,
        forall|i: int| rfind(s, c, upto) < i < upto ==> s[i] != c,
    decreases upto,
{
    if upto > 0 && s[upto - 1] != c {
        lemma_rfind(s, c, upto - 1);
    }
}

/// The last segment of a dotted chain is what stands behind its last dot.
pub proof fn last_segments_follow_the_last_dot(before: Seq<char>, last: Seq<char>)
    requires
        !last.contains('.'),
    ensures
        last_segment(last) == last,
        last_segment(before + seq!['.'] + last) == last,
{
    let whole = before + seq!['.'] + last;
    assert forall|i: int| 0 <= i < last.len() implies last[i] != '.' by {
        if last[i] == '.' {
            assert(last.contains('.'));
        }
    }
    lemma_rfind(last, '.', last.len() as int);
    assert(last.subrange(0, last.len() as int) =~= last);
    lemma_rfind(whole, '.', whole.len() as int);
    let n = before.len() as int;
    assert(whole[n] == '.');
    assert forall|i: int| n < i < whole.len() implies whole[i] != '.' by {
        assert(whole[i] == last[i - n - 1]);
    }
    assert(rfind(whole, '.', whole.len() as int) == n);
    assert(whole.subrange(n + 1, whole.len() as int) =~= last);
}

/// A chain checks a return code exactly where it is `check_returncode` on something.
pub proof fn return_codes_are_checked_on_something(c: Seq<char>)
    ensures
        returncode_check(c) == (c.len() > 17 && is_suffix(".check_returncode"@, c)),
{
    reveal_strlit("check_returncode");
    reveal_strlit(".check_returncode");
    let n = c.len() as int;
    let last = "check_returncode"@;
    assert(last.len() == 16);
    assert(".check_returncode"@ =~= seq!['.'] + last);
    lemma_rfind(c, '.', n);
    let at = rfind(c, '.', n);
    if returncode_check(c) {
        assert(c.subrange(at + 1, n) == last);
        assert(n == at + 17);
        assert(c.subrange(n - 17, n) =~= seq!['.'] + last) by {
            assert(c.subrange(n - 17, n)[0] == c[at]);
            assert forall|i: int| 0 <= i < 16 implies c[at + 1 + i] == last[i] by {
                assert(c.subrange(at + 1, n)[i] == c[at + 1 + i]);
            }
        }
    }
    if n > 17 && is_suffix(".check_returncode"@, c) {
        let end = c.subrange(n - 17, n);
        let before = c.subrange(0, n - 17);
        assert(c =~= before + end);
        assert(before + seq!['.'] + last =~= before + (seq!['.'] + last));
        assert(!last.contains('.')) by {
            assert forall|i: int| 0 <= i < 16 implies last[i] != '.' by {}
        }
        last_segments_follow_the_last_dot(before, last);
        assert(last_segment(c).len() == n - (at + 1));
        assert(at == n - 17);
    }
}

/// A call passes `check=True` exactly where one of its arguments is that keyword with that value.
pub proof fn checks_are_passed_by_keyword(t: Seq<NodeModel>, call: int, args: int)
    requires
        0 <= call < t.len(),
        child_by_field(t, call, "arguments"@) == Some(args),
    ensures
        passes_check_true(t, call) == exists|k: int, n: int, v: int|
            #![trigger is_child(t, k, n), is_child(t, k, v)]
            {
                &&& is_child(t, args, k) && t[k].named && t[k].kind == "keyword_argument"@
                &&& child_by_field(t, k, "name"@) == Some(n) && is_child(t, k, n) && t[n].text == Some(
                    "check"@,
                )
                &&& child_by_field(t, k, "value"@) == Some(v) && is_child(t, k, v) && t[v].text == Some(
                    "True"@,
                )
            },
{
    broadcast use vstd::seq_lib::group_filter_ensures;

    fields_lead_to_the_first_child(t, call, "arguments"@);
    children_stand_directly_under(t, args);
    let given = named_children(t, args);
    let p = check_true_test(t);
    let found = given.filter(p);
    if found.len() > 0 {
        let k = found[0];
        assert(found.contains(k));
        given.lemma_filter_contains_rev(p, k);
        assert(p(k));
        fields_lead_to_the_first_child(t, k, "name"@);
        fields_lead_to_the_first_child(t, k, "value"@);
        let n = child_by_field(t, k, "name"@)->0;
        let v = child_by_field(t, k, "value"@)->0;
        assert(is_child(t, k, n) && is_child(t, k, v));
    }
    if exists|k: int, n: int, v: int|
        #![trigger is_child(t, k, n), is_child(t, k, v)]
        {
            &&& is_child(t, args, k) && t[k].named && t[k].kind == "keyword_argument"@
            &&& child_by_field(t, k, "name"@) == Some(n) && is_child(t, k, n) && t[n].text == Some(
                "check"@,
            )
            &&& child_by_field(t, k, "value"@) == Some(v) && is_child(t, k, v) && t[v].text == Some(
                "True"@,
            )
        } {
        let (k, n, v) = choose|k: int, n: int, v: int|
            #![trigger is_child(t, k, n), is_child(t, k, v)]
            {
                &&& is_child(t, args, k) && t[k].named && t[k].kind == "keyword_argument"@
                &&& child_by_field(t, k, "name"@) == Some(n) && is_child(t, k, n) && t[n].text
                    == Some("check"@)
                &&& child_by_field(t, k, "value"@) == Some(v) && is_child(t, k, v) && t[v].text
                    == Some("True"@)
            };
        assert(p(k));
        assert(given.contains(k));
        assert(found.contains(k));
    }
}

/// Without arguments nothing is passed.
pub proof fn calls_without_arguments_pass_no_check(t: Seq<NodeModel>, call: int)
    requires
        child_by_field(t, call, "arguments"@) is None,
    ensures
        !passes_check_true(t, call),
{
}

/// A call verifies by failing exactly where it will run and what it raises will get out, where no
/// double stands behind it, and where it raises on a failed process: a checked call, a run with
/// `check=True`, or the check of a return code.
pub proof fn calls_that_verify(
    t: Seq<NodeModel>,
    call: int,
    body: Option<int>,
    imports: ImportModel,
    shadowed: Set<Seq<char>>,
)
    ensures
        verification_test(t, body, imports, shadowed)(call) ==> call_head(t, call) is Some,
        call_head(t, call) matches Some(c) ==> verification_test(t, body, imports, shadowed)(call)
            == {
            let full = canonical(c, imports);
            &&& body is Some ==> !unreliable(t, call, body->0, imports)
            &&& !shadowed.contains(head_of(c))
            &&& if c.len() > 17 && is_suffix(".check_returncode"@, c) {
                forall|s: Seq<char>| #[trigger] shadowed.contains(s) ==> !at_or_under(s, "subprocess"@)
            } else {
                &&& forall|s: Seq<char>| #[trigger] shadowed.contains(s) ==> !at_or_under(full, s)
                &&& {
                    ||| full == "subprocess.check_call"@
                    ||| full == "subprocess.check_output"@
                    ||| full == "subprocess.run"@ && passes_check_true(t, call)
                }
            }
        },
{
    if let Some(c) = call_head(t, call) {
        return_codes_are_checked_on_something(c);
        let full = canonical(c, imports);
        let checked = CHECKED_SUBPROCESS_CALLS@;
        assert(checked[0]@ == "subprocess.check_call"@);
        assert(checked[1]@ == "subprocess.check_output"@);
        let checkable = CHECKABLE_SUBPROCESS_CALLS@;
        assert(checkable[0]@ == "subprocess.run"@);
        assert(among(checked, full) == (full == "subprocess.check_call"@ || full
            == "subprocess.check_output"@));
        assert(among(checkable, full) == (full == "subprocess.run"@));
    }
}

/// The more names doubles stand behind, the fewer calls verify.
pub proof fn doubles_only_take_verification_away(
    t: Seq<NodeModel>,
    call: int,
    body: Option<int>,
    imports: ImportModel,
    few: Set<Seq<char>>,
    more: Set<Seq<char>>,
)
    requires
        few.subset_of(more),
        verification_test(t, body, imports, more)(call),
    ensures
        verification_test(t, body, imports, few)(call),
{
}

/// Node `p` is the one directly above `child`, which is `node` or stands above it.
pub open spec fn on_the_way(t: Seq<NodeModel>, p: int, child: int, node: int) -> bool {
    0 <= p < child <= node && parent(t, child) == Some(p) && stands_in(t, child, node)
}

/// The parent of a node is the nearest node before it that is less deep.
pub proof fn lemma_parent(t: Seq<NodeModel>, depth: nat, k: int)
    requires
        0 <= k <= t.len(),
    ensures
        match parent_before(t, depth, k) {
            Some(p) => 0 <= p < k && t[p].depth < depth && forall|j: int|
                p < j < k ==> (#[trigger] t[j]).depth >= depth,
            None => forall|j: int| 0 <= j < k ==> (#[trigger] t[j]).depth >= depth,
        },
    decreases k,
{
    if k > 0 && !(t[k - 1].depth < depth) {
        lemma_parent(t, depth, k - 1);
    }
}

/// A node of a test's body may not run, or what it raises may be caught, exactly where one of the
/// nodes between it and the body, however far up, sees to that.
pub proof fn nodes_on_the_way_decide(t: Seq<NodeModel>, node: int, body: int, imports: ImportModel)
    requires
        stands_under(t, body, node),
    ensures
        unreliable(t, node, body, imports) == exists|p: int, child: int|
            #[trigger] on_the_way(t, p, child, node) && stands_under(t, body, p) && disarms(
                t,
                p,
                child,
                imports,
            ),
    decreases node,
{
    lemma_parent(t, t[node].depth, node);
    let p = parent(t, node)->0;
    assert(t[body].depth < t[node].depth);
    assert(parent(t, node) is Some);
    assert(p >= body);
    assert(stands_under(t, p, node)) by {
        assert forall|j: int| p < j <= node implies (#[trigger] t[j]).depth > t[p].depth by {}
    }
    assert(on_the_way(t, p, node, node));
    if p != body {
        assert(stands_under(t, body, p)) by {
            assert forall|j: int| body < j <= p implies (#[trigger] t[j]).depth > t[body].depth by {}
        }
        nodes_on_the_way_decide(t, p, body, imports);
        assert forall|q: int, child: int| #[trigger] on_the_way(t, q, child, p) implies on_the_way(
            t,
            q,
            child,
            node,
        ) by {
            if child != p {
                assert forall|j: int| child < j <= node implies (#[trigger] t[j]).depth
                    > t[child].depth by {
                    if j > p {
                        assert(t[j].depth > t[p].depth);
                        assert(t[p].depth > t[child].depth);
                    }
                }
            }
        }
        assert forall|q: int, child: int|
            #[trigger] on_the_way(t, q, child, node) && child != node implies on_the_way(
            t,
            q,
            child,
            p,
        ) by {
            lemma_above(t, child, node);
        }
        if exists|q: int, child: int|
            #[trigger] on_the_way(t, q, child, node) && stands_under(t, body, q) && disarms(
                t,
                q,
                child,
                imports,
            ) {
            let (q, child) = choose|q: int, child: int|
                #[trigger] on_the_way(t, q, child, node) && stands_under(t, body, q) && disarms(
                    t,
                    q,
                    child,
                    imports,
                );
            if child == node {
                assert(q == p);
            } else {
                assert(on_the_way(t, q, child, p));
            }
        }
    } else {
        assert forall|q: int, child: int| #[trigger] on_the_way(t, q, child, node) implies !stands_under(
            t,
            body,
            q,
        ) by {
            if child != node {
                lemma_above(t, child, node);
            }
        }
    }
}

/// What stands above a node is its parent or stands above that.
pub proof fn lemma_above(t: Seq<NodeModel>, i: int, node: int)
    requires
        stands_under(t, i, node),
    ensures
        parent(t, node) matches Some(p) && i <= p < node && stands_in(t, i, p),
{
    lemma_parent(t, t[node].depth, node);
    assert(t[node].depth > t[i].depth);
    let p = parent(t, node)->0;
    assert(i <= p);
    if i < p {
        assert forall|j: int| i < j <= p implies (#[trigger] t[j]).depth > t[i].depth by {}
    }
}

/// What keeps a call from running, or what it raises from getting out: standing in a function, a
/// lambda, a generator or a handler; in the body of a `try` that has a handler, but not in its
/// other parts; under a `with` that suppresses. Nothing else does.
pub proof fn what_disarms(t: Seq<NodeModel>, p: int, child: int, imports: ImportModel)
    requires
        0 <= p < t.len(),
    ensures
        t[p].kind == "function_definition"@ || t[p].kind == "lambda"@ || t[p].kind
            == "generator_expression"@ || t[p].kind == "except_clause"@ ==> disarms(
            t,
            p,
            child,
            imports,
        ),
        t[p].kind == "try_statement"@ ==> disarms(t, p, child, imports) == (child_by_field(
            t,
            p,
            "body"@,
        ) == Some(child) && exists|k: int|
            #[trigger] is_child(t, p, k) && (t[k].kind == "except_clause"@ || t[k].kind
                == "except_group_clause"@)),
        t[p].kind == "with_statement"@ ==> disarms(t, p, child, imports) == suppresses(t, p, imports),
        disarms(t, p, child, imports) ==> t[p].kind == "function_definition"@ || t[p].kind
            == "lambda"@ || t[p].kind == "generator_expression"@ || t[p].kind == "except_clause"@
            || t[p].kind == "try_statement"@ || t[p].kind == "with_statement"@,
{
    broadcast use vstd::seq_lib::group_filter_ensures;

    reveal_strlit("function_definition");
    reveal_strlit("lambda");
    reveal_strlit("generator_expression");
    reveal_strlit("except_clause");
    reveal_strlit("try_statement");
    reveal_strlit("with_statement");
    assert("function_definition"@.len() == 19 && "lambda"@.len() == 6 && "generator_expression"@.len()
        == 20 && "except_clause"@.len() == 13 && "try_statement"@.len() == 13
        && "with_statement"@.len() == 14);
    assert("except_clause"@[0] == 'e' && "try_statement"@[0] == 't');
    children_stand_directly_under(t, p);
    let all = children(t, p);
    let handlers = all.filter(except_test(t));
    if handlers.len() > 0 {
        let k = handlers[0];
        assert(handlers.contains(k));
        all.lemma_filter_contains_rev(except_test(t), k);
        assert(except_test(t)(k));
        assert(is_child(t, p, k));
    }
    assert forall|k: int|
        #[trigger] is_child(t, p, k) && (t[k].kind == "except_clause"@ || t[k].kind
            == "except_group_clause"@) implies handlers.len() > 0 by {
        assert(all.contains(k));
        assert(except_test(t)(k));
        assert(handlers.contains(k));
    }
}

/// A `with` suppresses where any of its items calls what the imports show to be
/// `contextlib.suppress`.
pub proof fn any_item_suppresses(
    t: Seq<NodeModel>,
    with_stmt: int,
    clause: int,
    imports: ImportModel,
)
    requires
        0 <= with_stmt < t.len(),
        first_of_kind(t, children(t, with_stmt), "with_clause"@) == Some(clause),
    ensures
        suppresses(t, with_stmt, imports) == exists|item: int, value: int, call: int|
            #![trigger is_child(t, clause, item), is_child(t, item, value), call_head(t, call)]
            {
                &&& is_child(t, clause, item) && t[item].named && t[item].kind == "with_item"@
                &&& is_child(t, item, value) && child_by_field(t, item, "value"@) == Some(value)
                &&& called_value(t, value) == Some(call)
                &&& call_head(t, call) matches Some(c) && canonical(c, imports)
                    == "contextlib.suppress"@
            },
{
    broadcast use vstd::seq_lib::group_filter_ensures;

    let kids = children(t, with_stmt);
    let q = kind_test(t, "with_clause"@);
    let clauses = kids.filter(q);
    assert(clauses.contains(clause));
    kids.lemma_filter_contains_rev(q, clause);
    children_stand_directly_under(t, with_stmt);
    children_stand_directly_under(t, clause);
    let items = named_children(t, clause);
    let p = suppress_test(t, imports);
    let found = items.filter(p);
    if found.len() > 0 {
        let item = found[0];
        assert(found.contains(item));
        items.lemma_filter_contains_rev(p, item);
        assert(p(item));
        fields_lead_to_the_first_child(t, item, "value"@);
        let value = child_by_field(t, item, "value"@)->0;
        let call = called_value(t, value)->0;
        assert(is_child(t, clause, item) && is_child(t, item, value));
        assert(call_head(t, call) is Some);
    }
    assert forall|item: int, value: int, call: int|
        #![trigger is_child(t, clause, item), is_child(t, item, value), call_head(t, call)]
        {
            &&& is_child(t, clause, item) && t[item].named && t[item].kind == "with_item"@
            &&& is_child(t, item, value) && child_by_field(t, item, "value"@) == Some(value)
            &&& called_value(t, value) == Some(call)
            &&& call_head(t, call) matches Some(c) && canonical(c, imports)
                == "contextlib.suppress"@
        } implies found.len() > 0 by {
        assert(items.contains(item));
        assert(p(item));
        assert(found.contains(item));
    }
}

/// A chain replaces what it names where one of its segments is `patch`, or where it is
/// `monkeypatch.setattr`.
pub proof fn heads_that_replace(head: Seq<char>)
    ensures
        patches_a_name(head) == (head == "monkeypatch.setattr"@ || exists|a: int|
            {
                &&& 0 <= a <= head.len() - 5
                &&& #[trigger] head.subrange(a, a + 5) == "patch"@
                &&& a == 0 || head[a - 1] == '.'
                &&& a + 5 == head.len() || head[a + 5] == '.'
            }),
{
    reveal_strlit("patch");
    let w = "patch"@;
    assert(w.len() == 5);
    assert(!w.contains('.')) by {
        assert forall|i: int| 0 <= i < 5 implies w[i] != '.' by {}
    }
    pieces_stand_between_separators(head, '.', w);
}

proof fn lemma_union_over(items: Seq<int>, f: spec_fn(int) -> Option<Seq<char>>, s: Seq<char>)
    ensures
        union_over(items, f).contains(s) == exists|n: int|
            0 <= n < items.len() && f(#[trigger] items[n]) == Some(s),
    decreases items.len(),
{
    if items.len() > 0 {
        let front = items.drop_last();
        lemma_union_over(front, f, s);
        assert forall|n: int| 0 <= n < front.len() implies #[trigger] front[n] == items[n] by {}
        if union_over(front, f).contains(s) {
            let n = choose|n: int| 0 <= n < front.len() && f(#[trigger] front[n]) == Some(s);
            assert(f(items[n]) == Some(s));
        }
        if f(items.last()) == Some(s) {
            assert(items[items.len() - 1] == items.last());
        }
        if exists|n: int| 0 <= n < items.len() && f(#[trigger] items[n]) == Some(s) {
            let n = choose|n: int| 0 <= n < items.len() && f(#[trigger] items[n]) == Some(s);
            if n < front.len() {
                assert(f(front[n]) == Some(s));
            }
        }
    }
}

/// A parameter binds its name: bare, with a type, with a default, with both, or behind stars.
pub proof fn parameters_bind_their_names(t: Seq<NodeModel>, i: int, k: int)
    requires
        0 <= i < t.len(),
        is_child(t, i, k),
        t[k].kind == "identifier"@,
    ensures
        bound_parameter(t, k) == t[k].text,
        (t[i].kind == "typed_parameter"@ || t[i].kind == "list_splat_pattern"@ || t[i].kind
            == "dictionary_splat_pattern"@) && named_child(t, i) == Some(k) ==> bound_parameter(t, i)
            == t[k].text,
        (t[i].kind == "default_parameter"@ || t[i].kind == "typed_default_parameter"@)
            && child_by_field(t, i, "name"@) == Some(k) ==> bound_parameter(t, i) == t[k].text,
{
    reveal_strlit("identifier");
    reveal_strlit("typed_parameter");
    reveal_strlit("list_splat_pattern");
    reveal_strlit("dictionary_splat_pattern");
    reveal_strlit("default_parameter");
    reveal_strlit("typed_default_parameter");
    assert("identifier"@.len() == 10 && "typed_parameter"@.len() == 15 && "list_splat_pattern"@.len()
        == 18 && "dictionary_splat_pattern"@.len() == 24 && "default_parameter"@.len() == 17
        && "typed_default_parameter"@.len() == 23);
}

/// Doubles stand behind what the class replaces, behind every parameter but `self`, and behind what
/// the decorators and the calls of a test replace.
pub proof fn doubles_stand_behind_what_is_replaced(
    t: Seq<NodeModel>,
    func: int,
    decorated: Option<int>,
    calls: Seq<int>,
    imports: ImportModel,
    class_shadows: Set<Seq<char>>,
    s: Seq<char>,
)
    requires
        0 <= func < t.len(),
        decorated matches Some(d) ==> 0 <= d < t.len(),
    ensures
        ({
            let all = shadows(t, func, decorated, calls, imports, class_shadows);
            &&& class_shadows.contains(s) ==> all.contains(s)
            &&& s != "self"@ && (exists|params: int, k: int|
                #![trigger is_child(t, func, params), is_child(t, params, k)]
                child_by_field(t, func, "parameters"@) == Some(params) && is_child(t, func, params)
                    && is_child(t, params, k) && t[k].named && bound_parameter(t, k) == Some(s))
                ==> all.contains(s)
            &&& (exists|n: int|
                0 <= n < calls.len() && call_target(t, imports)(#[trigger] calls[n]) == Some(s))
                ==> all.contains(s)
            &&& (decorated matches Some(d) && exists|k: int|
                #[trigger] is_child(t, d, k) && t[k].kind == "decorator"@ && decorator_replaces(
                    t,
                    imports,
                )(k) == Some(s)) ==> all.contains(s)
        }),
{
    broadcast use vstd::seq_lib::group_filter_ensures;

    let by_parameters = parameter_shadows(t, func);
    if let Some(params) = child_by_field(t, func, "parameters"@) {
        fields_lead_to_the_first_child(t, func, "parameters"@);
        children_stand_directly_under(t, params);
        let named = named_children(t, params);
        lemma_union_over(named, parameter_shadow(t), s);
        assert forall|k: int|
            s != "self"@ && #[trigger] is_child(t, params, k) && t[k].named && bound_parameter(t, k)
                == Some(s) implies by_parameters.contains(s) by {
            assert(named.contains(k));
            let n = choose|n: int| 0 <= n < named.len() && named[n] == k;
            assert(parameter_shadow(t)(named[n]) == Some(s));
        }
    }
    lemma_union_over(calls, call_target(t, imports), s);
    if let Some(d) = decorated {
        children_stand_directly_under(t, d);
        let kids = children(t, d);
        let list = decorators(t, d);
        lemma_union_over(list, decorator_replaces(t, imports), s);
        assert forall|k: int|
            #[trigger] is_child(t, d, k) && t[k].kind == "decorator"@ && decorator_replaces(
                t,
                imports,
            )(k) == Some(s) implies union_over(list, decorator_replaces(t, imports)).contains(s) by {
            assert(kids.contains(k));
            assert(kind_test(t, "decorator"@)(k));
            assert(list.contains(k));
            let n = choose|n: int| 0 <= n < list.len() && list[n] == k;
            assert(decorator_replaces(t, imports)(list[n]) == Some(s));
        }
    }
    let by_decorators = match decorated {
        Some(d) => decorator_targets(t, d, imports),
        None => Set::empty(),
    };
    let replaced = class_shadows.union(by_parameters).union(by_decorators).union(
        call_targets(t, calls, imports),
    );
    if let Some(body) = child_by_field(t, func, "body"@) {
        lemma_doubles_grow(t, call_bindings(t, body), imports, replaced);
    }
}

proof fn lemma_doubles_grow(
    t: Seq<NodeModel>,
    pairs: Seq<(int, int)>,
    imports: ImportModel,
    names: Set<Seq<char>>,
)
    ensures
        names.subset_of(with_doubles(t, pairs, imports, names)),
    decreases pairs.len(),
{
    if pairs.len() > 0 {
        lemma_doubles_grow(t, pairs.drop_last(), imports, names);
    }
}

/// What a double's own call gives is a double: the name that the last binding of a list gives to a
/// call is one exactly where the call constructs a mock or calls what doubles stand behind by then.
/// Bindings before it stay as they are.
pub proof fn doubles_spread_through_bindings(
    t: Seq<NodeModel>,
    pairs: Seq<(int, int)>,
    target: int,
    call: int,
    imports: ImportModel,
    names: Set<Seq<char>>,
    c: Seq<char>,
    name: Seq<char>,
)
    requires
        call_head(t, call) == Some(c),
        t[target].text == Some(name),
    ensures
        ({
            let before = with_doubles(t, pairs, imports, names);
            let after = with_doubles(t, pairs.push((target, call)), imports, names);
            let last = last_segment(c);
            let double = last == "Mock"@ || last == "MagicMock"@ || last == "AsyncMock"@ || last
                == "create_autospec"@ || last == "patch"@ || before.contains(head_of(c)) || exists|s: Seq<char>|
                #[trigger] before.contains(s) && at_or_under(canonical(c, imports), s);
            &&& double ==> after == before.insert(name)
            &&& !double ==> after == before
        }),
        with_doubles(t, Seq::empty(), imports, names) == names,
{
    mock_constructors_are_listed(last_segment(c));
    assert(pairs.push((target, call)).drop_last() =~= pairs);
    assert(pairs.push((target, call)).last() == (target, call));
}

proof fn lemma_flat(items: Seq<int>, f: spec_fn(int) -> Seq<(int, int)>, x: (int, int))
    ensures
        flat(items, f).contains(x) == exists|n: int|
            0 <= n < items.len() && f(#[trigger] items[n]).contains(x),
    decreases items.len(),
{
    if items.len() > 0 {
        let front = items.drop_last();
        lemma_flat(front, f, x);
        let a = flat(front, f);
        let b = f(items.last());
        assert forall|n: int| 0 <= n < front.len() implies #[trigger] front[n] == items[n] by {}
        if a.contains(x) {
            let n = choose|n: int| 0 <= n < front.len() && f(#[trigger] front[n]).contains(x);
            assert(f(items[n]).contains(x));
        }
        if b.contains(x) {
            assert(items[items.len() - 1] == items.last());
        }
        lemma_either(a, b, x);
        if exists|n: int| 0 <= n < items.len() && f(#[trigger] items[n]).contains(x) {
            let n = choose|n: int| 0 <= n < items.len() && f(#[trigger] items[n]).contains(x);
            if n < front.len() {
                assert(f(front[n]).contains(x));
            }
        }
    }
}

proof fn lemma_either(a: Seq<(int, int)>, b: Seq<(int, int)>, x: (int, int))
    ensures
        (a + b).contains(x) == (a.contains(x) || b.contains(x)),
{
    let whole = a + b;
    if a.contains(x) {
        let n = choose|n: int| 0 <= n < a.len() && a[n] == x;
        assert(whole[n] == x);
    }
    if b.contains(x) {
        let n = choose|n: int| 0 <= n < b.len() && b[n] == x;
        assert(whole[a.len() + n] == x);
    }
    if whole.contains(x) {
        let n = choose|n: int| 0 <= n < whole.len() && whole[n] == x;
        if n < a.len() {
            assert(a[n] == x);
        } else {
            assert(b[n - a.len()] == x);
        }
    }
}

/// A name that a body binds to a call is among its bindings, wherever in the body: by an
/// assignment, by a named expression, by a `with`.
pub proof fn bindings_are_found_throughout_the_body(
    t: Seq<NodeModel>,
    body: int,
    at: int,
    target: int,
    call: int,
)
    requires
        stands_in(t, body, at),
        t[target].kind == "identifier"@,
        t[call].kind == "call"@,
    ensures
        t[at].kind == "assignment"@ && child_by_field(t, at, "left"@) == Some(target)
            && child_by_field(t, at, "right"@) == Some(call) ==> call_bindings(t, body).contains(
            (target, call),
        ),
        t[at].kind == "named_expression"@ && child_by_field(t, at, "name"@) == Some(target)
            && child_by_field(t, at, "value"@) == Some(call) ==> call_bindings(t, body).contains(
            (target, call),
        ),
        t[at].kind == "with_item"@ && (named_child(t, at) matches Some(pattern) && t[pattern].kind
            == "as_pattern"@ && named_child(t, pattern) == Some(call) && child_by_field(
            t,
            pattern,
            "alias"@,
        ) == Some(target)) ==> call_bindings(t, body).contains((target, call)),
{
    let x = (target, call);
    descendants_are_what_stands_there(t, body, "assignment"@);
    descendants_are_what_stands_there(t, body, "named_expression"@);
    descendants_are_what_stands_there(t, body, "with_item"@);
    let a = descendants(t, body, "assignment"@);
    let b = descendants(t, body, "named_expression"@);
    let c = descendants(t, body, "with_item"@);
    lemma_flat(a, assignment_pairs(t), x);
    lemma_flat(b, named_pairs(t), x);
    lemma_flat(c, with_pairs(t), x);
    let fa = flat(a, assignment_pairs(t));
    let fb = flat(b, named_pairs(t));
    let fc = flat(c, with_pairs(t));
    lemma_either(fa, fb, x);
    lemma_either(fa + fb, fc, x);
    assert(seq![x][0] == x);
    assert(seq![x].contains(x));
    if t[at].kind == "assignment"@ && child_by_field(t, at, "left"@) == Some(target)
        && child_by_field(t, at, "right"@) == Some(call) {
        assert(a.contains(at));
        let n = choose|n: int| 0 <= n < a.len() && a[n] == at;
        assert(assignment_pairs(t)(a[n]).contains(x));
    }
    if t[at].kind == "named_expression"@ && child_by_field(t, at, "name"@) == Some(target)
        && child_by_field(t, at, "value"@) == Some(call) {
        assert(b.contains(at));
        let n = choose|n: int| 0 <= n < b.len() && b[n] == at;
        assert(named_pairs(t)(b[n]).contains(x));
    }
    if t[at].kind == "with_item"@ && (named_child(t, at) matches Some(pattern) && t[pattern].kind
        == "as_pattern"@ && named_child(t, pattern) == Some(call) && child_by_field(
        t,
        pattern,
        "alias"@,
    ) == Some(target)) {
        assert(c.contains(at));
        let n = choose|n: int| 0 <= n < c.len() && c[n] == at;
        assert(with_pairs(t)(c[n]).contains(x));
    }
}

/// An assignment of several values to several names binds them side by side, and nothing where the
/// two sides are not equally long.
pub proof fn several_names_are_bound_side_by_side(
    t: Seq<NodeModel>,
    target: int,
    value: int,
    n: int,
)
    requires
        t[target].kind == "pattern_list"@ || t[target].kind == "tuple_pattern"@,
        t[value].kind == "expression_list"@ || t[value].kind == "tuple"@,
    ensures
        named_children(t, target).len() != named_children(t, value).len() ==> tuple_pairs(
            t,
            target,
            value,
        ).len() == 0,
        named_children(t, target).len() == named_children(t, value).len() && 0 <= n < named_children(
            t,
            target,
        ).len() && t[named_children(t, target)[n]].kind == "identifier"@ && t[named_children(
            t,
            value,
        )[n]].kind == "call"@ ==> tuple_pairs(t, target, value).contains(
            (named_children(t, target)[n], named_children(t, value)[n]),
        ),
{
    let a = named_children(t, target);
    let b = named_children(t, value);
    if a.len() == b.len() && 0 <= n < a.len() && t[a[n]].kind == "identifier"@ && t[b[n]].kind
        == "call"@ {
        lemma_zipped(t, a, b, a.len() as int, n);
    }
}

proof fn lemma_zipped(t: Seq<NodeModel>, a: Seq<int>, b: Seq<int>, m: int, n: int)
    requires
        0 <= n < m <= a.len(),
        a.len() == b.len(),
        binds_call(t, a[n], b[n]),
    ensures
        zipped(t, a, b, m).contains((a[n], b[n])),
    decreases m,
{
    let all = zipped(t, a, b, m);
    if n == m - 1 {
        assert(all[all.len() - 1] == (a[n], b[n]));
    } else {
        lemma_zipped(t, a, b, m - 1, n);
        let before = zipped(t, a, b, m - 1);
        let k = choose|k: int| 0 <= k < before.len() && before[k] == (a[n], b[n]);
        assert(all[k] == (a[n], b[n]));
    }
}

/// What a replacing call replaces: the name that its first argument spells, seen through the
/// imports, or the attribute that its second argument spells of what the first one is.
pub proof fn targets_are_read_off_the_arguments(
    t: Seq<NodeModel>,
    call: int,
    args: int,
    imports: ImportModel,
)
    requires
        child_by_field(t, call, "arguments"@) == Some(args),
    ensures
        ({
            let given = named_children(t, args).filter(positional_test(t));
            let target = patch_target(t, call, imports);
            &&& given.len() == 0 ==> target is None
            &&& given.len() > 0 ==> (literal(t, given[0]) matches Some(name) ==> target == Some(
                canonical(name, imports),
            ))
            &&& given.len() > 1 && literal(t, given[0]) is None ==> (chain(t, given[0]) matches Some(
                receiver,
            ) ==> (literal(t, given[1]) matches Some(name) ==> target == Some(
                canonical(receiver, imports) + seq!['.'] + name,
            )))
            &&& given.len() == 1 && literal(t, given[0]) is None ==> (chain(t, given[0]) matches Some(
                receiver,
            ) ==> target == Some(canonical(receiver, imports)))
            &&& given.len() > 0 && literal(t, given[0]) is None && chain(t, given[0]) is None
                ==> target is None
        }),
{
    reveal_strlit(".");
    assert("."@ =~= seq!['.']);
}

/// Doubles stand behind nothing else: a name behind which one stands is replaced by the class, a
/// parameter, a decorator or a call, or is one that the body binds to a call.
pub proof fn doubles_stand_behind_nothing_else(
    t: Seq<NodeModel>,
    func: int,
    decorated: Option<int>,
    calls: Seq<int>,
    imports: ImportModel,
    class_shadows: Set<Seq<char>>,
    s: Seq<char>,
)
    requires
        0 <= func < t.len(),
        decorated matches Some(d) ==> 0 <= d < t.len(),
        shadows(t, func, decorated, calls, imports, class_shadows).contains(s),
    ensures
        ({
            ||| class_shadows.contains(s)
            ||| s != "self"@ && exists|params: int, k: int|
                #![trigger is_child(t, func, params), is_child(t, params, k)]
                is_child(t, func, params) && t[params].field == Some("parameters"@) && is_child(
                    t,
                    params,
                    k,
                ) && t[k].named && bound_parameter(t, k) == Some(s)
            ||| exists|n: int|
                0 <= n < calls.len() && call_target(t, imports)(#[trigger] calls[n]) == Some(s)
            ||| decorated matches Some(d) && exists|k: int|
                #[trigger] is_child(t, d, k) && t[k].kind == "decorator"@ && decorator_replaces(
                    t,
                    imports,
                )(k) == Some(s)
            ||| child_by_field(t, func, "body"@) matches Some(body) && exists|target: int, call: int|
                #[trigger] call_bindings(t, body).contains((target, call)) && t[target].text
                    == Some(s)
        }),
{
    broadcast use vstd::seq_lib::group_filter_ensures;

    if parameter_shadows(t, func).contains(s) {
        let params = child_by_field(t, func, "parameters"@)->0;
        fields_lead_to_the_first_child(t, func, "parameters"@);
        children_stand_directly_under(t, params);
        let named = named_children(t, params);
        lemma_union_over(named, parameter_shadow(t), s);
        let n = choose|n: int|
            0 <= n < named.len() && parameter_shadow(t)(#[trigger] named[n]) == Some(s);
        assert(named.contains(named[n]));
        assert(is_child(t, func, params) && is_child(t, params, named[n]));
    }
    lemma_union_over(calls, call_target(t, imports), s);
    if let Some(d) = decorated {
        children_stand_directly_under(t, d);
        let kids = children(t, d);
        let p = kind_test(t, "decorator"@);
        let list = decorators(t, d);
        lemma_union_over(list, decorator_replaces(t, imports), s);
        if union_over(list, decorator_replaces(t, imports)).contains(s) {
            let n = choose|n: int|
                0 <= n < list.len() && decorator_replaces(t, imports)(#[trigger] list[n]) == Some(s);
            assert(list.contains(list[n]));
            kids.lemma_filter_contains_rev(p, list[n]);
            assert(p(list[n]));
            assert(is_child(t, d, list[n]));
        }
    }
    let by_decorators = match decorated {
        Some(d) => decorator_targets(t, d, imports),
        None => Set::empty(),
    };
    let replaced = class_shadows.union(parameter_shadows(t, func)).union(by_decorators).union(
        call_targets(t, calls, imports),
    );
    if let Some(body) = child_by_field(t, func, "body"@) {
        let pairs = call_bindings(t, body);
        fields_lead_to_the_first_child(t, func, "body"@);
        if !replaced.contains(s) {
            lemma_doubles_are_bound(t, pairs, imports, replaced, s);
            let n = choose|n: int| 0 <= n < pairs.len() && t[(#[trigger] pairs[n]).0].text == Some(s);
            let (target, call) = pairs[n];
            assert(pairs.contains((target, call)));
        }
    }
}

proof fn lemma_doubles_are_bound(
    t: Seq<NodeModel>,
    pairs: Seq<(int, int)>,
    imports: ImportModel,
    names: Set<Seq<char>>,
    s: Seq<char>,
)
    requires
        with_doubles(t, pairs, imports, names).contains(s),
        !names.contains(s),
    ensures
        exists|n: int| 0 <= n < pairs.len() && t[(#[trigger] pairs[n]).0].text == Some(s),
    decreases pairs.len(),
{
    if pairs.len() > 0 {
        let front = pairs.drop_last();
        if with_doubles(t, front, imports, names).contains(s) {
            lemma_doubles_are_bound(t, front, imports, names, s);
            let n = choose|n: int| 0 <= n < front.len() && t[(#[trigger] front[n]).0].text == Some(s);
            assert(pairs[n] == front[n]);
        } else {
            assert(pairs[pairs.len() - 1] == pairs.last());
        }
    }
}

/// What is bound is always a name, and always to a call.
pub proof fn bindings_bind_names_to_calls(t: Seq<NodeModel>, body: int, target: int, call: int)
    requires
        call_bindings(t, body).contains((target, call)),
    ensures
        t[target].kind == "identifier"@,
        t[call].kind == "call"@,
{
    let x = (target, call);
    let a = descendants(t, body, "assignment"@);
    let b = descendants(t, body, "named_expression"@);
    let c = descendants(t, body, "with_item"@);
    lemma_flat(a, assignment_pairs(t), x);
    lemma_flat(b, named_pairs(t), x);
    lemma_flat(c, with_pairs(t), x);
    let fa = flat(a, assignment_pairs(t));
    let fb = flat(b, named_pairs(t));
    let fc = flat(c, with_pairs(t));
    lemma_either(fa, fb, x);
    lemma_either(fa + fb, fc, x);
    if fa.contains(x) {
        let n = choose|n: int| 0 <= n < a.len() && assignment_pairs(t)(#[trigger] a[n]).contains(x);
        let left = child_by_field(t, a[n], "left"@)->0;
        let right = child_by_field(t, a[n], "right"@)->0;
        let k = named_children(t, left);
        lemma_zipped_binds(t, k, named_children(t, right), k.len() as int, x);
    }
}

proof fn lemma_zipped_binds(t: Seq<NodeModel>, a: Seq<int>, b: Seq<int>, m: int, x: (int, int))
    ensures
        zipped(t, a, b, m).contains(x) ==> binds_call(t, x.0, x.1),
    decreases m,
{
    if m > 0 {
        lemma_zipped_binds(t, a, b, m - 1, x);
        let before = zipped(t, a, b, m - 1);
        let all = zipped(t, a, b, m);
        if all.contains(x) && !before.contains(x) {
            let k = choose|k: int| 0 <= k < all.len() && all[k] == x;
            if k < before.len() {
                assert(before[k] == x);
            }
        }
    }
}

/// What the setup of a class replaces, and what its decorators replace, holds for its tests; the
/// setup is one of four methods.
pub proof fn setup_replaces_for_the_class(
    t: Seq<NodeModel>,
    body: int,
    decorated: Option<int>,
    imports: ImportModel,
    k: int,
    hook: int,
    call: int,
    s: Seq<char>,
)
    requires
        0 <= body < t.len(),
        is_child(t, body, k),
        call_target(t, imports)(call) == Some(s),
        t[call].kind == "call"@,
        function_behind(t, k) is Some,
        child_by_field(t, function_behind(t, k)->0, "body"@) == Some(hook),
        stands_in(t, hook, call),
        name_of(t, function_behind(t, k)->0) == Some("setUp"@) || name_of(
            t,
            function_behind(t, k)->0,
        ) == Some("setUpClass"@) || name_of(t, function_behind(t, k)->0) == Some("setup_method"@)
            || name_of(t, function_behind(t, k)->0) == Some("setup_class"@),
    ensures
        class_doubles(t, body, decorated, imports).contains(s),
{
    let list = SETUP_METHODS@;
    assert(list[0]@ == "setUp"@ && list[1]@ == "setUpClass"@ && list[2]@ == "setup_method"@
        && list[3]@ == "setup_class"@);
    children_stand_directly_under(t, body);
    descendants_are_what_stands_there(t, hook, "call"@);
    let calls = descendants(t, hook, "call"@);
    assert(calls.contains(call));
    let n = choose|n: int| 0 <= n < calls.len() && calls[n] == call;
    lemma_union_over(calls, call_target(t, imports), s);
    assert(call_targets(t, calls, imports).contains(s));
    let kids = children(t, body);
    assert(kids.contains(k));
    let m = choose|m: int| 0 <= m < kids.len() && kids[m] == k;
    lemma_hooks(t, kids, imports, m, s);
}

proof fn lemma_hooks(t: Seq<NodeModel>, items: Seq<int>, imports: ImportModel, m: int, s: Seq<char>)
    requires
        0 <= m < items.len(),
        hook_body(t, items[m]) is Some,
        call_targets(t, descendants(t, hook_body(t, items[m])->0, "call"@), imports).contains(s),
    ensures
        hook_targets(t, items, imports).contains(s),
    decreases items.len(),
{
    let front = items.drop_last();
    if m < front.len() {
        assert(front[m] == items[m]);
        lemma_hooks(t, front, imports, m, s);
    }
}

/// No other method of a class replaces anything for its tests.
pub proof fn only_setup_replaces_for_the_class(t: Seq<NodeModel>, k: int)
    requires
        hook_body(t, k) is Some,
    ensures
        ({
            let name = name_of(t, function_behind(t, k)->0);
            ||| name == Some("setUp"@)
            ||| name == Some("setUpClass"@)
            ||| name == Some("setup_method"@)
            ||| name == Some("setup_class"@)
        }),
{
    let list = SETUP_METHODS@;
    assert(list[0]@ == "setUp"@ && list[1]@ == "setUpClass"@ && list[2]@ == "setup_method"@
        && list[3]@ == "setup_class"@);
    let name = name_of(t, function_behind(t, k)->0)->0;
    let i = choose|i: int| 0 <= i < list.len() && (#[trigger] list[i])@ == name;
    assert(i == 0 || i == 1 || i == 2 || i == 3);
}

/// What a class's decorators replace holds for its tests.
pub proof fn decorators_replace_for_the_class(
    t: Seq<NodeModel>,
    body: int,
    decorated: int,
    imports: ImportModel,
    k: int,
    s: Seq<char>,
)
    requires
        0 <= decorated < t.len(),
        is_child(t, decorated, k),
        t[k].kind == "decorator"@,
        decorator_replaces(t, imports)(k) == Some(s),
    ensures
        class_doubles(t, body, Some(decorated), imports).contains(s),
{
    broadcast use vstd::seq_lib::group_filter_ensures;

    children_stand_directly_under(t, decorated);
    let kids = children(t, decorated);
    let list = decorators(t, decorated);
    lemma_union_over(list, decorator_replaces(t, imports), s);
    assert(kids.contains(k));
    assert(kind_test(t, "decorator"@)(k));
    assert(list.contains(k));
    let n = choose|n: int| 0 <= n < list.len() && list[n] == k;
    assert(decorator_replaces(t, imports)(list[n]) == Some(s));
}

/// A class without decorators and setup replaces nothing.
pub proof fn bare_classes_replace_nothing(
    t: Seq<NodeModel>,
    body: int,
    imports: ImportModel,
    s: Seq<char>,
)
    requires
        0 <= body < t.len(),
        forall|k: int| #[trigger] is_child(t, body, k) ==> hook_body(t, k) is None,
    ensures
        !class_doubles(t, body, None, imports).contains(s),
{
    children_stand_directly_under(t, body);
    let kids = children(t, body);
    assert forall|n: int| 0 <= n < kids.len() implies hook_body(t, #[trigger] kids[n]) is None by {
        assert(kids.contains(kids[n]));
    }
    lemma_no_hooks(t, kids, imports);
}

proof fn lemma_no_hooks(t: Seq<NodeModel>, items: Seq<int>, imports: ImportModel)
    requires
        forall|n: int| 0 <= n < items.len() ==> hook_body(t, #[trigger] items[n]) is None,
    ensures
        hook_targets(t, items, imports) == Set::<Seq<char>>::empty(),
    decreases items.len(),
{
    if items.len() > 0 {
        let front = items.drop_last();
        assert forall|n: int| 0 <= n < front.len() implies hook_body(t, #[trigger] front[n]) is None by {
            assert(front[n] == items[n]);
        }
        lemma_no_hooks(t, front, imports);
        assert(hook_body(t, items[items.len() - 1]) is None);
    }
}

/// The arguments that count by their place are those without a keyword, in their order.
pub proof fn keywords_have_no_place(t: Seq<NodeModel>, args: int, k: int)
    requires
        0 <= args < t.len(),
    ensures
        named_children(t, args).filter(positional_test(t)).contains(k) == (is_child(t, args, k)
            && t[k].named && t[k].kind != "keyword_argument"@),
        increasing(named_children(t, args).filter(positional_test(t))),
{
    broadcast use vstd::seq_lib::group_filter_ensures;

    children_stand_directly_under(t, args);
    let all = named_children(t, args);
    let p = positional_test(t);
    if all.filter(p).contains(k) {
        all.lemma_filter_contains_rev(p, k);
        assert(p(k));
    }
    if is_child(t, args, k) && t[k].named && t[k].kind != "keyword_argument"@ {
        assert(all.contains(k));
        assert(p(k));
    }
    lemma_kept_in_order(all, p);
}

/// A call replaces what its arguments say exactly where its head is one that replaces; so does a
/// decorator that is called.
pub proof fn replacing_heads_replace(
    t: Seq<NodeModel>,
    call: int,
    d: int,
    imports: ImportModel,
    head: Seq<char>,
)
    ensures
        call_head(t, call) is None ==> call_target(t, imports)(call) is None,
        call_head(t, call) == Some(head) ==> call_target(t, imports)(call) == if patches_a_name(head) {
            patch_target(t, call, imports)
        } else {
            None
        },
        decorated_by(t, d) matches Some(f) ==> (chain(t, f) == Some(head) && parent(t, f) == Some(call)
            ==> decorator_replaces(t, imports)(d) == if patches_a_name(head) && t[call].kind
            == "call"@ {
            patch_target(t, call, imports)
        } else {
            None
        }),
        decorated_by(t, d) is None ==> decorator_replaces(t, imports)(d) is None,
{
}

/// A `with` may bind what it gives in a target of its own: the name is then the first in it.
pub proof fn targets_of_with_hold_the_name(
    t: Seq<NodeModel>,
    body: int,
    item: int,
    pattern: int,
    call: int,
    alias: int,
    target: int,
)
    requires
        stands_in(t, body, item),
        t[item].kind == "with_item"@,
        named_child(t, item) == Some(pattern),
        t[pattern].kind == "as_pattern"@,
        named_child(t, pattern) == Some(call),
        t[call].kind == "call"@,
        child_by_field(t, pattern, "alias"@) == Some(alias),
        t[alias].kind == "as_pattern_target"@,
        named_child(t, alias) == Some(target),
        t[target].kind == "identifier"@,
    ensures
        call_bindings(t, body).contains((target, call)),
{
    reveal_strlit("identifier");
    reveal_strlit("as_pattern_target");
    assert("identifier"@.len() == 10 && "as_pattern_target"@.len() == 17);
    let x = (target, call);
    descendants_are_what_stands_there(t, body, "with_item"@);
    let a = flat(descendants(t, body, "assignment"@), assignment_pairs(t));
    let b = flat(descendants(t, body, "named_expression"@), named_pairs(t));
    let items = descendants(t, body, "with_item"@);
    lemma_flat(items, with_pairs(t), x);
    lemma_either(a + b, flat(items, with_pairs(t)), x);
    assert(items.contains(item));
    let n = choose|n: int| 0 <= n < items.len() && items[n] == item;
    assert(seq![x][0] == x);
    assert(with_pairs(t)(items[n]).contains(x));
}

/// A name that the body of a test binds to the construction of a mock has a double behind it, and so
/// has one that it binds to a call of what the class replaces.
pub proof fn bound_mocks_are_doubles(
    t: Seq<NodeModel>,
    func: int,
    decorated: Option<int>,
    calls: Seq<int>,
    imports: ImportModel,
    class_shadows: Set<Seq<char>>,
    body: int,
    target: int,
    call: int,
    c: Seq<char>,
    name: Seq<char>,
)
    requires
        child_by_field(t, func, "body"@) == Some(body),
        call_bindings(t, body).contains((target, call)),
        t[target].text == Some(name),
        call_head(t, call) == Some(c),
        last_segment(c) == "Mock"@ || last_segment(c) == "MagicMock"@ || last_segment(c)
            == "AsyncMock"@ || last_segment(c) == "create_autospec"@ || last_segment(c) == "patch"@
            || class_shadows.contains(head_of(c)),
    ensures
        shadows(t, func, decorated, calls, imports, class_shadows).contains(name),
{
    mock_constructors_are_listed(last_segment(c));
    let by_decorators = match decorated {
        Some(d) => decorator_targets(t, d, imports),
        None => Set::empty(),
    };
    let replaced = class_shadows.union(parameter_shadows(t, func)).union(by_decorators).union(
        call_targets(t, calls, imports),
    );
    let pairs = call_bindings(t, body);
    let n = choose|n: int| 0 <= n < pairs.len() && pairs[n] == (target, call);
    lemma_bound_double(t, pairs, imports, replaced, n, c, name);
}

proof fn lemma_bound_double(
    t: Seq<NodeModel>,
    pairs: Seq<(int, int)>,
    imports: ImportModel,
    names: Set<Seq<char>>,
    n: int,
    c: Seq<char>,
    name: Seq<char>,
)
    requires
        0 <= n < pairs.len(),
        t[pairs[n].0].text == Some(name),
        call_head(t, pairs[n].1) == Some(c),
        among(MOCK_CONSTRUCTORS@, last_segment(c)) || names.contains(head_of(c)),
    ensures
        with_doubles(t, pairs, imports, names).contains(name),
    decreases pairs.len(),
{
    let front = pairs.drop_last();
    if n < front.len() {
        assert(front[n] == pairs[n]);
        lemma_bound_double(t, front, imports, names, n, c, name);
    } else {
        assert(pairs.last() == pairs[n]);
        lemma_doubles_grow(t, front, imports, names);
    }
}

} // verus!
