//! Which names a test replaced with test doubles, and which of its calls check the outcome of a
//! child process that is not such a double.
use vstd::prelude::*;
use vstd::string::*;

use crate::expressions::{
    attribute_chain_text, call_head, call_head_chain, call_of_value, call_passes_check_true,
    called_value, chain, decorated_by, decorator_nodes, decorator_target, decorators, find_kind,
    first_of_kind, keep, literal, passes_check_true, string_literal_text,
};
use crate::mock_api::{among, chain_constructs_a_mock, last_segment, MOCK_CONSTRUCTORS};
use crate::names::NameSet;
use crate::sut_calls::{
    at_or_under, canonical, canonicalize_called_name, dotted_head, head_of, is_at_or_under,
    ImportMap, ImportModel,
};
use crate::syntax::{
    child_by_field, children, descendants, named_child, named_children, parent, position, positions,
    NodeModel, SyntaxTree,
};
use crate::text::{contains_text, opt_view, same, split, split_on, views};
use crate::verification::{
    is_checkable_subprocess_call, is_checked_subprocess_call, is_returncode_check,
    is_subprocess_name, is_suppress_context_manager, returncode_check, CHECKABLE_SUBPROCESS_CALLS,
    CHECKED_SUBPROCESS_CALLS, SUBPROCESS_MODULE, SUPPRESS_CONTEXT_MANAGER,
};

verus! {

/// The set of what is there.
pub open spec fn opt_set(o: Option<Seq<char>>) -> Set<Seq<char>> {
    match o {
        Some(s) => Set::empty().insert(s),
        None => Set::empty(),
    }
}

/// What `f` finds at all of `items` together.
pub open spec fn union_over(items: Seq<int>, f: spec_fn(int) -> Option<Seq<char>>) -> Set<
    Seq<char>,
>
    decreases items.len(),
{
    if items.len() == 0 {
        Set::empty()
    } else {
        union_over(items.drop_last(), f).union(opt_set(f(items.last())))
    }
}

/// A dotted head that installs a double at a named place: `monkeypatch.setattr`, or a chain with a
/// whole segment `patch`.
pub open spec fn patches_a_name(head: Seq<char>) -> bool {
    head == "monkeypatch.setattr"@ || split(head, '.').contains("patch"@)
}

/// Whether a dotted head installs a double at a named place.
pub fn head_patches_a_name(head: &str) -> (r: bool)
    ensures
        r == patches_a_name(head@),
{
    if same(head, "monkeypatch.setattr") {
        return true;
    }
    let segments = split_on(head, '.');
    contains_text(&segments, "patch")
}

/// Being something other than a keyword argument.
pub open spec fn positional_test(t: Seq<NodeModel>) -> spec_fn(int) -> bool {
    |k: int| t[k].kind != "keyword_argument"@
}

/// The name that a patching call replaces: the one its first argument spells out, or the one its
/// second argument spells out on what the first refers to, or what the first refers to itself.
pub open spec fn patch_target(t: Seq<NodeModel>, call: int, imports: ImportModel) -> Option<
    Seq<char>,
> {
    match child_by_field(t, call, "arguments"@) {
        Some(args) => {
            let given = named_children(t, args).filter(positional_test(t));
            if given.len() == 0 {
                None
            } else {
                match (literal(t, given[0]), chain(t, given[0])) {
                    (Some(name), _) => Some(canonical(name, imports)),
                    (None, Some(receiver)) => if given.len() > 1 && literal(t, given[1]) is Some {
                        Some(canonical(receiver, imports) + "."@ + literal(t, given[1])->0)
                    } else {
                        Some(canonical(receiver, imports))
                    },
                    (None, None) => None,
                }
            }
        },
        None => None,
    }
}

/// The name that a patching call replaces.
pub fn patched_target(tree: &SyntaxTree, call: usize, imports: &ImportMap) -> (r: Option<String>)
    requires
        call < tree@.len(),
    ensures
        opt_view(r) == patch_target(tree@, call as int, imports@),
{
    let args: usize = match tree.child(call, "arguments") {
        Some(args) => args,
        None => {
            return None;
        },
    };
    let all = tree.named_children_of(args);
    let test = |k: usize| -> (b: bool)
        requires
            k < tree@.len(),
        ensures
            b == positional_test(tree@)(k as int),
        { !tree.is_kind(k, "keyword_argument") };
    let given = keep(&all, Ghost(positional_test(tree@)), test);
    proof {
        assert(positions(given@).len() == given@.len());
        assert forall|n: int| 0 <= n < given@.len() implies (#[trigger] given@[n]) < tree@.len() by {
            assert(all@.contains(given@[n]));
        }
    }
    if given.len() == 0 {
        return None;
    }
    assert(positions(given@)[0] == given@[0]);
    if let Some(name) = string_literal_text(tree, given[0]) {
        return Some(canonicalize_called_name(name, imports));
    }
    match attribute_chain_text(tree, given[0]) {
        Some(receiver) => {
            let mut out = canonicalize_called_name(&receiver, imports);
            if given.len() > 1 {
                assert(positions(given@)[1] == given@[1]);
                if let Some(name) = string_literal_text(tree, given[1]) {
                    out.append(".");
                    out.append(name);
                }
            }
            Some(out)
        },
        None => None,
    }
}

/// The name that a call replaces, if it is a patching call.
pub open spec fn call_target(t: Seq<NodeModel>, imports: ImportModel) -> spec_fn(int) -> Option<
    Seq<char>,
> {
    |call: int|
        match call_head(t, call) {
            Some(h) => if patches_a_name(h) {
                patch_target(t, call, imports)
            } else {
                None
            },
            None => None,
        }
}

/// The name that a decorator replaces, if it is a patching one with arguments.
pub open spec fn decorator_replaces(t: Seq<NodeModel>, imports: ImportModel) -> spec_fn(
    int,
) -> Option<Seq<char>> {
    |d: int|
        match decorated_by(t, d) {
            Some(target) => match (chain(t, target), parent(t, target)) {
                (Some(c), Some(call)) => if patches_a_name(c) && t[call].kind == "call"@ {
                    patch_target(t, call, imports)
                } else {
                    None
                },
                _ => None,
            },
            None => None,
        }
}

fn target_of_call(tree: &SyntaxTree, call: usize, imports: &ImportMap) -> (r: Option<String>)
    requires
        call < tree@.len(),
    ensures
        opt_view(r) == call_target(tree@, imports@)(call as int),
{
    match call_head_chain(tree, call) {
        Some(h) => {
            if head_patches_a_name(&h) {
                patched_target(tree, call, imports)
            } else {
                None
            }
        },
        None => None,
    }
}

fn target_of_decorator(tree: &SyntaxTree, decorator: usize, imports: &ImportMap) -> (r: Option<
    String,
>)
    requires
        decorator < tree@.len(),
    ensures
        opt_view(r) == decorator_replaces(tree@, imports@)(decorator as int),
{
    match decorator_target(tree, decorator) {
        Some(target) => match (attribute_chain_text(tree, target), tree.parent_of(target)) {
            (Some(c), Some(call)) => {
                if head_patches_a_name(&c) && tree.is_kind(call, "call") {
                    patched_target(tree, call, imports)
                } else {
                    None
                }
            },
            _ => None,
        },
        None => None,
    }
}

/// The names that the patching calls among `calls` replace.
pub open spec fn call_targets(t: Seq<NodeModel>, calls: Seq<int>, imports: ImportModel) -> Set<
    Seq<char>,
> {
    union_over(calls, call_target(t, imports))
}

/// The names that the patching calls among `calls` replace.
pub fn patch_call_targets(tree: &SyntaxTree, calls: &Vec<usize>, imports: &ImportMap) -> (r: NameSet)
    requires
        forall|n: int| 0 <= n < calls@.len() ==> (#[trigger] calls@[n]) < tree@.len(),
    ensures
        r@ == call_targets(tree@, positions(calls@), imports@),
{
    let mut out = NameSet::new();
    let ghost f = call_target(tree@, imports@);
    let mut n: usize = 0;
    while n < calls.len()
        invariant
            n <= calls@.len(),
            f == call_target(tree@, imports@),
            forall|k: int| 0 <= k < calls@.len() ==> (#[trigger] calls@[k]) < tree@.len(),
            out@ == union_over(positions(calls@).take(n as int), f),
        decreases calls@.len() - n,
    {
        let ghost before = out@;
        let found = target_of_call(tree, calls[n], imports);
        proof {
            let part = positions(calls@).take(n + 1);
            assert(part.drop_last() =~= positions(calls@).take(n as int));
            assert(part.last() == calls@[n as int]);
        }
        if let Some(s) = found {
            out.insert(s);
            assert(out@ =~= before.union(opt_set(Some(s@))));
        } else {
            assert(out@ =~= before.union(opt_set(None)));
        }
        n += 1;
    }
    assert(positions(calls@).take(n as int) =~= positions(calls@));
    out
}

/// The names that the decorators of a definition replace.
pub open spec fn decorator_targets(
    t: Seq<NodeModel>,
    decorated: int,
    imports: ImportModel,
) -> Set<Seq<char>> {
    union_over(decorators(t, decorated), decorator_replaces(t, imports))
}

/// The names that the decorators of a definition replace.
pub fn decorator_patch_targets(tree: &SyntaxTree, decorated: usize, imports: &ImportMap) -> (r:
    NameSet)
    requires
        decorated < tree@.len(),
    ensures
        r@ == decorator_targets(tree@, decorated as int, imports@),
{
    let items = decorator_nodes(tree, decorated);
    let mut out = NameSet::new();
    let ghost f = decorator_replaces(tree@, imports@);
    let mut n: usize = 0;
    while n < items.len()
        invariant
            n <= items@.len(),
            f == decorator_replaces(tree@, imports@),
            forall|k: int| 0 <= k < items@.len() ==> (#[trigger] items@[k]) < tree@.len(),
            out@ == union_over(positions(items@).take(n as int), f),
        decreases items@.len() - n,
    {
        let ghost before = out@;
        let found = target_of_decorator(tree, items[n], imports);
        proof {
            let part = positions(items@).take(n + 1);
            assert(part.drop_last() =~= positions(items@).take(n as int));
            assert(part.last() == items@[n as int]);
        }
        if let Some(s) = found {
            out.insert(s);
            assert(out@ =~= before.union(opt_set(Some(s@))));
        } else {
            assert(out@ =~= before.union(opt_set(None)));
        }
        n += 1;
    }
    assert(positions(items@).take(n as int) =~= positions(items@));
    out
}

/// The name that a parameter binds, through annotations, defaults and stars.
pub open spec fn bound_parameter(t: Seq<NodeModel>, i: int) -> Option<Seq<char>>
    decreases t.len() - i,
{
    if !(0 <= i < t.len()) {
        None
    } else if t[i].kind == "identifier"@ {
        t[i].text
    } else if t[i].kind == "typed_parameter"@ || t[i].kind == "list_splat_pattern"@ || t[i].kind
        == "dictionary_splat_pattern"@ {
        match named_child(t, i) {
            Some(k) => if i < k < t.len() {
                bound_parameter(t, k)
            } else {
                None
            },
            None => None,
        }
    } else if t[i].kind == "default_parameter"@ || t[i].kind == "typed_default_parameter"@ {
        match child_by_field(t, i, "name"@) {
            Some(k) => if i < k < t.len() {
                bound_parameter(t, k)
            } else {
                None
            },
            None => None,
        }
    } else {
        None
    }
}

/// The name that a parameter binds.
pub fn parameter_name(tree: &SyntaxTree, i: usize) -> (r: Option<&String>)
    requires
        i < tree@.len(),
    ensures
        match r {
            Some(s) => bound_parameter(tree@, i as int) == Some(s@),
            None => bound_parameter(tree@, i as int) is None,
        },
    decreases tree@.len() - i,
{
    if tree.is_kind(i, "identifier") {
        tree.text_of(i)
    } else if tree.is_kind(i, "typed_parameter") || tree.is_kind(i, "list_splat_pattern")
        || tree.is_kind(i, "dictionary_splat_pattern") {
        match tree.first_named_child(i) {
            Some(k) => parameter_name(tree, k),
            None => None,
        }
    } else if tree.is_kind(i, "default_parameter") || tree.is_kind(i, "typed_default_parameter") {
        match tree.child(i, "name") {
            Some(k) => parameter_name(tree, k),
            None => None,
        }
    } else {
        None
    }
}

/// The name that a parameter shadows. `self` is the test instance, never a double.
pub open spec fn parameter_shadow(t: Seq<NodeModel>) -> spec_fn(int) -> Option<Seq<char>> {
    |k: int|
        match bound_parameter(t, k) {
            Some(s) => if s == "self"@ {
                None
            } else {
                Some(s)
            },
            None => None,
        }
}

/// The names that the parameters of a function shadow.
pub open spec fn parameter_shadows(t: Seq<NodeModel>, func: int) -> Set<Seq<char>> {
    match child_by_field(t, func, "parameters"@) {
        Some(params) => union_over(named_children(t, params), parameter_shadow(t)),
        None => Set::empty(),
    }
}

fn shadows_of_parameters(tree: &SyntaxTree, func: usize) -> (r: NameSet)
    requires
        func < tree@.len(),
    ensures
        r@ == parameter_shadows(tree@, func as int),
{
    let mut out = NameSet::new();
    let params: usize = match tree.child(func, "parameters") {
        Some(params) => params,
        None => {
            return out;
        },
    };
    let items = tree.named_children_of(params);
    let ghost f = parameter_shadow(tree@);
    let mut n: usize = 0;
    while n < items.len()
        invariant
            n <= items@.len(),
            f == parameter_shadow(tree@),
            forall|k: int| 0 <= k < items@.len() ==> (#[trigger] items@[k]) < tree@.len(),
            out@ == union_over(positions(items@).take(n as int), f),
        decreases items@.len() - n,
    {
        let ghost before = out@;
        proof {
            let part = positions(items@).take(n + 1);
            assert(part.drop_last() =~= positions(items@).take(n as int));
            assert(part.last() == items@[n as int]);
            assert(before.union(opt_set(None)) =~= before);
        }
        if let Some(s) = parameter_name(tree, items[n]) {
            if !same(s, "self") {
                out.insert(s.clone());
                assert(out@ =~= before.union(opt_set(Some(s@))));
            }
        }
        n += 1;
    }
    assert(positions(items@).take(n as int) =~= positions(items@));
    out
}

/// What `f` finds at `items`, one after the other.
pub open spec fn flat(items: Seq<int>, f: spec_fn(int) -> Seq<(int, int)>) -> Seq<(int, int)>
    decreases items.len(),
{
    if items.len() == 0 {
        Seq::empty()
    } else {
        flat(items.drop_last(), f) + f(items.last())
    }
}

pub open spec fn pair_positions(v: Seq<(usize, usize)>) -> Seq<(int, int)> {
    Seq::new(v.len(), |i: int| (v[i].0 as int, v[i].1 as int))
}

/// An identifier bound to what a call gives.
pub open spec fn binds_call(t: Seq<NodeModel>, target: int, value: int) -> bool {
    t[target].kind == "identifier"@ && t[value].kind == "call"@
}

/// The first `n` pairs of two lists of nodes that bind an identifier to a call.
pub open spec fn zipped(t: Seq<NodeModel>, targets: Seq<int>, values: Seq<int>, n: int) -> Seq<
    (int, int),
>
    decreases n,
{
    if n <= 0 {
        Seq::empty()
    } else {
        let before = zipped(t, targets, values, n - 1);
        if binds_call(t, targets[n - 1], values[n - 1]) {
            before.push((targets[n - 1], values[n - 1]))
        } else {
            before
        }
    }
}

/// The bindings of a tuple assignment whose two sides are equally long, place by place.
pub open spec fn tuple_pairs(t: Seq<NodeModel>, target: int, value: int) -> Seq<(int, int)> {
    let targets = named_children(t, target);
    let values = named_children(t, value);
    if (t[target].kind == "pattern_list"@ || t[target].kind == "tuple_pattern"@) && (t[value].kind
        == "expression_list"@ || t[value].kind == "tuple"@) && targets.len() == values.len() {
        zipped(t, targets, values, targets.len() as int)
    } else {
        Seq::empty()
    }
}

/// The bindings of a tuple assignment.
pub fn zip_tuple_binding(tree: &SyntaxTree, target: usize, value: usize) -> (r: Vec<(usize, usize)>)
    requires
        target < tree@.len(),
        value < tree@.len(),
    ensures
        pair_positions(r@) == tuple_pairs(tree@, target as int, value as int),
        forall|n: int|
            0 <= n < r@.len() ==> (#[trigger] r@[n]).0 < tree@.len() && r@[n].1 < tree@.len(),
{
    let mut out: Vec<(usize, usize)> = Vec::new();
    assert(pair_positions(out@) =~= Seq::<(int, int)>::empty());
    if !(tree.is_kind(target, "pattern_list") || tree.is_kind(target, "tuple_pattern")) || !(
    tree.is_kind(value, "expression_list") || tree.is_kind(value, "tuple")) {
        return out;
    }
    let targets = tree.named_children_of(target);
    let values = tree.named_children_of(value);
    proof {
        assert(positions(targets@).len() == targets@.len());
        assert(positions(values@).len() == values@.len());
    }
    if targets.len() != values.len() {
        return out;
    }
    let mut n: usize = 0;
    while n < targets.len()
        invariant
            n <= targets@.len(),
            targets@.len() == values@.len(),
            forall|k: int| 0 <= k < targets@.len() ==> (#[trigger] targets@[k]) < tree@.len(),
            forall|k: int| 0 <= k < values@.len() ==> (#[trigger] values@[k]) < tree@.len(),
            pair_positions(out@) == zipped(
                tree@,
                positions(targets@),
                positions(values@),
                n as int,
            ),
            forall|k: int|
                0 <= k < out@.len() ==> (#[trigger] out@[k]).0 < tree@.len() && out@[k].1
                    < tree@.len(),
        decreases targets@.len() - n,
    {
        let a: usize = targets[n];
        let b: usize = values[n];
        let ghost before = out@;
        proof {
            assert(positions(targets@)[n as int] == a);
            assert(positions(values@)[n as int] == b);
        }
        if tree.is_kind(a, "identifier") && tree.is_kind(b, "call") {
            out.push((a, b));
            assert(pair_positions(out@) =~= pair_positions(before).push((a as int, b as int)));
        }
        n += 1;
    }
    out
}

/// The pair alone, if it binds an identifier to a call.
pub open spec fn pair_if(t: Seq<NodeModel>, target: int, value: int) -> Seq<(int, int)> {
    if binds_call(t, target, value) {
        seq![(target, value)]
    } else {
        Seq::empty()
    }
}

/// What an assignment binds to calls.
pub open spec fn assignment_pairs(t: Seq<NodeModel>) -> spec_fn(int) -> Seq<(int, int)> {
    |a: int|
        match (child_by_field(t, a, "left"@), child_by_field(t, a, "right"@)) {
            (Some(target), Some(value)) => if t[target].kind == "identifier"@ {
                pair_if(t, target, value)
            } else {
                tuple_pairs(t, target, value)
            },
            _ => Seq::empty(),
        }
}

/// What an assignment expression, `name := call`, binds.
pub open spec fn named_pairs(t: Seq<NodeModel>) -> spec_fn(int) -> Seq<(int, int)> {
    |e: int|
        match (child_by_field(t, e, "name"@), child_by_field(t, e, "value"@)) {
            (Some(target), Some(value)) => pair_if(t, target, value),
            _ => Seq::empty(),
        }
}

/// The identifier that `as` binds.
pub open spec fn alias_target(t: Seq<NodeModel>, alias: int) -> Option<int> {
    if t[alias].kind == "identifier"@ {
        Some(alias)
    } else {
        named_child(t, alias)
    }
}

/// What a context manager, `with call as name`, binds.
pub open spec fn with_pairs(t: Seq<NodeModel>) -> spec_fn(int) -> Seq<(int, int)> {
    |item: int|
        match named_child(t, item) {
            Some(pattern) => if t[pattern].kind == "as_pattern"@ {
                match (named_child(t, pattern), child_by_field(t, pattern, "alias"@)) {
                    (Some(value), Some(alias)) => match alias_target(t, alias) {
                        Some(target) => pair_if(t, target, value),
                        None => Seq::empty(),
                    },
                    _ => Seq::empty(),
                }
            } else {
                Seq::empty()
            },
            None => Seq::empty(),
        }
}

/// Every binding of an identifier to a call in a body: by assignments, by assignment expressions,
/// by context managers.
pub open spec fn call_bindings(t: Seq<NodeModel>, body: int) -> Seq<(int, int)> {
    flat(descendants(t, body, "assignment"@), assignment_pairs(t)) + flat(
        descendants(t, body, "named_expression"@),
        named_pairs(t),
    ) + flat(descendants(t, body, "with_item"@), with_pairs(t))
}

fn single_pair(tree: &SyntaxTree, target: usize, value: usize) -> (r: Vec<(usize, usize)>)
    requires
        target < tree@.len(),
        value < tree@.len(),
    ensures
        pair_positions(r@) == pair_if(tree@, target as int, value as int),
        forall|n: int|
            0 <= n < r@.len() ==> (#[trigger] r@[n]).0 < tree@.len() && r@[n].1 < tree@.len(),
{
    let mut out: Vec<(usize, usize)> = Vec::new();
    if tree.is_kind(target, "identifier") && tree.is_kind(value, "call") {
        out.push((target, value));
    }
    assert(pair_positions(out@) =~= pair_if(tree@, target as int, value as int));
    out
}

fn no_pairs() -> (r: Vec<(usize, usize)>)
    ensures
        pair_positions(r@) == Seq::<(int, int)>::empty(),
        r@.len() == 0,
{
    let out: Vec<(usize, usize)> = Vec::new();
    assert(pair_positions(out@) =~= Seq::<(int, int)>::empty());
    out
}

fn pairs_of_assignment(tree: &SyntaxTree, a: usize) -> (r: Vec<(usize, usize)>)
    requires
        a < tree@.len(),
    ensures
        pair_positions(r@) == assignment_pairs(tree@)(a as int),
        forall|n: int|
            0 <= n < r@.len() ==> (#[trigger] r@[n]).0 < tree@.len() && r@[n].1 < tree@.len(),
{
    match (tree.child(a, "left"), tree.child(a, "right")) {
        (Some(target), Some(value)) => {
            if tree.is_kind(target, "identifier") {
                single_pair(tree, target, value)
            } else {
                zip_tuple_binding(tree, target, value)
            }
        },
        _ => no_pairs(),
    }
}

fn pairs_of_named(tree: &SyntaxTree, e: usize) -> (r: Vec<(usize, usize)>)
    requires
        e < tree@.len(),
    ensures
        pair_positions(r@) == named_pairs(tree@)(e as int),
        forall|n: int|
            0 <= n < r@.len() ==> (#[trigger] r@[n]).0 < tree@.len() && r@[n].1 < tree@.len(),
{
    match (tree.child(e, "name"), tree.child(e, "value")) {
        (Some(target), Some(value)) => single_pair(tree, target, value),
        _ => no_pairs(),
    }
}

fn pairs_of_with(tree: &SyntaxTree, item: usize) -> (r: Vec<(usize, usize)>)
    requires
        item < tree@.len(),
    ensures
        pair_positions(r@) == with_pairs(tree@)(item as int),
        forall|n: int|
            0 <= n < r@.len() ==> (#[trigger] r@[n]).0 < tree@.len() && r@[n].1 < tree@.len(),
{
    let pattern: usize = match tree.first_named_child(item) {
        Some(pattern) => pattern,
        None => {
            return no_pairs();
        },
    };
    if !tree.is_kind(pattern, "as_pattern") {
        return no_pairs();
    }
    match (tree.first_named_child(pattern), tree.child(pattern, "alias")) {
        (Some(value), Some(alias)) => {
            if tree.is_kind(alias, "identifier") {
                return single_pair(tree, alias, value);
            }
            match tree.first_named_child(alias) {
                Some(target) => single_pair(tree, target, value),
                None => no_pairs(),
            }
        },
        _ => no_pairs(),
    }
}

/// Adds what `f` finds at `items` to a list of bindings.
fn extend_pairs<F: Fn(usize) -> Vec<(usize, usize)>>(
    tree: &SyntaxTree,
    out: &mut Vec<(usize, usize)>,
    items: &Vec<usize>,
    Ghost(p): Ghost<spec_fn(int) -> Seq<(int, int)>>,
    f: F,
)
    requires
        forall|n: int| 0 <= n < items@.len() ==> f.requires((#[trigger] items@[n],)),
        forall|k: usize, v: Vec<(usize, usize)>|
            #[trigger] f.ensures((k,), v) ==> pair_positions(v@) == p(k as int) && forall|n: int|
                0 <= n < v@.len() ==> (#[trigger] v@[n]).0 < tree@.len() && v@[n].1 < tree@.len(),
        forall|n: int|
            0 <= n < old(out)@.len() ==> (#[trigger] old(out)@[n]).0 < tree@.len()
                && old(out)@[n].1 < tree@.len(),
    ensures
        pair_positions(final(out)@) == pair_positions(old(out)@) + flat(positions(items@), p),
        forall|n: int|
            0 <= n < final(out)@.len() ==> (#[trigger] final(out)@[n]).0 < tree@.len()
                && final(out)@[n].1 < tree@.len(),
{
    let ghost start = pair_positions(out@);
    let mut n: usize = 0;
    assert(start + flat(positions(items@).take(0), p) =~= start);
    while n < items.len()
        invariant
            n <= items@.len(),
            forall|n: int| 0 <= n < items@.len() ==> f.requires((#[trigger] items@[n],)),
            forall|k: usize, v: Vec<(usize, usize)>|
                #[trigger] f.ensures((k,), v) ==> pair_positions(v@) == p(k as int) && forall|
                    n: int,
                |
                    0 <= n < v@.len() ==> (#[trigger] v@[n]).0 < tree@.len() && v@[n].1
                        < tree@.len(),
            forall|k: int|
                0 <= k < out@.len() ==> (#[trigger] out@[k]).0 < tree@.len() && out@[k].1
                    < tree@.len(),
            pair_positions(out@) == start + flat(positions(items@).take(n as int), p),
        decreases items@.len() - n,
    {
        let mut more = f(items[n]);
        let ghost before = out@;
        let ghost added = more@;
        out.append(&mut more);
        proof {
            let part = positions(items@).take(n + 1);
            assert(part.drop_last() =~= positions(items@).take(n as int));
            assert(part.last() == items@[n as int]);
            assert(pair_positions(out@) =~= pair_positions(before) + pair_positions(added));
            assert(start + (flat(part.drop_last(), p) + p(part.last())) =~= (start + flat(
                part.drop_last(),
                p,
            )) + p(part.last()));
        }
        n += 1;
    }
    assert(positions(items@).take(n as int) =~= positions(items@));
}

/// Every binding of an identifier to a call in a body.
pub fn double_bindings(tree: &SyntaxTree, body: usize) -> (r: Vec<(usize, usize)>)
    requires
        body < tree@.len(),
    ensures
        pair_positions(r@) == call_bindings(tree@, body as int),
        forall|n: int|
            0 <= n < r@.len() ==> (#[trigger] r@[n]).0 < tree@.len() && r@[n].1 < tree@.len(),
{
    let mut out: Vec<(usize, usize)> = Vec::new();
    assert(pair_positions(out@) =~= Seq::<(int, int)>::empty());
    let assignments = tree.descendants_of(body, "assignment");
    let f = |k: usize| -> (v: Vec<(usize, usize)>)
        requires
            k < tree@.len(),
        ensures
            pair_positions(v@) == assignment_pairs(tree@)(k as int),
            forall|n: int|
                0 <= n < v@.len() ==> (#[trigger] v@[n]).0 < tree@.len() && v@[n].1 < tree@.len(),
        { pairs_of_assignment(tree, k) };
    extend_pairs(tree, &mut out, &assignments, Ghost(assignment_pairs(tree@)), f);
    let named = tree.descendants_of(body, "named_expression");
    let g = |k: usize| -> (v: Vec<(usize, usize)>)
        requires
            k < tree@.len(),
        ensures
            pair_positions(v@) == named_pairs(tree@)(k as int),
            forall|n: int|
                0 <= n < v@.len() ==> (#[trigger] v@[n]).0 < tree@.len() && v@[n].1 < tree@.len(),
        { pairs_of_named(tree, k) };
    extend_pairs(tree, &mut out, &named, Ghost(named_pairs(tree@)), g);
    let items = tree.descendants_of(body, "with_item");
    let h = |k: usize| -> (v: Vec<(usize, usize)>)
        requires
            k < tree@.len(),
        ensures
            pair_positions(v@) == with_pairs(tree@)(k as int),
            forall|n: int|
                0 <= n < v@.len() ==> (#[trigger] v@[n]).0 < tree@.len() && v@[n].1 < tree@.len(),
        { pairs_of_with(tree, k) };
    extend_pairs(tree, &mut out, &items, Ghost(with_pairs(tree@)), h);
    assert(pair_positions(out@) =~= call_bindings(tree@, body as int));
    out
}

/// `name` is, or lies under, one of the replaced names.
pub open spec fn shadowed_by(name: Seq<char>, shadowed: Set<Seq<char>>) -> bool {
    exists|s: Seq<char>| #[trigger] shadowed.contains(s) && at_or_under(name, s)
}

/// One of the replaced names is the module that starts processes, or lies under it.
pub open spec fn boundary_shadowed(shadowed: Set<Seq<char>>) -> bool {
    exists|s: Seq<char>| #[trigger] shadowed.contains(s) && at_or_under(s, SUBPROCESS_MODULE@)
}

/// Whether `name` is, or lies under, one of the replaced names.
pub fn is_shadowed(name: &str, shadowed: &NameSet) -> (r: bool)
    ensures
        r == shadowed_by(name@, shadowed@),
{
    let all = shadowed.members();
    let mut n: usize = 0;
    while n < all.len()
        invariant
            n <= all@.len(),
            views(all@).to_set() == shadowed@,
            forall|k: int| 0 <= k < n ==> !at_or_under(name@, (#[trigger] all@[k])@),
        decreases all@.len() - n,
    {
        if is_at_or_under(name, &all[n]) {
            assert(views(all@)[n as int] == all@[n as int]@);
            assert(views(all@).to_set().contains(all@[n as int]@));
            return true;
        }
        n += 1;
    }
    assert forall|s: Seq<char>| #[trigger] shadowed@.contains(s) implies !at_or_under(name@, s) by {
        assert(views(all@).contains(s));
        let k = choose|k: int| 0 <= k < views(all@).len() && views(all@)[k] == s;
        assert(all@[k]@ == s);
    }
    false
}

/// Whether the test replaced the module that starts processes, or a name under it.
pub fn subprocess_boundary_shadowed(shadowed: &NameSet) -> (r: bool)
    ensures
        r == boundary_shadowed(shadowed@),
{
    let all = shadowed.members();
    let mut n: usize = 0;
    while n < all.len()
        invariant
            n <= all@.len(),
            views(all@).to_set() == shadowed@,
            forall|k: int|
                0 <= k < n ==> !at_or_under((#[trigger] all@[k])@, SUBPROCESS_MODULE@),
        decreases all@.len() - n,
    {
        if is_subprocess_name(&all[n]) {
            assert(views(all@)[n as int] == all@[n as int]@);
            assert(views(all@).to_set().contains(all@[n as int]@));
            return true;
        }
        n += 1;
    }
    assert forall|s: Seq<char>| #[trigger] shadowed@.contains(s) implies !at_or_under(
        s,
        SUBPROCESS_MODULE@,
    ) by {
        assert(views(all@).contains(s));
        let k = choose|k: int| 0 <= k < views(all@).len() && views(all@)[k] == s;
        assert(all@[k]@ == s);
    }
    false
}

/// Whether the head of a chain is a replaced name.
pub fn head_is_shadowed(chain: &str, shadowed: &NameSet) -> (r: bool)
    ensures
        r == shadowed@.contains(head_of(chain@)),
{
    shadowed.contains(dotted_head(chain))
}

/// A call that yields a double: of a mock constructor, or of a replaced name.
pub open spec fn yields_double(
    t: Seq<NodeModel>,
    call: int,
    imports: ImportModel,
    shadowed: Set<Seq<char>>,
) -> bool {
    call_head(t, call) matches Some(c) && {
        ||| among(MOCK_CONSTRUCTORS@, last_segment(c))
        ||| shadowed.contains(head_of(c))
        ||| shadowed_by(canonical(c, imports), shadowed)
    }
}

/// Whether a call yields a double.
pub fn binds_a_double(
    tree: &SyntaxTree,
    call: usize,
    imports: &ImportMap,
    shadowed: &NameSet,
) -> (r: bool)
    requires
        call < tree@.len(),
    ensures
        r == yields_double(tree@, call as int, imports@, shadowed@),
{
    match call_head_chain(tree, call) {
        Some(c) => {
            chain_constructs_a_mock(&c) || head_is_shadowed(&c, shadowed) || is_shadowed(
                &canonicalize_called_name(&c, imports),
                shadowed,
            )
        },
        None => false,
    }
}

/// The replaced names after every local that is bound to a double counts as one itself, in the
/// order of the bindings.
pub open spec fn with_doubles(
    t: Seq<NodeModel>,
    pairs: Seq<(int, int)>,
    imports: ImportModel,
    names: Set<Seq<char>>,
) -> Set<Seq<char>>
    decreases pairs.len(),
{
    if pairs.len() == 0 {
        names
    } else {
        let before = with_doubles(t, pairs.drop_last(), imports, names);
        let (target, value) = pairs.last();
        match t[target].text {
            Some(s) => if yields_double(t, value, imports, before) {
                before.insert(s)
            } else {
                before
            },
            None => before,
        }
    }
}

/// The names that a test replaced with doubles: what its class replaced for it, its own
/// parameters, the targets of its decorators and of the patching calls in its body, and the
/// locals that it bound to doubles.
pub open spec fn shadows(
    t: Seq<NodeModel>,
    func: int,
    decorated: Option<int>,
    calls: Seq<int>,
    imports: ImportModel,
    class_shadows: Set<Seq<char>>,
) -> Set<Seq<char>> {
    let by_decorators = match decorated {
        Some(d) => decorator_targets(t, d, imports),
        None => Set::empty(),
    };
    let replaced = class_shadows.union(parameter_shadows(t, func)).union(by_decorators).union(
        call_targets(t, calls, imports),
    );
    match child_by_field(t, func, "body"@) {
        Some(body) => with_doubles(t, call_bindings(t, body), imports, replaced),
        None => replaced,
    }
}

/// The names that a test replaced with doubles.
pub fn shadowed_names(
    tree: &SyntaxTree,
    func: usize,
    decorated: Option<usize>,
    calls: &Vec<usize>,
    imports: &ImportMap,
    class_shadows: &NameSet,
) -> (r: NameSet)
    requires
        func < tree@.len(),
        decorated matches Some(d) ==> d < tree@.len(),
        forall|n: int| 0 <= n < calls@.len() ==> (#[trigger] calls@[n]) < tree@.len(),
    ensures
        r@ == shadows(
            tree@,
            func as int,
            position(decorated),
            positions(calls@),
            imports@,
            class_shadows@,
        ),
{
    let mut names = NameSet::new();
    names.insert_all(class_shadows);
    assert(names@ =~= class_shadows@);
    names.insert_all(&shadows_of_parameters(tree, func));
    match decorated {
        Some(d) => {
            names.insert_all(&decorator_patch_targets(tree, d, imports));
        },
        None => {
            assert(names@.union(Set::empty()) =~= names@);
        },
    }
    names.insert_all(&patch_call_targets(tree, calls, imports));
    let ghost replaced = names@;
    if let Some(body) = tree.child(func, "body") {
        let pairs = double_bindings(tree, body);
        let mut n: usize = 0;
        while n < pairs.len()
            invariant
                n <= pairs@.len(),
                forall|k: int|
                    0 <= k < pairs@.len() ==> (#[trigger] pairs@[k]).0 < tree@.len() && pairs@[k].1
                        < tree@.len(),
                names@ == with_doubles(
                    tree@,
                    pair_positions(pairs@).take(n as int),
                    imports@,
                    replaced,
                ),
            decreases pairs@.len() - n,
        {
            let (target, value) = pairs[n];
            proof {
                let part = pair_positions(pairs@).take(n + 1);
                assert(part.drop_last() =~= pair_positions(pairs@).take(n as int));
                assert(part.last() == (target as int, value as int));
            }
            if binds_a_double(tree, value, imports, &names) {
                if let Some(s) = tree.text_of(target) {
                    names.insert(s.clone());
                }
            }
            n += 1;
        }
        assert(pair_positions(pairs@).take(n as int) =~= pair_positions(pairs@));
    }
    names
}

/// Being a context manager that discards exceptions.
pub open spec fn suppress_test(t: Seq<NodeModel>, imports: ImportModel) -> spec_fn(int) -> bool {
    |item: int|
        t[item].kind == "with_item"@ && (match child_by_field(t, item, "value"@) {
            Some(value) => match called_value(t, value) {
                Some(call) => call_head(t, call) matches Some(c) && canonical(c, imports)
                    == SUPPRESS_CONTEXT_MANAGER@,
                None => false,
            },
            None => false,
        })
}

/// A `with` statement of which one context manager discards exceptions.
pub open spec fn suppresses(t: Seq<NodeModel>, with_stmt: int, imports: ImportModel) -> bool {
    match first_of_kind(t, children(t, with_stmt), "with_clause"@) {
        Some(clause) => named_children(t, clause).filter(suppress_test(t, imports)).len() > 0,
        None => false,
    }
}

/// Whether a `with` statement discards exceptions.
pub fn with_suppresses_errors(tree: &SyntaxTree, with_stmt: usize, imports: &ImportMap) -> (r: bool)
    requires
        with_stmt < tree@.len(),
    ensures
        r == suppresses(tree@, with_stmt as int, imports@),
{
    let all = tree.children_of(with_stmt);
    match find_kind(tree, &all, "with_clause") {
        Some(clause) => {
            let items = tree.named_children_of(clause);
            let test = |k: usize| -> (b: bool)
                requires
                    k < tree@.len(),
                ensures
                    b == suppress_test(tree@, imports@)(k as int),
                {
                    tree.is_kind(k, "with_item") && match tree.child(k, "value") {
                        Some(value) => match call_of_value(tree, value) {
                            Some(call) => match call_head_chain(tree, call) {
                                Some(c) => is_suppress_context_manager(
                                    &canonicalize_called_name(&c, imports),
                                ),
                                None => false,
                            },
                            None => false,
                        },
                        None => false,
                    }
                };
            let found = keep(&items, Ghost(suppress_test(tree@, imports@)), test);
            assert(positions(found@).len() == found@.len());
            found.len() > 0
        },
        None => false,
    }
}

/// Being an `except` clause.
pub open spec fn except_test(t: Seq<NodeModel>) -> spec_fn(int) -> bool {
    |k: int| t[k].kind == "except_clause"@ || t[k].kind == "except_group_clause"@
}

/// `child` is the guarded block of a `try` statement that catches something.
pub open spec fn guards(t: Seq<NodeModel>, try_stmt: int, child: int) -> bool {
    child_by_field(t, try_stmt, "body"@) == Some(child) && children(t, try_stmt).filter(
        except_test(t),
    ).len() > 0
}

/// Whether `child` is the guarded block of a `try` statement that catches something.
pub fn try_guards_child(tree: &SyntaxTree, try_stmt: usize, child: usize) -> (r: bool)
    requires
        try_stmt < tree@.len(),
    ensures
        r == guards(tree@, try_stmt as int, child as int),
{
    let is_body = match tree.child(try_stmt, "body") {
        Some(b) => b == child,
        None => false,
    };
    if !is_body {
        return false;
    }
    let all = tree.children_of(try_stmt);
    let test = |k: usize| -> (b: bool)
        requires
            k < tree@.len(),
        ensures
            b == except_test(tree@)(k as int),
        { tree.is_kind(k, "except_clause") || tree.is_kind(k, "except_group_clause") };
    let found = keep(&all, Ghost(except_test(tree@)), test);
    assert(positions(found@).len() == found@.len());
    found.len() > 0
}

/// A node that may not run, or whose failure is swallowed, seen from its child at `child`: a
/// nested function, a generator, an `except` clause, a guarded block, a suppressing context.
pub open spec fn disarms(t: Seq<NodeModel>, p: int, child: int, imports: ImportModel) -> bool {
    ||| t[p].kind == "function_definition"@
    ||| t[p].kind == "lambda"@
    ||| t[p].kind == "generator_expression"@
    ||| t[p].kind == "except_clause"@
    ||| t[p].kind == "try_statement"@ && guards(t, p, child)
    ||| t[p].kind == "with_statement"@ && suppresses(t, p, imports)
}

/// Between `node` and `body` stands something that may keep a failure at `node` from the test.
pub open spec fn unreliable(t: Seq<NodeModel>, node: int, body: int, imports: ImportModel) -> bool
    decreases node,
{
    match parent(t, node) {
        Some(p) => if p == body || !(0 <= p < node) {
            false
        } else {
            disarms(t, p, node, imports) || unreliable(t, p, body, imports)
        },
        None => false,
    }
}

/// Whether something may keep a failure of `call` from the test. Without a body nothing does.
pub fn verification_is_unreliable(
    tree: &SyntaxTree,
    call: usize,
    body: Option<usize>,
    imports: &ImportMap,
) -> (r: bool)
    requires
        call < tree@.len(),
    ensures
        r == (match body {
            Some(b) => unreliable(tree@, call as int, b as int, imports@),
            None => false,
        }),
{
    let stop: usize = match body {
        Some(b) => b,
        None => {
            return false;
        },
    };
    let mut current: usize = call;
    loop
        invariant
            current < tree@.len(),
            body == Some(stop),
            unreliable(tree@, current as int, stop as int, imports@) == unreliable(
                tree@,
                call as int,
                stop as int,
                imports@,
            ),
        decreases current,
    {
        let p: usize = match tree.parent_of(current) {
            Some(p) => p,
            None => {
                return false;
            },
        };
        if p == stop {
            return false;
        }
        if tree.is_kind(p, "function_definition") || tree.is_kind(p, "lambda") || tree.is_kind(
            p,
            "generator_expression",
        ) || tree.is_kind(p, "except_clause") {
            return true;
        }
        if tree.is_kind(p, "try_statement") && try_guards_child(tree, p, current) {
            return true;
        }
        if tree.is_kind(p, "with_statement") && with_suppresses_errors(tree, p, imports) {
            return true;
        }
        current = p;
    }
}

/// Being a call that checks the outcome of a child process: its failure reaches the test, its
/// head is no double, and it is a return-code check while the process boundary is real, or a
/// helper that raises, itself not replaced.
pub open spec fn verification_test(
    t: Seq<NodeModel>,
    body: Option<int>,
    imports: ImportModel,
    shadowed: Set<Seq<char>>,
) -> spec_fn(int) -> bool {
    |call: int|
        match call_head(t, call) {
            Some(c) => {
                &&& !(body matches Some(b) && unreliable(t, call, b, imports))
                &&& !shadowed.contains(head_of(c))
                &&& if returncode_check(c) {
                    !boundary_shadowed(shadowed)
                } else {
                    let full = canonical(c, imports);
                    !shadowed_by(full, shadowed) && (among(CHECKED_SUBPROCESS_CALLS@, full) || (
                    among(CHECKABLE_SUBPROCESS_CALLS@, full) && passes_check_true(t, call)))
                }
            },
            None => false,
        }
}

fn call_verifies(
    tree: &SyntaxTree,
    call: usize,
    body: Option<usize>,
    imports: &ImportMap,
    shadowed: &NameSet,
) -> (r: bool)
    requires
        call < tree@.len(),
    ensures
        r == verification_test(tree@, position(body), imports@, shadowed@)(call as int),
{
    let c = match call_head_chain(tree, call) {
        Some(c) => c,
        None => {
            return false;
        },
    };
    if verification_is_unreliable(tree, call, body, imports) || head_is_shadowed(&c, shadowed) {
        return false;
    }
    if is_returncode_check(&c) {
        return !subprocess_boundary_shadowed(shadowed);
    }
    let full = canonicalize_called_name(&c, imports);
    if is_shadowed(&full, shadowed) {
        return false;
    }
    is_checked_subprocess_call(&full) || (is_checkable_subprocess_call(&full)
        && call_passes_check_true(tree, call))
}

/// The calls among `calls` that check the outcome of a child process, in the order of the source.
pub fn external_verification_sites(
    tree: &SyntaxTree,
    calls: &Vec<usize>,
    body: Option<usize>,
    imports: &ImportMap,
    shadowed: &NameSet,
) -> (r: Vec<usize>)
    requires
        forall|n: int| 0 <= n < calls@.len() ==> (#[trigger] calls@[n]) < tree@.len(),
    ensures
        positions(r@) == positions(calls@).filter(
            verification_test(tree@, position(body), imports@, shadowed@),
        ),
        forall|n: int| 0 <= n < r@.len() ==> (#[trigger] r@[n]) < tree@.len(),
{
    let ghost p = verification_test(tree@, position(body), imports@, shadowed@);
    let test = |k: usize| -> (b: bool)
        requires
            k < tree@.len(),
        ensures
            b == verification_test(tree@, position(body), imports@, shadowed@)(k as int),
        { call_verifies(tree, k, body, imports, shadowed) };
    let found = keep(calls, Ghost(p), test);
    assert forall|n: int| 0 <= n < found@.len() implies (#[trigger] found@[n]) < tree@.len() by {
        assert(calls@.contains(found@[n]));
    }
    found
}

} // verus!
