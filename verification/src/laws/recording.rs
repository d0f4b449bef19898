//! What holds of the records of tests.
use vstd::prelude::*;
use vstd::seq_lib::*;

use crate::accept::fingerprint_of;
use crate::doubles::{shadows, verification_test};
use crate::expressions::{
    asserts_on_mock, call_head, decorators, mock_construction, patch_decorator, raises_block,
    unittest_assert,
};
use crate::laws::trees::{
    children_stand_directly_under, descendants_are_what_stands_there,
    fields_lead_to_the_first_child, increasing, is_child, stands_in,
};
use crate::mock_api::{among, STUB_HEADS};
use crate::parser::{
    called_set, construction_test, in_body, least_row, mock_assert_test, patch_test, raises_test,
    record_of, stub_test, unittest_test, ClassModel, FileContext,
};
use crate::properties::{finite_sets_can_be_ordered, lemma_called_set_finite};
use crate::syntax::{child_by_field, children, descendants, kind_test, named_children, NodeModel};
use crate::text::{is_prefix, sorted_of};

verus! {

/// The nodes of a kind in a body at which `p` holds.
pub open spec fn nodes_in(
    t: Seq<NodeModel>,
    body: Option<int>,
    kind: Seq<char>,
    p: spec_fn(int) -> bool,
) -> Set<int> {
    Set::new(
        |k: int| body matches Some(b) && stands_in(t, b, k) && t[k].kind == kind && p(k),
    )
}

/// A count, or the largest one that the machine can hold.
pub open spec fn held(n: nat) -> u64 {
    if n <= u64::MAX {
        n as u64
    } else {
        u64::MAX
    }
}

/// Node `k` calls `self.assert` or `self.assert` with a name behind it that begins with a capital.
pub open spec fn calls_assertion_method(t: Seq<NodeModel>, k: int) -> bool {
    call_head(t, k) matches Some(h) && is_prefix("self.assert"@, h) && (h.len() == 11 || 'A'
        <= h[11] <= 'Z')
}

/// The body of a function.
pub open spec fn body_of(t: Seq<NodeModel>, func: int) -> Option<int> {
    child_by_field(t, func, "body"@)
}

/// The `assert` statements of a test.
pub open spec fn assert_statements(t: Seq<NodeModel>, func: int) -> Set<int> {
    nodes_in(t, body_of(t, func), "assert_statement"@, |k: int| true)
}

/// The blocks of a test that expect an exception.
pub open spec fn raises_blocks(t: Seq<NodeModel>, func: int) -> Set<int> {
    nodes_in(t, body_of(t, func), "with_statement"@, |k: int| raises_block(t, k))
}

/// The calls of assertion methods of a test; none outside a class.
pub open spec fn assertion_methods(t: Seq<NodeModel>, func: int, in_class: bool) -> Set<int> {
    nodes_in(t, body_of(t, func), "call"@, |k: int| in_class && calls_assertion_method(t, k))
}

/// The calls of a test.
pub open spec fn calls_of(t: Seq<NodeModel>, func: int) -> Set<int> {
    nodes_in(t, body_of(t, func), "call"@, |k: int| true)
}

/// Everything by which a test asserts.
pub open spec fn assertions_of(t: Seq<NodeModel>, func: int, in_class: bool) -> Set<int> {
    assert_statements(t, func).union(raises_blocks(t, func)).union(
        assertion_methods(t, func, in_class),
    )
}

proof fn lemma_filter_increasing(s: Seq<int>, p: spec_fn(int) -> bool)
    requires
        increasing(s),
    ensures
        increasing(s.filter(p)),
        s.filter(p).no_duplicates(),
        forall|k: int| #[trigger] s.filter(p).contains(k) == (s.contains(k) && p(k)),
    decreases s.len(),
{
    broadcast use group_filter_ensures;

    reveal(Seq::filter);
    if s.len() > 0 {
        let front = s.drop_last();
        assert(increasing(front));
        lemma_filter_increasing(front, p);
        let kept = front.filter(p);
        assert forall|i: int| 0 <= i < kept.len() implies #[trigger] kept[i] < s.last() by {
            assert(kept.contains(kept[i]));
            assert(front.contains(kept[i]));
            let k = choose|k: int| 0 <= k < front.len() && front[k] == kept[i];
            assert(s[k] == kept[i]);
            assert(s[s.len() - 1] == s.last());
        }
    }
    assert forall|k: int| #[trigger] s.filter(p).contains(k) == (s.contains(k) && p(k)) by {
        if s.filter(p).contains(k) {
            s.lemma_filter_contains_rev(p, k);
            let n = choose|n: int| 0 <= n < s.filter(p).len() && s.filter(p)[n] == k;
            assert(p(s.filter(p)[n]));
        }
    }
}

/// A list of the nodes of a kind at which `p` holds has so many entries as there are such nodes.
proof fn lemma_count(t: Seq<NodeModel>, body: Option<int>, kind: Seq<char>, p: spec_fn(int) -> bool)
    requires
        body matches Some(b) ==> 0 <= b < t.len(),
    ensures
        ({
            let list = match body {
                Some(b) => descendants(t, b, kind).filter(p),
                None => Seq::<int>::empty(),
            };
            &&& list.len() == nodes_in(t, body, kind, p).len()
            &&& list.to_set() == nodes_in(t, body, kind, p)
            &&& forall|k: int| #[trigger] list.contains(k) == nodes_in(t, body, kind, p).contains(k)
            &&& increasing(list)
        }),
{
    let all = nodes_in(t, body, kind, p);
    match body {
        Some(b) => {
            let list = descendants(t, b, kind).filter(p);
            descendants_are_what_stands_there(t, b, kind);
            lemma_filter_increasing(descendants(t, b, kind), p);
            assert(list.to_set() =~= all);
            list.unique_seq_to_set();
        },
        None => {
            assert(Seq::<int>::empty().to_set() =~= all);
            Seq::<int>::empty().unique_seq_to_set();
        },
    }
}

proof fn lemma_body(t: Seq<NodeModel>, func: int)
    requires
        0 <= func < t.len(),
    ensures
        body_of(t, func) matches Some(b) ==> 0 <= b < t.len(),
{
    fields_lead_to_the_first_child(t, func, "body"@);
}

proof fn lemma_all(s: Seq<int>)
    ensures
        s.filter(|k: int| true) == s,
    decreases s.len(),
{
    reveal(Seq::filter);
    if s.len() > 0 {
        lemma_all(s.drop_last());
        assert(s.drop_last().push(s.last()) =~= s);
    } else {
        assert(s.filter(|k: int| true) =~= s);
    }
}

proof fn lemma_method(t: Seq<NodeModel>, k: int)
    ensures
        unittest_assert(t, k) == calls_assertion_method(t, k),
{
    reveal_strlit("self.");
    reveal_strlit("assert");
    reveal_strlit("self.assert");
    if let Some(h) = call_head(t, k) {
        if calls_assertion_method(t, k) {
            assert forall|i: int| 0 <= i < 11 implies h[i] == "self.assert"@[i] by {
                assert(h.subrange(0, 11)[i] == h[i]);
            }
            assert(h.subrange(0, 5) =~= "self."@);
            assert(h.subrange(5, h.len() as int).subrange(0, 6) =~= "assert"@);
        }
        if unittest_assert(t, k) {
            let m = h.subrange(5, h.len() as int);
            assert forall|i: int| 0 <= i < 5 implies h[i] == "self."@[i] by {
                assert(h.subrange(0, 5)[i] == h[i]);
            }
            assert forall|i: int| 0 <= i < 6 implies #[trigger] m[i] == "assert"@[i] by {
                assert(m.subrange(0, 6)[i] == m[i]);
            }
            assert forall|i: int| 0 <= i < 11 implies h[i] == "self.assert"@[i] by {
                if i >= 5 {
                    assert(h[i] == m[i - 5]);
                }
            }
            assert(h.subrange(0, 11) =~= "self.assert"@);
        }
    }
}

/// The lists that a record is made of: assertions of the three sorts.
proof fn lemma_assertion_lists(t: Seq<NodeModel>, func: int, in_class: bool)
    requires
        0 <= func < t.len(),
    ensures
        ({
            let body = body_of(t, func);
            let asserts = in_body(t, body, "assert_statement"@);
            let calls = in_body(t, body, "call"@);
            let raises = in_body(t, body, "with_statement"@).filter(raises_test(t));
            let methods = if in_class {
                calls.filter(unittest_test(t))
            } else {
                Seq::empty()
            };
            &&& asserts.len() == assert_statements(t, func).len()
            &&& raises.len() == raises_blocks(t, func).len()
            &&& methods.len() == assertion_methods(t, func, in_class).len()
            &&& asserts.to_set() == assert_statements(t, func)
            &&& raises.to_set() == raises_blocks(t, func)
            &&& methods.to_set() == assertion_methods(t, func, in_class)
        }),
{
    let body = body_of(t, func);
    lemma_body(t, func);
    let asserts = in_body(t, body, "assert_statement"@);
    let calls = in_body(t, body, "call"@);
    let withs = in_body(t, body, "with_statement"@);
    lemma_count(t, body, "assert_statement"@, |k: int| true);
    lemma_all(asserts);
    lemma_count(t, body, "with_statement"@, raises_test(t));
    lemma_count(t, body, "call"@, unittest_test(t));
    assert(nodes_in(t, body, "with_statement"@, raises_test(t)) =~= raises_blocks(t, func));
    reveal(Seq::filter);
    assert(withs.len() == 0 ==> withs.filter(raises_test(t)).len() == 0);
    if in_class {
        assert forall|k: int| nodes_in(t, body, "call"@, unittest_test(t)).contains(k)
            == assertion_methods(t, func, in_class).contains(k) by {
            lemma_method(t, k);
        }
        assert(nodes_in(t, body, "call"@, unittest_test(t)) =~= assertion_methods(
            t,
            func,
            in_class,
        ));
    } else {
        assert(assertion_methods(t, func, in_class) =~= Set::<int>::empty());
        Seq::<int>::empty().unique_seq_to_set();
        assert(Seq::<int>::empty().to_set() =~= Set::<int>::empty());
    }
    assert(body is None ==> withs.filter(raises_test(t)) =~= Seq::<int>::empty());
    assert(body is None ==> calls.filter(unittest_test(t)) =~= Seq::<int>::empty());
}

/// A test has so many assertions as there are `assert` statements, blocks that expect an exception
/// and, in a class, calls of assertion methods in its body, at whatever depth.
pub proof fn every_assertion_is_counted(
    t: Seq<NodeModel>,
    func: int,
    decorated: Option<int>,
    name: Seq<char>,
    class: ClassModel,
    context: FileContext,
)
    requires
        0 <= func < t.len(),
    ensures
        record_of(t, func, decorated, name, class, context).0.assertion_count == held(
            assert_statements(t, func).len() + raises_blocks(t, func).len() + assertion_methods(
                t,
                func,
                class.name is Some,
            ).len(),
        ),
{
    lemma_assertion_lists(t, func, class.name is Some);
}

/// A test asserts on mocks alone exactly where it has an `assert` statement, each of them, wherever
/// it stands in the body, is about a mock, and it asserts in no other way.
pub proof fn mock_only_tests_assert_on_nothing_else(
    t: Seq<NodeModel>,
    func: int,
    decorated: Option<int>,
    name: Seq<char>,
    class: ClassModel,
    context: FileContext,
)
    requires
        0 <= func < t.len(),
    ensures
        record_of(t, func, decorated, name, class, context).0.only_asserts_on_mock <==> {
            &&& exists|k: int| #[trigger] assert_statements(t, func).contains(k)
            &&& forall|k: int| #[trigger] assert_statements(t, func).contains(k) ==> asserts_on_mock(t, k)
            &&& forall|k: int| !#[trigger] raises_blocks(t, func).contains(k)
            &&& forall|k: int| !#[trigger] assertion_methods(t, func, class.name is Some).contains(k)
        },
{
    let in_class = class.name is Some;
    lemma_assertion_lists(t, func, in_class);
    let body = body_of(t, func);
    let asserts = in_body(t, body, "assert_statement"@);
    let raises = in_body(t, body, "with_statement"@).filter(raises_test(t));
    let methods = if in_class {
        in_body(t, body, "call"@).filter(unittest_test(t))
    } else {
        Seq::empty()
    };
    lemma_empty_lists(asserts);
    lemma_empty_lists(raises);
    lemma_empty_lists(methods);
    assert forall|k: int| #[trigger] assert_statements(t, func).contains(k) == asserts.contains(k) by {
        assert(asserts.to_set().contains(k) == asserts.contains(k));
    }
    assert forall|k: int| #[trigger] raises_blocks(t, func).contains(k) == raises.contains(k) by {
        assert(raises.to_set().contains(k) == raises.contains(k));
    }
    assert forall|k: int| #[trigger] assertion_methods(t, func, in_class).contains(k)
        == methods.contains(k) by {
        assert(methods.to_set().contains(k) == methods.contains(k));
    }
    let p = mock_assert_test(t);
    lemma_all_pass(asserts, p);
    if asserts.len() > 0 {
        assert(asserts.contains(asserts[0]));
        assert(assert_statements(t, func).contains(asserts[0]));
    }
    let flag = record_of(t, func, decorated, name, class, context).0.only_asserts_on_mock;
    assert(flag == (asserts.len() > 0 && raises.len() == 0 && methods.len() == 0
        && asserts.filter(p).len() == asserts.len()));
    assert((forall|k: int| #[trigger] asserts.contains(k) ==> p(k)) <==> (forall|k: int|
        #[trigger] assert_statements(t, func).contains(k) ==> asserts_on_mock(t, k))) by {
        assert forall|k: int| #[trigger] p(k) == asserts_on_mock(t, k) by {}
        if forall|k: int| #[trigger] asserts.contains(k) ==> p(k) {
            assert forall|k: int| #[trigger] assert_statements(t, func).contains(k) implies asserts_on_mock(
                t,
                k,
            ) by {
                assert(asserts.contains(k));
                assert(p(k));
            }
        }
        if forall|k: int| #[trigger] assert_statements(t, func).contains(k) ==> asserts_on_mock(t, k) {
            assert forall|k: int| #[trigger] asserts.contains(k) implies p(k) by {
                assert(assert_statements(t, func).contains(k));
            }
        }
    }
    assert(raises.len() == 0 <==> (forall|k: int| !#[trigger] raises_blocks(t, func).contains(k)))
        by {
        if raises.len() > 0 {
            assert(raises.contains(raises[0]));
            assert(raises_blocks(t, func).contains(raises[0]));
        }
    }
    assert(methods.len() == 0 <==> (forall|k: int|
        !#[trigger] assertion_methods(t, func, in_class).contains(k))) by {
        if methods.len() > 0 {
            assert(methods.contains(methods[0]));
            assert(assertion_methods(t, func, in_class).contains(methods[0]));
        }
    }
}

proof fn lemma_empty_lists(s: Seq<int>)
    ensures
        s.len() == 0 <==> (forall|k: int| !#[trigger] s.contains(k)),
{
    if s.len() > 0 {
        assert(s.contains(s[0]));
    }
}

/// A filter keeps everything exactly where everything passes.
proof fn lemma_all_pass(s: Seq<int>, p: spec_fn(int) -> bool)
    ensures
        s.filter(p).len() <= s.len(),
        s.filter(p).len() == s.len() <==> (forall|k: int| #[trigger] s.contains(k) ==> p(k)),
    decreases s.len(),
{
    reveal(Seq::filter);
    if s.len() > 0 {
        let front = s.drop_last();
        lemma_all_pass(front, p);
        assert(s.contains(s[s.len() - 1]));
        assert forall|k: int| #[trigger] front.contains(k) implies s.contains(k) by {
            let n = choose|n: int| 0 <= n < front.len() && front[n] == k;
            assert(s[n] == k);
        }
        assert forall|k: int| #[trigger] s.contains(k) implies (front.contains(k) || k == s.last()) by {
            let n = choose|n: int| 0 <= n < s.len() && s[n] == k;
            if n < front.len() {
                assert(front[n] == k);
            }
        }
    }
}

/// A test counts the decorators on it that patch something, the calls in its body by which a
/// fixture rewires the system, those that construct a mock, and those that check a child process.
pub proof fn patches_stubs_mocks_and_checks_are_counted(
    t: Seq<NodeModel>,
    func: int,
    decorated: Option<int>,
    name: Seq<char>,
    class: ClassModel,
    context: FileContext,
)
    requires
        0 <= func < t.len(),
        decorated matches Some(d) ==> 0 <= d < t.len(),
    ensures
        record_of(t, func, decorated, name, class, context).0.patch_decorator_count == held(
            Set::new(
                |k: int|
                    decorated matches Some(d) && is_child(t, d, k) && t[k].kind == "decorator"@
                        && patch_decorator(t, k),
            ).len(),
        ),
        record_of(t, func, decorated, name, class, context).0.stubs_count == held(
            nodes_in(
                t,
                body_of(t, func),
                "call"@,
                |k: int| call_head(t, k) matches Some(h) && among(STUB_HEADS@, h),
            ).len(),
        ),
        record_of(t, func, decorated, name, class, context).1 == held(
            nodes_in(t, body_of(t, func), "call"@, |k: int| mock_construction(t, k)).len(),
        ),
        record_of(t, func, decorated, name, class, context).0.external_verification_count == held(
            nodes_in(
                t,
                body_of(t, func),
                "call"@,
                verification_test(
                    t,
                    body_of(t, func),
                    context.imports,
                    shadows(
                        t,
                        func,
                        decorated,
                        in_body(t, body_of(t, func), "call"@),
                        context.imports,
                        class.shadows,
                    ),
                ),
            ).len(),
        ),
{
    reveal(Seq::filter);
    let body = body_of(t, func);
    lemma_body(t, func);
    let calls = in_body(t, body, "call"@);
    let checks = verification_test(
        t,
        body,
        context.imports,
        shadows(t, func, decorated, calls, context.imports, class.shadows),
    );
    lemma_count(t, body, "call"@, stub_test(t));
    lemma_count(t, body, "call"@, construction_test(t));
    lemma_count(t, body, "call"@, checks);
    assert(nodes_in(t, body, "call"@, stub_test(t)) =~= nodes_in(
        t,
        body,
        "call"@,
        |k: int| call_head(t, k) matches Some(h) && among(STUB_HEADS@, h),
    ));
    assert(nodes_in(t, body, "call"@, construction_test(t)) =~= nodes_in(
        t,
        body,
        "call"@,
        |k: int| mock_construction(t, k),
    ));
    if body is None {
        assert(calls.filter(stub_test(t)) =~= Seq::<int>::empty());
        assert(calls.filter(construction_test(t)) =~= Seq::<int>::empty());
        assert(calls.filter(checks) =~= Seq::<int>::empty());
    }
    let on = Set::new(
        |k: int|
            decorated matches Some(d) && is_child(t, d, k) && t[k].kind == "decorator"@
                && patch_decorator(t, k),
    );
    match decorated {
        Some(d) => {
            let kind = kind_test(t, "decorator"@);
            children_stand_directly_under(t, d);
            lemma_filter_increasing(children(t, d), kind);
            lemma_filter_increasing(decorators(t, d), patch_test(t));
            let list = decorators(t, d).filter(patch_test(t));
            assert(list.to_set() =~= on);
            list.unique_seq_to_set();
        },
        None => {
            assert(on =~= Set::<int>::empty());
        },
    }
}

/// A record says where its test stands: the line of the `def`, counted from one; its file; and an
/// identity made of the file, the class if there is one, and the name. Its fingerprint is that of
/// the source of the function with its decorators.
pub proof fn records_say_where_a_test_stands(
    t: Seq<NodeModel>,
    func: int,
    decorated: Option<int>,
    name: Seq<char>,
    class: ClassModel,
    context: FileContext,
)
    ensures
        record_of(t, func, decorated, name, class, context).0.line == held(t[func].row + 1),
        record_of(t, func, decorated, name, class, context).0.file == context.file,
        class.name is None ==> record_of(t, func, decorated, name, class, context).0.nodeid
            == context.file + "::"@ + name,
        class.name matches Some(c) ==> record_of(
            t,
            func,
            decorated,
            name,
            class,
            context,
        ).0.nodeid == context.file + "::"@ + c + "::"@ + name,
        decorated is None ==> (t[func].text matches Some(s) ==> record_of(
            t,
            func,
            decorated,
            name,
            class,
            context,
        ).0.fingerprint == Some(fingerprint_of(s))),
        decorated matches Some(d) ==> (t[d].text matches Some(s) ==> record_of(
            t,
            func,
            decorated,
            name,
            class,
            context,
        ).0.fingerprint == Some(fingerprint_of(s))),
{
}

/// How many lines `row` lies below `from`.
pub open spec fn lines_down(row: nat, from: nat) -> nat {
    if row > from {
        (row - from) as nat
    } else {
        0
    }
}

proof fn lemma_least(t: Seq<NodeModel>, items: Seq<int>, row: nat)
    ensures
        least_row(t, items, row) <= row,
        forall|n: int| 0 <= n < items.len() ==> least_row(t, items, row) <= t[#[trigger] items[n]].row,
        least_row(t, items, row) == row || exists|n: int|
            0 <= n < items.len() && t[#[trigger] items[n]].row == least_row(t, items, row),
    decreases items.len(),
{
    if items.len() > 0 {
        let front = items.drop_last();
        lemma_least(t, front, row);
        let least = least_row(t, items, row);
        assert forall|n: int| 0 <= n < items.len() implies least <= t[#[trigger] items[n]].row by {
            if n < front.len() {
                assert(front[n] == items[n]);
            }
        }
        if least != row {
            if least == t[items.last()].row {
                assert(t[items[items.len() - 1]].row == least);
            } else {
                let n = choose|n: int| 0 <= n < front.len() && t[#[trigger] front[n]].row == least;
                assert(t[items[n]].row == least);
            }
        }
    }
}

/// The lines of setup of a test that asserts are those from its `def` down to the first of its
/// assertions, whichever of them stands first, shared out among all of them.
pub proof fn setup_reaches_down_to_the_first_assertion(
    t: Seq<NodeModel>,
    func: int,
    decorated: Option<int>,
    name: Seq<char>,
    class: ClassModel,
    context: FileContext,
)
    requires
        0 <= func < t.len(),
        forall|k: int| 0 <= k < t.len() ==> (#[trigger] t[k]).row <= u64::MAX,
        exists|k: int| #[trigger] assertions_of(t, func, class.name is Some).contains(k),
    ensures
        ({
            let record = record_of(t, func, decorated, name, class, context).0;
            let all = assertions_of(t, func, class.name is Some);
            &&& record.setup_to_assertion_ratio.assertions == record.assertion_count
            &&& forall|k: int| #[trigger] all.contains(k) ==> record.setup_to_assertion_ratio.lines
                <= lines_down(t[k].row, t[func].row)
            &&& exists|k: int| #[trigger] all.contains(k) && record.setup_to_assertion_ratio.lines
                == lines_down(t[k].row, t[func].row)
        }),
{
    let in_class = class.name is Some;
    let body = body_of(t, func);
    let all = assertions_of(t, func, in_class);
    lemma_assertion_lists(t, func, in_class);
    let asserts = in_body(t, body, "assert_statement"@);
    let raises = in_body(t, body, "with_statement"@).filter(raises_test(t));
    let methods = if in_class {
        in_body(t, body, "call"@).filter(unittest_test(t))
    } else {
        Seq::empty()
    };
    let list = asserts + raises + methods;
    assert forall|k: int| #[trigger] all.contains(k) == list.contains(k) by {
        assert(asserts.to_set().contains(k) == asserts.contains(k));
        assert(raises.to_set().contains(k) == raises.contains(k));
        assert(methods.to_set().contains(k) == methods.contains(k));
        lemma_three(asserts, raises, methods, k);
    }
    let some = choose|k: int| #[trigger] all.contains(k);
    assert(list.contains(some));
    assert(list.len() > 0);
    let first = t[list[0]].row;
    lemma_least(t, list, first);
    let least = least_row(t, list, first);
    assert forall|k: int| #[trigger] all.contains(k) implies 0 <= k < t.len() by {
        lemma_body(t, func);
    }
    let record = record_of(t, func, decorated, name, class, context).0;
    assert(list.contains(list[0]));
    assert(all.contains(list[0]));
    let at = if least == first {
        list[0]
    } else {
        list[choose|n: int| 0 <= n < list.len() && t[#[trigger] list[n]].row == least]
    };
    assert(list.contains(at));
    assert(all.contains(at));
    assert(t[at].row == least);
    assert forall|k: int| #[trigger] all.contains(k) implies record.setup_to_assertion_ratio.lines
        <= lines_down(t[k].row, t[func].row) by {
        assert(list.contains(k));
        let n = choose|n: int| 0 <= n < list.len() && list[n] == k;
        assert(least <= t[list[n]].row);
    }
    assert(record.setup_to_assertion_ratio.lines == lines_down(t[at].row, t[func].row));
}

proof fn lemma_three(a: Seq<int>, b: Seq<int>, c: Seq<int>, k: int)
    ensures
        (a + b + c).contains(k) == (a.contains(k) || b.contains(k) || c.contains(k)),
{
    let all = a + b + c;
    if a.contains(k) {
        let n = choose|n: int| 0 <= n < a.len() && a[n] == k;
        assert(all[n] == k);
    }
    if b.contains(k) {
        let n = choose|n: int| 0 <= n < b.len() && b[n] == k;
        assert(all[a.len() + n] == k);
    }
    if c.contains(k) {
        let n = choose|n: int| 0 <= n < c.len() && c[n] == k;
        assert(all[a.len() + b.len() + n] == k);
    }
    if all.contains(k) {
        let n = choose|n: int| 0 <= n < all.len() && all[n] == k;
        if n < a.len() {
            assert(a[n] == k);
        } else if n < a.len() + b.len() {
            assert(b[n - a.len()] == k);
        } else {
            assert(c[n - a.len() - b.len()] == k);
        }
    }
}

/// A test that neither asserts nor checks a child process is all setup: down to the last statement
/// of its body.
pub proof fn setup_of_an_idle_test_is_its_height(
    t: Seq<NodeModel>,
    func: int,
    decorated: Option<int>,
    name: Seq<char>,
    class: ClassModel,
    context: FileContext,
    body: int,
    last: int,
)
    requires
        0 <= func < t.len(),
        forall|k: int| 0 <= k < t.len() ==> (#[trigger] t[k]).row <= u64::MAX,
        record_of(t, func, decorated, name, class, context).0.assertion_count == 0,
        record_of(t, func, decorated, name, class, context).0.external_verification_count == 0,
        body_of(t, func) == Some(body),
        is_child(t, body, last),
        t[last].named,
        forall|k: int| #[trigger] is_child(t, body, k) && t[k].named ==> k <= last,
    ensures
        record_of(t, func, decorated, name, class, context).0.setup_to_assertion_ratio.lines
            == lines_down(t[last].row, t[func].row),
        record_of(t, func, decorated, name, class, context).0.setup_to_assertion_ratio.assertions
            == 1,
{
    lemma_body(t, func);
    children_stand_directly_under(t, body);
    let named = named_children(t, body);
    assert(named.contains(last));
    let n = choose|n: int| 0 <= n < named.len() && named[n] == last;
    assert(named.contains(named[named.len() - 1]));
    if n < named.len() - 1 {
        assert(named[n] < named[named.len() - 1]);
    }
    assert(named.last() == last);
}

/// The names that a test calls are those of the calls in its body, but for what is called on
/// `self`.
pub proof fn called_names_are_those_of_the_body(
    t: Seq<NodeModel>,
    func: int,
    decorated: Option<int>,
    name: Seq<char>,
    class: ClassModel,
    context: FileContext,
    called: Seq<char>,
)
    requires
        0 <= func < t.len(),
    ensures
        record_of(t, func, decorated, name, class, context).0.called_names.contains(called) <==> {
            &&& called != "self"@ && !is_prefix("self."@, called)
            &&& exists|k: int|
                #[trigger] calls_of(t, func).contains(k) && call_head(t, k) == Some(called)
        },
{
    let body = body_of(t, func);
    lemma_body(t, func);
    let calls = in_body(t, body, "call"@);
    let all = calls_of(t, func);
    lemma_count(t, body, "call"@, |k: int| true);
    lemma_all(calls);
    assert forall|k: int| #[trigger] all.contains(k) == calls.contains(k) by {
        if body is None {
            assert(!calls.contains(k));
        }
    }
    lemma_called_set_finite(t, calls);
    finite_sets_can_be_ordered(called_set(t, calls));
    let listed = sorted_of(called_set(t, calls));
    assert(listed.to_set().contains(called) == listed.contains(called));
    assert(listed.contains(called) == called_set(t, calls).contains(called));
    if exists|k: int| #[trigger] all.contains(k) && call_head(t, k) == Some(called) {
        let k = choose|k: int| #[trigger] all.contains(k) && call_head(t, k) == Some(called);
        assert(calls.contains(k));
        let n = choose|n: int| 0 <= n < calls.len() && calls[n] == k;
        assert(call_head(t, calls[n]) == Some(called));
    }
    if called_set(t, calls).contains(called) {
        let n = choose|n: int|
            0 <= n < calls.len() && call_head(t, #[trigger] calls[n]) == Some(called);
        assert(calls.contains(calls[n]));
        assert(all.contains(calls[n]));
    }
}

} // verus!
