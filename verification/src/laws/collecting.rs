//! What holds of which tests are collected, and of what a file counts.
use vstd::prelude::*;

use crate::expressions::{decorators, fixture_decorator, name_of};
use crate::imports::imports_after;
use crate::laws::expressing::lemma_kept_in_order;
use crate::laws::recording::held;
use crate::laws::trees::{
    children_have_their_parent, children_stand_directly_under, fields_lead_to_the_first_child,
    is_child, parts_end_where_the_depth_falls_back, stands_in, stands_under,
};
use crate::laws::verifying::{lemma_above, lemma_parent};
use crate::parser::{
    capped, class_doubles, class_tests, constructions, fixture_test, fixtures_before,
    function_behind, gathered, member_tests, module_tests, no_class, outside_decorators, parsed,
    patches, record_of, statement_tests, stubs, test_of, total, ClassModel, FileContext,
};
use crate::records::TestModel;
use crate::sut_calls::no_imports;
use crate::syntax::{child_by_field, children, end_of, kind_test, parent, NodeModel};
use crate::text::is_prefix;

verus! {

/// Node `func` is a function, directly at `k` or behind the decorators there; `decorated` is where
/// the decorators stand.
pub open spec fn function_at(t: Seq<NodeModel>, k: int, func: int, decorated: Option<int>) -> bool {
    &&& t[func].kind == "function_definition"@
    &&& {
        ||| func == k && decorated is None
        ||| decorated == Some(k) && t[k].kind == "decorated_definition"@ && child_by_field(
            t,
            k,
            "definition"@,
        ) == Some(func)
    }
}

/// The same for a class.
pub open spec fn class_at(t: Seq<NodeModel>, k: int, class_node: int, decorated: Option<int>) -> bool {
    &&& t[class_node].kind == "class_definition"@
    &&& {
        ||| class_node == k && decorated is None
        ||| decorated == Some(k) && t[k].kind == "decorated_definition"@ && child_by_field(
            t,
            k,
            "definition"@,
        ) == Some(class_node)
    }
}

proof fn lemma_gathered(
    items: Seq<int>,
    f: spec_fn(int) -> Seq<(TestModel, u64)>,
    x: (TestModel, u64),
)
    ensures
        gathered(items, f).contains(x) <==> exists|n: int|
            0 <= n < items.len() && f(#[trigger] items[n]).contains(x),
    decreases items.len(),
{
    if items.len() == 0 {
        assert(!gathered(items, f).contains(x));
    } else {
        let front = items.drop_last();
        let before = gathered(front, f);
        let more = f(items.last());
        let all = gathered(items, f);
        lemma_gathered(front, f, x);
        if all.contains(x) {
            let i = choose|i: int| 0 <= i < all.len() && all[i] == x;
            if i < before.len() {
                assert(before[i] == x);
                let n = choose|n: int| 0 <= n < front.len() && f(#[trigger] front[n]).contains(x);
                assert(items[n] == front[n]);
            } else {
                assert(more[i - before.len()] == x);
                assert(items[items.len() - 1] == items.last());
            }
        }
        if exists|n: int| 0 <= n < items.len() && f(#[trigger] items[n]).contains(x) {
            let n = choose|n: int| 0 <= n < items.len() && f(#[trigger] items[n]).contains(x);
            if n < front.len() {
                assert(front[n] == items[n]);
                let i = choose|i: int| 0 <= i < before.len() && before[i] == x;
                assert(all[i] == x);
            } else {
                let i = choose|i: int| 0 <= i < more.len() && more[i] == x;
                assert(all[before.len() + i] == x);
            }
        }
    }
}

proof fn lemma_kinds()
    ensures
        "function_definition"@ != "decorated_definition"@,
        "function_definition"@ != "class_definition"@,
        "class_definition"@ != "decorated_definition"@,
{
    reveal_strlit("function_definition");
    reveal_strlit("decorated_definition");
    reveal_strlit("class_definition");
    assert("function_definition"@.len() == 19);
    assert("decorated_definition"@.len() == 20);
    assert("class_definition"@.len() == 16);
}

/// Every function at the top level of a module whose name begins with `test_` is collected, with
/// decorators or without.
pub proof fn functions_at_the_top_level_are_collected(
    t: Seq<NodeModel>,
    context: FileContext,
    k: int,
    func: int,
    decorated: Option<int>,
    name: Seq<char>,
)
    requires
        t.len() > 0,
        is_child(t, 0, k),
        function_at(t, k, func, decorated),
        name_of(t, func) == Some(name),
        is_prefix("test_"@, name),
    ensures
        module_tests(t, context).contains(
            record_of(t, func, decorated, name, no_class(), context),
        ),
{
    lemma_kinds();
    let record = record_of(t, func, decorated, name, no_class(), context);
    let f = statement_tests(t, context);
    children_stand_directly_under(t, 0);
    assert(children(t, 0).contains(k));
    let n = choose|n: int| 0 <= n < children(t, 0).len() && children(t, 0)[n] == k;
    assert(f(k) == test_of(t, func, decorated, no_class(), context));
    assert(f(k)[0] == record);
    assert(f(children(t, 0)[n]).contains(record));
    lemma_gathered(children(t, 0), f, record);
}

/// Every function in the body of a class at the top level is collected where its name begins with
/// `test_` and that of the class with `Test`.
pub proof fn methods_of_test_classes_are_collected(
    t: Seq<NodeModel>,
    context: FileContext,
    at: int,
    class_node: int,
    class_decorated: Option<int>,
    class_name: Seq<char>,
    body: int,
    k: int,
    func: int,
    decorated: Option<int>,
    name: Seq<char>,
)
    requires
        t.len() > 0,
        is_child(t, 0, at),
        class_at(t, at, class_node, class_decorated),
        name_of(t, class_node) == Some(class_name),
        is_prefix("Test"@, class_name),
        child_by_field(t, class_node, "body"@) == Some(body),
        0 <= body < t.len(),
        is_child(t, body, k),
        function_at(t, k, func, decorated),
        func != k || decorated is None,
        name_of(t, func) == Some(name),
        is_prefix("test_"@, name),
    ensures
        exists|class: ClassModel|
            class.name == Some(class_name) && #[trigger] module_tests(t, context).contains(
                record_of(t, func, decorated, name, class, context),
            ),
{
    lemma_kinds();
    let class = ClassModel {
        name: Some(class_name),
        shadows: class_doubles(t, body, class_decorated, context.imports),
    };
    let record = record_of(t, func, decorated, name, class, context);
    let g = member_tests(t, class, context);
    children_stand_directly_under(t, body);
    assert(children(t, body).contains(k));
    let m = choose|m: int| 0 <= m < children(t, body).len() && children(t, body)[m] == k;
    fields_lead_to_the_first_child(t, k, "definition"@);
    assert(function_behind(t, k) == Some(func));
    assert(g(k) == test_of(t, func, decorated, class, context));
    assert(g(k)[0] == record);
    assert(g(children(t, body)[m]).contains(record));
    lemma_gathered(children(t, body), g, record);
    assert(class_tests(t, class_node, class_decorated, context).contains(record));
    let f = statement_tests(t, context);
    children_stand_directly_under(t, 0);
    assert(children(t, 0).contains(at));
    let n = choose|n: int| 0 <= n < children(t, 0).len() && children(t, 0)[n] == at;
    assert(f(at) == class_tests(t, class_node, class_decorated, context));
    assert(f(children(t, 0)[n]).contains(record));
    lemma_gathered(children(t, 0), f, record);
    assert(class.name == Some(class_name) && module_tests(t, context).contains(
        record_of(t, func, decorated, name, class, context),
    ));
}

/// A test that may be collected from statement `k`: a function there whose name begins with
/// `test_`, or one in the body of a class there whose name begins with `Test`.
pub open spec fn collectable(
    t: Seq<NodeModel>,
    k: int,
    func: int,
    decorated: Option<int>,
    name: Seq<char>,
    class: Option<Seq<char>>,
) -> bool {
    &&& name_of(t, func) == Some(name)
    &&& is_prefix("test_"@, name)
    &&& match class {
        None => is_child(t, 0, k) && function_at(t, k, func, decorated),
        Some(c) => is_prefix("Test"@, c) && exists|class_node: int, from: Option<int>, body: int,
            m: int|
            #![trigger class_at(t, k, class_node, from), is_child(t, body, m)]
            is_child(t, 0, k) && class_at(t, k, class_node, from) && name_of(t, class_node) == Some(
                c,
            ) && child_by_field(t, class_node, "body"@) == Some(body) && is_child(t, body, m)
                && function_at(t, m, func, decorated),
    }
}

/// Nothing else is collected: no function inside another, none in a class of another name, none of
/// another name.
pub proof fn nothing_else_is_collected(
    t: Seq<NodeModel>,
    context: FileContext,
    x: (TestModel, u64),
)
    requires
        t.len() > 0,
        module_tests(t, context).contains(x),
    ensures
        exists|k: int, func: int, decorated: Option<int>, name: Seq<char>, class: ClassModel|
            #[trigger] collectable(t, k, func, decorated, name, class.name) && x == record_of(
                t,
                func,
                decorated,
                name,
                class,
                context,
            ),
{
    lemma_kinds();
    let f = statement_tests(t, context);
    children_stand_directly_under(t, 0);
    lemma_gathered(children(t, 0), f, x);
    let n = choose|n: int| 0 <= n < children(t, 0).len() && f(#[trigger] children(t, 0)[n]).contains(x);
    let k = children(t, 0)[n];
    assert(children(t, 0).contains(k));
    let there = f(k);
    let i = choose|i: int| 0 <= i < there.len() && there[i] == x;
    fields_lead_to_the_first_child(t, k, "definition"@);
    if t[k].kind == "function_definition"@ {
        let name = name_of(t, k)->0;
        assert(x == record_of(t, k, None, name, no_class(), context));
        assert(collectable(t, k, k, None, name, no_class().name));
    } else if t[k].kind == "class_definition"@ {
        lemma_class_collects(t, context, k, k, None, x);
    } else {
        let inner = child_by_field(t, k, "definition"@)->0;
        if t[inner].kind == "function_definition"@ {
            let name = name_of(t, inner)->0;
            assert(x == record_of(t, inner, Some(k), name, no_class(), context));
            assert(collectable(t, k, inner, Some(k), name, no_class().name));
        } else {
            lemma_class_collects(t, context, k, inner, Some(k), x);
        }
    }
}

proof fn lemma_class_collects(
    t: Seq<NodeModel>,
    context: FileContext,
    k: int,
    class_node: int,
    from: Option<int>,
    x: (TestModel, u64),
)
    requires
        is_child(t, 0, k),
        class_at(t, k, class_node, from),
        0 <= class_node < t.len(),
        class_tests(t, class_node, from, context).contains(x),
    ensures
        exists|func: int, decorated: Option<int>, name: Seq<char>, class: ClassModel|
            #[trigger] collectable(t, k, func, decorated, name, class.name) && x == record_of(
                t,
                func,
                decorated,
                name,
                class,
                context,
            ),
{
    lemma_kinds();
    let found = class_tests(t, class_node, from, context);
    let i = choose|i: int| 0 <= i < found.len() && found[i] == x;
    let class_name = name_of(t, class_node)->0;
    let body = child_by_field(t, class_node, "body"@)->0;
    fields_lead_to_the_first_child(t, class_node, "body"@);
    let class = ClassModel {
        name: Some(class_name),
        shadows: class_doubles(t, body, from, context.imports),
    };
    let g = member_tests(t, class, context);
    children_stand_directly_under(t, body);
    lemma_gathered(children(t, body), g, x);
    let n = choose|n: int|
        0 <= n < children(t, body).len() && g(#[trigger] children(t, body)[n]).contains(x);
    let m = children(t, body)[n];
    assert(children(t, body).contains(m));
    let there = g(m);
    let j = choose|j: int| 0 <= j < there.len() && there[j] == x;
    let func = function_behind(t, m)->0;
    fields_lead_to_the_first_child(t, m, "definition"@);
    let decorated = if func == m {
        None
    } else {
        Some(m)
    };
    let name = name_of(t, func)->0;
    assert(x == record_of(t, func, decorated, name, class, context));
    assert(function_at(t, m, func, decorated));
    assert(class_at(t, k, class_node, from) && is_child(t, body, m));
    assert(collectable(t, k, func, decorated, name, class.name));
}

/// The sum of a count over a list of tests.
pub open spec fn sum_over(tests: Seq<TestModel>, count: spec_fn(TestModel) -> u64) -> int {
    tests.fold_left(0int, |sum: int, test: TestModel| sum + count(test))
}

proof fn lemma_total(
    tests: Seq<(TestModel, u64)>,
    f: spec_fn((TestModel, u64)) -> u64,
    count: spec_fn(TestModel) -> u64,
)
    requires
        forall|x: (TestModel, u64)| #[trigger] f(x) == count(x.0),
    ensures
        total(tests, f) == sum_over(Seq::new(tests.len(), |i: int| tests[i].0), count),
    decreases tests.len(),
{
    let records = Seq::new(tests.len(), |i: int| tests[i].0);
    if tests.len() > 0 {
        let front = tests.drop_last();
        lemma_total(front, f, count);
        assert(records.drop_last() =~= Seq::new(front.len(), |i: int| front[i].0));
        assert(records.last() == tests.last().0);
    }
}

/// What a file counts of its tests is the sum of what the tests count.
pub proof fn files_count_what_their_tests_count(t: Seq<NodeModel>, file: Seq<char>)
    ensures
        parsed(t, file).patch_decorator_count == held(
            sum_over(
                parsed(t, file).test_functions,
                |test: TestModel| test.patch_decorator_count,
            ) as nat,
        ),
        parsed(t, file).stubs_count == held(
            sum_over(parsed(t, file).test_functions, |test: TestModel| test.stubs_count) as nat,
        ),
{
    let imports = parsed(t, file).import_map;
    let tests = if t.len() > 0 {
        module_tests(t, FileContext { file, imports })
    } else {
        Seq::empty()
    };
    lemma_total(tests, patches(), |test: TestModel| test.patch_decorator_count);
    lemma_total(tests, stubs(), |test: TestModel| test.stubs_count);
}

proof fn lemma_constructions(tests: Seq<(TestModel, u64)>)
    ensures
        total(tests, constructions()) == tests.fold_left(
            0int,
            |sum: int, test: (TestModel, u64)| sum + test.1,
        ),
    decreases tests.len(),
{
    if tests.len() > 0 {
        lemma_constructions(tests.drop_last());
    }
}

/// The mock constructions of a file are those of its tests together.
pub proof fn files_count_the_mocks_of_their_tests(t: Seq<NodeModel>, file: Seq<char>)
    requires
        t.len() > 0,
    ensures
        parsed(t, file).mock_construction_count == held(
            module_tests(
                t,
                FileContext { file, imports: parsed(t, file).import_map },
            ).fold_left(0int, |sum: int, test: (TestModel, u64)| sum + test.1) as nat,
        ),
        parsed(t, file).test_functions.len() == module_tests(
            t,
            FileContext { file, imports: parsed(t, file).import_map },
        ).len(),
        forall|i: int|
            0 <= i < parsed(t, file).test_functions.len() ==> #[trigger] parsed(
                t,
                file,
            ).test_functions[i] == module_tests(
                t,
                FileContext { file, imports: parsed(t, file).import_map },
            )[i].0,
{
    lemma_constructions(
        module_tests(t, FileContext { file, imports: parsed(t, file).import_map }),
    );
}

proof fn lemma_fixtures(t: Seq<NodeModel>, n: int, k: int)
    requires
        0 <= k < n,
        t[k].kind == "decorated_definition"@,
        outside_decorators(t, k),
    ensures
        fixtures_before(t, n) >= decorators(t, k).filter(fixture_test(t)).len(),
    decreases n,
{
    if k < n - 1 {
        lemma_fixtures(t, n - 1, k);
    }
}

proof fn lemma_no_fixtures(t: Seq<NodeModel>, n: int)
    requires
        forall|k: int, d: int|
            0 <= k < n && t[k].kind == "decorated_definition"@ && #[trigger] is_child(t, k, d)
                && t[d].kind == "decorator"@ ==> !fixture_decorator(t, d),
        n <= t.len(),
    ensures
        fixtures_before(t, n) == 0,
    decreases n,
{
    broadcast use vstd::seq_lib::group_filter_ensures;

    if n > 0 {
        lemma_no_fixtures(t, n - 1);
        let k = n - 1;
        if t[k].kind == "decorated_definition"@ {
            let p = fixture_test(t);
            let list = decorators(t, k).filter(p);
            if list.len() > 0 {
                assert(list.contains(list[0]));
                decorators(t, k).lemma_filter_contains_rev(p, list[0]);
                assert(p(list[0]));
                let kind = kind_test(t, "decorator"@);
                assert(decorators(t, k).contains(list[0]));
                children(t, k).lemma_filter_contains_rev(kind, list[0]);
                let i = choose|i: int|
                    0 <= i < decorators(t, k).len() && decorators(t, k)[i] == list[0];
                assert(kind(decorators(t, k)[i]));
                children_stand_directly_under(t, k);
                assert(is_child(t, k, list[0]));
            }
        }
    }
}

/// A file without a decorator that declares a fixture counts none; one that stands on a definition
/// at the top level, and everything under it is reached from there, is counted.
pub proof fn fixtures_are_counted(t: Seq<NodeModel>, file: Seq<char>)
    requires
        t.len() > 0,
    ensures
        (forall|k: int, d: int|
            0 <= k < t.len() && t[k].kind == "decorated_definition"@ && #[trigger] is_child(t, k, d)
                && t[d].kind == "decorator"@ ==> !fixture_decorator(t, d)) ==> parsed(
            t,
            file,
        ).fixture_count == 0,
        forall|k: int, d: int|
            #![trigger is_child(t, 0, k), is_child(t, k, d)]
            is_child(t, 0, k) && t[k].kind == "decorated_definition"@ && is_child(t, k, d)
                && t[d].kind == "decorator"@ && fixture_decorator(t, d) ==> parsed(
                t,
                file,
            ).fixture_count > 0,
{
    broadcast use vstd::seq_lib::group_filter_ensures;

    parts_end_where_the_depth_falls_back(t, 0, 0);
    if forall|k: int, d: int|
        0 <= k < t.len() && t[k].kind == "decorated_definition"@ && #[trigger] is_child(t, k, d)
            && t[d].kind == "decorator"@ ==> !fixture_decorator(t, d) {
        lemma_no_fixtures(t, end_of(t, 0));
    }
    assert forall|k: int, d: int|
        #![trigger is_child(t, 0, k), is_child(t, k, d)]
        is_child(t, 0, k) && t[k].kind == "decorated_definition"@ && is_child(t, k, d) && t[d].kind
            == "decorator"@ && fixture_decorator(t, d) implies parsed(t, file).fixture_count > 0 by {
        reveal_strlit("decorated_definition");
        reveal_strlit("decorator");
        assert("decorated_definition"@.len() == 20);
        assert("decorator"@.len() == 9);
        children_have_their_parent(t, 0, k);
        assert(outside_decorators(t, 0));
        assert(outside_decorators(t, k));
        parts_end_where_the_depth_falls_back(t, 0, k);
        children_stand_directly_under(t, k);
        assert(children(t, k).contains(d));
        let kind = kind_test(t, "decorator"@);
        assert(decorators(t, k).contains(d));
        let p = fixture_test(t);
        assert(p(d));
        assert(decorators(t, k).filter(p).contains(d));
        lemma_fixtures(t, end_of(t, 0), k);
    }
}

/// A node stands outside decorators exactly where neither it nor anything between it and the root is
/// one.
pub proof fn decorators_hide_what_stands_in_them(t: Seq<NodeModel>, i: int)
    requires
        stands_in(t, 0, i),
    ensures
        outside_decorators(t, i) == forall|k: int|
            0 < k && #[trigger] stands_in(t, k, i) ==> t[k].kind != "decorator"@,
    decreases i,
{
    if i > 0 {
        lemma_above(t, 0, i);
        let p = parent(t, i)->0;
        decorators_hide_what_stands_in_them(t, p);
        assert forall|k: int| #[trigger] stands_in(t, k, i) && k != i implies stands_in(t, k, p) by {
            lemma_above(t, k, i);
        }
        assert forall|k: int| #[trigger] stands_in(t, k, p) && 0 < k implies stands_in(t, k, i) by {
            lemma_parent_is_above(t, i);
            if k != p {
                assert forall|j: int| k < j <= i implies (#[trigger] t[j]).depth > t[k].depth by {
                    if j > p {
                        assert(t[j].depth > t[p].depth);
                        assert(t[p].depth > t[k].depth);
                    }
                }
            }
        }
        assert(stands_in(t, i, i));
    }
}

proof fn lemma_parent_is_above(t: Seq<NodeModel>, i: int)
    requires
        0 <= i < t.len(),
        parent(t, i) is Some,
    ensures
        stands_under(t, parent(t, i)->0, i),
{
    lemma_parent(t, t[i].depth, i);
    let p = parent(t, i)->0;
    assert forall|j: int| p < j <= i implies (#[trigger] t[j]).depth > t[p].depth by {}
}

/// Whether a node is a decorator that declares a fixture, on a definition before `n` that stands
/// outside decorators.
pub open spec fn declares_fixture(t: Seq<NodeModel>, n: int, d: int) -> bool {
    t[d].kind == "decorator"@ && fixture_decorator(t, d) && exists|k: int|
        0 <= k < n && #[trigger] is_child(t, k, d) && t[k].kind == "decorated_definition"@
            && outside_decorators(t, k)
}

/// The decorators that declare fixtures, on definitions before `n`.
pub open spec fn fixture_declarations(t: Seq<NodeModel>, n: int) -> Set<int> {
    Set::new(|d: int| declares_fixture(t, n, d))
}

proof fn lemma_declarations(t: Seq<NodeModel>, n: int)
    requires
        0 <= n <= t.len(),
    ensures
        fixture_declarations(t, n).finite(),
        fixture_declarations(t, n).len() == fixtures_before(t, n),
    decreases n,
{
    broadcast use vstd::seq_lib::group_filter_ensures;

    let all = fixture_declarations(t, n);
    if n <= 0 {
        assert(all =~= Set::<int>::empty());
    } else {
        let k = n - 1;
        let before = fixture_declarations(t, k);
        lemma_declarations(t, k);
        if t[k].kind == "decorated_definition"@ && outside_decorators(t, k) {
            children_stand_directly_under(t, k);
            let kids = children(t, k);
            let p = kind_test(t, "decorator"@);
            let q = fixture_test(t);
            let marks = kids.filter(p);
            let own = marks.filter(q);
            lemma_kept_in_order(kids, p);
            lemma_kept_in_order(marks, q);
            assert(own.no_duplicates()) by {
                assert forall|a: int, b: int| 0 <= a < own.len() && 0 <= b < own.len() && a
                    != b implies own[a] != own[b] by {
                    if a < b {
                        assert(own[a] < own[b]);
                    } else {
                        assert(own[b] < own[a]);
                    }
                }
            }
            own.unique_seq_to_set();
            let here = own.to_set();
            assert forall|d: int| #[trigger] here.contains(d) == (is_child(t, k, d) && t[d].kind
                == "decorator"@ && fixture_decorator(t, d)) by {
                if own.contains(d) {
                    marks.lemma_filter_contains_rev(q, d);
                    kids.lemma_filter_contains_rev(p, d);
                    assert(p(d) && q(d));
                }
                if is_child(t, k, d) && t[d].kind == "decorator"@ && fixture_decorator(t, d) {
                    assert(kids.contains(d));
                    assert(p(d) && q(d));
                    assert(marks.contains(d));
                    assert(own.contains(d));
                }
            }
            assert(before.disjoint(here)) by {
                assert forall|d: int| before.contains(d) implies !here.contains(d) by {
                    let j = choose|j: int|
                        0 <= j < k && #[trigger] is_child(t, j, d) && t[j].kind
                            == "decorated_definition"@ && outside_decorators(t, j);
                    children_have_their_parent(t, j, d);
                    if here.contains(d) {
                        children_have_their_parent(t, k, d);
                    }
                }
            }
            assert(all =~= before + here) by {
                assert forall|d: int| all.contains(d) == (before.contains(d) || here.contains(d)) by {
                    if here.contains(d) {
                        assert(is_child(t, k, d));
                    }
                }
            }
            vstd::set_lib::lemma_set_disjoint_lens(before, here);
        } else {
            assert(all =~= before) by {
                assert forall|d: int| all.contains(d) implies before.contains(d) by {
                    let j = choose|j: int|
                        0 <= j < n && #[trigger] is_child(t, j, d) && t[j].kind
                            == "decorated_definition"@ && outside_decorators(t, j);
                    assert(j != k);
                }
            }
        }
    }
}

/// The fixtures of a file are the decorators that declare one, on definitions under its root that
/// stand outside decorators: each counts once.
pub proof fn each_fixture_counts_once(t: Seq<NodeModel>, file: Seq<char>)
    requires
        t.len() > 0,
    ensures
        fixture_declarations(t, end_of(t, 0)).finite(),
        parsed(t, file).fixture_count == capped(fixture_declarations(t, end_of(t, 0)).len() as int),
{
    parts_end_where_the_depth_falls_back(t, 0, 0);
    lemma_declarations(t, end_of(t, 0));
}

/// What a file imports is what its own statements import; an empty tree imports nothing.
pub proof fn files_import_what_their_statements_import(t: Seq<NodeModel>, file: Seq<char>)
    ensures
        t.len() > 0 ==> parsed(t, file).import_map == imports_after(t, children(t, 0)),
        t.len() == 0 ==> parsed(t, file).import_map == no_imports(),
{
}

} // verus!
