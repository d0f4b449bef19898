//! What holds of the summary of what the tests call.
use vstd::multiset::*;
use vstd::prelude::*;
use vstd::seq_lib::*;

use crate::parser::capped;
use crate::properties::{
    call_summaries_are_ordered, finite_sets_can_be_ordered, lemma_called_by_any_finite,
};
use crate::ranking::{rank_leq, ranked, ranking_orders_what_it_is_given, top};
use crate::records::TestModel;
use crate::sut_calls::{
    call_summary, called_by_any, callers, imports_for, no_imports, resolved, resolved_set,
    with_resolved_names, ImportModel,
};
use crate::text::{lemma_lt_irreflexive, lemma_lt_transitive, sorted_of, text_lt};

verus! {

/// In a ranking no entry stands behind one with a smaller number, and among equal numbers none
/// behind one with a later name.
pub proof fn rankings_go_downwards(items: Seq<(u64, Seq<char>)>, a: int, b: int)
    requires
        0 <= a < b < ranked(items).len(),
    ensures
        ranked(items)[a].0 >= ranked(items)[b].0,
        ranked(items)[a].0 == ranked(items)[b].0 ==> !text_lt(ranked(items)[b].1, ranked(items)[a].1),
        items.contains(ranked(items)[a]),
{
    broadcast use group_to_multiset_ensures;

    ranking_orders_what_it_is_given(items, 0);
    let order = ranked(items);
    let leq = rank_leq();
    assert(leq(order[a], order[b]));
    if order[a].0 == order[b].0 {
        lemma_lt_irreflexive(order[a].1);
        if text_lt(order[a].1, order[b].1) && text_lt(order[b].1, order[a].1) {
            lemma_lt_transitive(order[a].1, order[b].1, order[a].1);
        }
    }
    assert(order.contains(order[a]));
    assert(order.to_multiset().count(order[a]) > 0);
}

/// A name is in the summary exactly where a test calls it.
pub proof fn summaries_hold_what_is_called(tests: Seq<TestModel>, name: Seq<char>)
    ensures
        (exists|i: int|
            0 <= i < call_summary(tests).by_name.len() && (#[trigger] call_summary(
                tests,
            ).by_name[i]).name == name) == (exists|n: int|
            0 <= n < tests.len() && (#[trigger] tests[n]).called_names.contains(name)),
{
    let summary = call_summary(tests);
    let names = sorted_of(called_by_any(tests));
    lemma_called_by_any_finite(tests);
    finite_sets_can_be_ordered(called_by_any(tests));
    assert(summary.by_name.len() == names.len());
    if exists|n: int| 0 <= n < tests.len() && (#[trigger] tests[n]).called_names.contains(name) {
        assert(called_by_any(tests).contains(name));
        assert(names.to_set().contains(name));
        let i = choose|i: int| 0 <= i < names.len() && names[i] == name;
        assert(summary.by_name[i].name == name);
    }
    if exists|i: int|
        0 <= i < summary.by_name.len() && (#[trigger] summary.by_name[i]).name == name {
        let i = choose|i: int|
            0 <= i < summary.by_name.len() && (#[trigger] summary.by_name[i]).name == name;
        assert(names[i] == name);
        assert(names.to_set().contains(name));
        assert(called_by_any(tests).contains(name));
    }
}

/// The number behind a name is the number of its callers, and a caller is a test that calls it.
pub proof fn callers_are_counted(tests: Seq<TestModel>, i: int, id: Seq<char>)
    requires
        0 <= i < call_summary(tests).by_name.len(),
    ensures
        ({
            let entry = call_summary(tests).by_name[i];
            &&& entry.test_function_count == capped(entry.test_nodeids.len() as int)
            &&& entry.test_nodeids.contains(id) == exists|n: int|
                0 <= n < tests.len() && (#[trigger] tests[n]).nodeid == id
                    && tests[n].called_names.contains(entry.name)
            &&& entry.test_nodeids.no_duplicates()
        }),
{
    let entry = call_summary(tests).by_name[i];
    call_summaries_are_ordered(tests, i);
    let ids = entry.test_nodeids;
    assert(ids.to_set().contains(id) == callers(tests, entry.name).contains(id));
    assert forall|a: int, b: int| 0 <= a < ids.len() && 0 <= b < ids.len() && a != b implies ids[a]
        != ids[b] by {
        lemma_lt_irreflexive(ids[a]);
        if a < b {
            assert(text_lt(ids[a], ids[b]));
        } else {
            assert(text_lt(ids[b], ids[a]));
        }
    }
}

/// No name outside the list of the most called has more callers than one in it; and a list of less
/// than twenty leaves none out.
pub proof fn the_most_called_have_the_most_callers(tests: Seq<TestModel>, i: int, j: int)
    requires
        0 <= i < call_summary(tests).by_name.len(),
        0 <= j < call_summary(tests).by_name.len(),
        call_summary(tests).top_called.contains(call_summary(tests).by_name[i].name),
        !call_summary(tests).top_called.contains(call_summary(tests).by_name[j].name),
    ensures
        call_summary(tests).by_name[j].test_function_count <= call_summary(
            tests,
        ).by_name[i].test_function_count,
        call_summary(tests).by_name[j].test_function_count == call_summary(
            tests,
        ).by_name[i].test_function_count ==> text_lt(
            call_summary(tests).by_name[i].name,
            call_summary(tests).by_name[j].name,
        ),
        call_summary(tests).top_called.len() == 20,
{
    broadcast use group_to_multiset_ensures;

    let summary = call_summary(tests);
    let all = summary.by_name;
    let items = Seq::new(all.len(), |k: int| (all[k].test_function_count, all[k].name));
    let order = ranked(items);
    let best = top(items, 20);
    assert(summary.top_called == best);
    ranking_orders_what_it_is_given(items, 20);
    call_summaries_are_ordered(tests, i);
    let names = Seq::new(all.len(), |k: int| all[k].name);
    let leq = rank_leq();
    let a = choose|a: int| 0 <= a < best.len() && best[a] == all[i].name;
    assert(order[a].1 == all[i].name);
    assert(order.contains(order[a]));
    assert(order.to_multiset().count(order[a]) > 0);
    assert(items.contains(order[a]));
    let x = choose|x: int| 0 <= x < items.len() && items[x] == order[a];
    assert(x == i) by {
        assert(names[x] == all[i].name && names[i] == all[i].name);
        lemma_lt_irreflexive(all[i].name);
        if x < i {
            assert(text_lt(names[x], names[i]));
        } else if i < x {
            assert(text_lt(names[i], names[x]));
        }
    }
    assert(items.contains(items[j]));
    assert(items.to_multiset().count(items[j]) > 0);
    assert(order.contains(items[j]));
    let b = choose|b: int| 0 <= b < order.len() && order[b] == items[j];
    if b < best.len() {
        assert(best[b] == all[j].name);
    }
    assert(a < b);
    assert(leq(order[a], order[b]));
}

/// The names that a test is left with are what the names that it calls resolve to; nothing else
/// about the test changes.
pub proof fn tests_keep_the_resolved_names(
    test: TestModel,
    files: Map<Seq<char>, ImportModel>,
    packages: Set<Seq<char>>,
    name: Seq<char>,
)
    ensures
        ({
            let after = with_resolved_names(test, files, packages);
            let imports = imports_for(files, test.file);
            &&& after.called_names.contains(name) == exists|n: int|
                0 <= n < test.called_names.len() && resolved(
                    #[trigger] test.called_names[n],
                    imports,
                    packages,
                ) == Some(name)
            &&& after == (TestModel { called_names: after.called_names, ..test })
            &&& files.contains_key(test.file) ==> imports == files[test.file]
            &&& !files.contains_key(test.file) ==> imports.aliases.dom() == Set::<Seq<char>>::empty()
                && imports.star_sources == Set::<Seq<char>>::empty()
        }),
{
    let imports = imports_for(files, test.file);
    let set = resolved_set(test.called_names, imports, packages);
    lemma_resolved_finite(test.called_names, imports, packages);
    finite_sets_can_be_ordered(set);
    let list = sorted_of(set);
    assert(list.to_set().contains(name) == set.contains(name));
    assert(no_imports().aliases.dom() =~= Set::<Seq<char>>::empty());
}

proof fn lemma_resolved_finite(
    raw: Seq<Seq<char>>,
    imports: ImportModel,
    packages: Set<Seq<char>>,
)
    ensures
        resolved_set(raw, imports, packages).finite(),
    decreases raw.len(),
{
    let set = resolved_set(raw, imports, packages);
    if raw.len() == 0 {
        assert(set =~= Set::empty());
    } else {
        let front = raw.drop_last();
        lemma_resolved_finite(front, imports, packages);
        let before = resolved_set(front, imports, packages);
        let bound = match resolved(raw.last(), imports, packages) {
            Some(s) => before.insert(s),
            None => before,
        };
        assert forall|s: Seq<char>| set.contains(s) implies bound.contains(s) by {
            let n = choose|n: int|
                0 <= n < raw.len() && resolved(#[trigger] raw[n], imports, packages) == Some(s);
            if n < front.len() {
                assert(front[n] == raw[n]);
            }
        }
        vstd::set_lib::lemma_set_subset_finite(bound, set);
    }
}

} // verus!
