//! What holds of the names that calls resolve to.
use vstd::prelude::*;

use crate::names::bindings;
use crate::properties::finite_sets_can_be_ordered;
use crate::sut_calls::{
    head_of, imports_by_file, imports_for, in_project, no_imports, resolved, tail_of, ImportModel,
};
use crate::text::{is_prefix, lemma_find_is, sorted_of, strictly_sorted, text_lt};

verus! {

/// A chain that is not on `self` and not empty.
pub open spec fn names_something(chain: Seq<char>) -> bool {
    chain.len() > 0 && head_of(chain) != "self"@
}

/// The head of a dotted chain is what stands before its first dot.
pub proof fn heads_end_at_the_first_dot(head: Seq<char>, rest: Seq<char>)
    requires
        !head.contains('.'),
    ensures
        head_of(head) == head,
        tail_of(head) is None,
        head_of(head + seq!['.'] + rest) == head,
        tail_of(head + seq!['.'] + rest) == Some(rest),
{
    assert forall|i: int| 0 <= i < head.len() implies head[i] != '.' by {
        if head[i] == '.' {
            assert(head.contains('.'));
        }
    }
    lemma_find_is(head, '.', 0, head.len() as int);
    assert(head.subrange(0, head.len() as int) =~= head);
    let whole = head + seq!['.'] + rest;
    assert forall|i: int| 0 <= i < head.len() implies whole[i] != '.' by {
        assert(whole[i] == head[i]);
    }
    assert(whole[head.len() as int] == '.');
    lemma_find_is(whole, '.', 0, head.len() as int);
    assert(whole.subrange(0, head.len() as int) =~= head);
    assert(whole.subrange((head.len() + 1) as int, whole.len() as int) =~= rest);
}

proof fn lemma_not_on_self(chain: Seq<char>)
    requires
        names_something(chain),
    ensures
        chain != "self"@,
        !is_prefix("self."@, chain),
{
    reveal_strlit("self");
    reveal_strlit("self.");
    if chain == "self"@ {
        assert(!chain.contains('.')) by {
            assert(forall|i: int| 0 <= i < 4 ==> "self"@[i] != '.');
        }
        heads_end_at_the_first_dot(chain, Seq::empty());
    }
    if is_prefix("self."@, chain) {
        assert forall|i: int| 0 <= i < 5 implies chain[i] == "self."@[i] by {
            assert(chain.subrange(0, 5)[i] == chain[i]);
        }
        lemma_find_is(chain, '.', 0, 4);
        assert(chain.subrange(0, 4) =~= "self"@);
    }
}

/// A chain whose head is itself a package of the project is kept exactly as it is written,
/// whatever the imports of the file bind its head to.
pub proof fn names_of_the_project_stay(
    raw: Seq<char>,
    imports: ImportModel,
    packages: Set<Seq<char>>,
)
    requires
        names_something(raw),
        packages.contains(head_of(raw)),
    ensures
        resolved(raw, imports, packages) == Some(raw),
{
    lemma_not_on_self(raw);
}

/// A chain whose head is bound by an import leads to what it is bound to, and what stood behind
/// the head stands behind that; it is kept exactly where that lies in a package of the project.
pub proof fn bound_names_lead_to_what_they_are_bound_to(
    head: Seq<char>,
    rest: Seq<char>,
    imports: ImportModel,
    packages: Set<Seq<char>>,
)
    requires
        head.len() > 0,
        !head.contains('.'),
        head != "self"@,
        !packages.contains(head),
        imports.aliases.contains_key(head),
    ensures
        packages.contains(head_of(imports.aliases[head])) ==> {
            &&& resolved(head, imports, packages) == Some(imports.aliases[head])
            &&& resolved(head + seq!['.'] + rest, imports, packages) == Some(
                imports.aliases[head] + seq!['.'] + rest,
            )
        },
        !packages.contains(head_of(imports.aliases[head])) ==> {
            &&& resolved(head, imports, packages) is None
            &&& resolved(head + seq!['.'] + rest, imports, packages) is None
        },
{
    heads_end_at_the_first_dot(head, rest);
    lemma_not_on_self(head);
    lemma_not_on_self(head + seq!['.'] + rest);
    reveal_strlit(".");
    assert("."@ =~= seq!['.']);
}

/// A chain whose head is bound to nothing and is no package of the project leads into the project
/// only where the file imports everything from one of its modules; it then stands under the first
/// of these.
pub proof fn unbound_names_lead_to_starred_modules(
    raw: Seq<char>,
    imports: ImportModel,
    packages: Set<Seq<char>>,
)
    requires
        names_something(raw),
        !packages.contains(head_of(raw)),
        !imports.aliases.contains_key(head_of(raw)),
        imports.star_sources.finite(),
    ensures
        match resolved(raw, imports, packages) {
            Some(name) => exists|module: Seq<char>|
                {
                    &&& #[trigger] imports.star_sources.contains(module)
                    &&& packages.contains(head_of(module))
                    &&& name == module + seq!['.'] + raw
                    &&& forall|other: Seq<char>|
                        #[trigger] imports.star_sources.contains(other) && packages.contains(
                            head_of(other),
                        ) && other != module ==> text_lt(module, other)
                },
            None => forall|module: Seq<char>|
                #[trigger] imports.star_sources.contains(module) ==> !packages.contains(
                    head_of(module),
                ),
        },
{
    broadcast use vstd::seq_lib::group_filter_ensures;

    lemma_not_on_self(raw);
    reveal_strlit(".");
    assert("."@ =~= seq!['.']);
    finite_sets_can_be_ordered(imports.star_sources);
    let all = sorted_of(imports.star_sources);
    let p = in_project(packages);
    let kept = all.filter(p);
    assert forall|module: Seq<char>| #[trigger] imports.star_sources.contains(module) implies (
    packages.contains(head_of(module)) <==> kept.contains(module)) by {
        assert(all.to_set().contains(module));
        assert(all.contains(module));
        if kept.contains(module) {
            all.lemma_filter_contains_rev(p, module);
            assert(p(module));
        }
    }
    if kept.len() > 0 {
        let first = kept[0];
        assert(kept.contains(first));
        all.lemma_filter_contains_rev(p, first);
        assert(all.to_set().contains(first));
        assert(imports.star_sources.contains(first));
        lemma_first_kept(all, p);
        assert forall|other: Seq<char>|
            #[trigger] imports.star_sources.contains(other) && packages.contains(head_of(other))
                && other != first implies text_lt(first, other) by {
            assert(kept.contains(other));
            let m = choose|m: int| 0 <= m < kept.len() && kept[m] == other;
            assert(kept[0] == first);
        }
    } else {
        assert forall|module: Seq<char>| #[trigger]
            imports.star_sources.contains(module) implies !packages.contains(head_of(module)) by {
            assert(!kept.contains(module));
        }
    }
}

/// What is kept of an ordered list is ordered.
proof fn lemma_first_kept(all: Seq<Seq<char>>, p: spec_fn(Seq<char>) -> bool)
    requires
        strictly_sorted(all),
    ensures
        strictly_sorted(all.filter(p)),
    decreases all.len(),
{
    reveal(Seq::filter);
    if all.len() > 0 {
        let front = all.drop_last();
        assert(strictly_sorted(front));
        lemma_first_kept(front, p);
        let kept = front.filter(p);
        assert forall|i: int| 0 <= i < kept.len() implies text_lt(
            #[trigger] kept[i],
            all.last(),
        ) by {
            assert(kept.contains(kept[i]));
            front.lemma_filter_contains_rev(p, kept[i]);
            let k = choose|k: int| 0 <= k < front.len() && front[k] == kept[i];
            assert(all[k] == kept[i]);
            assert(all[all.len() - 1] == all.last());
        }
    }
}

/// Of the bindings of one name the last one holds, and a name without any is bound to nothing.
pub proof fn the_last_binding_holds(entries: Seq<(Seq<char>, Seq<char>)>, name: Seq<char>, full: Seq<char>)
    ensures
        bindings(entries.push((name, full))).contains_key(name),
        bindings(entries.push((name, full)))[name] == full,
        forall|other: Seq<char>|
            other != name ==> #[trigger] bindings(entries.push((name, full))).contains_key(other)
                == bindings(entries).contains_key(other),
        forall|other: Seq<char>|
            other != name && bindings(entries).contains_key(other) ==> #[trigger] bindings(
                entries.push((name, full)),
            )[other] == bindings(entries)[other],
        forall|other: Seq<char>| !#[trigger] bindings(Seq::empty()).contains_key(other),
{
    assert(entries.push((name, full)).drop_last() =~= entries);
}

/// The imports of a file are found under its path; those of another stay as they were.
pub proof fn the_last_imports_of_a_file_hold(
    entries: Seq<(Seq<char>, ImportModel)>,
    file: Seq<char>,
    imports: ImportModel,
)
    ensures
        imports_for(imports_by_file(entries.push((file, imports))), file) == imports,
        forall|other: Seq<char>|
            other != file ==> #[trigger] imports_for(
                imports_by_file(entries.push((file, imports))),
                other,
            ) == imports_for(imports_by_file(entries), other),
        forall|other: Seq<char>| #[trigger]
            imports_for(imports_by_file(Seq::empty()), other) == no_imports(),
{
    assert(entries.push((file, imports)).drop_last() =~= entries);
}

} // verus!
