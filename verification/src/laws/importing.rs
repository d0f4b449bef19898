//! What holds of the names that a file imports.
use vstd::prelude::*;

use crate::expressions::{chain, dotted_text, identifier_texts};
use crate::imports::{
    after_from, after_import, aliased, bound, from_binding, import_binding, imports_after,
    module_imports, star_test,
};
use crate::laws::resolving::heads_end_at_the_first_dot;
use crate::laws::texts::joining_goes_on_behind_a_separator;
use crate::laws::trees::{children_stand_directly_under, fields_lead_to_the_first_child, is_child};
use crate::sut_calls::{no_imports, ImportModel};
use crate::syntax::{child_by_field, children, named_children, NodeModel};
use crate::text::join;

verus! {

/// A dotted name is its identifiers with dots between them; the dots of the tree have no say.
pub proof fn dotted_names_are_joined_identifiers(
    t: Seq<NodeModel>,
    items: Seq<int>,
    k: int,
    i: int,
)
    requires
        t[i].kind == "dotted_name"@,
        children(t, i) == items.push(k),
        t[k].text is Some,
    ensures
        t[k].kind != "identifier"@ ==> identifier_texts(t, items.push(k)) == identifier_texts(
            t,
            items,
        ),
        t[k].kind == "identifier"@ && identifier_texts(t, items).len() == 0 ==> dotted_text(t, i)
            == t[k].text,
        t[k].kind == "identifier"@ && identifier_texts(t, items).len() > 0 ==> dotted_text(t, i)
            == Some(
            join(identifier_texts(t, items), seq!['.']) + seq!['.'] + t[k].text->0,
        ),
        identifier_texts(t, Seq::empty()).len() == 0,
{
    reveal_strlit(".");
    assert("."@ =~= seq!['.']);
    assert(items.push(k).drop_last() =~= items);
    let parts = identifier_texts(t, items);
    joining_goes_on_behind_a_separator(parts, t[k].text->0, seq!['.']);
    if parts.len() == 0 {
        assert(parts.push(t[k].text->0) =~= seq![t[k].text->0]);
    }
}

/// `import a.b` binds the first name, to the whole; `import a.b as c` binds the name behind `as`.
/// Nothing else in an `import` binds anything.
pub proof fn imports_bind_the_first_name(t: Seq<NodeModel>, k: int, head: Seq<char>, rest: Seq<char>)
    requires
        !head.contains('.'),
    ensures
        t[k].kind == "dotted_name"@ && dotted_text(t, k) == Some(head) ==> import_binding(t)(k)
            == Some((head, head)),
        t[k].kind == "dotted_name"@ && dotted_text(t, k) == Some(head + seq!['.'] + rest)
            ==> import_binding(t)(k) == Some((head, head + seq!['.'] + rest)),
        t[k].kind == "aliased_import"@ ==> import_binding(t)(k) == aliased(t, k),
        t[k].kind != "dotted_name"@ && t[k].kind != "aliased_import"@ ==> import_binding(t)(k) is None,
{
    reveal_strlit("dotted_name");
    reveal_strlit("aliased_import");
    assert("dotted_name"@.len() == 11 && "aliased_import"@.len() == 14);
    heads_end_at_the_first_dot(head, rest);
}

/// An alias is the name under `alias`, for what the name under `name` says.
pub proof fn aliases_stand_for_names(t: Seq<NodeModel>, k: int)
    requires
        0 <= k < t.len(),
    ensures
        match aliased(t, k) {
            Some((local, full)) => exists|name: int, alias: int|
                #![trigger is_child(t, k, name), is_child(t, k, alias)]
                {
                    &&& is_child(t, k, name) && t[name].field == Some("name"@)
                    &&& is_child(t, k, alias) && t[alias].field == Some("alias"@)
                    &&& t[alias].text == Some(local)
                    &&& dotted_text(t, name) == Some(full)
                },
            None => true,
        },
        forall|name: int, alias: int|
            #![trigger dotted_text(t, name), t[alias].text]
            child_by_field(t, k, "name"@) == Some(name) && child_by_field(t, k, "alias"@) == Some(
                alias,
            ) && dotted_text(t, name) is Some && t[alias].text is Some ==> aliased(t, k) == Some(
                (t[alias].text->0, dotted_text(t, name)->0),
            ),
{
    fields_lead_to_the_first_child(t, k, "name"@);
    fields_lead_to_the_first_child(t, k, "alias"@);
    if aliased(t, k) is Some {
        let name = child_by_field(t, k, "name"@)->0;
        let alias = child_by_field(t, k, "alias"@)->0;
        assert(is_child(t, k, name) && is_child(t, k, alias));
    }
}

/// `from m import a` binds the name to what lies under it in the module; `from m import a as b`
/// binds the name behind `as` to the same. The module itself is bound to nothing.
pub proof fn froms_bind_what_lies_in_the_module(
    t: Seq<NodeModel>,
    module: Seq<char>,
    module_at: int,
    k: int,
    name: Seq<char>,
    rest: Seq<char>,
)
    requires
        !name.contains('.'),
    ensures
        from_binding(t, module, module_at)(module_at) is None,
        k != module_at && t[k].kind == "dotted_name"@ && dotted_text(t, k) == Some(name)
            ==> from_binding(t, module, module_at)(k) == Some((name, module + seq!['.'] + name)),
        k != module_at && t[k].kind == "dotted_name"@ && dotted_text(t, k) == Some(
            name + seq!['.'] + rest,
        ) ==> from_binding(t, module, module_at)(k) == Some((name, module + seq!['.'] + name)),
        k != module_at && t[k].kind == "aliased_import"@ ==> (aliased(t, k) matches Some((local, full))
            ==> from_binding(t, module, module_at)(k) == Some((local, module + seq!['.'] + full))),
        t[k].kind != "dotted_name"@ && t[k].kind != "aliased_import"@ ==> from_binding(
            t,
            module,
            module_at,
        )(k) is None,
{
    reveal_strlit(".");
    assert("."@ =~= seq!['.']);
    reveal_strlit("dotted_name");
    reveal_strlit("aliased_import");
    assert("dotted_name"@.len() == 11 && "aliased_import"@.len() == 14);
    heads_end_at_the_first_dot(name, rest);
}

/// Whether a binding is one of the name.
pub open spec fn binds(binding: Option<(Seq<char>, Seq<char>)>, name: Seq<char>) -> bool {
    binding matches Some((local, full)) && local == name
}

/// What a binding binds its name to.
pub open spec fn meaning(binding: Option<(Seq<char>, Seq<char>)>) -> Seq<char> {
    match binding {
        Some((local, full)) => full,
        None => Seq::empty(),
    }
}

proof fn lemma_unbound(
    aliases: Map<Seq<char>, Seq<char>>,
    items: Seq<int>,
    f: spec_fn(int) -> Option<(Seq<char>, Seq<char>)>,
    name: Seq<char>,
)
    requires
        forall|n: int| 0 <= n < items.len() ==> !binds(f(#[trigger] items[n]), name),
    ensures
        bound(aliases, items, f).contains_key(name) == aliases.contains_key(name),
        aliases.contains_key(name) ==> bound(aliases, items, f)[name] == aliases[name],
    decreases items.len(),
{
    if items.len() > 0 {
        let front = items.drop_last();
        assert forall|n: int| 0 <= n < front.len() implies !binds(f(#[trigger] front[n]), name) by {
            assert(items[n] == front[n]);
        }
        lemma_unbound(aliases, front, f, name);
        assert(!binds(f(items[items.len() - 1]), name));
    }
}

proof fn lemma_bound(
    aliases: Map<Seq<char>, Seq<char>>,
    items: Seq<int>,
    f: spec_fn(int) -> Option<(Seq<char>, Seq<char>)>,
    name: Seq<char>,
    m: int,
)
    requires
        0 <= m < items.len(),
        binds(f(items[m]), name),
        forall|n: int| m < n < items.len() ==> !binds(f(#[trigger] items[n]), name),
    ensures
        bound(aliases, items, f).contains_key(name),
        bound(aliases, items, f)[name] == meaning(f(items[m])),
    decreases items.len(),
{
    let front = items.drop_last();
    if m < items.len() - 1 {
        assert forall|n: int| m < n < front.len() implies !binds(f(#[trigger] front[n]), name) by {
            assert(items[n] == front[n]);
        }
        assert(front[m] == items[m]);
        lemma_bound(aliases, front, f, name, m);
        assert(!binds(f(items[items.len() - 1]), name));
    }
}

/// After an `import`, a name that it binds is bound to what the last of its parts that binds the
/// name says; every other name is bound as before. It takes no module's names.
pub proof fn imports_bind_their_names_alone(
    t: Seq<NodeModel>,
    stmt: int,
    imports: ImportModel,
    name: Seq<char>,
)
    ensures
        ({
            let parts = named_children(t, stmt);
            let after = after_import(t, stmt, imports);
            let f = import_binding(t);
            &&& after.star_sources == imports.star_sources
            &&& (forall|n: int|
                0 <= n < parts.len() ==> !binds(f(#[trigger] parts[n]), name))
                ==> after.aliases.contains_key(name) == imports.aliases.contains_key(name) && (
            imports.aliases.contains_key(name) ==> after.aliases[name] == imports.aliases[name])
            &&& forall|m: int|
                0 <= m < parts.len() && binds(f(#[trigger] parts[m]), name)
                    && (forall|n: int|
                    m < n < parts.len() ==> !binds(f(#[trigger] parts[n]), name)) ==> after.aliases.contains_key(name) && after.aliases[name] == meaning(f(parts[m]))
        }),
{
    let parts = named_children(t, stmt);
    let f = import_binding(t);
    if forall|n: int| 0 <= n < parts.len() ==> !binds(f(#[trigger] parts[n]), name) {
        lemma_unbound(imports.aliases, parts, f, name);
    }
    let all = bound(imports.aliases, parts, f);
    assert forall|m: int|
        0 <= m < parts.len() && binds(f(#[trigger] parts[m]), name) && (forall|n: int|
            m < n < parts.len() ==> !binds(
                f(#[trigger] parts[n]),
                name,
            )) implies all.contains_key(name) && all[name] == meaning(f(parts[m])) by {
        lemma_bound(imports.aliases, parts, f, name, m);
    }
}

/// After a `from m import`, the same holds of the names that it binds; but a star binds none, and
/// takes the names of the module instead.
pub proof fn froms_bind_their_names_alone(
    t: Seq<NodeModel>,
    stmt: int,
    at: int,
    module: Seq<char>,
    imports: ImportModel,
    name: Seq<char>,
)
    requires
        0 <= stmt < t.len(),
        child_by_field(t, stmt, "module_name"@) == Some(at),
        dotted_text(t, at) == Some(module),
    ensures
        ({
            let parts = named_children(t, stmt);
            let after = after_from(t, stmt, imports);
            let f = from_binding(t, module, at);
            let star = exists|k: int|
                #[trigger] is_child(t, stmt, k) && t[k].named && k != at && t[k].kind
                    == "wildcard_import"@;
            &&& star ==> after.aliases == imports.aliases && after.star_sources
                == imports.star_sources.insert(module)
            &&& !star ==> {
                &&& after.star_sources == imports.star_sources
                &&& (forall|n: int|
                    0 <= n < parts.len() ==> !binds(f(#[trigger] parts[n]), name)) ==> after.aliases.contains_key(name)
                    == imports.aliases.contains_key(name) && (imports.aliases.contains_key(name)
                    ==> after.aliases[name] == imports.aliases[name])
                &&& forall|m: int|
                    0 <= m < parts.len() && binds(f(#[trigger] parts[m]), name) && (forall|n: int|
                        m < n < parts.len() ==> !binds(f(#[trigger] parts[n]), name)) ==> after.aliases.contains_key(name) && after.aliases[name]
                        == meaning(f(parts[m]))
            }
        }),
{
    broadcast use vstd::seq_lib::group_filter_ensures;

    let parts = named_children(t, stmt);
    children_stand_directly_under(t, stmt);
    let f = from_binding(t, module, at);
    if forall|n: int| 0 <= n < parts.len() ==> !binds(f(#[trigger] parts[n]), name) {
        lemma_unbound(imports.aliases, parts, f, name);
    }
    let all = bound(imports.aliases, parts, f);
    assert forall|m: int|
        0 <= m < parts.len() && binds(f(#[trigger] parts[m]), name) && (forall|n: int|
            m < n < parts.len() ==> !binds(
                f(#[trigger] parts[n]),
                name,
            )) implies all.contains_key(name) && all[name] == meaning(f(parts[m])) by {
        lemma_bound(imports.aliases, parts, f, name, m);
    }
    let p = star_test(t, at);
    let stars = parts.filter(p);
    if stars.len() > 0 {
        let k = stars[0];
        assert(stars.contains(k));
        parts.lemma_filter_contains_rev(p, k);
        assert(p(k));
        assert(is_child(t, stmt, k));
    }
    assert forall|k: int|
        #[trigger] is_child(t, stmt, k) && t[k].named && k != at && t[k].kind
            == "wildcard_import"@ implies stars.len() > 0 by {
        assert(parts.contains(k));
        assert(p(k));
        assert(stars.contains(k));
    }
}

/// A `from` without a module that can be read binds nothing.
pub proof fn froms_without_a_module_bind_nothing(t: Seq<NodeModel>, stmt: int, imports: ImportModel)
    ensures
        child_by_field(t, stmt, "module_name"@) is None ==> after_from(t, stmt, imports) == imports,
        child_by_field(t, stmt, "module_name"@) matches Some(m) ==> (dotted_text(t, m) is None
            ==> after_from(t, stmt, imports) == imports),
{
}

/// A file's imports are those of the statements directly in it, one after the other, so that the
/// later ones have the last word; other statements change nothing.
pub proof fn statements_import_one_after_the_other(t: Seq<NodeModel>, items: Seq<int>, k: int)
    ensures
        imports_after(t, Seq::empty()) == no_imports(),
        no_imports().aliases.dom() == Set::<Seq<char>>::empty(),
        no_imports().star_sources == Set::<Seq<char>>::empty(),
        t[k].kind == "import_statement"@ ==> imports_after(t, items.push(k)) == after_import(
            t,
            k,
            imports_after(t, items),
        ),
        t[k].kind == "import_from_statement"@ ==> imports_after(t, items.push(k)) == after_from(
            t,
            k,
            imports_after(t, items),
        ),
        t[k].kind != "import_statement"@ && t[k].kind != "import_from_statement"@ ==> imports_after(
            t,
            items.push(k),
        ) == imports_after(t, items),
        children(t, 0) == items ==> module_imports(t) == imports_after(t, items),
{
    reveal_strlit("import_statement");
    reveal_strlit("import_from_statement");
    assert("import_statement"@.len() == 16 && "import_from_statement"@.len() == 21);
    assert(items.push(k).drop_last() =~= items);
    assert(no_imports().aliases.dom() =~= Set::<Seq<char>>::empty());
}

/// What is no dotted name of its own is read as a chain.
pub proof fn other_names_are_chains(t: Seq<NodeModel>, i: int)
    requires
        t[i].kind != "dotted_name"@,
    ensures
        dotted_text(t, i) == chain(t, i),
{
}

} // verus!
