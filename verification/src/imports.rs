//! What the import statements of a Python module bind.
use vstd::prelude::*;
use vstd::string::*;

use crate::expressions::{attribute_or_dotted_text, dotted_text, keep};
use crate::sut_calls::{dotted_head, head_of, no_imports, ImportMap, ImportModel};
use crate::syntax::{child_by_field, children, named_children, positions, NodeModel, SyntaxTree};

verus! {

/// A binding: a local name, and the full dotted name behind it.
pub open spec fn binding_view(b: Option<(String, String)>) -> Option<(Seq<char>, Seq<char>)> {
    match b {
        Some((name, full)) => Some((name@, full@)),
        None => None,
    }
}

/// The map after the bindings that `f` finds at `items` are entered in turn.
pub open spec fn bound(
    aliases: Map<Seq<char>, Seq<char>>,
    items: Seq<int>,
    f: spec_fn(int) -> Option<(Seq<char>, Seq<char>)>,
) -> Map<Seq<char>, Seq<char>>
    decreases items.len(),
{
    if items.len() == 0 {
        aliases
    } else {
        let before = bound(aliases, items.drop_last(), f);
        match f(items.last()) {
            Some((name, full)) => before.insert(name, full),
            None => before,
        }
    }
}

/// The dotted name and the alias of `name as alias`.
pub open spec fn aliased(t: Seq<NodeModel>, k: int) -> Option<(Seq<char>, Seq<char>)> {
    match (child_by_field(t, k, "name"@), child_by_field(t, k, "alias"@)) {
        (Some(name), Some(alias)) => match (dotted_text(t, name), t[alias].text) {
            (Some(full), Some(local)) => Some((local, full)),
            _ => None,
        },
        _ => None,
    }
}

/// What one name of an `import` statement binds: `import a.b` binds `a`, and `import a.b as c`
/// binds `c`, both to `a.b`.
pub open spec fn import_binding(t: Seq<NodeModel>) -> spec_fn(int) -> Option<
    (Seq<char>, Seq<char>),
> {
    |k: int|
        if t[k].kind == "dotted_name"@ {
            match dotted_text(t, k) {
                Some(full) => Some((head_of(full), full)),
                None => None,
            }
        } else if t[k].kind == "aliased_import"@ {
            aliased(t, k)
        } else {
            None
        }
}

/// What one name of a `from` import binds: `from m import a` binds `a`, and `from m import a as b`
/// binds `b`, both to `m.a`. The module's own name, at `module_at`, binds nothing.
pub open spec fn from_binding(t: Seq<NodeModel>, module: Seq<char>, module_at: int) -> spec_fn(
    int,
) -> Option<(Seq<char>, Seq<char>)> {
    |k: int|
        if k == module_at {
            None
        } else if t[k].kind == "dotted_name"@ {
            match dotted_text(t, k) {
                Some(imported) => Some(
                    (head_of(imported), module + "."@ + head_of(imported)),
                ),
                None => None,
            }
        } else if t[k].kind == "aliased_import"@ {
            match aliased(t, k) {
                Some((local, imported)) => Some((local, module + "."@ + imported)),
                None => None,
            }
        } else {
            None
        }
}

/// Being the star of a `from` import.
pub open spec fn star_test(t: Seq<NodeModel>, module_at: int) -> spec_fn(int) -> bool {
    |k: int| k != module_at && t[k].kind == "wildcard_import"@
}

/// The imports after an `import` statement.
pub open spec fn after_import(t: Seq<NodeModel>, stmt: int, imports: ImportModel) -> ImportModel {
    ImportModel {
        aliases: bound(imports.aliases, named_children(t, stmt), import_binding(t)),
        star_sources: imports.star_sources,
    }
}

/// The imports after a `from` import. Importing everything binds no single name.
pub open spec fn after_from(t: Seq<NodeModel>, stmt: int, imports: ImportModel) -> ImportModel {
    match child_by_field(t, stmt, "module_name"@) {
        Some(m) => match dotted_text(t, m) {
            Some(module) => if named_children(t, stmt).filter(star_test(t, m)).len() > 0 {
                ImportModel {
                    aliases: imports.aliases,
                    star_sources: imports.star_sources.insert(module),
                }
            } else {
                ImportModel {
                    aliases: bound(
                        imports.aliases,
                        named_children(t, stmt),
                        from_binding(t, module, m),
                    ),
                    star_sources: imports.star_sources,
                }
            },
            None => imports,
        },
        None => imports,
    }
}

/// The imports after the statements at `items`.
pub open spec fn imports_after(t: Seq<NodeModel>, items: Seq<int>) -> ImportModel
    decreases items.len(),
{
    if items.len() == 0 {
        no_imports()
    } else {
        let before = imports_after(t, items.drop_last());
        let k = items.last();
        if t[k].kind == "import_statement"@ {
            after_import(t, k, before)
        } else if t[k].kind == "import_from_statement"@ {
            after_from(t, k, before)
        } else {
            before
        }
    }
}

/// What the imports at the top level of a module bind.
pub open spec fn module_imports(t: Seq<NodeModel>) -> ImportModel {
    imports_after(t, children(t, 0))
}

fn aliased_pair(tree: &SyntaxTree, k: usize) -> (r: Option<(String, String)>)
    requires
        k < tree@.len(),
    ensures
        binding_view(r) == aliased(tree@, k as int),
{
    match (tree.child(k, "name"), tree.child(k, "alias")) {
        (Some(name), Some(alias)) => match (
            attribute_or_dotted_text(tree, name),
            tree.text_of(alias),
        ) {
            (Some(full), Some(local)) => Some((local.clone(), full)),
            _ => None,
        },
        _ => None,
    }
}

fn import_pair(tree: &SyntaxTree, k: usize) -> (r: Option<(String, String)>)
    requires
        k < tree@.len(),
    ensures
        binding_view(r) == import_binding(tree@)(k as int),
{
    if tree.is_kind(k, "dotted_name") {
        match attribute_or_dotted_text(tree, k) {
            Some(full) => {
                let local = dotted_head(&full).to_owned();
                Some((local, full))
            },
            None => None,
        }
    } else if tree.is_kind(k, "aliased_import") {
        aliased_pair(tree, k)
    } else {
        None
    }
}

fn under_module(module: &str, name: &str) -> (r: String)
    ensures
        r@ == module@ + "."@ + name@,
{
    let mut out = module.to_owned();
    out.append(".");
    out.append(name);
    out
}

fn from_pair(tree: &SyntaxTree, k: usize, module: &str, module_at: usize) -> (r: Option<
    (String, String),
>)
    requires
        k < tree@.len(),
    ensures
        binding_view(r) == from_binding(tree@, module@, module_at as int)(k as int),
{
    if k == module_at {
        None
    } else if tree.is_kind(k, "dotted_name") {
        match attribute_or_dotted_text(tree, k) {
            Some(imported) => {
                let local = dotted_head(&imported).to_owned();
                let full = under_module(module, &local);
                Some((local, full))
            },
            None => None,
        }
    } else if tree.is_kind(k, "aliased_import") {
        match aliased_pair(tree, k) {
            Some((local, imported)) => {
                let full = under_module(module, &imported);
                Some((local, full))
            },
            None => None,
        }
    } else {
        None
    }
}

/// Enters what an `import` statement binds.
pub fn record_import_statement(tree: &SyntaxTree, stmt: usize, map: &mut ImportMap)
    requires
        stmt < tree@.len(),
    ensures
        final(map)@ == after_import(tree@, stmt as int, old(map)@),
{
    let ghost start = map@;
    let items = tree.named_children_of(stmt);
    let ghost f = import_binding(tree@);
    let mut n: usize = 0;
    while n < items.len()
        invariant
            n <= items@.len(),
            f == import_binding(tree@),
            forall|k: int| 0 <= k < items@.len() ==> stmt < #[trigger] items@[k] < tree@.len(),
            map@.aliases == bound(start.aliases, positions(items@).take(n as int), f),
            map@.star_sources == start.star_sources,
        decreases items@.len() - n,
    {
        let k: usize = items[n];
        proof {
            let part = positions(items@).take(n + 1);
            assert(part.drop_last() =~= positions(items@).take(n as int));
            assert(part.last() == k);
        }
        if let Some((local, full)) = import_pair(tree, k) {
            map.aliases.insert(local, full);
        }
        n += 1;
    }
    assert(positions(items@).take(n as int) =~= positions(items@));
}

/// Enters what a `from` import binds.
pub fn record_import_from(tree: &SyntaxTree, stmt: usize, map: &mut ImportMap)
    requires
        stmt < tree@.len(),
    ensures
        final(map)@ == after_from(tree@, stmt as int, old(map)@),
{
    let ghost start = map@;
    let module_at: usize = match tree.child(stmt, "module_name") {
        Some(m) => m,
        None => {
            return ;
        },
    };
    let module = match attribute_or_dotted_text(tree, module_at) {
        Some(module) => module,
        None => {
            return ;
        },
    };
    let items = tree.named_children_of(stmt);
    let test = |k: usize| -> (b: bool)
        requires
            k < tree@.len(),
        ensures
            b == star_test(tree@, module_at as int)(k as int),
        { k != module_at && tree.is_kind(k, "wildcard_import") };
    let stars = keep(&items, Ghost(star_test(tree@, module_at as int)), test);
    assert(positions(stars@).len() == stars@.len());
    if stars.len() > 0 {
        map.star_sources.insert(module);
        return ;
    }
    let ghost f = from_binding(tree@, module@, module_at as int);
    let mut n: usize = 0;
    while n < items.len()
        invariant
            n <= items@.len(),
            f == from_binding(tree@, module@, module_at as int),
            forall|k: int| 0 <= k < items@.len() ==> stmt < #[trigger] items@[k] < tree@.len(),
            map@.aliases == bound(start.aliases, positions(items@).take(n as int), f),
            map@.star_sources == start.star_sources,
        decreases items@.len() - n,
    {
        let k: usize = items[n];
        proof {
            let part = positions(items@).take(n + 1);
            assert(part.drop_last() =~= positions(items@).take(n as int));
            assert(part.last() == k);
        }
        if let Some((local, full)) = from_pair(tree, k, &module, module_at) {
            map.aliases.insert(local, full);
        }
        n += 1;
    }
    assert(positions(items@).take(n as int) =~= positions(items@));
}

/// What the imports at the top level of a module bind.
pub fn build_import_map(tree: &SyntaxTree) -> (r: ImportMap)
    requires
        tree@.len() > 0,
    ensures
        r@ == module_imports(tree@),
{
    let mut map = ImportMap::default();
    let items = tree.children_of(0);
    let mut n: usize = 0;
    while n < items.len()
        invariant
            n <= items@.len(),
            forall|k: int| 0 <= k < items@.len() ==> 0 < #[trigger] items@[k] < tree@.len(),
            map@ == imports_after(tree@, positions(items@).take(n as int)),
        decreases items@.len() - n,
    {
        let k: usize = items[n];
        proof {
            let part = positions(items@).take(n + 1);
            assert(part.drop_last() =~= positions(items@).take(n as int));
            assert(part.last() == k);
        }
        if tree.is_kind(k, "import_statement") {
            record_import_statement(tree, k, &mut map);
        } else if tree.is_kind(k, "import_from_statement") {
            record_import_from(tree, k, &mut map);
        }
        n += 1;
    }
    assert(positions(items@).take(n as int) =~= positions(items@));
    map
}

} // verus!
