//! Which of a test's calls lead into the project, and how often each name of the project is
//! called.
use vstd::prelude::*;
use vstd::string::*;

use crate::names::{NameMap, NameSet};
use crate::parser::capped;
use crate::ranking::{entry_views, top, top_names};
use crate::records::{
    test_views, SutCallEntry, SutCallModel, SutCalls, SutCallsModel, TestModel, TestRecord,
};
use crate::text::{
    chars_of, contains_text, find, find_char, is_prefix, same, sorted_of, starts_with, views,
};

verus! {

/// What the names of one file are bound to by its imports.
#[derive(Debug)]
pub struct ImportMap {
    /// The full dotted name behind each local name.
    pub aliases: NameMap,
    /// The modules from which everything was imported.
    pub star_sources: NameSet,
}

/// What an `ImportMap` says.
#[verifier::ext_equal]
pub struct ImportModel {
    pub aliases: Map<Seq<char>, Seq<char>>,
    pub star_sources: Set<Seq<char>>,
}

impl View for ImportMap {
    type V = ImportModel;

    open spec fn view(&self) -> ImportModel {
        ImportModel { aliases: self.aliases@, star_sources: self.star_sources@ }
    }
}

/// Imports that bind nothing.
pub open spec fn no_imports() -> ImportModel {
    ImportModel { aliases: Map::empty(), star_sources: Set::empty() }
}

impl Default for ImportMap {
    fn default() -> (r: ImportMap)
        ensures
            r@ == no_imports(),
    {
        ImportMap { aliases: NameMap::new(), star_sources: NameSet::new() }
    }
}

/// The part of a dotted chain before its first dot.
pub open spec fn head_of(chain: Seq<char>) -> Seq<char> {
    chain.subrange(0, find(chain, '.', 0))
}

/// The part of a dotted chain behind its first dot, if it has one.
pub open spec fn tail_of(chain: Seq<char>) -> Option<Seq<char>> {
    let e = find(chain, '.', 0);
    if e < chain.len() {
        Some(chain.subrange(e + 1, chain.len() as int))
    } else {
        None
    }
}

/// `module`, and behind it the rest of a chain, if there is any.
pub open spec fn dotted(module: Seq<char>, rest: Option<Seq<char>>) -> Seq<char> {
    match rest {
        Some(t) => module + "."@ + t,
        None => module,
    }
}

/// `name` is `prefix` or a dotted name that begins with it.
pub open spec fn at_or_under(name: Seq<char>, prefix: Seq<char>) -> bool {
    name == prefix || is_prefix(prefix + "."@, name)
}

/// A chain with its head replaced by what the file's imports bind it to.
pub open spec fn canonical(chain: Seq<char>, imports: ImportModel) -> Seq<char> {
    if imports.aliases.contains_key(head_of(chain)) {
        dotted(imports.aliases[head_of(chain)], tail_of(chain))
    } else {
        chain
    }
}

/// Being a module whose head is one of the project's packages.
pub open spec fn in_project(packages: Set<Seq<char>>) -> spec_fn(Seq<char>) -> bool {
    |module: Seq<char>| packages.contains(head_of(module))
}

/// The name inside the project that the chain `raw` leads to, if it leads there: its head is a
/// package of the project, or bound to something in one, or bound to nothing while the file
/// imports everything from one. Of several such modules the first in order counts.
pub open spec fn resolved(
    raw: Seq<char>,
    imports: ImportModel,
    packages: Set<Seq<char>>,
) -> Option<Seq<char>> {
    let head = head_of(raw);
    let stars = sorted_of(imports.star_sources).filter(in_project(packages));
    if raw.len() == 0 || raw == "self"@ || is_prefix("self."@, raw) {
        None
    } else if packages.contains(head) {
        Some(raw)
    } else if imports.aliases.contains_key(head) {
        if packages.contains(head_of(imports.aliases[head])) {
            Some(canonical(raw, imports))
        } else {
            None
        }
    } else if stars.len() > 0 {
        Some(stars[0] + "."@ + raw)
    } else {
        None
    }
}

/// The part of `name` before its first dot, or all of it.
pub fn dotted_head(name: &str) -> (r: &str)
    ensures
        r@ == head_of(name@),
{
    let chars = chars_of(name);
    let e: usize = find_char(&chars, '.', 0);
    name.substring_char(0, e)
}

/// The head of a dotted chain and the rest behind the first dot.
pub fn split_head(raw: &str) -> (r: (&str, Option<&str>))
    ensures
        r.0@ == head_of(raw@),
        match r.1 {
            Some(t) => tail_of(raw@) == Some(t@),
            None => tail_of(raw@) is None,
        },
{
    let chars = chars_of(raw);
    let e: usize = find_char(&chars, '.', 0);
    if e < chars.len() {
        (raw.substring_char(0, e), Some(raw.substring_char(e + 1, chars.len())))
    } else {
        (raw.substring_char(0, e), None)
    }
}

/// Whether `name` is `prefix` or a dotted name that begins with it.
pub fn is_at_or_under(name: &str, prefix: &str) -> (r: bool)
    ensures
        r == at_or_under(name@, prefix@),
{
    let mut below = prefix.to_owned();
    below.append(".");
    same(name, prefix) || starts_with(name, &below)
}

/// Whether the head of `module` is a package of the project.
pub fn head_under_project(module: &str, project_packages: &NameSet) -> (r: bool)
    ensures
        r == project_packages@.contains(head_of(module@)),
{
    project_packages.contains(dotted_head(module))
}

fn rebased(module: &str, rest: Option<&str>) -> (r: String)
    ensures
        match rest {
            Some(t) => r@ == dotted(module@, Some(t@)),
            None => r@ == module@,
        },
{
    let mut out = module.to_owned();
    if let Some(t) = rest {
        out.append(".");
        out.append(t);
    }
    out
}

/// The chain with its head replaced by what the file's imports bind it to.
pub fn canonicalize_called_name(chain: &str, imports: &ImportMap) -> (r: String)
    ensures
        r@ == canonical(chain@, imports@),
{
    let (head, tail) = split_head(chain);
    match imports.aliases.get(head) {
        Some(module) => rebased(module, tail),
        None => chain.to_owned(),
    }
}

/// The name inside the project that the chain `raw` leads to, if it leads there.
pub fn resolve_called_name(raw: &str, imports: &ImportMap, project_packages: &NameSet) -> (r: Option<
    String,
>)
    ensures
        match r {
            Some(name) => resolved(raw@, imports@, project_packages@) == Some(name@),
            None => resolved(raw@, imports@, project_packages@) is None,
        },
{
    if raw.is_empty() || same(raw, "self") || starts_with(raw, "self.") {
        return None;
    }
    let (head, _tail) = split_head(raw);
    if project_packages.contains(head) {
        return Some(raw.to_owned());
    }
    if let Some(module) = imports.aliases.get(head) {
        if head_under_project(module, project_packages) {
            return Some(canonicalize_called_name(raw, imports));
        }
        return None;
    }
    let stars = imports.star_sources.to_list();
    let ghost all = sorted_of(imports@.star_sources);
    let ghost keep = in_project(project_packages@);
    let mut i: usize = 0;
    assert(all.take(0).filter(keep) =~= Seq::<Seq<char>>::empty()) by {
        reveal(Seq::filter);
    }
    while i < stars.len()
        invariant
            i <= stars@.len(),
            views(stars@) == all,
            all == sorted_of(imports@.star_sources),
            keep == in_project(project_packages@),
            raw@.len() > 0 && raw@ != "self"@ && !is_prefix("self."@, raw@),
            !project_packages@.contains(head_of(raw@)),
            !imports@.aliases.contains_key(head_of(raw@)),
            all.take(i as int).filter(keep).len() == 0,
        decreases stars@.len() - i,
    {
        let ghost part = all.take(i + 1);
        proof {
            reveal(Seq::filter);
            assert(part.drop_last() =~= all.take(i as int));
            assert(part.last() == stars@[i as int]@);
        }
        if head_under_project(&stars[i], project_packages) {
            let mut name = stars[i].clone();
            name.append(".");
            name.append(raw);
            proof {
                let f = part.filter(keep);
                assert(f =~= seq![stars@[i as int]@]);
                assert(all =~= part + all.skip(i + 1));
                Seq::filter_distributes_over_add(part, all.skip(i + 1), keep);
                assert(all.filter(keep)[0] == f[0]);
            }
            return Some(name);
        }
        i += 1;
    }
    proof {
        assert(all.take(i as int) =~= all);
    }
    None
}

/// How many names the list of the most called ones holds at most.
pub const TOP_CALLED: usize = 20;

/// The imports of each of several files. A later entry for a file replaces an earlier one.
#[derive(Debug)]
pub struct FileImports {
    entries: Vec<(String, ImportMap)>,
}

spec fn import_views(v: Seq<(String, ImportMap)>) -> Seq<(Seq<char>, ImportModel)> {
    Seq::new(v.len(), |i: int| (v[i].0@, v[i].1@))
}

/// The map that a list of imports by file makes when each is entered in turn.
pub open spec fn imports_by_file(entries: Seq<(Seq<char>, ImportModel)>) -> Map<
    Seq<char>,
    ImportModel,
>
    decreases entries.len(),
{
    if entries.len() == 0 {
        Map::empty()
    } else {
        imports_by_file(entries.drop_last()).insert(entries.last().0, entries.last().1)
    }
}

impl View for FileImports {
    type V = Map<Seq<char>, ImportModel>;

    closed spec fn view(&self) -> Map<Seq<char>, ImportModel> {
        imports_by_file(import_views(self.entries@))
    }
}

impl FileImports {
    /// The imports of no file.
    pub fn new() -> (r: FileImports)
        ensures
            r@ == Map::<Seq<char>, ImportModel>::empty(),
    {
        FileImports { entries: Vec::new() }
    }

    /// Enters the imports of a file.
    pub fn insert(&mut self, file: String, imports: ImportMap)
        ensures
            final(self)@ == old(self)@.insert(file@, imports@),
    {
        let ghost before = self.entries@;
        self.entries.push((file, imports));
        proof {
            let after = import_views(self.entries@);
            assert(after.drop_last() =~= import_views(before));
            assert(after.last() == (file@, imports@));
        }
    }

    /// The imports of a file.
    pub fn get(&self, file: &str) -> (r: Option<&ImportMap>)
        ensures
            match r {
                Some(imports) => self@.contains_key(file@) && self@[file@] == imports@,
                None => !self@.contains_key(file@),
            },
    {
        let mut n: usize = self.entries.len();
        assert(import_views(self.entries@).take(n as int) =~= import_views(self.entries@));
        while n > 0
            invariant
                n <= self.entries@.len(),
                imports_by_file(import_views(self.entries@).take(n as int)).contains_key(file@)
                    == self@.contains_key(file@),
                imports_by_file(import_views(self.entries@).take(n as int))[file@] == self@[file@]
                    || !self@.contains_key(file@),
            decreases n,
        {
            proof {
                let t = import_views(self.entries@).take(n as int);
                assert(t.drop_last() =~= import_views(self.entries@).take(n - 1));
                assert(t.last() == import_views(self.entries@)[n - 1]);
            }
            if same(&self.entries[n - 1].0, file) {
                return Some(&self.entries[n - 1].1);
            }
            n -= 1;
        }
        None
    }
}

/// The names inside the project that a list of chains leads to.
pub open spec fn resolved_set(
    raw: Seq<Seq<char>>,
    imports: ImportModel,
    packages: Set<Seq<char>>,
) -> Set<Seq<char>> {
    Set::new(
        |s: Seq<char>|
            exists|n: int|
                0 <= n < raw.len() && resolved(#[trigger] raw[n], imports, packages) == Some(s),
    )
}

/// The imports of a test's file; none where the file is not known.
pub open spec fn imports_for(files: Map<Seq<char>, ImportModel>, file: Seq<char>) -> ImportModel {
    if files.contains_key(file) {
        files[file]
    } else {
        no_imports()
    }
}

/// A test with its calls narrowed to the names inside the project: each once, in order.
pub open spec fn with_resolved_names(
    test: TestModel,
    files: Map<Seq<char>, ImportModel>,
    packages: Set<Seq<char>>,
) -> TestModel {
    TestModel {
        called_names: sorted_of(
            resolved_set(test.called_names, imports_for(files, test.file), packages),
        ),
        ..test
    }
}

/// The identities of the tests that call `name`.
pub open spec fn callers(tests: Seq<TestModel>, name: Seq<char>) -> Set<Seq<char>> {
    Set::new(
        |id: Seq<char>|
            exists|n: int|
                0 <= n < tests.len() && (#[trigger] tests[n]).nodeid == id
                    && tests[n].called_names.contains(name),
    )
}

/// The names that any test calls.
pub open spec fn called_by_any(tests: Seq<TestModel>) -> Set<Seq<char>> {
    Set::new(
        |name: Seq<char>|
            exists|n: int|
                0 <= n < tests.len() && (#[trigger] tests[n]).called_names.contains(name),
    )
}

/// How often `name` is called.
pub open spec fn call_entry(tests: Seq<TestModel>, name: Seq<char>) -> SutCallModel {
    let ids = sorted_of(callers(tests, name));
    SutCallModel { name, test_function_count: capped(ids.len() as int), test_nodeids: ids }
}

/// The names that the tests call, in order, with their callers; and the most called of them.
pub open spec fn call_summary(tests: Seq<TestModel>) -> SutCallsModel {
    let names = sorted_of(called_by_any(tests));
    let by_name = Seq::new(names.len(), |i: int| call_entry(tests, names[i]));
    SutCallsModel {
        by_name,
        top_called: top(
            Seq::new(by_name.len(), |i: int| (by_name[i].test_function_count, by_name[i].name)),
            TOP_CALLED as nat,
        ),
    }
}

fn resolve_names(raw: &Vec<String>, imports: &ImportMap, packages: &NameSet) -> (r: Vec<String>)
    ensures
        views(r@) == sorted_of(resolved_set(views(raw@), imports@, packages@)),
{
    let mut set = NameSet::new();
    let mut n: usize = 0;
    assert(set@ =~= resolved_set(views(raw@).take(0), imports@, packages@));
    while n < raw.len()
        invariant
            n <= raw@.len(),
            set@ == resolved_set(views(raw@).take(n as int), imports@, packages@),
        decreases raw@.len() - n,
    {
        let found = resolve_called_name(&raw[n], imports, packages);
        if let Some(name) = found {
            set.insert(name);
        }
        proof {
            let short = views(raw@).take(n as int);
            let long = views(raw@).take(n + 1);
            assert(long[n as int] == raw@[n as int]@);
            assert forall|s: Seq<char>| set@.contains(s) == resolved_set(
                long,
                imports@,
                packages@,
            ).contains(s) by {
                if resolved_set(short, imports@, packages@).contains(s) {
                    let k = choose|k: int|
                        0 <= k < short.len() && resolved(#[trigger] short[k], imports@, packages@)
                            == Some(s);
                    assert(long[k] == short[k]);
                }
                if resolved_set(long, imports@, packages@).contains(s) {
                    let k = choose|k: int|
                        0 <= k < long.len() && resolved(#[trigger] long[k], imports@, packages@)
                            == Some(s);
                    if k < n {
                        assert(long[k] == short[k]);
                    }
                }
            }
            assert(set@ =~= resolved_set(long, imports@, packages@));
        }
        n += 1;
    }
    assert(views(raw@).take(n as int) =~= views(raw@));
    set.to_list()
}

fn caller_ids(tests: &Vec<TestRecord>, name: &str) -> (r: Vec<String>)
    ensures
        views(r@) == sorted_of(callers(test_views(tests@), name@)),
{
    let mut set = NameSet::new();
    let mut n: usize = 0;
    assert(set@ =~= callers(test_views(tests@).take(0), name@));
    while n < tests.len()
        invariant
            n <= tests@.len(),
            set@ == callers(test_views(tests@).take(n as int), name@),
        decreases tests@.len() - n,
    {
        let calls = contains_text(&tests[n].called_names, name);
        if calls {
            set.insert(tests[n].nodeid.clone());
        }
        proof {
            let short = test_views(tests@).take(n as int);
            let long = test_views(tests@).take(n + 1);
            assert(long[n as int] == tests@[n as int]@);
            assert forall|s: Seq<char>| set@.contains(s) == callers(long, name@).contains(s) by {
                if callers(short, name@).contains(s) {
                    let k = choose|k: int|
                        0 <= k < short.len() && (#[trigger] short[k]).nodeid == s
                            && short[k].called_names.contains(name@);
                    assert(long[k] == short[k]);
                }
                if callers(long, name@).contains(s) {
                    let k = choose|k: int|
                        0 <= k < long.len() && (#[trigger] long[k]).nodeid == s
                            && long[k].called_names.contains(name@);
                    if k < n {
                        assert(long[k] == short[k]);
                    }
                }
            }
            assert(set@ =~= callers(long, name@));
        }
        n += 1;
    }
    assert(test_views(tests@).take(n as int) =~= test_views(tests@));
    set.to_list()
}

fn names_called(tests: &Vec<TestRecord>) -> (r: Vec<String>)
    ensures
        views(r@) == sorted_of(called_by_any(test_views(tests@))),
{
    let mut set = NameSet::new();
    let mut n: usize = 0;
    assert(set@ =~= called_by_any(test_views(tests@).take(0)));
    while n < tests.len()
        invariant
            n <= tests@.len(),
            set@ == called_by_any(test_views(tests@).take(n as int)),
        decreases tests@.len() - n,
    {
        let names = &tests[n].called_names;
        let ghost before = set@;
        let mut k: usize = 0;
        assert(before.union(views(names@).take(0).to_set()) =~= before);
        while k < names.len()
            invariant
                k <= names@.len(),
                set@ == before.union(views(names@).take(k as int).to_set()),
            decreases names@.len() - k,
        {
            set.insert(names[k].clone());
            proof {
                let t = views(names@);
                assert(t.take(k + 1) =~= t.take(k as int).push(t[k as int]));
                t.take(k as int).lemma_push_to_set_commute(t[k as int]);
                assert(before.union(t.take(k as int).to_set()).insert(t[k as int]) =~= before.union(
                    t.take(k + 1).to_set(),
                ));
            }
            k += 1;
        }
        proof {
            assert(views(names@).take(k as int) =~= views(names@));
            let short = test_views(tests@).take(n as int);
            let long = test_views(tests@).take(n + 1);
            assert(long[n as int] == tests@[n as int]@);
            assert forall|s: Seq<char>| set@.contains(s) == called_by_any(long).contains(s) by {
                if called_by_any(short).contains(s) {
                    let k = choose|k: int|
                        0 <= k < short.len() && (#[trigger] short[k]).called_names.contains(s);
                    assert(long[k] == short[k]);
                }
                if called_by_any(long).contains(s) {
                    let k = choose|k: int|
                        0 <= k < long.len() && (#[trigger] long[k]).called_names.contains(s);
                    if k < n {
                        assert(long[k] == short[k]);
                    }
                }
            }
            assert(set@ =~= called_by_any(long));
        }
        n += 1;
    }
    assert(test_views(tests@).take(n as int) =~= test_views(tests@));
    set.to_list()
}

fn summarize_calls(tests: &Vec<TestRecord>) -> (r: SutCalls)
    ensures
        r@ == call_summary(test_views(tests@)),
{
    let ghost model = test_views(tests@);
    let names = names_called(tests);
    let mut by_name: Vec<SutCallEntry> = Vec::new();
    let mut counts: Vec<(u64, String)> = Vec::new();
    let mut n: usize = 0;
    while n < names.len()
        invariant
            n <= names@.len(),
            model == test_views(tests@),
            by_name@.len() == n,
            counts@.len() == n,
            forall|k: int|
                0 <= k < n ==> (#[trigger] by_name@[k])@ == call_entry(model, names@[k]@),
            forall|k: int|
                0 <= k < n ==> (#[trigger] counts@[k]).0 == by_name@[k].test_function_count
                    && counts@[k].1@ == names@[k]@,
        decreases names@.len() - n,
    {
        let ids = caller_ids(tests, &names[n]);
        assert(views(ids@).len() == ids@.len());
        let count: u64 = ids.len() as u64;
        let entry = SutCallEntry {
            name: names[n].clone(),
            test_function_count: count,
            test_nodeids: ids,
        };
        assert(entry@ =~= call_entry(model, names@[n as int]@));
        by_name.push(entry);
        counts.push((count, names[n].clone()));
        n += 1;
    }
    let ghost ranked_by = entry_views(counts@);
    let top_called = top_names(counts, TOP_CALLED);
    let out = SutCalls { by_name, top_called };
    proof {
        let summary = call_summary(model);
        assert(views(names@).len() == names@.len());
        assert(out@.by_name =~= summary.by_name);
        assert(ranked_by =~= Seq::new(
            summary.by_name.len(),
            |i: int| (summary.by_name[i].test_function_count, summary.by_name[i].name),
        ));
    }
    out
}

/// Narrows the calls of every test to the names inside the project, and says how often each of
/// these is called.
pub fn aggregate(
    tests: &mut Vec<TestRecord>,
    imports_per_file: &FileImports,
    project_packages: &NameSet,
) -> (r: SutCalls)
    ensures
        final(tests)@.len() == old(tests)@.len(),
        forall|i: int|
            0 <= i < old(tests)@.len() ==> (#[trigger] final(tests)@[i])@ == with_resolved_names(
                old(tests)@[i]@,
                imports_per_file@,
                project_packages@,
            ),
        r@ == call_summary(test_views(final(tests)@)),
{
    let ghost start = tests@;
    let unknown = ImportMap::default();
    let mut i: usize = 0;
    while i < tests.len()
        invariant
            i <= tests@.len(),
            tests@.len() == start.len(),
            unknown@ == no_imports(),
            forall|k: int|
                0 <= k < i ==> (#[trigger] tests@[k])@ == with_resolved_names(
                    start[k]@,
                    imports_per_file@,
                    project_packages@,
                ),
            forall|k: int| i <= k < tests@.len() ==> #[trigger] tests@[k] == start[k],
        decreases tests@.len() - i,
    {
        let imports = match imports_per_file.get(&tests[i].file) {
            Some(imports) => imports,
            None => &unknown,
        };
        let names = resolve_names(&tests[i].called_names, imports, project_packages);
        tests[i].called_names = names;
        assert(tests@[i as int]@ =~= with_resolved_names(
            start[i as int]@,
            imports_per_file@,
            project_packages@,
        ));
        i += 1;
    }
    summarize_calls(tests)
}

} // verus!
