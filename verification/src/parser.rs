//! From the syntax tree of a Python file to one record for each test that pytest would collect.
use vstd::prelude::*;
use vstd::string::*;

use crate::accept::{fingerprint, fingerprint_of};
use crate::doubles::{
    call_targets, decorator_patch_targets, decorator_targets, external_verification_sites,
    patch_call_targets, shadowed_names, shadows, verification_test,
};
use crate::expressions::{
    assert_targets_mock_api, asserts_on_mock, call_head, call_head_chain,
    call_head_is_mock_constructor, call_is_unittest_assert, decorator_is_fixture,
    decorator_is_patch, decorator_nodes, decorators, fixture_decorator, keep, mock_construction,
    name_of, node_name, patch_decorator, raises_block, unittest_assert,
    with_statement_is_pytest_raises,
};
use crate::imports::{build_import_map, module_imports};
use crate::mock_api::{among, is_stub_call_head, listed, STUB_HEADS};
use crate::names::NameSet;
use crate::records::{test_views, zero, Measure, SetupRatio, SmellModel, TestModel, TestRecord};
use crate::sut_calls::{no_imports, ImportMap, ImportModel};
use crate::syntax::{
    child_by_field, children, descendants, end_of, named_children, parent, parse_source, position,
    positions, python_syntax, tree_of, NodeModel, SyntaxError, SyntaxTree,
};
use crate::text::{is_prefix, opt_view, same, sorted_of, starts_with, views};

verus! {

/// What one file holds: its tests, its counts and its imports.
#[derive(Debug)]
pub struct ParsedFile {
    pub test_functions: Vec<TestRecord>,
    /// Mock constructions in the bodies of all tests.
    pub mock_construction_count: u64,
    /// Patching decorators on all tests.
    pub patch_decorator_count: u64,
    /// Stub calls in the bodies of all tests.
    pub stubs_count: u64,
    /// Fixture decorators anywhere in the file.
    pub fixture_count: u64,
    pub import_map: ImportMap,
}

/// What a `ParsedFile` says.
#[verifier::ext_equal]
pub struct ParsedModel {
    pub test_functions: Seq<TestModel>,
    pub mock_construction_count: u64,
    pub patch_decorator_count: u64,
    pub stubs_count: u64,
    pub fixture_count: u64,
    pub import_map: ImportModel,
}

impl View for ParsedFile {
    type V = ParsedModel;

    open spec fn view(&self) -> ParsedModel {
        ParsedModel {
            test_functions: test_views(self.test_functions@),
            mock_construction_count: self.mock_construction_count,
            patch_decorator_count: self.patch_decorator_count,
            stubs_count: self.stubs_count,
            fixture_count: self.fixture_count,
            import_map: self.import_map@,
        }
    }
}

/// A count as the machine holds it: the largest number where it does not fit.
pub open spec fn capped(n: int) -> u64 {
    if n > u64::MAX {
        u64::MAX
    } else {
        n as u64
    }
}

/// Being an assertion about a mock.
pub open spec fn mock_assert_test(t: Seq<NodeModel>) -> spec_fn(int) -> bool {
    |k: int| asserts_on_mock(t, k)
}

/// Being a `with` statement that expects an exception.
pub open spec fn raises_test(t: Seq<NodeModel>) -> spec_fn(int) -> bool {
    |k: int| raises_block(t, k)
}

/// Being a call of an assertion method on `self`.
pub open spec fn unittest_test(t: Seq<NodeModel>) -> spec_fn(int) -> bool {
    |k: int| unittest_assert(t, k)
}

/// Being a call that constructs a mock.
pub open spec fn construction_test(t: Seq<NodeModel>) -> spec_fn(int) -> bool {
    |k: int| mock_construction(t, k)
}

/// Being a call by which a fixture rewires the system under test.
pub open spec fn stub_test(t: Seq<NodeModel>) -> spec_fn(int) -> bool {
    |k: int| call_head(t, k) matches Some(h) && among(STUB_HEADS@, h)
}

/// Being a decorator that patches.
pub open spec fn patch_test(t: Seq<NodeModel>) -> spec_fn(int) -> bool {
    |k: int| patch_decorator(t, k)
}

/// Being a decorator that declares a fixture.
pub open spec fn fixture_test(t: Seq<NodeModel>) -> spec_fn(int) -> bool {
    |k: int| fixture_decorator(t, k)
}

/// A chain on `self`.
pub open spec fn on_self(name: Seq<char>) -> bool {
    name == "self"@ || is_prefix("self."@, name)
}

/// The chains that `calls` call, without those on `self`.
pub open spec fn called_set(t: Seq<NodeModel>, calls: Seq<int>) -> Set<Seq<char>> {
    Set::new(
        |s: Seq<char>|
            !on_self(s) && exists|n: int|
                0 <= n < calls.len() && call_head(t, #[trigger] calls[n]) == Some(s),
    )
}

/// The nodes of a kind in a body; none without a body.
pub open spec fn in_body(t: Seq<NodeModel>, body: Option<int>, kind: Seq<char>) -> Seq<int> {
    match body {
        Some(b) => descendants(t, b, kind),
        None => Seq::empty(),
    }
}

/// The least row of a list of nodes, and `row` where that is less.
pub open spec fn least_row(t: Seq<NodeModel>, items: Seq<int>, row: nat) -> nat
    decreases items.len(),
{
    if items.len() == 0 {
        row
    } else {
        let before = least_row(t, items.drop_last(), row);
        if t[items.last()].row < before {
            t[items.last()].row
        } else {
            before
        }
    }
}

/// How far `row` lies below `from`.
pub open spec fn rows_below(row: nat, from: nat) -> int {
    if row > from {
        row - from
    } else {
        0
    }
}

/// The lines from the `def` down to the first of `items`, for each of them.
pub open spec fn ratio_to(t: Seq<NodeModel>, func: int, items: Seq<int>) -> SetupRatio {
    SetupRatio {
        lines: capped(rows_below(least_row(t, items, t[items[0]].row), t[func].row)),
        assertions: capped(items.len() as int),
    }
}

/// Lines of setup for each assertion: down to the first assertion where there is one, else down
/// to the first check of a child process where there is one, else down to the last statement of
/// the body.
pub open spec fn setup_ratio(
    t: Seq<NodeModel>,
    func: int,
    body: Option<int>,
    effective: Seq<int>,
    verifications: Seq<int>,
) -> SetupRatio {
    if effective.len() > 0 {
        ratio_to(t, func, effective)
    } else if verifications.len() > 0 {
        ratio_to(t, func, verifications)
    } else {
        match body {
            Some(b) => {
                let named = named_children(t, b);
                SetupRatio {
                    lines: if named.len() > 0 {
                        capped(rows_below(t[named.last()].row, t[func].row))
                    } else {
                        0
                    },
                    assertions: 1,
                }
            },
            None => SetupRatio { lines: 0, assertions: 1 },
        }
    }
}

/// A test's identity: its file, its class if it has one, and its name.
pub open spec fn nodeid_of(file: Seq<char>, class: Option<Seq<char>>, name: Seq<char>) -> Seq<char> {
    match class {
        Some(c) => file + "::"@ + c + "::"@ + name,
        None => file + "::"@ + name,
    }
}

/// What surrounds the tests of one file: where it is and what it imports.
pub struct FileContext {
    pub file: Seq<char>,
    pub imports: ImportModel,
}

/// What a class gives its tests: its name and the names it replaced for all of them.
#[verifier::ext_equal]
pub struct ClassModel {
    pub name: Option<Seq<char>>,
    pub shadows: Set<Seq<char>>,
}

/// The class of a test that stands in none.
pub open spec fn no_class() -> ClassModel {
    ClassModel { name: None, shadows: Set::empty() }
}

/// The record of one test, and how many mocks its body constructs.
pub open spec fn record_of(
    t: Seq<NodeModel>,
    func: int,
    decorated: Option<int>,
    name: Seq<char>,
    class: ClassModel,
    context: FileContext,
) -> (TestModel, u64) {
    let body = child_by_field(t, func, "body"@);
    let asserts = in_body(t, body, "assert_statement"@);
    let calls = in_body(t, body, "call"@);
    let raises = in_body(t, body, "with_statement"@).filter(raises_test(t));
    let methods = if class.name is Some {
        calls.filter(unittest_test(t))
    } else {
        Seq::empty()
    };
    let replaced = shadows(t, func, decorated, calls, context.imports, class.shadows);
    let verifications = calls.filter(verification_test(t, body, context.imports, replaced));
    let whole = match decorated {
        Some(d) => d,
        None => func,
    };
    (
        TestModel {
            nodeid: nodeid_of(context.file, class.name, name),
            file: context.file,
            line: capped(t[func].row as int + 1),
            assertion_count: capped((asserts.len() + raises.len() + methods.len()) as int),
            only_asserts_on_mock: asserts.len() > 0 && raises.len() == 0 && methods.len() == 0
                && asserts.filter(mock_assert_test(t)).len() == asserts.len(),
            patch_decorator_count: match decorated {
                Some(d) => capped(decorators(t, d).filter(patch_test(t)).len() as int),
                None => 0,
            },
            stubs_count: capped(calls.filter(stub_test(t)).len() as int),
            setup_to_assertion_ratio: setup_ratio(
                t,
                func,
                body,
                asserts + raises + methods,
                verifications,
            ),
            external_verification_count: capped(verifications.len() as int),
            called_names: sorted_of(called_set(t, calls)),
            smell_hits: Seq::empty(),
            suspicion_score: zero(),
            fingerprint: match t[whole].text {
                Some(s) => Some(fingerprint_of(s)),
                None => None,
            },
            accepted_signals: Seq::empty(),
        },
        capped(calls.filter(construction_test(t)).len() as int),
    )
}

/// What a list of tests says.
pub open spec fn built_views(v: Seq<(TestRecord, u64)>) -> Seq<(TestModel, u64)> {
    Seq::new(v.len(), |i: int| (v[i].0@, v[i].1))
}

/// The record of a function if it is a test: one whose name begins with `test_`.
pub open spec fn test_of(
    t: Seq<NodeModel>,
    func: int,
    decorated: Option<int>,
    class: ClassModel,
    context: FileContext,
) -> Seq<(TestModel, u64)> {
    match name_of(t, func) {
        Some(name) => if is_prefix("test_"@, name) {
            seq![record_of(t, func, decorated, name, class, context)]
        } else {
            Seq::empty()
        },
        None => Seq::empty(),
    }
}

/// What `f` finds at `items`, one after the other.
pub open spec fn gathered(items: Seq<int>, f: spec_fn(int) -> Seq<(TestModel, u64)>) -> Seq<
    (TestModel, u64),
>
    decreases items.len(),
{
    if items.len() == 0 {
        Seq::empty()
    } else {
        gathered(items.drop_last(), f) + f(items.last())
    }
}

/// The function behind a statement of a class body, through decorators.
pub open spec fn function_behind(t: Seq<NodeModel>, k: int) -> Option<int> {
    if t[k].kind == "function_definition"@ {
        Some(k)
    } else if t[k].kind == "decorated_definition"@ {
        match child_by_field(t, k, "definition"@) {
            Some(inner) => if t[inner].kind == "function_definition"@ {
                Some(inner)
            } else {
                None
            },
            None => None,
        }
    } else {
        None
    }
}

/// The methods that run before each test of a class and install doubles for it.
pub const SETUP_METHODS: [&'static str; 4] = ["setUp", "setUpClass", "setup_method", "setup_class"];

/// The body of a statement of a class body that is such a method.
pub open spec fn hook_body(t: Seq<NodeModel>, k: int) -> Option<int> {
    match function_behind(t, k) {
        Some(func) => match name_of(t, func) {
            Some(name) => if among(SETUP_METHODS@, name) {
                child_by_field(t, func, "body"@)
            } else {
                None
            },
            None => None,
        },
        None => None,
    }
}

/// The names that the setup methods among `items` replace.
pub open spec fn hook_targets(t: Seq<NodeModel>, items: Seq<int>, imports: ImportModel) -> Set<
    Seq<char>,
>
    decreases items.len(),
{
    if items.len() == 0 {
        Set::empty()
    } else {
        let before = hook_targets(t, items.drop_last(), imports);
        match hook_body(t, items.last()) {
            Some(body) => before.union(
                call_targets(t, descendants(t, body, "call"@), imports),
            ),
            None => before,
        }
    }
}

/// The names that a class replaces for all its tests: by its decorators and in its setup methods.
pub open spec fn class_doubles(
    t: Seq<NodeModel>,
    body: int,
    decorated: Option<int>,
    imports: ImportModel,
) -> Set<Seq<char>> {
    let by_decorators = match decorated {
        Some(d) => decorator_targets(t, d, imports),
        None => Set::empty(),
    };
    by_decorators.union(hook_targets(t, children(t, body), imports))
}

/// The test at a statement of a class body.
pub open spec fn member_tests(t: Seq<NodeModel>, class: ClassModel, context: FileContext) -> spec_fn(
    int,
) -> Seq<(TestModel, u64)> {
    |k: int|
        match function_behind(t, k) {
            Some(func) => test_of(
                t,
                func,
                if func == k {
                    None
                } else {
                    Some(k)
                },
                class,
                context,
            ),
            None => Seq::empty(),
        }
}

/// The tests of a class: those of its body, if its name begins with `Test`.
pub open spec fn class_tests(
    t: Seq<NodeModel>,
    class_node: int,
    decorated: Option<int>,
    context: FileContext,
) -> Seq<(TestModel, u64)> {
    match (name_of(t, class_node), child_by_field(t, class_node, "body"@)) {
        (Some(name), Some(body)) => if is_prefix("Test"@, name) {
            gathered(
                children(t, body),
                member_tests(
                    t,
                    ClassModel {
                        name: Some(name),
                        shadows: class_doubles(t, body, decorated, context.imports),
                    },
                    context,
                ),
            )
        } else {
            Seq::empty()
        },
        _ => Seq::empty(),
    }
}

/// The tests at a statement of the module: a function, a class, or a decorated one of these.
pub open spec fn statement_tests(t: Seq<NodeModel>, context: FileContext) -> spec_fn(int) -> Seq<
    (TestModel, u64),
> {
    |k: int|
        if t[k].kind == "function_definition"@ {
            test_of(t, k, None, no_class(), context)
        } else if t[k].kind == "decorated_definition"@ {
            match child_by_field(t, k, "definition"@) {
                Some(inner) => if t[inner].kind == "function_definition"@ {
                    test_of(t, inner, Some(k), no_class(), context)
                } else if t[inner].kind == "class_definition"@ {
                    class_tests(t, inner, Some(k), context)
                } else {
                    Seq::empty()
                },
                None => Seq::empty(),
            }
        } else if t[k].kind == "class_definition"@ {
            class_tests(t, k, None, context)
        } else {
            Seq::empty()
        }
}

/// The tests of a module, in the order of the source.
pub open spec fn module_tests(t: Seq<NodeModel>, context: FileContext) -> Seq<(TestModel, u64)> {
    gathered(children(t, 0), statement_tests(t, context))
}

/// The sum of `f` over a list of tests.
pub open spec fn total(tests: Seq<(TestModel, u64)>, f: spec_fn((TestModel, u64)) -> u64) -> nat
    decreases tests.len(),
{
    if tests.len() == 0 {
        0
    } else {
        total(tests.drop_last(), f) + f(tests.last()) as nat
    }
}

/// How many mocks a test constructs.
pub open spec fn constructions() -> spec_fn((TestModel, u64)) -> u64 {
    |b: (TestModel, u64)| b.1
}

/// How many decorators patch something for a test.
pub open spec fn patches() -> spec_fn((TestModel, u64)) -> u64 {
    |b: (TestModel, u64)| b.0.patch_decorator_count
}

/// How many stub calls a test makes.
pub open spec fn stubs() -> spec_fn((TestModel, u64)) -> u64 {
    |b: (TestModel, u64)| b.0.stubs_count
}

/// Node `i` is met on a walk from the root that turns back at decorators.
pub open spec fn outside_decorators(t: Seq<NodeModel>, i: int) -> bool
    decreases i,
{
    if i == 0 {
        true
    } else {
        match parent(t, i) {
            Some(p) => 0 <= p < i && t[i].kind != "decorator"@ && outside_decorators(t, p),
            None => false,
        }
    }
}

/// The fixture decorators on the decorated definitions among the first `n` nodes.
pub open spec fn fixtures_before(t: Seq<NodeModel>, n: int) -> nat
    decreases n,
{
    if n <= 0 {
        0
    } else {
        let before = fixtures_before(t, n - 1);
        if t[n - 1].kind == "decorated_definition"@ && outside_decorators(t, n - 1) {
            before + decorators(t, n - 1).filter(fixture_test(t)).len()
        } else {
            before
        }
    }
}

/// What one file holds, read off its syntax tree.
pub open spec fn parsed(t: Seq<NodeModel>, file: Seq<char>) -> ParsedModel {
    let imports = if t.len() > 0 {
        module_imports(t)
    } else {
        no_imports()
    };
    let tests = if t.len() > 0 {
        module_tests(t, FileContext { file, imports })
    } else {
        Seq::empty()
    };
    ParsedModel {
        test_functions: Seq::new(tests.len(), |i: int| tests[i].0),
        mock_construction_count: capped(total(tests, constructions()) as int),
        patch_decorator_count: capped(total(tests, patches()) as int),
        stubs_count: capped(total(tests, stubs()) as int),
        fixture_count: if t.len() > 0 {
            capped(fixtures_before(t, end_of(t, 0)) as int)
        } else {
            0
        },
        import_map: imports,
    }
}

fn body_nodes(tree: &SyntaxTree, body: Option<usize>, kind: &str) -> (r: Vec<usize>)
    requires
        body matches Some(b) ==> b < tree@.len(),
    ensures
        positions(r@) == in_body(tree@, position(body), kind@),
        forall|n: int| 0 <= n < r@.len() ==> (#[trigger] r@[n]) < tree@.len(),
{
    match body {
        Some(b) => tree.descendants_of(b, kind),
        None => {
            let none: Vec<usize> = Vec::new();
            assert(positions(none@) =~= Seq::<int>::empty());
            none
        },
    }
}

/// The calls in a body.
pub fn collect_calls(tree: &SyntaxTree, body: Option<usize>) -> (r: Vec<usize>)
    requires
        body matches Some(b) ==> b < tree@.len(),
    ensures
        positions(r@) == in_body(tree@, position(body), "call"@),
        forall|n: int| 0 <= n < r@.len() ==> (#[trigger] r@[n]) < tree@.len(),
{
    body_nodes(tree, body, "call")
}

/// The `assert` statements in a body.
pub fn collect_asserts(tree: &SyntaxTree, body: Option<usize>) -> (r: Vec<usize>)
    requires
        body matches Some(b) ==> b < tree@.len(),
    ensures
        positions(r@) == in_body(tree@, position(body), "assert_statement"@),
        forall|n: int| 0 <= n < r@.len() ==> (#[trigger] r@[n]) < tree@.len(),
{
    body_nodes(tree, body, "assert_statement")
}

/// The `with` statements in a body that expect an exception.
pub fn collect_raises_blocks(tree: &SyntaxTree, body: Option<usize>) -> (r: Vec<usize>)
    requires
        body matches Some(b) ==> b < tree@.len(),
    ensures
        positions(r@) == in_body(tree@, position(body), "with_statement"@).filter(
            raises_test(tree@),
        ),
        forall|n: int| 0 <= n < r@.len() ==> (#[trigger] r@[n]) < tree@.len(),
{
    let all = body_nodes(tree, body, "with_statement");
    let test = |k: usize| -> (b: bool)
        requires
            k < tree@.len(),
        ensures
            b == raises_test(tree@)(k as int),
        { with_statement_is_pytest_raises(tree, k) };
    let found = keep(&all, Ghost(raises_test(tree@)), test);
    assert forall|n: int| 0 <= n < found@.len() implies (#[trigger] found@[n]) < tree@.len() by {
        assert(all@.contains(found@[n]));
    }
    found
}

/// The calls that are assertion methods of a test case; outside a class `self` is none.
pub fn collect_unittest_asserts(tree: &SyntaxTree, calls: &Vec<usize>, in_class: bool) -> (r: Vec<
    usize,
>)
    requires
        forall|n: int| 0 <= n < calls@.len() ==> (#[trigger] calls@[n]) < tree@.len(),
    ensures
        positions(r@) == if in_class {
            positions(calls@).filter(unittest_test(tree@))
        } else {
            Seq::empty()
        },
        forall|n: int| 0 <= n < r@.len() ==> (#[trigger] r@[n]) < tree@.len(),
{
    if !in_class {
        let none: Vec<usize> = Vec::new();
        assert(positions(none@) =~= Seq::<int>::empty());
        return none;
    }
    let test = |k: usize| -> (b: bool)
        requires
            k < tree@.len(),
        ensures
            b == unittest_test(tree@)(k as int),
        { call_is_unittest_assert(tree, k) };
    let found = keep(calls, Ghost(unittest_test(tree@)), test);
    assert forall|n: int| 0 <= n < found@.len() implies (#[trigger] found@[n]) < tree@.len() by {
        assert(calls@.contains(found@[n]));
    }
    found
}

fn count_mock_asserts(tree: &SyntaxTree, asserts: &Vec<usize>) -> (r: usize)
    requires
        forall|n: int| 0 <= n < asserts@.len() ==> (#[trigger] asserts@[n]) < tree@.len(),
    ensures
        r == positions(asserts@).filter(mock_assert_test(tree@)).len(),
{
    let test = |k: usize| -> (b: bool)
        requires
            k < tree@.len(),
        ensures
            b == mock_assert_test(tree@)(k as int),
        { assert_targets_mock_api(tree, k) };
    let found = keep(asserts, Ghost(mock_assert_test(tree@)), test);
    assert(positions(found@).len() == found@.len());
    found.len()
}

fn count_constructions(tree: &SyntaxTree, calls: &Vec<usize>) -> (r: usize)
    requires
        forall|n: int| 0 <= n < calls@.len() ==> (#[trigger] calls@[n]) < tree@.len(),
    ensures
        r == positions(calls@).filter(construction_test(tree@)).len(),
{
    let test = |k: usize| -> (b: bool)
        requires
            k < tree@.len(),
        ensures
            b == construction_test(tree@)(k as int),
        { call_head_is_mock_constructor(tree, k) };
    let found = keep(calls, Ghost(construction_test(tree@)), test);
    assert(positions(found@).len() == found@.len());
    found.len()
}

fn count_stubs(tree: &SyntaxTree, calls: &Vec<usize>) -> (r: usize)
    requires
        forall|n: int| 0 <= n < calls@.len() ==> (#[trigger] calls@[n]) < tree@.len(),
    ensures
        r == positions(calls@).filter(stub_test(tree@)).len(),
{
    let test = |k: usize| -> (b: bool)
        requires
            k < tree@.len(),
        ensures
            b == stub_test(tree@)(k as int),
        {
            match call_head_chain(tree, k) {
                Some(h) => is_stub_call_head(&h),
                None => false,
            }
        };
    let found = keep(calls, Ghost(stub_test(tree@)), test);
    assert(positions(found@).len() == found@.len());
    found.len()
}

/// How many decorators of a definition patch something.
pub fn count_patch_decorators(tree: &SyntaxTree, decorated: usize) -> (r: u64)
    requires
        decorated < tree@.len(),
    ensures
        r == capped(decorators(tree@, decorated as int).filter(patch_test(tree@)).len() as int),
{
    let all = decorator_nodes(tree, decorated);
    let test = |k: usize| -> (b: bool)
        requires
            k < tree@.len(),
        ensures
            b == patch_test(tree@)(k as int),
        { decorator_is_patch(tree, k) };
    let found = keep(&all, Ghost(patch_test(tree@)), test);
    assert(positions(found@).len() == found@.len());
    found.len() as u64
}

fn count_fixtures_of(tree: &SyntaxTree, decorated: usize) -> (r: usize)
    requires
        decorated < tree@.len(),
    ensures
        r == decorators(tree@, decorated as int).filter(fixture_test(tree@)).len(),
{
    let all = decorator_nodes(tree, decorated);
    let test = |k: usize| -> (b: bool)
        requires
            k < tree@.len(),
        ensures
            b == fixture_test(tree@)(k as int),
        { decorator_is_fixture(tree, k) };
    let found = keep(&all, Ghost(fixture_test(tree@)), test);
    assert(positions(found@).len() == found@.len());
    found.len()
}

/// The chains that the calls of a test call, without those on `self`: each once, in order.
pub fn called_names_for_test(tree: &SyntaxTree, calls: &Vec<usize>) -> (r: Vec<String>)
    requires
        forall|n: int| 0 <= n < calls@.len() ==> (#[trigger] calls@[n]) < tree@.len(),
    ensures
        views(r@) == sorted_of(called_set(tree@, positions(calls@))),
{
    let mut set = NameSet::new();
    let mut n: usize = 0;
    assert(set@ =~= called_set(tree@, positions(calls@).take(0)));
    while n < calls.len()
        invariant
            n <= calls@.len(),
            forall|k: int| 0 <= k < calls@.len() ==> (#[trigger] calls@[k]) < tree@.len(),
            set@ == called_set(tree@, positions(calls@).take(n as int)),
        decreases calls@.len() - n,
    {
        let ghost before = set@;
        let head = call_head_chain(tree, calls[n]);
        if let Some(c) = head {
            if !same(&c, "self") && !starts_with(&c, "self.") {
                set.insert(c);
            }
        }
        proof {
            let short = positions(calls@).take(n as int);
            let long = positions(calls@).take(n + 1);
            assert(long[n as int] == calls@[n as int]);
            assert forall|s: Seq<char>| set@.contains(s) == called_set(tree@, long).contains(
                s,
            ) by {
                if called_set(tree@, short).contains(s) {
                    let k = choose|k: int|
                        0 <= k < short.len() && call_head(tree@, #[trigger] short[k]) == Some(s);
                    assert(long[k] == short[k]);
                }
                if called_set(tree@, long).contains(s) {
                    let k = choose|k: int|
                        0 <= k < long.len() && call_head(tree@, #[trigger] long[k]) == Some(s);
                    if k < n {
                        assert(long[k] == short[k]);
                    }
                }
            }
            assert(set@ =~= called_set(tree@, long));
        }
        n += 1;
    }
    assert(positions(calls@).take(n as int) =~= positions(calls@));
    set.to_list()
}

fn least_row_of(tree: &SyntaxTree, items: &Vec<usize>, start: usize) -> (r: usize)
    requires
        forall|n: int| 0 <= n < items@.len() ==> (#[trigger] items@[n]) < tree@.len(),
    ensures
        r == least_row(tree@, positions(items@), start as nat),
{
    let mut row: usize = start;
    let mut n: usize = 0;
    while n < items.len()
        invariant
            n <= items@.len(),
            tree@.len() == tree.nodes@.len(),
            forall|k: int| 0 <= k < items@.len() ==> (#[trigger] items@[k]) < tree@.len(),
            row == least_row(tree@, positions(items@).take(n as int), start as nat),
        decreases items@.len() - n,
    {
        proof {
            let part = positions(items@).take(n + 1);
            assert(part.drop_last() =~= positions(items@).take(n as int));
            assert(part.last() == items@[n as int]);
        }
        let k: usize = items[n];
        if tree.nodes[k].row < row {
            row = tree.nodes[k].row;
        }
        n += 1;
    }
    assert(positions(items@).take(n as int) =~= positions(items@));
    row
}

fn lines_below(row: usize, from: usize) -> (r: u64)
    ensures
        r == capped(rows_below(row as nat, from as nat)),
{
    if row > from {
        (row - from) as u64
    } else {
        0
    }
}

fn ratio_down_to(tree: &SyntaxTree, func: usize, items: &Vec<usize>) -> (r: SetupRatio)
    requires
        func < tree@.len(),
        items@.len() > 0,
        forall|n: int| 0 <= n < items@.len() ==> (#[trigger] items@[n]) < tree@.len(),
    ensures
        r == ratio_to(tree@, func as int, positions(items@)),
{
    let head: usize = items[0];
    assert(positions(items@)[0] == head);
    let start: usize = tree.nodes[head].row;
    let row: usize = least_row_of(tree, items, start);
    assert(positions(items@).len() == items@.len());
    SetupRatio {
        lines: lines_below(row, tree.nodes[func].row),
        assertions: items.len() as u64,
    }
}

/// Lines of setup for each assertion of a test.
pub fn compute_setup_to_assertion_ratio(
    tree: &SyntaxTree,
    func: usize,
    body: Option<usize>,
    effective: &Vec<usize>,
    verification_sites: &Vec<usize>,
) -> (r: SetupRatio)
    requires
        func < tree@.len(),
        body matches Some(b) ==> b < tree@.len(),
        forall|n: int| 0 <= n < effective@.len() ==> (#[trigger] effective@[n]) < tree@.len(),
        forall|n: int|
            0 <= n < verification_sites@.len() ==> (#[trigger] verification_sites@[n])
                < tree@.len(),
    ensures
        r == setup_ratio(
            tree@,
            func as int,
            position(body),
            positions(effective@),
            positions(verification_sites@),
        ),
{
    assert(positions(effective@).len() == effective@.len());
    assert(positions(verification_sites@).len() == verification_sites@.len());
    if effective.len() > 0 {
        return ratio_down_to(tree, func, effective);
    }
    if verification_sites.len() > 0 {
        return ratio_down_to(tree, func, verification_sites);
    }
    match body {
        Some(b) => {
            let named = tree.named_children_of(b);
            assert(positions(named@).len() == named@.len());
            if named.len() > 0 {
                let last: usize = named[named.len() - 1];
                assert(positions(named@).last() == last);
                SetupRatio {
                    lines: lines_below(tree.nodes[last].row, tree.nodes[func].row),
                    assertions: 1,
                }
            } else {
                SetupRatio { lines: 0, assertions: 1 }
            }
        },
        None => SetupRatio { lines: 0, assertions: 1 },
    }
}

fn nodeid(file: &str, class: &Option<String>, name: &str) -> (r: String)
    ensures
        r@ == nodeid_of(file@, opt_view(*class), name@),
{
    let mut out = file.to_owned();
    out.append("::");
    if let Some(c) = class {
        out.append(c);
        out.append("::");
    }
    out.append(name);
    out
}

/// What a class gives its tests.
pub struct ClassContext {
    pub name: Option<String>,
    pub shadows: NameSet,
}

impl View for ClassContext {
    type V = ClassModel;

    open spec fn view(&self) -> ClassModel {
        ClassModel { name: opt_view(self.name), shadows: self.shadows@ }
    }
}

/// The record of one test, and how many mocks its body constructs.
pub fn build_record(
    tree: &SyntaxTree,
    func: usize,
    decorated: Option<usize>,
    name: &str,
    file_path: &str,
    class: &ClassContext,
    imports: &ImportMap,
) -> (r: (TestRecord, u64))
    requires
        func < tree@.len(),
        decorated matches Some(d) ==> d < tree@.len(),
    ensures
        (r.0@, r.1) == record_of(
            tree@,
            func as int,
            position(decorated),
            name@,
            class@,
            FileContext { file: file_path@, imports: imports@ },
        ),
{
    let body = tree.child(func, "body");
    let asserts = collect_asserts(tree, body);
    let calls = collect_calls(tree, body);
    let raises = collect_raises_blocks(tree, body);
    let methods = collect_unittest_asserts(tree, &calls, class.name.is_some());
    let mut effective: Vec<usize> = Vec::new();
    let mut n: usize = 0;
    while n < asserts.len()
        invariant
            n <= asserts@.len(),
            effective@ == asserts@.take(n as int),
        decreases asserts@.len() - n,
    {
        effective.push(asserts[n]);
        n += 1;
    }
    let mut m: usize = 0;
    while m < raises.len()
        invariant
            m <= raises@.len(),
            effective@ =~= asserts@ + raises@.take(m as int),
        decreases raises@.len() - m,
    {
        effective.push(raises[m]);
        m += 1;
    }
    let mut k: usize = 0;
    while k < methods.len()
        invariant
            k <= methods@.len(),
            effective@ =~= asserts@ + raises@ + methods@.take(k as int),
        decreases methods@.len() - k,
    {
        effective.push(methods[k]);
        k += 1;
    }
    proof {
        assert(effective@ =~= asserts@ + raises@ + methods@);
        assert(positions(effective@) =~= positions(asserts@) + positions(raises@) + positions(
            methods@,
        ));
        assert(positions(asserts@).len() == asserts@.len());
        assert(positions(raises@).len() == raises@.len());
        assert(positions(methods@).len() == methods@.len());
        assert(positions(calls@).len() == calls@.len());
    }
    let assertion_count: u64 = (asserts.len() as u64).saturating_add(
        raises.len() as u64,
    ).saturating_add(methods.len() as u64);
    let on_mock: usize = count_mock_asserts(tree, &asserts);
    let only_asserts_on_mock = asserts.len() > 0 && raises.len() == 0 && methods.len() == 0
        && on_mock == asserts.len();
    let constructions: u64 = count_constructions(tree, &calls) as u64;
    let stubs_count: u64 = count_stubs(tree, &calls) as u64;
    let called_names = called_names_for_test(tree, &calls);
    let replaced = shadowed_names(tree, func, decorated, &calls, imports, &class.shadows);
    let sites = external_verification_sites(tree, &calls, body, imports, &replaced);
    assert(positions(sites@).len() == sites@.len());
    let patch_decorator_count: u64 = match decorated {
        Some(d) => count_patch_decorators(tree, d),
        None => 0,
    };
    let ratio = compute_setup_to_assertion_ratio(tree, func, body, &effective, &sites);
    let whole: usize = match decorated {
        Some(d) => d,
        None => func,
    };
    let print = match tree.text_of(whole) {
        Some(s) => Some(fingerprint(s)),
        None => None,
    };
    let record = TestRecord {
        nodeid: nodeid(file_path, &class.name, name),
        file: file_path.to_owned(),
        line: (tree.nodes[func].row as u64).saturating_add(1),
        assertion_count,
        only_asserts_on_mock,
        patch_decorator_count,
        stubs_count,
        setup_to_assertion_ratio: ratio,
        external_verification_count: sites.len() as u64,
        called_names,
        smell_hits: Vec::new(),
        suspicion_score: Measure::zero(),
        fingerprint: print,
        accepted_signals: Vec::new(),
    };
    proof {
        let model = record_of(
            tree@,
            func as int,
            position(decorated),
            name@,
            class@,
            FileContext { file: file_path@, imports: imports@ },
        );
        assert(record@.smell_hits =~= Seq::<SmellModel>::empty());
        assert(record@.accepted_signals =~= Seq::<Seq<char>>::empty());
        assert(record@ =~= model.0);
    }
    (record, constructions)
}

/// The record of a function if it is a test.
pub fn try_collect_test_function(
    tree: &SyntaxTree,
    func: usize,
    decorated: Option<usize>,
    file_path: &str,
    class: &ClassContext,
    imports: &ImportMap,
) -> (r: Vec<(TestRecord, u64)>)
    requires
        func < tree@.len(),
        decorated matches Some(d) ==> d < tree@.len(),
    ensures
        built_views(r@) == test_of(
            tree@,
            func as int,
            position(decorated),
            class@,
            FileContext { file: file_path@, imports: imports@ },
        ),
{
    let mut out: Vec<(TestRecord, u64)> = Vec::new();
    assert(built_views(out@) =~= Seq::<(TestModel, u64)>::empty());
    if let Some(name) = node_name(tree, func) {
        if starts_with(name, "test_") {
            out.push(build_record(tree, func, decorated, name, file_path, class, imports));
            assert(built_views(out@) =~= seq![
                record_of(
                    tree@,
                    func as int,
                    position(decorated),
                    name@,
                    class@,
                    FileContext { file: file_path@, imports: imports@ },
                ),
            ]);
        }
    }
    out
}

fn behind_decorators(tree: &SyntaxTree, k: usize) -> (r: Option<usize>)
    requires
        k < tree@.len(),
    ensures
        position(r) == function_behind(tree@, k as int),
        r matches Some(f) ==> k <= f < tree@.len(),
{
    if tree.is_kind(k, "function_definition") {
        Some(k)
    } else if tree.is_kind(k, "decorated_definition") {
        match tree.child(k, "definition") {
            Some(inner) => if tree.is_kind(inner, "function_definition") {
                Some(inner)
            } else {
                None
            },
            None => None,
        }
    } else {
        None
    }
}

/// The body of a statement of a class body that is a setup method.
pub fn setup_method(tree: &SyntaxTree, k: usize) -> (r: Option<usize>)
    requires
        k < tree@.len(),
    ensures
        position(r) == hook_body(tree@, k as int),
        r matches Some(b) ==> b < tree@.len(),
{
    match behind_decorators(tree, k) {
        Some(func) => match node_name(tree, func) {
            Some(name) => {
                if listed(SETUP_METHODS.as_slice(), name) {
                    tree.child(func, "body")
                } else {
                    None
                }
            },
            None => None,
        },
        None => None,
    }
}

/// The names that a class replaces for all its tests.
pub fn class_installed_doubles(
    tree: &SyntaxTree,
    class_body: usize,
    class_decorated: Option<usize>,
    imports: &ImportMap,
) -> (r: NameSet)
    requires
        class_body < tree@.len(),
        class_decorated matches Some(d) ==> d < tree@.len(),
    ensures
        r@ == class_doubles(tree@, class_body as int, position(class_decorated), imports@),
{
    let mut hooks = NameSet::new();
    let items = tree.children_of(class_body);
    let mut n: usize = 0;
    while n < items.len()
        invariant
            n <= items@.len(),
            forall|k: int| 0 <= k < items@.len() ==> (#[trigger] items@[k]) < tree@.len(),
            hooks@ == hook_targets(tree@, positions(items@).take(n as int), imports@),
        decreases items@.len() - n,
    {
        proof {
            let part = positions(items@).take(n + 1);
            assert(part.drop_last() =~= positions(items@).take(n as int));
            assert(part.last() == items@[n as int]);
        }
        if let Some(body) = setup_method(tree, items[n]) {
            let calls = tree.descendants_of(body, "call");
            hooks.insert_all(&patch_call_targets(tree, &calls, imports));
        }
        n += 1;
    }
    assert(positions(items@).take(n as int) =~= positions(items@));
    let mut names = match class_decorated {
        Some(d) => decorator_patch_targets(tree, d, imports),
        None => NameSet::new(),
    };
    names.insert_all(&hooks);
    names
}

/// The tests of a class.
pub fn collect_class_tests(
    tree: &SyntaxTree,
    class_node: usize,
    class_decorated: Option<usize>,
    file_path: &str,
    imports: &ImportMap,
) -> (r: Vec<(TestRecord, u64)>)
    requires
        class_node < tree@.len(),
        class_decorated matches Some(d) ==> d < tree@.len(),
    ensures
        built_views(r@) == class_tests(
            tree@,
            class_node as int,
            position(class_decorated),
            FileContext { file: file_path@, imports: imports@ },
        ),
{
    let ghost context = FileContext { file: file_path@, imports: imports@ };
    let mut out: Vec<(TestRecord, u64)> = Vec::new();
    assert(built_views(out@) =~= Seq::<(TestModel, u64)>::empty());
    let (name, body) = match (node_name(tree, class_node), tree.child(class_node, "body")) {
        (Some(name), Some(body)) => (name, body),
        _ => {
            return out;
        },
    };
    if !starts_with(name, "Test") {
        return out;
    }
    let class = ClassContext {
        name: Some(name.clone()),
        shadows: class_installed_doubles(tree, body, class_decorated, imports),
    };
    let items = tree.children_of(body);
    let ghost f = member_tests(tree@, class@, context);
    let mut n: usize = 0;
    while n < items.len()
        invariant
            n <= items@.len(),
            context == (FileContext { file: file_path@, imports: imports@ }),
            f == member_tests(tree@, class@, context),
            forall|k: int| 0 <= k < items@.len() ==> (#[trigger] items@[k]) < tree@.len(),
            built_views(out@) == gathered(positions(items@).take(n as int), f),
        decreases items@.len() - n,
    {
        let k: usize = items[n];
        let ghost before = built_views(out@);
        proof {
            let part = positions(items@).take(n + 1);
            assert(part.drop_last() =~= positions(items@).take(n as int));
            assert(part.last() == k);
            assert(before + Seq::<(TestModel, u64)>::empty() =~= before);
        }
        if let Some(func) = behind_decorators(tree, k) {
            let wrapper: Option<usize> = if func == k {
                None
            } else {
                Some(k)
            };
            let mut more = try_collect_test_function(
                tree,
                func,
                wrapper,
                file_path,
                &class,
                imports,
            );
            let ghost added = built_views(more@);
            out.append(&mut more);
            assert(built_views(out@) =~= before + added);
        }
        n += 1;
    }
    assert(positions(items@).take(n as int) =~= positions(items@));
    out
}

fn collect_statement_tests(
    tree: &SyntaxTree,
    k: usize,
    file_path: &str,
    imports: &ImportMap,
) -> (r: Vec<(TestRecord, u64)>)
    requires
        k < tree@.len(),
    ensures
        built_views(r@) == statement_tests(
            tree@,
            FileContext { file: file_path@, imports: imports@ },
        )(k as int),
{
    let outside = ClassContext { name: None, shadows: NameSet::new() };
    assert(outside@ =~= no_class());
    let none: Vec<(TestRecord, u64)> = Vec::new();
    assert(built_views(none@) =~= Seq::<(TestModel, u64)>::empty());
    if tree.is_kind(k, "function_definition") {
        try_collect_test_function(tree, k, None, file_path, &outside, imports)
    } else if tree.is_kind(k, "decorated_definition") {
        match tree.child(k, "definition") {
            Some(inner) => {
                if tree.is_kind(inner, "function_definition") {
                    try_collect_test_function(tree, inner, Some(k), file_path, &outside, imports)
                } else if tree.is_kind(inner, "class_definition") {
                    collect_class_tests(tree, inner, Some(k), file_path, imports)
                } else {
                    none
                }
            },
            None => none,
        }
    } else if tree.is_kind(k, "class_definition") {
        collect_class_tests(tree, k, None, file_path, imports)
    } else {
        none
    }
}

/// The tests of a module, in the order of the source.
pub fn collect_module_tests(tree: &SyntaxTree, file_path: &str, imports: &ImportMap) -> (r: Vec<
    (TestRecord, u64),
>)
    requires
        tree@.len() > 0,
    ensures
        built_views(r@) == module_tests(
            tree@,
            FileContext { file: file_path@, imports: imports@ },
        ),
{
    let ghost context = FileContext { file: file_path@, imports: imports@ };
    let ghost f = statement_tests(tree@, context);
    let mut out: Vec<(TestRecord, u64)> = Vec::new();
    let items = tree.children_of(0);
    let mut n: usize = 0;
    assert(built_views(out@) =~= gathered(positions(items@).take(0), f));
    while n < items.len()
        invariant
            n <= items@.len(),
            context == (FileContext { file: file_path@, imports: imports@ }),
            f == statement_tests(tree@, context),
            forall|k: int| 0 <= k < items@.len() ==> (#[trigger] items@[k]) < tree@.len(),
            built_views(out@) == gathered(positions(items@).take(n as int), f),
        decreases items@.len() - n,
    {
        let k: usize = items[n];
        let ghost before = built_views(out@);
        proof {
            let part = positions(items@).take(n + 1);
            assert(part.drop_last() =~= positions(items@).take(n as int));
            assert(part.last() == k);
        }
        let mut more = collect_statement_tests(tree, k, file_path, imports);
        let ghost added = built_views(more@);
        out.append(&mut more);
        assert(built_views(out@) =~= before + added);
        n += 1;
    }
    assert(positions(items@).take(n as int) =~= positions(items@));
    out
}

/// How many decorators in the file declare a fixture.
pub fn count_fixture_decorators(tree: &SyntaxTree) -> (r: u64)
    requires
        tree@.len() > 0,
    ensures
        r == capped(fixtures_before(tree@, end_of(tree@, 0)) as int),
{
    let end: usize = tree.end(0);
    let mut outside: Vec<bool> = Vec::new();
    let mut count: u64 = 0;
    let mut i: usize = 0;
    while i < end
        invariant
            i <= end <= tree@.len(),
            outside@.len() == i,
            forall|k: int| 0 <= k < i ==> outside@[k] == outside_decorators(tree@, k),
            count == capped(fixtures_before(tree@, i as int) as int),
        decreases end - i,
    {
        let reached = if i == 0 {
            true
        } else {
            match tree.parent_of(i) {
                Some(p) => !tree.is_kind(i, "decorator") && outside[p],
                None => false,
            }
        };
        outside.push(reached);
        if reached && tree.is_kind(i, "decorated_definition") {
            count = count.saturating_add(count_fixtures_of(tree, i) as u64);
        }
        i += 1;
    }
    count
}

proof fn lemma_total_push(
    tests: Seq<(TestModel, u64)>,
    n: int,
    f: spec_fn((TestModel, u64)) -> u64,
)
    requires
        0 <= n < tests.len(),
    ensures
        total(tests.take(n + 1), f) == total(tests.take(n), f) + f(tests[n]),
{
    let part = tests.take(n + 1);
    assert(part.drop_last() =~= tests.take(n));
    assert(part.last() == tests[n]);
}

/// What one file holds, read off its syntax tree. `file_path` only names it.
pub fn parse_python_tree(tree: &SyntaxTree, file_path: &str) -> (r: ParsedFile)
    ensures
        r@ == parsed(tree@, file_path@),
{
    let mut test_functions: Vec<TestRecord> = Vec::new();
    if tree.nodes.len() == 0 {
        let empty = ParsedFile {
            test_functions,
            mock_construction_count: 0,
            patch_decorator_count: 0,
            stubs_count: 0,
            fixture_count: 0,
            import_map: ImportMap::default(),
        };
        assert(empty@.test_functions =~= parsed(tree@, file_path@).test_functions);
        return empty;
    }
    let import_map = build_import_map(tree);
    let built = collect_module_tests(tree, file_path, &import_map);
    let ghost tests = built_views(built@);
    let mut mock_construction_count: u64 = 0;
    let mut patch_decorator_count: u64 = 0;
    let mut stubs_count: u64 = 0;
    for entry in it: built
        invariant
            built_views(it.seq()) == tests,
            test_views(test_functions@) == Seq::new(
                it.index() as nat,
                |i: int| tests[i].0,
            ),
            mock_construction_count == capped(
                total(tests.take(it.index() as int), constructions()) as int,
            ),
            patch_decorator_count == capped(
                total(tests.take(it.index() as int), patches()) as int,
            ),
            stubs_count == capped(total(tests.take(it.index() as int), stubs()) as int),
    {
        let ghost n = it.index() as int;
        let (record, constructed) = entry;
        proof {
            lemma_total_push(tests, n, constructions());
            lemma_total_push(tests, n, patches());
            lemma_total_push(tests, n, stubs());
            assert(tests[n] == (record@, constructed));
        }
        mock_construction_count = mock_construction_count.saturating_add(constructed);
        patch_decorator_count = patch_decorator_count.saturating_add(record.patch_decorator_count);
        stubs_count = stubs_count.saturating_add(record.stubs_count);
        let ghost before = test_functions@;
        test_functions.push(record);
        proof {
            assert(test_views(test_functions@) =~= test_views(before).push(record@));
            assert(test_views(test_functions@) =~= Seq::new((n + 1) as nat, |i: int| tests[i].0));
        }
    }
    assert(tests.take(tests.len() as int) =~= tests);
    let fixture_count: u64 = count_fixture_decorators(tree);
    let out = ParsedFile {
        test_functions,
        mock_construction_count,
        patch_decorator_count,
        stubs_count,
        fixture_count,
        import_map,
    };
    assert(out@ =~= parsed(tree@, file_path@));
    out
}

/// What one Python source file holds. `file_path` only names it.
pub fn parse_python_file(source: &str, file_path: &str) -> (r: Result<ParsedFile, SyntaxError>)
    ensures
        match python_syntax(source@) {
            Ok(raw) => r is Ok && r->Ok_0@ == parsed(tree_of(raw, source@), file_path@),
            Err(e) => r == Err::<ParsedFile, SyntaxError>(e),
        },
{
    match parse_source(source) {
        Ok(tree) => Ok(parse_python_tree(&tree, file_path)),
        Err(e) => Err(e),
    }
}

} // verus!
