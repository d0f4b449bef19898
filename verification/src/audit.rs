//! The steps of an audit on plain values: what a run is to do, and what becomes of the files that
//! it read and of the runs that it made.
use vstd::prelude::*;
use vstd::string::*;

use crate::accept::{
    apply, finding_views, lapsed_entries, live_findings, stale_views, with_acceptances,
};
use crate::baseline::{entry_views, Baseline};
use crate::inventory::{
    empty_inventory, is_tool, nothing_measured, SCHEMA_VERSION, Inventory, MemberCwd, Project,
    Suite, ToolInfo, TopSuspicious,
};
use crate::names::NameSet;
use crate::ordering::{by_line, line_key, stable};
use crate::parser::{capped, ParsedFile, ParsedModel};
use crate::paths::{below, relative, seen_from, under};
use crate::pytest::CollectionOutcome;
use crate::ranking::top;
use crate::records::{
    file_views, smell_views, test_views, FileModel, FileRecord, Measure, SlowTest, SmellHit,
    SmellModel, TestModel, TestRecord,
};
use crate::smells::{
    derive_file_smells, derive_test_smells, file_smells, test_smells, MockSmellConfig,
};
use crate::suspicion::{
    eligible, measure_views, of_file, scored_files, scored_tests, shortlist, tests_of_file,
    top_n_files,
};
use crate::sut_calls::{aggregate, call_summary, with_resolved_names, FileImports, ImportModel};
use crate::text::{chars_of, opt_view, views};

verus! {

/// What an audit is to look at.
#[derive(Copy, Clone, Debug, PartialEq, Eq, Structural)]
pub enum Target {
    /// One file.
    File,
    /// One project.
    Project,
    /// Every member of a workspace.
    Workspace,
}

/// What the user gave and what is there.
#[derive(Copy, Clone, Debug)]
pub struct Request {
    /// Whether there is something at the path.
    pub found: bool,
    /// Whether it is a directory.
    pub is_dir: bool,
    /// Whether it declares a workspace.
    pub declares_workspace: bool,
    pub tests_dir_given: bool,
    pub project_package_given: bool,
    pub accept_file_given: bool,
}

/// What an audit is to look at, or why it is refused.
pub open spec fn target_of(request: Request, path: Seq<char>) -> Result<Target, Seq<char>> {
    if !request.found {
        Err("path does not exist: "@ + path)
    } else if !request.is_dir {
        if request.tests_dir_given {
            Err(
                "--tests-dir is only meaningful with a project-directory input (got file: "@ + path
                    + ")"@,
            )
        } else {
            Ok(Target::File)
        }
    } else if request.declares_workspace {
        if request.tests_dir_given {
            Err(
                "--tests-dir is incompatible with a uv-workspace root ("@ + path
                    + "); set it per-member instead"@,
            )
        } else if request.project_package_given {
            Err(
                "--project-package is incompatible with a uv-workspace root ("@ + path
                    + "); each member's pyproject declares its own package"@,
            )
        } else if request.accept_file_given {
            Err(
                "--accept-file is incompatible with a uv-workspace root ("@ + path
                    + "); each member reads its own"@,
            )
        } else {
            Ok(Target::Workspace)
        }
    } else {
        Ok(Target::Project)
    }
}

fn around(before: &str, path: &str, after: &str) -> (r: String)
    ensures
        r@ == before@ + path@ + after@,
{
    let mut out = before.to_owned();
    out.append(path);
    out.append(after);
    out
}

/// What an audit is to look at, or why it is refused.
pub fn choose_target(request: &Request, path: &str) -> (r: Result<Target, String>)
    ensures
        match target_of(*request, path@) {
            Ok(target) => r == Ok::<Target, String>(target),
            Err(e) => r is Err && r->Err_0@ == e,
        },
{
    if !request.found {
        let mut out = "path does not exist: ".to_owned();
        out.append(path);
        return Err(out);
    }
    if !request.is_dir {
        if request.tests_dir_given {
            return Err(
                around(
                    "--tests-dir is only meaningful with a project-directory input (got file: ",
                    path,
                    ")",
                ),
            );
        }
        return Ok(Target::File);
    }
    if request.declares_workspace {
        if request.tests_dir_given {
            return Err(
                around(
                    "--tests-dir is incompatible with a uv-workspace root (",
                    path,
                    "); set it per-member instead",
                ),
            );
        }
        if request.project_package_given {
            return Err(
                around(
                    "--project-package is incompatible with a uv-workspace root (",
                    path,
                    "); each member's pyproject declares its own package",
                ),
            );
        }
        if request.accept_file_given {
            return Err(
                around(
                    "--accept-file is incompatible with a uv-workspace root (",
                    path,
                    "); each member reads its own",
                ),
            );
        }
        return Ok(Target::Workspace);
    }
    Ok(Target::Project)
}

/// Whether there is anything to scan: a project without a directory of tests is refused, a member
/// of a workspace without one is passed over.
pub fn check_tests_dir(tests_dir: &str, found: bool, strict: bool) -> (r: Result<bool, String>)
    ensures
        if found {
            r == Ok::<bool, String>(true)
        } else if strict {
            r is Err && r->Err_0@ == "no tests directory at "@ + tests_dir@
                + "; not a workspace either (no [tool.uv.workspace] in pyproject.toml)"@
        } else {
            r == Ok::<bool, String>(false)
        },
{
    if found {
        return Ok(true);
    }
    if strict {
        return Err(
            around(
                "no tests directory at ",
                tests_dir,
                "; not a workspace either (no [tool.uv.workspace] in pyproject.toml)",
            ),
        );
    }
    Ok(false)
}

/// The project behind a directory: the name it declares, or else the name of the directory.
pub fn project_from(path: &str, declared: Option<String>, directory: Option<String>) -> (r: Project)
    ensures
        r.path@ == path@,
        r.name@ == (match (opt_view(declared), opt_view(directory)) {
            (Some(name), _) => name,
            (None, Some(name)) => name,
            (None, None) => "unknown"@,
        }),
{
    let name = match declared {
        Some(name) => name,
        None => match directory {
            Some(name) => name,
            None => "unknown".to_owned(),
        },
    };
    Project { path: path.to_owned(), name }
}

/// `name` with every hyphen made an underscore.
pub open spec fn importable(name: Seq<char>) -> Seq<char> {
    Seq::new(
        name.len(),
        |i: int|
            if name[i] == '-' {
                '_'
            } else {
                name[i]
            },
    )
}

/// The module that a project's name stands for: a hyphen, which no module's name holds, becomes
/// an underscore; nothing else changes.
pub fn default_cov_package_for(project_name: &str) -> (r: String)
    ensures
        r@ == importable(project_name@),
{
    let chars = chars_of(project_name);
    let mut out = String::new();
    let mut i: usize = 0;
    while i < chars.len()
        invariant
            i <= chars@.len(),
            chars@ == project_name@,
            out@ == importable(project_name@.take(i as int)),
        decreases chars@.len() - i,
    {
        let ghost before = out@;
        if chars[i] == '-' {
            out.push('_');
        } else {
            out.push(chars[i]);
        }
        assert(out@ =~= importable(project_name@.take(i + 1)));
        i += 1;
    }
    assert(project_name@.take(i as int) =~= project_name@);
    out
}

/// A module's name stays as it is, so that doing it twice does no more than doing it once.
pub proof fn importable_names_stay(name: Seq<char>)
    ensures
        importable(importable(name)) == importable(name),
        !importable(name).contains('-'),
        !name.contains('-') ==> importable(name) == name,
{
    assert(importable(importable(name)) =~= importable(name));
    if !name.contains('-') {
        assert forall|i: int| 0 <= i < name.len() implies importable(name)[i] == name[i] by {
            if name[i] == '-' {
                assert(name.contains('-'));
            }
        }
        assert(importable(name) =~= name);
    }
}

/// The package whose coverage is measured for a project: the given one as it stands, or else the
/// module that the project's name stands for.
pub fn coverage_package(given: &Option<String>, project_name: &str) -> (r: String)
    ensures
        r@ == (match opt_view(*given) {
            Some(name) => name,
            None => importable(project_name@),
        }),
{
    match given {
        Some(name) => name.clone(),
        None => default_cov_package_for(project_name),
    }
}

/// The package whose coverage is measured for a member of a workspace: the first it declares, or
/// else the name of its directory.
pub fn member_cov_package(packages: &Vec<String>, directory: &Option<String>) -> (r: String)
    ensures
        r@ == if packages@.len() > 0 {
            packages@[0]@
        } else {
            match opt_view(*directory) {
                Some(name) => name,
                None => Seq::empty(),
            }
        },
{
    if packages.len() > 0 {
        return packages[0].clone();
    }
    match directory {
        Some(name) => name.clone(),
        None => String::new(),
    }
}

/// The packages that count as the project's own: the given one alone, or else those it declares.
pub fn resolve_project_packages(given: &Option<String>, declared: &Vec<String>) -> (r: NameSet)
    ensures
        r@ == (match opt_view(*given) {
            Some(name) => Set::empty().insert(name),
            None => views(declared@).to_set(),
        }),
{
    let mut names = NameSet::new();
    if let Some(name) = given {
        names.insert(name.clone());
        return names;
    }
    let mut i: usize = 0;
    assert(views(declared@).take(0).to_set() =~= Set::<Seq<char>>::empty());
    while i < declared.len()
        invariant
            i <= declared@.len(),
            names@ == views(declared@).take(i as int).to_set(),
        decreases declared@.len() - i,
    {
        names.insert(declared[i].clone());
        proof {
            let t = views(declared@);
            assert(t.take(i + 1) =~= t.take(i as int).push(t[i as int]));
            t.take(i as int).lemma_push_to_set_commute(t[i as int]);
        }
        i += 1;
    }
    assert(views(declared@).take(i as int) =~= views(declared@));
    names
}

/// The program of a command and its arguments; `python` alone where there is no command.
pub fn split_python_cmd(python_cmd: &Vec<String>) -> (r: (String, Vec<String>))
    ensures
        if python_cmd@.len() == 0 {
            r.0@ == "python"@ && r.1@.len() == 0
        } else {
            r.0@ == python_cmd@[0]@ && views(r.1@) == views(python_cmd@).skip(1)
        },
{
    let mut rest: Vec<String> = Vec::new();
    if python_cmd.len() == 0 {
        return ("python".to_owned(), rest);
    }
    let mut i: usize = 1;
    while i < python_cmd.len()
        invariant
            1 <= i <= python_cmd@.len(),
            rest@.len() == i - 1,
            forall|k: int| 0 <= k < rest@.len() ==> (#[trigger] rest@[k])@ == python_cmd@[k + 1]@,
        decreases python_cmd@.len() - i,
    {
        rest.push(python_cmd[i].clone());
        i += 1;
    }
    assert(views(rest@) =~= views(python_cmd@).skip(1));
    (python_cmd[0].clone(), rest)
}

/// `path` as seen from `base`.
pub fn relativize(path: &str, base: &str) -> (r: String)
    ensures
        r@ == relative(path@, base@),
{
    seen_from(path, base)
}

/// Where pytest runs for a member of a workspace, and where it is told to find the tests.
pub fn member_run(root: &str, member: &str, cwd: MemberCwd) -> (r: (String, String))
    ensures
        match cwd {
            MemberCwd::Root => r.0@ == root@ && r.1@ == below(member@) + "tests"@,
            MemberCwd::Member => r.0@ == member@ && r.1@ == "tests"@,
        },
{
    match cwd {
        MemberCwd::Root => (root.to_owned(), under(member, "tests")),
        MemberCwd::Member => (member.to_owned(), "tests".to_owned()),
    }
}

/// Whether coverage is measured.
#[derive(Copy, Clone, Debug, PartialEq, Eq, Structural)]
pub enum CoverageStep {
    /// The user does not want it.
    Skip,
    /// There is no package to measure.
    NoPackage,
    Run,
}

/// Whether coverage is measured.
pub fn coverage_step(no_coverage: bool, package: &str) -> (r: CoverageStep)
    ensures
        r == if no_coverage {
            CoverageStep::Skip
        } else if package@.len() == 0 {
            CoverageStep::NoPackage
        } else {
            CoverageStep::Run
        },
{
    if no_coverage {
        CoverageStep::Skip
    } else if package.is_empty() {
        CoverageStep::NoPackage
    } else {
        CoverageStep::Run
    }
}

/// Enters what the runs of the suite gave. Pytest counts as run where it gave anything, coverage
/// where it gave a percentage.
pub fn record_runs(
    inventory: &mut Inventory,
    collection: CollectionOutcome,
    runtime: Option<Measure>,
    slowest: Vec<SlowTest>,
    coverage: Option<Measure>,
)
    ensures
        final(inventory).suite.test_count == collection.test_count,
        final(inventory).suite.runtime_seconds == runtime,
        final(inventory).suite.slowest_tests == slowest,
        final(inventory).suite.line_coverage_pct == coverage,
        is_tool(
            final(inventory).tool,
            collection.test_count is Some || slowest@.len() > 0 || runtime is Some,
            coverage is Some,
        ),
        final(inventory).schema_version == old(inventory).schema_version,
        final(inventory).project == old(inventory).project,
        final(inventory).files == old(inventory).files,
        final(inventory).test_functions == old(inventory).test_functions,
        final(inventory).sut_calls == old(inventory).sut_calls,
        final(inventory).top_suspicious == old(inventory).top_suspicious,
        final(inventory).accepted == old(inventory).accepted,
{
    let ran_pytest = collection.test_count.is_some() || slowest.len() > 0 || runtime.is_some();
    let ran_coverage = coverage.is_some();
    inventory.suite = Suite {
        test_count: collection.test_count,
        runtime_seconds: runtime,
        line_coverage_pct: coverage,
        slowest_tests: slowest,
    };
    inventory.tool = ToolInfo::with_runtime(ran_pytest, ran_coverage);
}

/// The assertions of a list of tests.
pub open spec fn assertion_total(tests: Seq<TestModel>) -> nat
    decreases tests.len(),
{
    if tests.len() == 0 {
        0
    } else {
        assertion_total(tests.drop_last()) + tests.last().assertion_count as nat
    }
}

/// The record of a file before its smells are known.
pub open spec fn file_record_of(path: Seq<char>, parsed: ParsedModel) -> FileModel {
    FileModel {
        path,
        test_function_count: capped(parsed.test_functions.len() as int),
        assertion_count: capped(assertion_total(parsed.test_functions) as int),
        mock_construction_count: parsed.mock_construction_count,
        patch_decorator_count: parsed.patch_decorator_count,
        stubs_count: parsed.stubs_count,
        fixture_count: parsed.fixture_count,
        smell_hits: Seq::empty(),
    }
}

/// The record of a file in which nothing was found.
pub fn empty_file_record(path: &str) -> (r: FileRecord)
    ensures
        r@ == (FileModel {
            path: path@,
            test_function_count: 0,
            assertion_count: 0,
            mock_construction_count: 0,
            patch_decorator_count: 0,
            stubs_count: 0,
            fixture_count: 0,
            smell_hits: Seq::empty(),
        }),
{
    let r = FileRecord {
        path: path.to_owned(),
        test_function_count: 0,
        assertion_count: 0,
        mock_construction_count: 0,
        patch_decorator_count: 0,
        stubs_count: 0,
        fixture_count: 0,
        smell_hits: Vec::new(),
    };
    assert(r@.smell_hits =~= Seq::<SmellModel>::empty());
    r
}

fn sum_assertions(tests: &Vec<TestRecord>) -> (r: u64)
    ensures
        r == capped(assertion_total(test_views(tests@)) as int),
{
    let mut sum: u64 = 0;
    let mut i: usize = 0;
    while i < tests.len()
        invariant
            i <= tests@.len(),
            sum == capped(assertion_total(test_views(tests@).take(i as int)) as int),
        decreases tests@.len() - i,
    {
        proof {
            let part = test_views(tests@).take(i + 1);
            assert(part.drop_last() =~= test_views(tests@).take(i as int));
            assert(part.last() == tests@[i as int]@);
        }
        sum = sum.saturating_add(tests[i].assertion_count);
        i += 1;
    }
    assert(test_views(tests@).take(i as int) =~= test_views(tests@));
    sum
}

/// The record of a parsed file before its smells are known.
pub fn file_record(path: &str, parsed: &ParsedFile) -> (r: FileRecord)
    ensures
        r@ == file_record_of(path@, parsed@),
{
    let mut record = empty_file_record(path);
    assert(test_views(parsed.test_functions@).len() == parsed.test_functions@.len());
    record.test_function_count = parsed.test_functions.len() as u64;
    record.assertion_count = sum_assertions(&parsed.test_functions);
    record.mock_construction_count = parsed.mock_construction_count;
    record.patch_decorator_count = parsed.patch_decorator_count;
    record.stubs_count = parsed.stubs_count;
    record.fixture_count = parsed.fixture_count;
    assert(record@ =~= file_record_of(path@, parsed@));
    record
}

/// A file that was read: its path as it appears in the inventory, and what it holds.
#[derive(Debug)]
pub struct Source {
    pub path: String,
    pub parsed: ParsedFile,
}

/// What a `Source` says.
pub struct SourceModel {
    pub path: Seq<char>,
    pub parsed: ParsedModel,
}

impl View for Source {
    type V = SourceModel;

    open spec fn view(&self) -> SourceModel {
        SourceModel { path: self.path@, parsed: self.parsed@ }
    }
}

pub open spec fn source_views(v: Seq<Source>) -> Seq<SourceModel> {
    Seq::new(v.len(), |i: int| v[i]@)
}

/// The tests of all files, those of each file in the order of their lines.
pub open spec fn all_tests(sources: Seq<SourceModel>) -> Seq<TestModel>
    decreases sources.len(),
{
    if sources.len() == 0 {
        Seq::empty()
    } else {
        all_tests(sources.drop_last()) + stable(sources.last().parsed.test_functions, line_key())
    }
}

/// The imports of all files.
pub open spec fn all_imports(sources: Seq<SourceModel>) -> Map<Seq<char>, ImportModel>
    decreases sources.len(),
{
    if sources.len() == 0 {
        Map::empty()
    } else {
        all_imports(sources.drop_last()).insert(
            sources.last().path,
            sources.last().parsed.import_map,
        )
    }
}

/// The records of all files before their smells are known.
pub open spec fn all_files(sources: Seq<SourceModel>) -> Seq<FileModel> {
    Seq::new(sources.len(), |i: int| file_record_of(sources[i].path, sources[i].parsed))
}

/// The thresholds that an audit goes by.
pub open spec fn default_config() -> MockSmellConfig {
    MockSmellConfig { mock_overuse_floor: 2, mock_overuse_ratio: 2, mock_overuse_ratio_per: 1 }
}

/// A test with its smells.
pub open spec fn with_test_smells(test: TestModel) -> TestModel {
    TestModel { smell_hits: test.smell_hits + test_smells(test, default_config()), ..test }
}

/// A file with its smells, given all tests.
pub open spec fn with_file_smells(file: FileModel, tests: Seq<TestModel>) -> FileModel {
    FileModel {
        smell_hits: file.smell_hits + file_smells(
            file,
            tests.filter(of_file(file.path)),
            default_config(),
        ),
        ..file
    }
}

/// The tests of an audit: their calls narrowed to the project, their smells found.
pub open spec fn audited_tests(sources: Seq<SourceModel>, packages: Set<Seq<char>>) -> Seq<TestModel> {
    let tests = all_tests(sources);
    Seq::new(
        tests.len(),
        |i: int|
            with_test_smells(with_resolved_names(tests[i], all_imports(sources), packages)),
    )
}

/// The files of an audit: their smells found.
pub open spec fn audited_files(sources: Seq<SourceModel>, packages: Set<Seq<char>>) -> Seq<FileModel> {
    let files = all_files(sources);
    Seq::new(
        files.len(),
        |i: int| with_file_smells(files[i], audited_tests(sources, packages)),
    )
}

fn append_smells(hits: &mut Vec<SmellHit>, more: Vec<SmellHit>)
    ensures
        smell_views(final(hits)@) == smell_views(old(hits)@) + smell_views(more@),
{
    let ghost start = smell_views(hits@);
    let ghost added = smell_views(more@);
    let mut rest = more;
    hits.append(&mut rest);
    assert(smell_views(hits@) =~= start + added);
}

/// Finds the smells of every test, then those of every file among its own tests.
pub fn apply_smells(files: &mut Vec<FileRecord>, tests: &mut Vec<TestRecord>)
    ensures
        final(tests)@.len() == old(tests)@.len(),
        final(files)@.len() == old(files)@.len(),
        forall|i: int|
            0 <= i < old(tests)@.len() ==> (#[trigger] final(tests)@[i])@ == with_test_smells(
                old(tests)@[i]@,
            ),
        forall|i: int|
            0 <= i < old(files)@.len() ==> (#[trigger] final(files)@[i])@ == with_file_smells(
                old(files)@[i]@,
                test_views(final(tests)@),
            ),
{
    let config = MockSmellConfig::default();
    let ghost start = tests@;
    let mut i: usize = 0;
    while i < tests.len()
        invariant
            i <= tests@.len(),
            tests@.len() == start.len(),
            config == default_config(),
            forall|k: int|
                0 <= k < i ==> (#[trigger] tests@[k])@ == with_test_smells(start[k]@),
            forall|k: int| i <= k < tests@.len() ==> #[trigger] tests@[k] == start[k],
        decreases tests@.len() - i,
    {
        let hits = derive_test_smells(&tests[i], &config);
        append_smells(&mut tests[i].smell_hits, hits);
        assert(tests@[i as int]@ =~= with_test_smells(start[i as int]@));
        i += 1;
    }
    let ghost all = test_views(tests@);
    let ghost before = files@;
    let mut k: usize = 0;
    while k < files.len()
        invariant
            k <= files@.len(),
            files@.len() == before.len(),
            all == test_views(tests@),
            config == default_config(),
            forall|n: int|
                0 <= n < k ==> (#[trigger] files@[n])@ == with_file_smells(before[n]@, all),
            forall|n: int| k <= n < files@.len() ==> #[trigger] files@[n] == before[n],
        decreases files@.len() - k,
    {
        let own = tests_of_file(tests, &files[k].path);
        let hits = derive_file_smells(&files[k], &own, &config);
        append_smells(&mut files[k].smell_hits, hits);
        assert(files@[k as int]@ =~= with_file_smells(before[k as int]@, all));
        k += 1;
    }
}

/// The static part of an inventory: from the files that were read to their records, their tests
/// with smells and narrowed calls, and the calls in sum. With `keep_empty` a file without tests
/// has a record too.
pub fn assemble(project: Project, sources: Vec<Source>, packages: &NameSet, keep_empty: bool) -> (r:
    Inventory)
    ensures
        r.project == project,
        nothing_measured(r.suite),
        is_tool(r.tool, false, false),
        r.schema_version@ == SCHEMA_VERSION@,
        test_views(r.test_functions@) == audited_tests(source_views(sources@), packages@),
        file_views(r.files@) == if keep_empty || r.test_functions@.len() > 0 {
            audited_files(source_views(sources@), packages@)
        } else {
            Seq::empty()
        },
        r.sut_calls@ == call_summary(
            Seq::new(
                all_tests(source_views(sources@)).len(),
                |i: int|
                    with_resolved_names(
                        all_tests(source_views(sources@))[i],
                        all_imports(source_views(sources@)),
                        packages@,
                    ),
            ),
        ),
        r.top_suspicious.test_functions@.len() == 0,
        r.top_suspicious.files@.len() == 0,
        r.accepted.path is None,
        !r.accepted.included_in_shortlist,
        r.accepted.findings@.len() == 0,
        r.accepted.stale@.len() == 0,
{
    let ghost model = source_views(sources@);
    let mut inventory = empty_inventory(project);
    let mut files: Vec<FileRecord> = Vec::new();
    let mut tests: Vec<TestRecord> = Vec::new();
    let mut imports = FileImports::new();
    proof {
        assert(file_views(files@) =~= all_files(model.take(0)));
        assert(test_views(tests@) =~= all_tests(model.take(0)));
    }
    for source in it: sources
        invariant
            source_views(it.seq()) == model,
            file_views(files@) == all_files(model.take(it.index() as int)),
            test_views(tests@) == all_tests(model.take(it.index() as int)),
            imports@ == all_imports(model.take(it.index() as int)),
    {
        let ghost n = it.index() as int;
        let ghost files_before = file_views(files@);
        let ghost tests_before = test_views(tests@);
        proof {
            let part = model.take(n + 1);
            assert(part.drop_last() =~= model.take(n));
            assert(part.last() == source@);
        }
        let record = file_record(&source.path, &source.parsed);
        files.push(record);
        let Source { path, parsed } = source;
        let ParsedFile {
            test_functions,
            mock_construction_count,
            patch_decorator_count,
            stubs_count,
            fixture_count,
            import_map,
        } = parsed;
        let mut more = by_line(test_functions);
        let ghost added = test_views(more@);
        tests.append(&mut more);
        imports.insert(path, import_map);
        proof {
            assert(file_views(files@) =~= files_before.push(record@));
            assert(file_views(files@) =~= all_files(model.take(n + 1)));
            assert(test_views(tests@) =~= tests_before + added);
        }
    }
    assert(model.take(model.len() as int) =~= model);
    let ghost read = test_views(tests@);
    inventory.sut_calls = aggregate(&mut tests, &imports, packages);
    let ghost narrowed = test_views(tests@);
    assert(narrowed =~= Seq::new(
        all_tests(model).len(),
        |i: int| with_resolved_names(all_tests(model)[i], all_imports(model), packages@),
    )) by {
        assert(narrowed.len() == read.len());
        assert forall|i: int| 0 <= i < narrowed.len() implies #[trigger] narrowed[i]
            == with_resolved_names(all_tests(model)[i], all_imports(model), packages@) by {
            assert(narrowed[i] == tests@[i]@);
        }
    }
    let ghost unsmelled = file_views(files@);
    apply_smells(&mut files, &mut tests);
    proof {
        let found = test_views(tests@);
        assert(found.len() == narrowed.len());
        assert forall|i: int| 0 <= i < found.len() implies #[trigger] found[i] == audited_tests(
            model,
            packages@,
        )[i] by {
            assert(found[i] == tests@[i]@);
        }
        assert(found =~= audited_tests(model, packages@));
        let records = file_views(files@);
        assert forall|i: int| 0 <= i < records.len() implies #[trigger] records[i] == audited_files(
            model,
            packages@,
        )[i] by {
            assert(records[i] == files@[i]@);
        }
        assert(records =~= audited_files(model, packages@));
    }
    if keep_empty || tests.len() > 0 {
        inventory.files = files;
    } else {
        assert(file_views(inventory.files@) =~= Seq::<FileModel>::empty());
    }
    inventory.test_functions = tests;
    inventory
}

/// Applies accepted findings and draws up the shortlists: `file_scores` are the scores of the
/// files in the order of their records. The scores of the tests stand in their records.
pub fn rank_inventory(
    inventory: &mut Inventory,
    file_scores: &Vec<Measure>,
    baseline: Option<Baseline>,
    include_accepted: bool,
    top_n: usize,
)
    requires
        old(inventory).files@.len() == file_scores@.len(),
    ensures
        final(inventory).schema_version == old(inventory).schema_version,
        final(inventory).project == old(inventory).project,
        final(inventory).suite == old(inventory).suite,
        final(inventory).files == old(inventory).files,
        final(inventory).sut_calls == old(inventory).sut_calls,
        final(inventory).tool == old(inventory).tool,
        final(inventory).test_functions@.len() == old(inventory).test_functions@.len(),
        match baseline {
            None => final(inventory).test_functions == old(inventory).test_functions
                && final(inventory).accepted.path is None
                && final(inventory).accepted.findings@.len() == 0
                && final(inventory).accepted.stale@.len() == 0,
            Some(b) => {
                let before = test_views(old(inventory).test_functions@);
                let entries = entry_views(b.entries@);
                &&& opt_view(final(inventory).accepted.path) == Some(b.path@)
                &&& finding_views(final(inventory).accepted.findings@)
                    == live_findings(before, entries, entries.len() as int)
                &&& stale_views(final(inventory).accepted.stale@)
                    == lapsed_entries(before, entries, entries.len() as int)
                &&& forall|i: int|
                    0 <= i < before.len() ==> (#[trigger] final(inventory).test_functions@[i])@
                        == with_acceptances(before, entries, i)
            },
        },
        final(inventory).accepted.included_in_shortlist == include_accepted,
        views(final(inventory).top_suspicious.test_functions@) == top(
            scored_tests(
                eligible(test_views(final(inventory).test_functions@), include_accepted),
            ),
            top_n as nat,
        ),
        views(final(inventory).top_suspicious.files@) == top(
            scored_files(file_views(old(inventory).files@), measure_views(file_scores@)),
            top_n as nat,
        ),
{
    let accepted = apply(&mut inventory.test_functions, baseline, include_accepted);
    inventory.accepted = accepted;
    let tests = shortlist(&inventory.test_functions, top_n, include_accepted);
    let files = top_n_files(&inventory.files, file_scores, top_n);
    inventory.top_suspicious = TopSuspicious { test_functions: tests, files };
}

} // verus!
