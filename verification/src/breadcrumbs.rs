//! What the pages of the guide have in common: each ends by saying what comes next, and says so
//! once. A proof sees the characters of a text only where the text is written out, so the bodies of
//! the pages stand here once more; the proofs fail where they differ from the pages.
use vstd::prelude::*;

use crate::guide::{page_text, Page};
use crate::pages::{
    ANALYZE_FIELDS, ANALYZE_NEXT, ANALYZE_PATTERNS, REMEDIATE, REMEDIATE_NEXT, SETUP, SETUP_NEXT,
};
use crate::text::{
    find, is_prefix, lemma_find, lemma_find_is, lines_from, lines_of, trim, trim_end, trim_start,
    without_cr,
};

verus! {

/// A line that says what comes next.
pub open spec fn breadcrumb(line: Seq<char>) -> bool {
    is_prefix("next:"@, line)
}

/// Exactly one line of a text says what comes next, and no line behind it is blank.
pub open spec fn ends_with_breadcrumb(text: Seq<char>) -> bool {
    exists|k: int| #[trigger] only_breadcrumb(lines_of(text), k)
}

/// Line `k` is the only one that says what comes next, and no line behind it is blank.
pub open spec fn only_breadcrumb(lines: Seq<Seq<char>>, k: int) -> bool {
    &&& 0 <= k < lines.len()
    &&& breadcrumb(lines[k])
    &&& forall|j: int| 0 <= j < lines.len() && j != k ==> !breadcrumb(#[trigger] lines[j])
    &&& forall|j: int| k < j < lines.len() ==> trim(#[trigger] lines[j]).len() > 0
}

/// The word that a breadcrumb begins with stands at position `i`.
pub open spec fn word_at(s: Seq<char>, i: int) -> bool {
    &&& 0 <= i && i + 5 <= s.len()
    &&& s[i] == 'n' && s[i + 1] == 'e' && s[i + 2] == 'x' && s[i + 3] == 't' && s[i + 4] == ':'
}

/// A text that ends with a line ending and holds the word of a breadcrumb nowhere.
pub open spec fn quiet(s: Seq<char>) -> bool {
    &&& s.len() > 0 && s.last() == '\n'
    &&& forall|i: int| !#[trigger] word_at(s, i)
}

proof fn lemma_breadcrumb(line: Seq<char>)
    ensures
        breadcrumb(line) == word_at(line, 0),
{
    reveal_strlit("next:");
    if word_at(line, 0) {
        assert(line.subrange(0, 5) =~= "next:"@);
    }
    if breadcrumb(line) {
        assert forall|k: int| 0 <= k < 5 implies line[k] == "next:"@[k] by {
            assert(line.subrange(0, 5)[k] == line[k]);
        }
    }
}

/// The lines of a text behind another are its own.
proof fn lemma_lines_behind(a: Seq<char>, b: Seq<char>, i: int)
    requires
        0 <= i <= b.len(),
    ensures
        lines_from(a + b, a.len() + i) == lines_from(b, i),
    decreases b.len() - i,
{
    if i < b.len() {
        let both = a + b;
        let e = find(b, '\n', i);
        lemma_find(b, '\n', i);
        assert forall|k: int| a.len() + i <= k < a.len() + e implies both[k] != '\n' by {
            assert(both[k] == b[k - a.len()]);
        }
        if e < b.len() {
            assert(both[a.len() + e] == b[e]);
        }
        lemma_find_is(both, '\n', a.len() + i, a.len() + e);
        assert(both.subrange(a.len() + i, a.len() + e) =~= b.subrange(i, e));
        if e < b.len() {
            lemma_lines_behind(a, b, e + 1);
        }
    }
}

/// The lines of two texts of which the first ends with a line ending are those of the one and
/// then those of the other.
proof fn lemma_lines_of_both(a: Seq<char>, b: Seq<char>, start: int)
    requires
        a.len() > 0,
        a.last() == '\n',
        0 <= start <= a.len(),
    ensures
        lines_from(a + b, start) == lines_from(a, start) + lines_of(b),
    decreases a.len() - start,
{
    let both = a + b;
    if start == a.len() {
        lemma_lines_behind(a, b, 0);
        assert(lines_from(a, start) + lines_of(b) =~= lines_of(b));
    } else {
        let e = find(a, '\n', start);
        lemma_find(a, '\n', start);
        assert(e < a.len()) by {
            if e == a.len() {
                assert(a[a.len() - 1] != '\n');
            }
        }
        assert forall|k: int| start <= k < e implies both[k] != '\n' by {
            assert(both[k] == a[k]);
        }
        assert(both[e] == a[e]);
        lemma_find_is(both, '\n', start, e);
        assert(both.subrange(start, e) =~= a.subrange(start, e));
        lemma_lines_of_both(a, b, e + 1);
        let line = seq![without_cr(a.subrange(start, e))];
        assert(line + (lines_from(a, e + 1) + lines_of(b)) =~= lines_from(a, start) + lines_of(b));
    }
}

/// No line of a text that never holds the word says what comes next.
proof fn lemma_quiet_lines(s: Seq<char>, start: int)
    requires
        forall|i: int| !#[trigger] word_at(s, i),
        0 <= start <= s.len(),
    ensures
        forall|j: int| 0 <= j < lines_from(s, start).len() ==> !breadcrumb(#[trigger] lines_from(s, start)[j]),
    decreases s.len() - start,
{
    if start < s.len() {
        let e = find(s, '\n', start);
        lemma_find(s, '\n', start);
        let all = lines_from(s, start);
        let line = all[0];
        lemma_breadcrumb(line);
        assert(!word_at(s, start));
        if e < s.len() {
            lemma_quiet_lines(s, e + 1);
            let rest = lines_from(s, e + 1);
            assert forall|j: int| 0 <= j < all.len() implies !breadcrumb(#[trigger] all[j]) by {
                if j > 0 {
                    assert(all[j] == rest[j - 1]);
                }
            }
        }
    }
}

/// A quiet text before one with a breadcrumb leaves that the only one.
proof fn lemma_quiet_before(body: Seq<char>, rest: Seq<char>)
    requires
        quiet(body),
        ends_with_breadcrumb(rest),
    ensures
        ends_with_breadcrumb(body + rest),
{
    let front = lines_of(body);
    let back = lines_of(rest);
    let all = lines_of(body + rest);
    let m = choose|m: int| #[trigger] only_breadcrumb(back, m);
    lemma_lines_of_both(body, rest, 0);
    lemma_quiet_lines(body, 0);
    let k = front.len() + m;
    assert(all[k] == back[m]);
    assert forall|j: int| 0 <= j < all.len() && j != k implies !breadcrumb(#[trigger] all[j]) by {
        if j < front.len() {
            assert(all[j] == front[j]);
        } else {
            assert(all[j] == back[j - front.len()]);
        }
    }
    assert forall|j: int| k < j < all.len() implies trim(#[trigger] all[j]).len() > 0 by {
        assert(all[j] == back[j - front.len()]);
    }
    assert(only_breadcrumb(all, k));
}

/// The line that a text is but for the line ending behind it.
proof fn lemma_one_line(s: Seq<char>)
    requires
        s.len() > 1,
        s.last() == '\n',
        s[s.len() - 2] != '\r',
        forall|i: int| 0 <= i < s.len() - 1 ==> s[i] != '\n',
    ensures
        lines_of(s) == seq![s.drop_last()],
{
    lemma_find_is(s, '\n', 0, s.len() - 1);
    assert(s.subrange(0, s.len() - 1) =~= s.drop_last());
    assert(lines_from(s, s.len() as int) =~= Seq::<Seq<char>>::empty());
    assert(seq![s.drop_last()] + Seq::<Seq<char>>::empty() =~= seq![s.drop_last()]);
}

proof fn lemma_setup_is_quiet()
    ensures
        quiet(SETUP@),
{
    reveal_strlit(
        r#"# pycoati — setup

pycoati audits a Python test suite and emits a structured inventory: per-file
and per-test counts, mock-API smells, and a per-test suspicion score. It never
edits your code and never mutates your environment.

You are here to produce `inventory.json`. Do that, then move to the next page.

## Where this fits

pycoati is a periodic audit, not a commit hook. A scan runs the suite under
pytest for durations and coverage, so it is minutes, not milliseconds, and its
verdict is a ranked list to work through, not a pass/fail. Run it on a
schedule, before a refactor of the tests, or when the suite feels slow or
untrustworthy. Do not wire it into a pre-commit gate such as madoqua.

The per-commit gate for test quality is zorilla, which lints the changed test
files in milliseconds and exits non-zero on findings; `uvx zorilla guide`
explains how to wire it in. The two overlap on purpose: zorilla catches the
smell as it is written, pycoati finds the ones already in the suite.

## Preconditions

- `pycoati` is on PATH. Check with `pycoati --version`.
- The project has a test directory. The default is `<path>/tests`.
- For runtime metrics (test count, runtime, coverage), `pytest` and
  `pytest-cov` must be importable by the interpreter pycoati picks:
  `uv add --dev pytest pytest-cov`. Without pytest the scan still succeeds
  and every `suite.*` field is `null`. Without pytest-cov the coverage pass
  fails with `pytest exit=4`, `line_coverage_pct` is `null`, and stderr says
  so; pass `--no-coverage` if coverage is not wanted.

## Configuration

**No knob is configurable.** pycoati has no `coati.toml`, reads no
`[tool.pycoati]` table, and exposes no way to change a threshold, a weight, or
a scoring rule. Every switch is a command-line flag, and the defaults below
are the values compiled into the binary.

The one file of its own that pycoati reads is `.pycoati-accept.toml`, the
accepted-findings baseline. It changes no threshold and no score — it records
reviewed per-test exceptions. See "Accepted findings" below.

It also reads three tables that other tools own, and only these:

- `[project].name` — seeds `project.name` and the coverage package.
- `[tool.uv.workspace].members` — switches the scan into workspace mode.
- `[tool.hatch.build.targets.wheel].packages`, `[tool.setuptools].packages`,
  `[tool.setuptools.packages.find].include` — declare which import names count
  as project-internal for `sut_calls`.

If `sut_calls` comes back empty on a project that clearly calls its own code,
the cause is almost always that none of these package tables are present. Pass
`--project-package <module>` to fix it.

## Run the scan

From the project root:

```
pycoati . --output inventory.json
```

That is the invocation the rest of this guide assumes. `inventory.json` in the
current directory is a convention this guide establishes, not a default the
binary knows — pycoati writes to stdout unless you pass `--output`.

Single file instead of a project:

```
pycoati tests/test_thing.py --output inventory.json
```

Human-readable view for a terminal, no file written:

```
pycoati . --format pretty
```

## Flags

- `--output <PATH>` / `-o` — write to this file instead of stdout. Files are
  written with no trailing newline. Default: stdout.
- `--format <json|pretty>` — `json` is the structured inventory and the only
  format this guide can read. `pretty` is an aligned-column terminal view for
  humans. Default: `json`.
- `--tests-dir <PATH>` — override test discovery root. Default: `<path>/tests`.
  Directory input only; rejected for single-file input and for workspace roots.
- `--static-only` — skip every pytest subprocess. The scan becomes pure AST
  analysis: fast, no test execution, and every `suite.*` field stays `null`.
  Use when pytest cannot run or when the suite is too slow to execute.
- `--no-coverage` — skip only the coverage subprocess. Collection and durations
  still run.
- `--top-suspicious <N>` — cap the `top_suspicious.test_functions` and
  `top_suspicious.files` lists. Default: `20`. `0` returns empty lists. This
  changes list length only — it is not a threshold and it does not change any
  score.
- `--project-package <NAME>` — the importable module name used for coverage and
  for classifying calls as project-internal. Default: `[project].name` with
  hyphens converted to underscores, else the directory basename. The override is
  used verbatim, with no normalization.
- `--python <CMD>` — interpreter to run pytest under, whitespace-split, no shell
  expansion. `--python "uv run python"` runs `uv run python -m pytest ...`.
  Default: auto-detect, in order — nearest ancestor `.venv/bin/python`, then
  `uv run --no-sync python` if `uv --version` succeeds, then bare `python`.
- `--pytest-args <STR>` — extra arguments appended to every pytest invocation,
  whitespace-split, no shell expansion. Default: empty.
- `--member-cwd <root|member>` — workspace mode only. `root` runs every member's
  pytest from the workspace root; `member` runs each from its own directory so
  member-local `conftest.py` applies. Default: `root`. Silently ignored outside
  workspace mode.
- `--accept-file <PATH>` — accepted-findings baseline. Default for a project
  scan: `<project>/.pycoati-accept.toml` when that file exists, otherwise
  none. For a single-file scan: the nearest `.pycoati-accept.toml` at or above
  the file's own directory. A path passed explicitly must exist, or the scan
  fails. Rejected against a workspace root — each member reads its own.
- `--no-accept` — ignore the baseline and report the raw shortlist. Nothing is
  read, and `accepted.path` is `null`.
- `--include-accepted` — keep accepted findings on
  `top_suspicious.test_functions`. The full audit report rather than the
  default actionable shortlist. The `accepted` block is emitted either way.

## Accepted findings

A periodic audit re-surfaces the same legitimate tests every time it runs. The
baseline is where a maintainer records that judgement once, with a reason, so the
next scan does not make them reconstruct it.

Put `.pycoati-accept.toml` at the project root — a single-file scan looks
there too, walking up from the file's own directory to the nearest one:

```toml
schema_version = "1"

[[accept]]
test = "tests/test_packaging.py::test_wheel_installs"
signals = ["zero_asserts", "high_setup_ratio"]
reason = "assertions run in a child interpreter; the parent propagates failure via subprocess.run(check=True)"
reviewed = "2026-09-12"
fingerprint = "3f0a1c7d9b2e4a56"
```

- `test` — required. The nodeid exactly as it appears in
  `test_functions[].nodeid`. In a workspace, relative to the member.

  **Copy it from the inventory, and scan the same way every time.** In
  project mode the file prefix is relative to the project root, so
  `pycoati .` and `pycoati /abs/path/to/project` produce the same nodeid. In
  single-file mode the prefix is the path *exactly as typed*, so scanning the
  same file by a different path produces a different nodeid and the entry
  reports `unknown_test` instead of applying.
- `signal` / `signals` — required, exactly one of the two. One signal name, or
  a list of them. The closed set is `mock_only_assertions`, `mock_overuse`,
  `zero_asserts`, `high_setup_ratio`. There is no wildcard, on purpose:
  accepting this test's current finding must not accept a future one.
- `reason` — **required and non-empty.** A file with an entry that omits it
  does not parse. The reason is the point of the entry.
- `reviewed` — optional, free-form (a date, a name, a PR link). Never
  interpreted.
- `fingerprint` — optional. Copy `test_functions[].fingerprint` from the
  inventory. When set, editing the test lapses the acceptance until someone
  reviews it again. When unset, the acceptance survives edits.

`zero_asserts` means the test verifies nothing at all: no `assert`-shaped
construct **and** no `external_verification_count`. A test that checks a child
process's exit status never trips it, so it needs no entry.

An assertionless test usually trips `high_setup_ratio` too, because the ratio
degrades to the height of the whole body. Accept both signals in one entry if
that is the reviewed judgement — accepting only `zero_asserts` deliberately
leaves the other one visible.

### What acceptance does, and does not do

- The test is still discovered, still parsed, still counted, and still run by
  pytest. `suite.test_count`, `suite.runtime_seconds`, and
  `suite.line_coverage_pct` are identical with and without a baseline. This is
  not pytest deselection.
- Every count, every `smell_hits` entry, and every `suspicion_score` stays
  exactly as measured. Nothing is subtracted.
- The only effect is on `top_suspicious.test_functions`: a test whose **every**
  active signal is accepted is held back from it. One unreviewed signal and the
  test is back on the list.
- The accepted findings and their reasons are reported under `accepted`, and
  `--include-accepted` puts them back on the shortlist for a full report.

### Stale entries

Every scan re-checks each entry and reports the ones that no longer apply
under `accepted.stale[]`, with a warning on stderr:

- `unknown_test` — the nodeid is gone. Delete the entry.
- `signal_not_active` — the signal stopped firing. Delete the entry.
- `content_changed` — the test was edited since its recorded `fingerprint`.
  The finding is live again until a maintainer updates the entry.

A stale entry never suppresses anything.

## What gets scanned

Test files are discovered recursively under the tests directory. A file
qualifies when its basename matches `test_*.py` or `*_test.py`. Hidden files,
gitignored files, and symlinks are skipped.

Within a file, pycoati collects top-level `def test_*` and `async def test_*`,
plus `test_*` methods on classes whose name starts with `Test`. Functions nested
inside other functions are not collected.

## Scan behaviour you must not misread

- A failed pytest subprocess is not a failed scan. Collection, durations, and
  coverage each degrade to `null` independently, with a warning on stderr. Check
  `tool.ran_pytest` and `tool.ran_coverage` before trusting any `suite.*` value.
- Diagnostics go to stderr. stdout carries only the payload, so
  `pycoati . > inventory.json` is safe.
- A non-zero exit means the scan did not produce an inventory. The reason is on
  stderr, prefixed `pycoati:`.

## Workspaces

If the root `pyproject.toml` declares `[tool.uv.workspace]`, the output is a
workspace payload: a `members` array holding one complete inventory per member,
wrapped with a `workspace_root` key. Analyze each member independently — scores
and rankings are computed per member and are not comparable across members.
`--tests-dir` and `--project-package` are rejected against a workspace root.

## Verify before moving on

`inventory.json` is usable when all of these hold:

- It parses as JSON.
- `schema_version` is `"3"`.
- `test_functions` is non-empty. An empty array on a project with tests means
  discovery found nothing — check `--tests-dir` and the file naming convention
  above before continuing.

"#,
    );
}

proof fn lemma_analyze_fields_is_quiet()
    ensures
        quiet(ANALYZE_FIELDS@),
{
    reveal_strlit(
        r#"# pycoati — analyze

You have `inventory.json`. This page defines every field in it, then defines the
anti-patterns you are looking for and the signals that flag each one.

Read this whole page before opening the inventory. Produce no edits from this
page — analysis only.

## The one rule for this phase

**A signal is a lead, not a verdict.** Every heuristic below is computed from
the AST without understanding what the test means. A test can trip three
signals and still be correct, and a test can trip none and still be worthless.
Every candidate you identify must be confirmed by reading the test source
before it appears in your report. If reading the test contradicts the signal,
the test wins — drop the candidate.

---

# Part 1 — field reference

Every field is always present. `null` never means zero; it means not measured.
The payload has two shapes, discriminated by one key.

## Top level, single project

- `schema_version` — schema contract version, as a string. This page describes
  `"2"`. Any other value means this guide and the inventory disagree; stop and
  re-run `pycoati guide analyze` from the binary that produced the file.
- `project` — object. Identity of the audited project.
- `suite` — object. Suite-level runtime metrics from pytest.
- `files` — array of file records, one per discovered test file, sorted by path.
  A file with zero tests still gets a record in directory mode.
- `test_functions` — array of test records, one per collected test function.
- `sut_calls` — object. Aggregated project-internal call frequency.
- `top_suspicious` — object. Pre-ranked shortlists.
- `tool` — object. Producer metadata.

## Top level, workspace

A workspace payload carries `schema_version`, `workspace_root`, `members`, and
`tool`, and nothing else.

- `workspace_root` — path of the workspace root. **The presence of this key is
  the only discriminator between the two shapes.** Check for it first.
- `members` — array of complete single-project inventories, one per workspace
  member. Analyze each independently; scores are computed per member and are not
  comparable across members.

## `project`

- `path` — absolute, canonicalized path of the project root. In single-file
  mode this is the directory *containing* the file, not the file itself. Falls
  back to the path as given only if canonicalization fails, which logs a
  warning to stderr.
- `name` — `[project].name` from `pyproject.toml`, else the directory basename.

## `suite`

Every field here is `null` under `--static-only` and on any pytest failure.
Check `tool.ran_pytest` and `tool.ran_coverage` before using any of them.

- `test_count` — count of items pytest collected. **Parametrize is expanded**,
  so this legitimately exceeds the sum of `test_function_count` across `files`.
  `null` = not measured.
- `runtime_seconds` — wall-clock seconds for the whole durations run, as
  reported by pytest's summary line. `null` = not measured.
- `line_coverage_pct` — line coverage as a percentage in `0`–`100`, not a
  fraction. Suite-wide. There is no per-test or per-file coverage attribution
  anywhere in this schema. `null` = not measured.
- `slowest_tests` — array of at most 20 entries, descending by duration.

### `suite.slowest_tests[]`

- `nodeid` — pytest's nodeid. **Parametrize is expanded**, so this looks like
  `tests/test_x.py::test_y[case-3]`. This is a different string space from
  `test_functions[].nodeid` — see the joining rule under `slow-without-reason`.
- `seconds` — wall-clock duration of that test item.

## `files[]`

One record per discovered test file.

**What paths are relative to, which differs by mode.** In directory mode,
`files[].path`, `test_functions[].file`, and the file prefix of every `nodeid`
are relative to `project.path`. In single-file mode they are the path *exactly
as it was typed on the command line* — absolute if you passed an absolute path,
cwd-relative if you passed a relative one — and are therefore not relative to
`project.path`, which is canonicalized in both modes. Resolve a path before
opening a file at `file`:`line`.

- `path` — path to the test file.
- `test_function_count` — number of `def test_*` functions parsed from this file
  via AST. Class-nested test methods are counted. **Parametrize is not
  expanded.**
- `assertion_count` — effective assertions across every test body in the file.
  An effective assertion is an `assert` statement or a `with pytest.raises(...)`
  block; the raises block counts as one.
- `mock_construction_count` — call sites in test bodies whose callee is `Mock`,
  `MagicMock`, `AsyncMock`, `create_autospec`, or `patch`. `patch` is counted
  here because `with patch(...)` is a construction at the call site. This is a
  file-scope signal only; there is no per-test equivalent.
- `patch_decorator_count` — sum of the per-test decorator counts in this file.
- `stubs_count` — fixture-driven patch call sites in this file. The matched set
  is closed and exact: `monkeypatch.setattr`, `monkeypatch.setenv`,
  `monkeypatch.delattr`, `monkeypatch.delenv`, `monkeypatch.context`,
  `monkeypatch.syspath_prepend`, `monkeypatch.chdir`, `mocker.patch`,
  `mocker.patch.object`, `mocker.patch.dict`, `mocker.patch.multiple`,
  `mocker.spy`, `mocker.stub`, `mocker.MagicMock`.
- `fixture_count` — `@pytest.fixture` / `@fixture` decorators anywhere in the
  file, including on non-test functions. File scope only.
- `smell_hits` — array of smell hits at file scope. See `smell_hits[]` below.

## `test_functions[]`

One record per collected test function. This is the primary array; most of your
analysis reads from here.

- `nodeid` — `<file>::<test>`, or `<file>::<Class>::<method>` for class-based
  tests. **Parametrize is not expanded**, so there is never a `[...]` suffix.
- `file` — path to the file containing this test. Joins to `files[].path`.
- `line` — line of the `def`. **1-indexed**, matching what an editor shows.
- `assertion_count` — effective assertions in this test body: `assert`
  statements plus `with pytest.raises(...)` blocks, one each.
- `only_asserts_on_mock` — `true` when every `assert` statement in the body
  targets a mock-API attribute *and* the body contains no raises block. The
  matched attribute set is exact: `called`, `call_count`, `call_args`,
  `call_args_list`, `assert_called`, `assert_called_with`, `assert_called_once`,
  `assert_called_once_with`, `assert_not_called`, `assert_any_call`,
  `assert_has_calls`. **`false` when the test has zero assertions** — this flag
  never fires on an assertionless test, so it does not overlap `dead-test`.
- `patch_decorator_count` — `@patch`, `@mock.patch`, `@patch.object`, or any
  `@<something>.patch` decorator on this test.
- `stubs_count` — fixture-driven patch call sites in this test's body, from the
  closed list given under `files[].stubs_count`.
- `setup_to_assertion_ratio` — lines of setup per assertion, as a float.
  Computed as `(first_effective_assertion_line - def_line) / assertion_count`.
  When the body has no effective assertion, it degrades to
  `(last_body_line - def_line) / 1`, i.e. the height of the whole body — so a
  long assertionless test scores high here by design. Units are source lines.
  `0.0` means the first assertion is on the `def` line itself, which in practice
  means a one-line body.
- `called_names` — sorted, deduplicated, dot-joined names of calls in this test
  body, **filtered to project-internal names only**. Calls into the standard
  library, into third-party packages, and `self.*` calls are all excluded. An
  empty array means this test calls none of your own code by a name pycoati
  could resolve. Resolution goes through the file's imports, so aliases are
  canonicalized: `from myproj.repo import Repository` used as `Repository.save`
  appears as `myproj.repo.Repository.save`.
- `smell_hits` — array of smell hits at test scope. See below.
- `suspicion_score` — float in `0.0`–`1.0`. Composite; see the formula below.
  Higher is more suspicious. This is a ranking device, not a measurement — the
  absolute value has no meaning beyond ordering.

## `smell_hits[]`

Appears on both `files[]` and `test_functions[]`.

- `category` — a closed set of exactly two strings: `mock_only_assertions` and
  `mock_overuse`. Any other value means the schema changed under you.
- `test` — the nodeid this hit belongs to, or `null` for a file-scope hit. Use
  `null` here as the file-vs-test scope discriminator.
- `line` — 1-indexed line for test-scope hits; **`0` for file-scope hits**, which
  is a sentinel and not line 1.
- `evidence` — short human-readable string naming the counts that fired the
  rule, e.g. `7 mocks, 2 assertions`. Display it in your report; do not parse it.

## `sut_calls`

- `by_name` — array of entries, one per resolved project-internal name, sorted
  by name ascending.
- `top_called` — at most 20 names, descending by number of calling tests, ties
  broken by name ascending. A shortlist over `by_name`; carries no extra data.

### `sut_calls.by_name[]`

- `name` — the canonical dotted project-internal name.
- `test_function_count` — number of **distinct test functions** whose body calls
  this name. Not the number of call sites: a test calling it five times counts
  once.
- `test_nodeids` — sorted nodeids of those tests. Joins to
  `test_functions[].nodeid`.

## `top_suspicious`

Convenience shortlists, capped by `--top-suspicious` (default 20). They contain
no information that is not already in `test_functions` and `files`.

- `test_functions` — nodeids of the highest-scoring tests, descending by
  `suspicion_score`, ties broken by nodeid ascending.
- `files` — paths of the highest-scoring files, descending by file score, ties
  broken by path ascending.

## `tool`

- `name` — always `pycoati`.
- `version` — the binary's version. Record it in your report.
- `ran_pytest` — `true` only if the collection/durations subprocesses actually
  succeeded. **When `false`, every `suite.*` field is `null` and no
  timing-based finding is available.**
- `ran_coverage` — `true` only if the coverage subprocess succeeded. When
  `false`, `line_coverage_pct` is `null`.

## The suspicion score

```
suspicion_score = 0.35 * (only_asserts_on_mock ? 1 : 0)
                + 0.20 * min(patch_decorator_count / 5, 1)
                + 0.15 * sigmoid((setup_to_assertion_ratio - 8) / 4)
                + 0.20 * (assertion_count == 0 ? 1 : 0)
                + 0.10 * min(len(smell_hits) / 3, 1)
```

`sigmoid(x) = 1 / (1 + e^-x)`. Weights sum to `1.00`.

Consequences you need when reading scores:

- The setup term is never zero. Even a test with a ratio of `0` contributes
  `0.15 * sigmoid(-2)` ≈ `0.018`, so scores are never exactly `0.00`.
- `patch_decorator_count` saturates at **5** and `len(smell_hits)` at **3**. Ten
  patches score the same as five.
- The setup sigmoid inflects at a ratio of **8.0** with scale **4.0**: ratio 8
  contributes exactly half the setup weight.
- File scores are the mean of their tests' scores plus a bonus that grows at
  `0.05` per unit once `mock_construction_count / max(assertion_count, 1)`
  exceeds `1.0`, capped at `0.10`. File scores are therefore not directly
  comparable to test scores.

Two of the five terms fire on assertionless tests (`w_zero_asserts` plus an
inflated setup ratio), so an empty test lands between about `0.22` for a short
body and `0.35` for a long one — `0.35` is the ceiling of those two terms
together and is approached, never reached. Do not read a score in that band as
mock abuse.

## Smell thresholds

- `mock_only_assertions` fires per test when `only_asserts_on_mock` is `true`
  and `assertion_count > 0`. It fires per file when **every** test in the file
  that has at least one assertion has `only_asserts_on_mock` true; assertionless
  tests are excluded from that predicate.
- `mock_overuse` fires when `mocks > max(assertion_count, 2)` **and**
  `mocks / max(assertion_count, 1) > 2.0`. Both comparisons strict. `mocks` is
  `patch_decorator_count + stubs_count` at test scope, and
  `mock_construction_count + patch_decorator_count + stubs_count` at file scope.

---

"#,
    );
}

proof fn lemma_analyze_patterns_is_quiet()
    ensures
        quiet(ANALYZE_PATTERNS@),
{
    reveal_strlit(
        r#"# Part 2 — anti-pattern taxonomy

Eight patterns. For each: what it is, what flags it, and what to check by hand.

Work the list top to bottom against `top_suspicious.test_functions` first, then
sweep the full `test_functions` array for the patterns whose signals are not
score-bearing (`redundant`, `slow-without-reason`, `wrong-layer`).

A test may match more than one pattern. Record every match; the remedy page
decides precedence.

## 1. mock-as-assertion

**Definition.** The test's assertions are about the test double, not about the
system. It verifies that a mock was called, and nothing about what the code
produced. Such a test passes as long as the call shape is unchanged, including
when the underlying behaviour is broken or entirely absent.

**Signals.**
- `only_asserts_on_mock == true` and `assertion_count > 0`. This is the
  definitive signal; the flag is computed to mean exactly this pattern.
- Equivalently, a `smell_hits[]` entry with `category == "mock_only_assertions"`.
- Strength scales with `assertion_count`: a test with six mock-API assertions and
  nothing else is a stronger candidate than one with a single such assertion.

**Verify by reading.** Confirm the test has no observable outcome to assert on.
Legitimate exceptions exist: a test whose entire contract *is* the interaction —
verifying a retry fired three times, verifying a destructive call was *not* made
(`assert_not_called`) — is correctly written this way. Check whether the callee
returns a value or mutates state that the test could have asserted on instead.
If it does not, this is not a finding.

## 2. implementation coupling

**Definition.** The test is bound to how the code is structured rather than what
it does. It patches internal collaborators by dotted path, so any rename, move,
or refactor breaks the test even though behaviour is unchanged.

**Signals.**
- `patch_decorator_count >= 3` on a single test.
- `stubs_count >= 3` on a single test.
- `patch_decorator_count + stubs_count` high relative to `assertion_count` — the
  `mock_overuse` hit at test scope encodes exactly this ratio.
- `called_names` is short or empty while patch and stub counts are high: the
  test replaced more of your code than it calls.

**Verify by reading.** Look at what the patch targets name. Patching an external
boundary (network, clock, filesystem, subprocess) is appropriate and is not this
pattern. Patching internal functions of the module under test, or reaching
through several dotted segments into another module's internals, is. The
distinction is not in the inventory — you must read the target paths.

## 3. tautology

**Definition.** The assertion cannot fail, or can only fail if the test itself
is broken. It compares a value to itself, asserts a literal, or asserts a
property of a mock the test just configured.

**Signals.**
- `only_asserts_on_mock == true` combined with `patch_decorator_count > 0` and
  `called_names` empty — the test configured a double and then asserted on the
  double, never reaching project code.
- `assertion_count > 0` with `called_names` empty: the test asserts, but calls
  none of your code by any resolvable name.
- A high `suspicion_score` with a very low `setup_to_assertion_ratio`: assertions
  packed together with almost no setup preceding them.

**Verify by reading.** This pattern is only weakly visible in the inventory —
pycoati does not compare the two sides of an assertion. You must read the
assertion expressions. Confirm that the asserted value does not depend on any
project code path. Note that `called_names` is empty for tests that only
exercise pure standard-library or third-party behaviour, which may be a
deliberate contract test rather than a tautology.

## 4. setup-heavy

**Definition.** Arrangement dwarfs verification. The test spends dozens of lines
constructing state to check one thing, which makes it slow to read, expensive to
change, and unclear about what it protects.

**Signals.**
- `setup_to_assertion_ratio >= 8.0`. This is the sigmoid inflection point in the
  score — at 8 the term is at half strength, and it is near saturation by 20.
- `setup_to_assertion_ratio >= 15.0` is a strong candidate on its own.
- High `fixture_count` on the containing `files[]` record alongside a high
  ratio: setup that was extracted into fixtures and still leaves the test long.
- `assertion_count == 1` with a high ratio: maximum setup for minimum
  verification.

**Verify by reading.** The ratio is a line count and knows nothing about what
those lines do. A test built around a large but genuinely necessary data
fixture is not this pattern. Check whether the setup is incidental (could move
to a fixture or a builder) or essential (it *is* the scenario). Also check
whether the numerator is inflated by a long docstring or a block comment before
the first assertion — those count as lines.

## 5. redundant

**Definition.** Several tests exercise the same path with trivially different
inputs, so they fail together, are maintained together, and carry the
information of one test.

**Signals.**
- Two or more nodeids in the same `sut_calls.by_name[].test_nodeids` list whose
  `called_names` arrays are identical, and whose `assertion_count` values match.
- A `sut_calls.by_name[]` entry with a high `test_function_count` where the named
  callee is narrow — many tests converging on one function.
- Groups of `test_functions[]` entries in the same `file` with matching
  `assertion_count`, matching `patch_decorator_count`, and identical
  `called_names`.

**Verify by reading.** Identical signals do not prove identical coverage — two
tests can call the same function with inputs that take different branches, which
is exactly what good boundary tests do. Read the inputs and the expected values.
This is a candidate only when the inputs differ in a way the code does not
distinguish.

## 6. slow-without-reason

**Definition.** A test consumes disproportionate wall-clock time without
exercising anything that justifies it — sleeping, hitting a real service, or
building far more than it needs.

**Signals.**
- The test appears in `suite.slowest_tests[]` while its `test_functions[]` record
  shows a low `assertion_count` and short `called_names`.
- A `slowest_tests[]` entry whose `seconds` is an order of magnitude above the
  median of that array.
- High `patch_decorator_count` *and* slow: the test mocks heavily yet still takes
  real time, so the time is going somewhere the mocks do not cover.

**Joining rule — read this before using these signals.** `slowest_tests[].nodeid`
is parametrize-expanded and `test_functions[].nodeid` is not. To join, strip a
trailing `[...]` suffix from the `slowest_tests` nodeid and match the remainder
against `test_functions[].nodeid`. This is best-effort: several parametrized
cases collapse onto one test record, and a nodeid containing a literal `[` in a
parameter value can strip incorrectly. Treat an unmatched entry as unjoinable
and say so in the report rather than guessing.

**Precondition.** `tool.ran_pytest` must be `true`. When it is `false`,
`slowest_tests` is empty and **this entire pattern is unavailable** — state that
in your report rather than omitting the pattern silently.

**Verify by reading.** Some tests are legitimately slow: they are integration
tests, or the scenario needs volume. Confirm the time is accidental before
reporting.

## 7. wrong-layer

**Definition.** The test verifies behaviour at a level that cannot see it, or
duplicates a check that belongs elsewhere — a unit test asserting on end-to-end
wiring, or an integration test re-checking a pure function's arithmetic.

**Signals.**
- `called_names` spans several distinct top-level modules while the test lives in
  a file named for one of them.
- High `patch_decorator_count` and a long `called_names` list at once: the test
  reaches broadly and then stubs out most of what it reached.
- A test in a file whose `files[].fixture_count` is high while its own
  `called_names` names a single pure function — heavy machinery around a
  narrow check.
- The test's `file` path and the module prefix of its `called_names` entries
  disagree.

**Verify by reading.** The inventory has no model of your architecture. It does
not know which directories are unit tests and which are integration tests, and
it cannot tell a layering violation from a deliberate seam. This pattern is
always a judgement call — treat every signal here as weak.

## 8. dead-test

**Definition.** The test cannot fail for the reason it exists. It has no
assertions, or it exercises no project code, so it survives on the absence of an
exception.

**Signals.**
- `assertion_count == 0`. Definitive for the assertionless variant. Note this
  contributes `0.20` to the score on its own and inflates
  `setup_to_assertion_ratio` to the full body height, so these tests cluster near
  the top of `top_suspicious.test_functions`.
- `assertion_count == 0` **and** `called_names` empty: the test neither asserts
  nor calls project code.
- The test's nodeid appears in no `sut_calls.by_name[].test_nodeids` list.

**Verify by reading.** Two legitimate shapes look identical here. A smoke test
that asserts nothing but would raise on failure is doing real work — importing a
module, constructing an object, running a migration. A test whose assertions are
made through a helper function will show `assertion_count == 0` because pycoati
counts `assert` statements syntactically in the test body and does not follow
calls into helpers. Check for both before reporting.

There is no per-test coverage in this schema, so "this test covers nothing" is
not something the inventory can tell you. Do not claim it.

---

# What to produce

For each confirmed candidate, record: `nodeid`, `file`, `line`, the pattern, the
specific field values that flagged it, and one sentence on what you found when
you read the test. Also record `tool.version`, `tool.ran_pytest`, and
`tool.ran_coverage` — they determine which patterns were available to you.

Do not edit anything yet.

"#,
    );
}

proof fn lemma_remediate_is_quiet()
    ensures
        quiet(REMEDIATE@),
{
    reveal_strlit(
        r#"# pycoati — remediate

You have a list of confirmed candidates from the analyze page. This page tells
you what to do with them and in what order.

## The approval gate

**Produce the full findings report, present it, and edit no file until a human
approves it.**

This is the first rule on the page because it is the one that matters. Not a
draft edit, not a "small obvious one first", not a branch you plan to show
later. Zero file modifications exist between finishing analysis and receiving
approval.

The report must contain, for every finding:

- `nodeid`, `file`, and `line`.
- The anti-pattern, and the specific field values that flagged it.
- What you found when you read the test.
- The rung of the ladder it lands on, and the concrete action that implies.
- Anything that made you uncertain.

Group findings by rung, and put the escalation rung's findings first — those are
the ones a human has to decide, and they should not be at the bottom of a long
list.

Also state which patterns were unavailable. If `tool.ran_pytest` was `false`,
`slow-without-reason` was never checked, and the report must say so rather than
implying a clean result.

## The remedy ladder

Take the **first rung that applies** to a finding. Do not skip ahead. A finding
that matches rungs 1 and 4 is a rung 1 finding.

**Rung 1 — dead-test → delete.**
A test with no assertions that calls no project code protects nothing. Delete
it. Before deleting, confirm once more that it is not a smoke test whose value
is that it does not raise, and that its assertions are not made through a helper
function. If either is true, it is not a rung 1 finding — drop it from the
ladder entirely.

**Rung 2 — tautology → fix the assertion, or delete.**
Prefer fixing: replace the self-referential assertion with one about a value the
system under test produced. If no such value exists — the test calls nothing
that can be asserted on — delete it. Do not "fix" a tautology by adding an
assertion about a mock; that trades this finding for a rung 4 finding.

**Rung 3 — redundant → parametrize, or delete.**
When several tests differ only in input values, collapse them into one
parametrized test carrying every case. When the extra tests add no case at all,
delete them and keep one. Preserve every distinct input that reaches a distinct
branch — collapsing cases that actually differ is a coverage loss, not a
cleanup.

**Rung 4 — mock-as-assertion → rewrite against observable behaviour.**
Replace assertions about the double with assertions about what the code
produced: the return value, the state it changed, the output it wrote. Keep an
interaction assertion only when the interaction is the contract — a retry count,
a call that must not happen. If the behaviour genuinely has no observable
outcome, that is a design problem, not a test problem: escalate at rung 6
instead.

**Rung 5 — slow-without-reason → remove the cost, or escalate.**
When the cost is accidental — a real sleep, an unnecessarily large fixture, a
call that should have been stubbed at a boundary — remove it and keep the
assertions identical. When the time is inherent to what the test covers, do not
touch it; escalate at rung 6 so a human can decide whether the test belongs in
this suite at all.

**Rung 6 — implementation coupling, setup-heavy, wrong-layer → stop and
escalate to a human.**
These three are design judgements. Fixing implementation coupling means changing
what the code exposes as a seam. Fixing setup-heavy means deciding what the
scenario really is. Fixing wrong-layer means knowing the architecture. None of
these can be settled from the inventory, and a mechanical fix makes the suite
worse while making the score better.

Do not edit these. For each, report: `file`, test name, `line`, the signals that
flagged it, what you found reading the test, and the specific decision you need
from a human. Then move on to the next finding.

This rung is where a large share of real findings land. That is the correct
outcome, not a failure to finish.

## After approval — the edit loop

Approval covers the report that was approved. Work one finding at a time, in
ladder order.

For each finding:

1. **Run the affected tests before touching anything.** Record the result. If
   they already fail, stop — you cannot verify a change against a broken
   baseline. Report it and move to the next finding.
2. Make the change for this one finding.
3. **Run the same tests again.** They must pass.
4. **Re-scan:** `pycoati . --output inventory.json`.
5. **Confirm two things in the new inventory:** the finding is gone, and no new
   finding appeared. A rising `suspicion_score` anywhere you did not touch, or a
   new `smell_hits` entry, counts as a new finding.
6. **On any failure at step 3 or step 5, revert this finding's change** and
   record what happened. Do not attempt a second approach without reporting the
   first one failed.

Deleting a test always reduces coverage. Before a rung 1 or rung 2 deletion,
check whether the behaviour is covered elsewhere. If it is not, the finding
becomes a rung 6 escalation: the test is bad *and* the behaviour is untested,
which is a decision for a human.

## Do not

- **Do not raise a threshold or edit configuration to make a finding
  disappear.** pycoati's thresholds are compiled into the binary and are
  deliberately not configurable per run. `--top-suspicious` changes list length
  only — shortening the list does not resolve anything, and using it to trim a
  report is falsifying the report.
- **Do not delete or skip a test to make a gate pass.** Adding a skip marker,
  an expected-failure marker, or a narrowing condition to silence a failing test
  is out of scope for every rung on this ladder.
- **Do not weaken an assertion to make a test pass after your edit.** If your
  rewrite makes the test fail, the rewrite is wrong. Revert.
- **Do not batch edits across findings before the report is approved**, and do
  not batch them after approval either — one finding, one verification cycle. A
  batch you cannot revert individually is a batch you cannot verify.
- **Do not edit production code to satisfy a test finding.** Every rung on this
  ladder changes tests. A finding that can only be fixed by changing the system
  under test is a rung 6 escalation.
- **Do not report a score improvement as the outcome.** The score is a ranking
  device. Report what changed about the tests.

## Finishing

Report, in this order: findings resolved and how, findings escalated and what
decision each needs, findings reverted and why, and the before/after of
`top_suspicious.test_functions`. State plainly if any finding was left
untouched.

"#,
    );
}

proof fn lemma_setup_next()
    ensures
        only_breadcrumb(lines_of(SETUP_NEXT@), 0),
        SETUP_NEXT@.len() > 4,
        SETUP_NEXT@[SETUP_NEXT@.len() - 2] == '`',
        SETUP_NEXT@[SETUP_NEXT@.len() - 4] == 'z',
{
    reveal_strlit(
        r#"next: run `pycoati . --output inventory.json`, then `pycoati guide analyze`
"#,
    );
    let s = SETUP_NEXT@;
    lemma_one_line(s);
    lemma_breadcrumb(s.drop_last());
}

proof fn lemma_analyze_next()
    ensures
        only_breadcrumb(lines_of(ANALYZE_NEXT@), 0),
        ANALYZE_NEXT@.len() > 4,
        ANALYZE_NEXT@[ANALYZE_NEXT@.len() - 2] == '`',
        ANALYZE_NEXT@[ANALYZE_NEXT@.len() - 4] == 't',
{
    reveal_strlit(
        r#"next: run `pycoati guide remediate`
"#,
    );
    let s = ANALYZE_NEXT@;
    lemma_one_line(s);
    lemma_breadcrumb(s.drop_last());
}

proof fn lemma_remediate_next()
    ensures
        only_breadcrumb(lines_of(REMEDIATE_NEXT@), 0),
        REMEDIATE_NEXT@.len() > 4,
        REMEDIATE_NEXT@[REMEDIATE_NEXT@.len() - 2] == 't',
{
    reveal_strlit(
        r#"next: run `pycoati . --output inventory.json` and `pycoati guide analyze` to
confirm the result
"#,
    );
    let s = REMEDIATE_NEXT@;
    let cut = 77;
    let first = s.subrange(0, cut);
    let second = s.subrange(cut, s.len() as int);
    assert(s =~= first + second);
    lemma_one_line(first);
    lemma_one_line(second);
    lemma_lines_of_both(first, second, 0);
    let all = lines_of(s);
    assert(all =~= seq![first.drop_last(), second.drop_last()]);
    lemma_breadcrumb(first.drop_last());
    lemma_breadcrumb(second.drop_last());
    let line = second.drop_last();
    assert(trim_end(line) == line);
    assert(trim_start(line) == line);
}

/// Every page of the guide has exactly one line that says what comes next, with no blank line
/// behind it; and no two pages are the same.
pub proof fn pages_say_once_what_comes_next(page: Page, other: Page)
    ensures
        page_text(page).len() > 0,
        ends_with_breadcrumb(page_text(page)),
        page != other ==> page_text(page) != page_text(other),
{
    lemma_setup_is_quiet();
    lemma_analyze_fields_is_quiet();
    lemma_analyze_patterns_is_quiet();
    lemma_remediate_is_quiet();
    lemma_setup_next();
    lemma_analyze_next();
    lemma_remediate_next();
    lemma_quiet_before(SETUP@, SETUP_NEXT@);
    lemma_quiet_before(REMEDIATE@, REMEDIATE_NEXT@);
    lemma_quiet_before(ANALYZE_PATTERNS@, ANALYZE_NEXT@);
    lemma_quiet_before(ANALYZE_FIELDS@, ANALYZE_PATTERNS@ + ANALYZE_NEXT@);
    assert(ANALYZE_FIELDS@ + ANALYZE_PATTERNS@ + ANALYZE_NEXT@ =~= ANALYZE_FIELDS@ + (
    ANALYZE_PATTERNS@ + ANALYZE_NEXT@));
    let a = page_text(page);
    let b = page_text(other);
    assert(a[a.len() - 2] != b[b.len() - 2] || a[a.len() - 4] != b[b.len() - 4] || page == other);
}

} // verus!
