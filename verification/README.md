# pycoati

Audits Python test suites for mock smells and suspicious tests. It walks a project, reads every
test file with tree-sitter, optionally runs `pytest` for collection, durations and coverage, and
emits an inventory: counts for each file and each test, smells, and a ranking of the tests that
deserve a look first. Findings that were looked at and judged fine can be accepted, each for one
signal on one test and with a reason.

The library is written in Verus: what every function returns is stated in its contract and proved.

## Layout

- `src/` is the verified library.
  - `syntax`, `expressions`, `imports`, `doubles`, `mock_api`, `verification`, `parser`: from the
    syntax tree of a Python file to one record for each test.
  - `sut_calls`, `smells`, `suspicion`, `ranking`, `ordering`: what follows from the records.
  - `accept`, `baseline`, `content`: accepted findings, their file, and fingerprints.
  - `pyproject`, `workspace`, `walker`, `python_detect`: what a project declares and where its
    tests and its Python are.
  - `pytest`, `coverage`: what pytest is asked, and what its answers say.
  - `audit`, `inventory`, `records`: the steps of an audit and what it gives.
  - `pretty`, `guide`, `pages`, `breadcrumbs`: inventories as text, and the guide.
  - `document`, `json`, `names`, `numerals`, `paths`, `text`: TOML and JSON texts, sets of names,
    numbers, paths and text as plain data.
  - `properties`: what holds of the library as a whole.
- `app/` is the program around it: arguments, files, processes, logging, JSON output, and the
  suspicion score, which is floating point arithmetic.
- `tests/` holds the tests.

## What is trusted

Proofs rest on contracts for the following calls, which are believed and not proved. Each is
stated beside the call.

- `tree_sitter` with the grammar of `tree_sitter_python`: which nodes a source text has.
- `toml`: which table a text is, or why it is none.
- `serde_json`: which value a text is, or why it is none.
- The standard library: `String::push`, and how `Debug` writes a text between quotation marks.

## Numbers

The library does no floating point arithmetic. A score, a duration or a percentage is a `Measure`:
the bit pattern of a double and the text that shows it. Rankings order by the bit pattern. The
setup ratio of a test is a fraction of two integers.
