//! The names of the Mock API: what an assertion about a mock reads, what constructs a mock, and
//! which fixture calls rewire the system under test. No other module spells these names out.
use vstd::prelude::*;

use crate::text::{chars_of, cut, rfind, rfind_char, same};

verus! {

/// Attributes of a mock that an assertion about the mock itself reads.
pub const MOCK_API_ATTRIBUTES: [&'static str; 11] = [
    "called",
    "call_count",
    "call_args",
    "call_args_list",
    "assert_called",
    "assert_called_with",
    "assert_called_once",
    "assert_called_once_with",
    "assert_not_called",
    "assert_any_call",
    "assert_has_calls",
];

/// Names whose call constructs a mock. `patch` is one of them because `with patch(..)` is a
/// construction at the call site.
pub const MOCK_CONSTRUCTORS: [&'static str; 5] = [
    "Mock",
    "MagicMock",
    "AsyncMock",
    "create_autospec",
    "patch",
];

/// Dotted call heads by which a test asks a fixture, `monkeypatch` or `mocker`, to rewire the
/// system under test. The list is closed.
pub const STUB_HEADS: [&'static str; 14] = [
    "monkeypatch.setattr",
    "monkeypatch.setenv",
    "monkeypatch.delattr",
    "monkeypatch.delenv",
    "monkeypatch.context",
    "monkeypatch.syspath_prepend",
    "monkeypatch.chdir",
    "mocker.patch",
    "mocker.patch.object",
    "mocker.patch.dict",
    "mocker.patch.multiple",
    "mocker.spy",
    "mocker.stub",
    "mocker.MagicMock",
];

/// `name` is one of the texts of `list`.
pub open spec fn among(list: Seq<&'static str>, name: Seq<char>) -> bool {
    exists|i: int| 0 <= i < list.len() && (#[trigger] list[i])@ == name
}

/// Whether `name` is one of the texts of `list`.
pub fn listed(list: &[&'static str], name: &str) -> (r: bool)
    ensures
        r == among(list@, name@),
{
    let mut i: usize = 0;
    while i < list.len()
        invariant
            i <= list@.len(),
            forall|k: int| 0 <= k < i ==> (#[trigger] list@[k])@ != name@,
        decreases list@.len() - i,
    {
        if same(list[i], name) {
            return true;
        }
        i += 1;
    }
    false
}

/// The last segment of a dotted chain: what follows its last dot.
pub open spec fn last_segment(chain: Seq<char>) -> Seq<char> {
    chain.subrange(rfind(chain, '.', chain.len() as int) + 1, chain.len() as int)
}

/// Whether `name` is an attribute of the Mock API, letter for letter.
pub fn is_mock_api_attribute(name: &str) -> (r: bool)
    ensures
        r == among(MOCK_API_ATTRIBUTES@, name@),
{
    listed(MOCK_API_ATTRIBUTES.as_slice(), name)
}

/// Whether `name` is a constructor of the Mock API, letter for letter.
pub fn is_mock_constructor(name: &str) -> (r: bool)
    ensures
        r == among(MOCK_CONSTRUCTORS@, name@),
{
    listed(MOCK_CONSTRUCTORS.as_slice(), name)
}

/// Whether `head` is one of the fixture-driven stub call heads, letter for letter.
pub fn is_stub_call_head(head: &str) -> (r: bool)
    ensures
        r == among(STUB_HEADS@, head@),
{
    listed(STUB_HEADS.as_slice(), head)
}

/// Whether a call of `chain` yields a mock, however the constructor is qualified: `MagicMock` and
/// `mock.MagicMock` alike.
pub fn chain_constructs_a_mock(chain: &str) -> (r: bool)
    ensures
        r == among(MOCK_CONSTRUCTORS@, last_segment(chain@)),
{
    let chars = chars_of(chain);
    let n: usize = chars.len();
    let from: usize = match rfind_char(&chars, '.') {
        Some(i) => i + 1,
        None => 0,
    };
    let last = cut(&chars, from, n);
    is_mock_constructor(&last)
}

/// No stub call head is a mock constructor: the two feed separate counts that are summed.
pub proof fn stub_heads_are_no_mock_constructors(head: Seq<char>)
    ensures
        !(among(STUB_HEADS@, head) && among(MOCK_CONSTRUCTORS@, head)),
{
    if among(STUB_HEADS@, head) {
        reveal_strlit("monkeypatch.setattr");
        reveal_strlit("monkeypatch.setenv");
        reveal_strlit("monkeypatch.delattr");
        reveal_strlit("monkeypatch.delenv");
        reveal_strlit("monkeypatch.context");
        reveal_strlit("monkeypatch.syspath_prepend");
        reveal_strlit("monkeypatch.chdir");
        reveal_strlit("mocker.patch");
        reveal_strlit("mocker.patch.object");
        reveal_strlit("mocker.patch.dict");
        reveal_strlit("mocker.patch.multiple");
        reveal_strlit("mocker.spy");
        reveal_strlit("mocker.stub");
        reveal_strlit("mocker.MagicMock");
        reveal_strlit("Mock");
        reveal_strlit("MagicMock");
        reveal_strlit("AsyncMock");
        reveal_strlit("create_autospec");
        reveal_strlit("patch");
        assert(head.len() > 6 && head[0] == 'm');
    }
}

} // verus!
