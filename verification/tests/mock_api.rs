//! The names of the Mock API.
use pycoati::mock_api::{
    is_mock_api_attribute, is_mock_constructor, is_stub_call_head, MOCK_API_ATTRIBUTES,
    MOCK_CONSTRUCTORS, STUB_HEADS,
};

#[test]
fn known_assertion_methods_are_mock_api() {
    assert!(is_mock_api_attribute("assert_called_once_with"));
    assert!(is_mock_api_attribute("assert_called"));
    assert!(is_mock_api_attribute("called"));
    assert!(is_mock_api_attribute("call_count"));
}

#[test]
fn arbitrary_names_are_not_mock_api() {
    assert!(!is_mock_api_attribute("save"));
    assert!(!is_mock_api_attribute("foo"));
    assert!(!is_mock_api_attribute(""));
    // Case-sensitive: PEP-8 says snake_case, no capitals expected.
    assert!(!is_mock_api_attribute("Assert_Called"));
}

#[test]
fn attribute_set_has_eleven_entries() {
    assert_eq!(MOCK_API_ATTRIBUTES.len(), 11);
}

#[test]
fn known_mock_constructors_are_recognised() {
    for name in ["Mock", "MagicMock", "AsyncMock", "create_autospec", "patch"] {
        assert!(is_mock_constructor(name), "{name} should be a mock constructor");
    }
}

#[test]
fn arbitrary_names_are_not_mock_constructors() {
    assert!(!is_mock_constructor("Repository"));
    assert!(!is_mock_constructor("mock"));
    assert!(!is_mock_constructor(""));
    // Case-sensitive: `mock.patch` is matched at the decorator-name
    // level, not via this constructor predicate.
    assert!(!is_mock_constructor("MOCK"));
}

#[test]
fn known_stub_heads_are_recognised() {
    for head in [
        "monkeypatch.setattr",
        "monkeypatch.setenv",
        "monkeypatch.delattr",
        "monkeypatch.delenv",
        "monkeypatch.context",
        "monkeypatch.syspath_prepend",
        "monkeypatch.chdir",
        "mocker.patch",
        "mocker.patch.object",
        "mocker.patch.dict",
        "mocker.patch.multiple",
        "mocker.spy",
        "mocker.stub",
        "mocker.MagicMock",
    ] {
        assert!(is_stub_call_head(head), "{head} should be a stub call-head");
    }
}

#[test]
fn arbitrary_heads_are_not_stub_heads() {
    // Bare `patch` is a Mock-API constructor, not a stub call-head.
    assert!(!is_stub_call_head("patch"));
    assert!(!is_stub_call_head("mock.patch"));
    // `monkeypatch` alone (no method) is not a call.
    assert!(!is_stub_call_head("monkeypatch"));
    // `mocker` alone is the fixture parameter, not a call.
    assert!(!is_stub_call_head("mocker"));
    // Empty / unrelated.
    assert!(!is_stub_call_head(""));
    assert!(!is_stub_call_head("repo.save"));
    // Case-sensitive.
    assert!(!is_stub_call_head("MonkeyPatch.setattr"));
}

#[test]
fn stub_heads_disjoint_from_mock_constructors() {
    // Constructors and stub heads must not overlap — they feed
    // separate counts that are summed by the smell layer.
    for h in STUB_HEADS {
        assert!(
            !MOCK_CONSTRUCTORS.contains(&h),
            "{h} appears in both STUB_HEADS and MOCK_CONSTRUCTORS"
        );
    }
}
