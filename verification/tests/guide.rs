//! The guide and its choice of page.
use pycoati::guide::{detect_page, Page};

fn page_with(contents: &str) -> Page {
    detect_page(&Some(contents.to_string()))
}

#[test]
fn empty_dir_selects_setup() {
    assert_eq!(detect_page(&None), Page::Setup);
}

#[test]
fn inventory_selects_analyze() {
    assert_eq!(page_with(r#"{"schema_version":"2","files":[]}"#), Page::Analyze);
}

#[test]
fn workspace_inventory_selects_analyze() {
    assert_eq!(
        page_with(r#"{"schema_version":"2","workspace_root":".","members":[]}"#),
        Page::Analyze
    );
}

#[test]
fn future_schema_version_still_selects_analyze() {
    assert_eq!(
        page_with(r#"{"schema_version":"99"}"#),
        Page::Analyze,
        "a newer schema routes to analyze, where the page flags the mismatch"
    );
}

#[test]
fn unparseable_inventory_degrades_to_setup() {
    assert_eq!(page_with("definitely not json"), Page::Setup);
}

#[test]
fn foreign_json_degrades_to_setup() {
    assert_eq!(page_with(r#"{"name":"some other tool"}"#), Page::Setup);
}

#[test]
fn json_scalar_degrades_to_setup() {
    assert_eq!(page_with("42"), Page::Setup);
}

#[test]
fn detect_page_never_returns_remediate() {
    for page in [detect_page(&None), page_with(r#"{"schema_version":"2"}"#)] {
        assert_ne!(page, Page::Remediate);
    }
}

#[test]
fn each_page_text_is_distinct_and_non_empty() {
    let pages = [Page::Setup, Page::Analyze, Page::Remediate];
    for page in pages {
        assert!(!page.text().is_empty(), "{page:?} page is empty");
    }
    assert_ne!(Page::Setup.text(), Page::Analyze.text());
    assert_ne!(Page::Analyze.text(), Page::Remediate.text());
}

const FIELD_REFERENCE_END: &str = "## The suspicion score";

fn documented_names(page: &str) -> std::collections::BTreeSet<String> {
    let field_reference = page.split(FIELD_REFERENCE_END).next().unwrap_or(page);
    field_reference
        .lines()
        .filter_map(|line| line.strip_prefix("- `"))
        .filter_map(|rest| rest.split('`').next())
        .filter(|token| {
            !token.is_empty() && token.chars().all(|c| c.is_ascii_alphanumeric() || c == '_')
        })
        .map(str::to_string)
        .collect()
}

#[test]
fn the_field_reference_scope_marker_still_exists() {
    let page = Page::Analyze.text();
    assert!(
        page.contains(FIELD_REFERENCE_END),
        "the analyze page no longer contains the `{FIELD_REFERENCE_END}` heading that bounds the \
         field reference; update FIELD_REFERENCE_END to match."
    );
    let scoped = documented_names(&page);
    assert!(
        scoped.len() < page.matches("- `").count(),
        "the field-reference slice should be narrower than the whole page"
    );
}

fn pages() -> [(&'static str, String); 3] {
    [
        ("setup", Page::Setup.text()),
        ("analyze", Page::Analyze.text()),
        ("remediate", Page::Remediate.text()),
    ]
}

#[test]
fn bare_guide_ignores_unparseable_inventory() {
    assert_eq!(page_with("not json {{{"), Page::Setup);
}

#[test]
fn bare_guide_ignores_foreign_json() {
    assert_eq!(page_with(r#"{"totally":"unrelated"}"#), Page::Setup);
}

#[test]
fn every_page_ends_with_a_single_next_line() {
    for (name, page) in pages() {
        let lines: Vec<&str> = page.trim_end().lines().collect();
        let breadcrumbs: Vec<usize> = lines
            .iter()
            .enumerate()
            .filter(|(_, l)| l.starts_with("next:"))
            .map(|(i, _)| i)
            .collect();
        assert_eq!(breadcrumbs.len(), 1, "{name} must have exactly one `next:` line");
        for line in &lines[breadcrumbs[0] + 1..] {
            assert!(!line.trim().is_empty(), "{name}: the breadcrumb must be the last thing");
        }
    }
}

#[test]
fn setup_page_says_it_is_periodic_and_names_the_per_commit_gate() {
    let text = Page::Setup.text();
    let fits = text.find("## Where this fits").expect("setup should have the section");
    let preconditions = text.find("## Preconditions").expect("setup keeps its preconditions");
    assert!(fits < preconditions, "the placement note comes before the mechanics");
    assert!(text.contains("not a commit hook"), "setup should rule out the hook");
    assert!(text.contains("uvx zorilla guide"), "setup should point at zorilla's guide");
    assert!(text.contains("madoqua"), "setup should name the hook runner it is not for");
}

#[test]
fn analyze_page_names_every_anti_pattern() {
    let page = Page::Analyze.text();
    for heading in [
        "## 1. mock-as-assertion",
        "## 2. implementation coupling",
        "## 3. tautology",
        "## 4. setup-heavy",
        "## 5. redundant",
        "## 6. slow-without-reason",
        "## 7. wrong-layer",
        "## 8. dead-test",
    ] {
        assert!(page.contains(heading), "analyze page is missing the `{heading}` section");
    }
}

#[test]
fn every_breadcrumb_points_at_a_real_page() {
    let mut found = 0;
    for (name, page) in pages() {
        for (index, _) in page.match_indices("pycoati guide ") {
            let rest = &page[index + "pycoati guide ".len()..];
            let target: String = rest.chars().take_while(char::is_ascii_alphabetic).collect();
            if target.is_empty() {
                continue;
            }
            assert!(
                ["setup", "analyze", "remediate"].contains(&target.as_str()),
                "{name} references a page that does not exist: `pycoati guide {target}`"
            );
            found += 1;
        }
    }
    assert!(found >= 3, "expected the pages to cross-reference each other, found {found}");
}
