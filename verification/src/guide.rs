//! The guide that comes with the tool, and which of its pages is shown.
use vstd::prelude::*;
use vstd::string::*;

use crate::json::{json_document, read_json, under_key};
use crate::pages::{
    ANALYZE_FIELDS, ANALYZE_NEXT, ANALYZE_PATTERNS, REMEDIATE, REMEDIATE_NEXT, SETUP, SETUP_NEXT,
};
use crate::text::opt_view;

verus! {

/// The file that the guide has an inventory written to.
pub const INVENTORY_FILENAME: &'static str = "inventory.json";

/// A page of the guide.
#[derive(Copy, Clone, Debug, PartialEq, Eq, Structural)]
pub enum Page {
    Setup,
    Analyze,
    Remediate,
}

/// The text of a page.
pub open spec fn page_text(page: Page) -> Seq<char> {
    match page {
        Page::Setup => SETUP@ + SETUP_NEXT@,
        Page::Analyze => ANALYZE_FIELDS@ + ANALYZE_PATTERNS@ + ANALYZE_NEXT@,
        Page::Remediate => REMEDIATE@ + REMEDIATE_NEXT@,
    }
}

impl Page {
    /// The text of the page.
    pub fn text(self) -> (r: String)
        ensures
            r@ == page_text(self),
    {
        match self {
            Page::Setup => SETUP.to_owned().concat(SETUP_NEXT),
            Page::Analyze => {
                ANALYZE_FIELDS.to_owned().concat(ANALYZE_PATTERNS).concat(ANALYZE_NEXT)
            },
            Page::Remediate => REMEDIATE.to_owned().concat(REMEDIATE_NEXT),
        }
    }
}

/// A text that is an inventory: a JSON object with a schema version, whatever that is.
pub open spec fn inventory_contents(text: Seq<char>) -> bool {
    match json_document(text) {
        Ok(value) => under_key(value, "schema_version"@) is Some,
        Err(_) => false,
    }
}

/// The page for a directory, given the contents of the inventory in it, if there are any.
pub open spec fn page_for(inventory: Option<Seq<char>>) -> Page {
    match inventory {
        Some(text) => if inventory_contents(text) {
            Page::Analyze
        } else {
            Page::Setup
        },
        None => Page::Setup,
    }
}

/// Whether a text is an inventory.
pub fn is_inventory(text: &str) -> (r: bool)
    ensures
        r == inventory_contents(text@),
{
    match read_json(text) {
        Ok(value) => value.get("schema_version").is_some(),
        Err(_) => false,
    }
}

/// The page for a directory, given the contents of the inventory in it, if there are any. The last
/// page is never chosen: that an analysis is finished cannot be seen from outside.
pub fn detect_page(inventory: &Option<String>) -> (r: Page)
    ensures
        r == page_for(opt_view(*inventory)),
        r != Page::Remediate,
{
    match inventory {
        Some(text) => {
            if is_inventory(text) {
                Page::Analyze
            } else {
                Page::Setup
            }
        },
        None => Page::Setup,
    }
}

} // verus!
