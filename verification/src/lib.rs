//! An audit of Python test suites: what each test asserts, what it mocks, which code of the
//! project it calls, and which tests deserve a look first.
pub mod accept;
pub mod audit;
pub mod baseline;
pub mod breadcrumbs;
pub mod content;
pub mod coverage;
pub mod document;
pub mod doubles;
pub mod expressions;
pub mod guide;
pub mod imports;
pub mod inventory;
pub mod json;
pub mod laws;
pub mod mock_api;
pub mod names;
pub mod numerals;
pub mod ordering;
pub mod pages;
pub mod parser;
pub mod paths;
pub mod pretty;
pub mod properties;
pub mod pyproject;
pub mod pytest;
pub mod python_detect;
pub mod ranking;
pub mod records;
pub mod smells;
pub mod suspicion;
pub mod sut_calls;
pub mod syntax;
pub mod text;
pub mod verification;
pub mod walker;
pub mod workspace;

pub use accept::{AcceptOptions, Accepted, AcceptedFinding, Signal, StaleAcceptance};
pub use inventory::{
    AuditResult, Inventory, MemberCwd, Project, Suite, ToolInfo, TopSuspicious,
    WorkspaceInventory, DEFAULT_TOP_SUSPICIOUS,
};
pub use records::{
    FileRecord, Measure, SetupRatio, SlowTest, SmellHit, SutCallEntry, SutCalls, TestRecord,
};
