//! The inventory that an audit gives.
use vstd::prelude::*;

use crate::accept::Accepted;
use crate::records::{FileRecord, Measure, SlowTest, SutCalls, TestRecord};

verus! {

/// The version of the shape in which an inventory is written down.
pub const SCHEMA_VERSION: &'static str = "2";

/// The name of this tool.
pub const TOOL_NAME: &'static str = "pycoati";

/// The version of this tool.
pub const TOOL_VERSION: &'static str = "0.1.0";

/// How many tests and files a shortlist holds where nothing else is asked for.
pub const DEFAULT_TOP_SUSPICIOUS: usize = 20;

/// The project that was audited.
#[derive(Debug)]
pub struct Project {
    pub path: String,
    pub name: String,
}

/// What running the suite gave. Nothing means not measured.
#[derive(Debug)]
pub struct Suite {
    pub test_count: Option<u64>,
    pub runtime_seconds: Option<Measure>,
    pub line_coverage_pct: Option<Measure>,
    pub slowest_tests: Vec<SlowTest>,
}

/// The shortlists.
#[derive(Debug)]
pub struct TopSuspicious {
    pub test_functions: Vec<String>,
    pub files: Vec<String>,
}

/// What made the inventory, and what it ran.
#[derive(Debug)]
pub struct ToolInfo {
    pub name: String,
    pub version: String,
    pub ran_pytest: bool,
    pub ran_coverage: bool,
}

/// This tool after a run in which pytest and coverage ran or did not.
pub open spec fn is_tool(tool: ToolInfo, ran_pytest: bool, ran_coverage: bool) -> bool {
    &&& tool.name@ == TOOL_NAME@
    &&& tool.version@ == TOOL_VERSION@
    &&& tool.ran_pytest == ran_pytest
    &&& tool.ran_coverage == ran_coverage
}

impl ToolInfo {
    /// This tool after a run that ran nothing.
    pub fn without_runtime() -> (r: ToolInfo)
        ensures
            is_tool(r, false, false),
    {
        ToolInfo::with_runtime(false, false)
    }

    /// This tool after a run in which pytest and coverage ran or did not.
    pub fn with_runtime(ran_pytest: bool, ran_coverage: bool) -> (r: ToolInfo)
        ensures
            is_tool(r, ran_pytest, ran_coverage),
    {
        ToolInfo {
            name: TOOL_NAME.to_owned(),
            version: TOOL_VERSION.to_owned(),
            ran_pytest,
            ran_coverage,
        }
    }
}

/// The audit of one project.
#[derive(Debug)]
pub struct Inventory {
    pub schema_version: String,
    pub project: Project,
    pub suite: Suite,
    pub files: Vec<FileRecord>,
    pub test_functions: Vec<TestRecord>,
    pub sut_calls: SutCalls,
    pub top_suspicious: TopSuspicious,
    pub accepted: Accepted,
    pub tool: ToolInfo,
}

/// The audit of every member of a workspace.
#[derive(Debug)]
pub struct WorkspaceInventory {
    pub schema_version: String,
    pub workspace_root: String,
    pub members: Vec<Inventory>,
    pub tool: ToolInfo,
}

/// What an audit gives.
#[derive(Debug)]
pub enum AuditResult {
    Single(Inventory),
    Workspace(WorkspaceInventory),
}

/// Where pytest runs for the members of a workspace.
#[derive(Copy, Clone, Debug, PartialEq, Eq, Structural)]
pub enum MemberCwd {
    /// In the root of the workspace.
    Root,
    /// In the directory of the member.
    Member,
}

/// A suite of which nothing was measured.
pub open spec fn nothing_measured(suite: Suite) -> bool {
    &&& suite.test_count is None
    &&& suite.runtime_seconds is None
    &&& suite.line_coverage_pct is None
    &&& suite.slowest_tests@.len() == 0
}

/// An inventory of a project in which nothing was found yet.
pub fn empty_inventory(project: Project) -> (r: Inventory)
    ensures
        r.schema_version@ == SCHEMA_VERSION@,
        r.project == project,
        nothing_measured(r.suite),
        r.files@.len() == 0,
        r.test_functions@.len() == 0,
        r.sut_calls.by_name@.len() == 0,
        r.sut_calls.top_called@.len() == 0,
        r.top_suspicious.test_functions@.len() == 0,
        r.top_suspicious.files@.len() == 0,
        r.accepted.path is None,
        !r.accepted.included_in_shortlist,
        r.accepted.findings@.len() == 0,
        r.accepted.stale@.len() == 0,
        is_tool(r.tool, false, false),
{
    Inventory {
        schema_version: SCHEMA_VERSION.to_owned(),
        project,
        suite: Suite {
            test_count: None,
            runtime_seconds: None,
            line_coverage_pct: None,
            slowest_tests: Vec::new(),
        },
        files: Vec::new(),
        test_functions: Vec::new(),
        sut_calls: SutCalls { by_name: Vec::new(), top_called: Vec::new() },
        top_suspicious: TopSuspicious { test_functions: Vec::new(), files: Vec::new() },
        accepted: Accepted::none(false),
        tool: ToolInfo::without_runtime(),
    }
}

/// What an audit of a whole workspace is called by: it ran what any of its members ran.
pub open spec fn any_ran_pytest(members: Seq<Inventory>) -> bool {
    exists|i: int| 0 <= i < members.len() && (#[trigger] members[i]).tool.ran_pytest
}

/// Coverage was measured for one of the members.
pub open spec fn any_ran_coverage(members: Seq<Inventory>) -> bool {
    exists|i: int| 0 <= i < members.len() && (#[trigger] members[i]).tool.ran_coverage
}

/// The audit of a workspace from those of its members.
pub fn workspace_inventory(root: &str, members: Vec<Inventory>) -> (r: WorkspaceInventory)
    ensures
        r.schema_version@ == SCHEMA_VERSION@,
        r.workspace_root@ == root@,
        r.members == members,
        is_tool(r.tool, any_ran_pytest(members@), any_ran_coverage(members@)),
{
    let mut ran_pytest = false;
    let mut ran_coverage = false;
    let mut i: usize = 0;
    while i < members.len()
        invariant
            i <= members@.len(),
            ran_pytest == exists|k: int| 0 <= k < i && (#[trigger] members@[k]).tool.ran_pytest,
            ran_coverage == exists|k: int|
                0 <= k < i && (#[trigger] members@[k]).tool.ran_coverage,
        decreases members@.len() - i,
    {
        if members[i].tool.ran_pytest {
            ran_pytest = true;
        }
        if members[i].tool.ran_coverage {
            ran_coverage = true;
        }
        i += 1;
    }
    WorkspaceInventory {
        schema_version: SCHEMA_VERSION.to_owned(),
        workspace_root: root.to_owned(),
        members,
        tool: ToolInfo::with_runtime(ran_pytest, ran_coverage),
    }
}

/// An inventory whose shortlist of tests holds something.
pub open spec fn has_candidates(inventory: Inventory) -> bool {
    inventory.top_suspicious.test_functions@.len() > 0
}

/// Some inventory of a list has a shortlist that holds something.
pub open spec fn any_candidates(members: Seq<Inventory>) -> bool {
    exists|i: int| 0 <= i < members.len() && has_candidates(#[trigger] members[i])
}

/// Whether an audit found anything to look at: for a workspace, in any member.
pub fn reports_candidates(result: &AuditResult) -> (r: bool)
    ensures
        r == (match *result {
            AuditResult::Single(inventory) => has_candidates(inventory),
            AuditResult::Workspace(workspace) => any_candidates(workspace.members@),
        }),
{
    match result {
        AuditResult::Single(inventory) => inventory.top_suspicious.test_functions.len() > 0,
        AuditResult::Workspace(workspace) => {
            let mut i: usize = 0;
            while i < workspace.members.len()
                invariant
                    i <= workspace.members@.len(),
                    result == AuditResult::Workspace(*workspace),
                    forall|k: int|
                        0 <= k < i ==> !has_candidates(#[trigger] workspace.members@[k]),
                decreases workspace.members@.len() - i,
            {
                if workspace.members[i].top_suspicious.test_functions.len() > 0 {
                    assert(has_candidates(workspace.members@[i as int]));
                    assert(any_candidates(workspace.members@));
                    return true;
                }
                i += 1;
            }
            false
        },
    }
}

} // verus!
