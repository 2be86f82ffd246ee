//! Results of tool executions.

use vstd::prelude::*;

verus! {

/// The outcome of one tool execution.
#[derive(Debug, Clone)]
pub struct ToolResult {
    pub success: bool,
    pub output: String,
    pub error: Option<String>,
}

/// Filesystem isolation of a shell child to `workspace_dir` with Landlock.
/// Not wired yet: it reports that no restriction was applied.
pub fn apply_landlock(workspace_dir: &str) -> (r: bool)
    ensures
        !r,
{
    false
}

} // verus!
