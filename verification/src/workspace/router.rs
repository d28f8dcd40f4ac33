//! Which tools a workspace offers, and what it tells of itself.

use crate::chars;
use crate::harness::tools::ToolExecutionPolicy;
use crate::message::{InputContent, ToolResult, ToolResultStatus};
use vstd::prelude::*;

verus! {

#[derive(Debug, PartialEq, Eq)]
pub struct WorkspaceContext {
    pub current_workspace: String,
    pub filesystem_root: String,
}

#[derive(Debug, Clone, Copy, PartialEq, Eq, Structural)]
pub enum WorkspaceToolSet {
    Standard,
    ReadOnly,
}

#[derive(Debug, Clone, Copy, PartialEq, Eq, Structural)]
pub enum WorkspaceTool {
    Read,
    Write,
    Edit,
    Grep,
    Glob,
    Ls,
    Bash,
}

/// The tools of a set, in the order in which they are offered.
pub open spec fn tools_of(set: WorkspaceToolSet) -> Seq<WorkspaceTool> {
    match set {
        WorkspaceToolSet::Standard => seq![
            WorkspaceTool::Read,
            WorkspaceTool::Write,
            WorkspaceTool::Edit,
            WorkspaceTool::Grep,
            WorkspaceTool::Glob,
            WorkspaceTool::Ls,
            WorkspaceTool::Bash,
        ],
        WorkspaceToolSet::ReadOnly => seq![
            WorkspaceTool::Read,
            WorkspaceTool::Grep,
            WorkspaceTool::Glob,
            WorkspaceTool::Ls,
        ],
    }
}

/// Whether a tool can change files or run commands.
pub open spec fn changes_things(tool: WorkspaceTool) -> bool {
    tool == WorkspaceTool::Write || tool == WorkspaceTool::Edit || tool == WorkspaceTool::Bash
}

pub fn workspace_tools(set: WorkspaceToolSet) -> (tools: Vec<WorkspaceTool>)
    ensures
        tools@ == tools_of(set),
{
    let mut tools: Vec<WorkspaceTool> = Vec::new();
    tools.push(WorkspaceTool::Read);
    tools.push(WorkspaceTool::Grep);
    tools.push(WorkspaceTool::Glob);
    tools.push(WorkspaceTool::Ls);
    if set == WorkspaceToolSet::Standard {
        tools.insert(1, WorkspaceTool::Write);
        tools.insert(2, WorkspaceTool::Edit);
        tools.push(WorkspaceTool::Bash);
    }
    assert(tools@ =~= tools_of(set));
    tools
}

/// The name that a tool is called by.
pub open spec fn tool_name_of(tool: WorkspaceTool) -> Seq<char> {
    match tool {
        WorkspaceTool::Read => "read"@,
        WorkspaceTool::Write => "write"@,
        WorkspaceTool::Edit => "edit"@,
        WorkspaceTool::Grep => "grep"@,
        WorkspaceTool::Glob => "glob"@,
        WorkspaceTool::Ls => "ls"@,
        WorkspaceTool::Bash => "bash"@,
    }
}

impl WorkspaceTool {
    pub fn name(self) -> (name: &'static str)
        ensures
            name@ == tool_name_of(self),
    {
        match self {
            WorkspaceTool::Read => "read",
            WorkspaceTool::Write => "write",
            WorkspaceTool::Edit => "edit",
            WorkspaceTool::Grep => "grep",
            WorkspaceTool::Glob => "glob",
            WorkspaceTool::Ls => "ls",
            WorkspaceTool::Bash => "bash",
        }
    }
}

/// The tool of a set that is called by a name, if there is one.
pub fn find_tool(set: WorkspaceToolSet, name: &str) -> (found: Option<WorkspaceTool>)
    ensures
        match found {
            Some(tool) => tools_of(set).contains(tool) && tool_name_of(tool) == name@,
            None => forall|tool: WorkspaceTool|
                tools_of(set).contains(tool) ==> #[trigger] tool_name_of(tool) != name@,
        },
{
    let tools = workspace_tools(set);
    let mut i: usize = 0;
    while i < tools.len()
        invariant
            i <= tools@.len(),
            tools@ == tools_of(set),
            forall|j: int| 0 <= j < i ==> tool_name_of(#[trigger] tools@[j]) != name@,
        decreases tools@.len() - i,
    {
        if chars::same_text(tools[i].name(), name) {
            return Some(tools[i]);
        }
        i = i + 1;
    }
    None
}

/// The tool of a set that is called by a name, or what is answered where there is none.
pub fn offered_tool(set: WorkspaceToolSet, name: &str) -> (offered: Result<WorkspaceTool, String>)
    ensures
        match offered {
            Ok(tool) => tools_of(set).contains(tool) && tool_name_of(tool) == name@,
            Err(message) => {
                &&& forall|tool: WorkspaceTool|
                    tools_of(set).contains(tool) ==> #[trigger] tool_name_of(tool) != name@
                &&& message@ == "unknown tool: "@ + name@
            },
        },
{
    match find_tool(set, name) {
        Some(tool) => Ok(tool),
        None => {
            let mut message: String = "unknown tool: ".to_owned();
            message.append(name);
            Err(message)
        },
    }
}

/// The result of a call, from what the tool gave or why it failed.
pub fn call_result(
    call_id: String,
    name: String,
    outcome: Result<Vec<InputContent>, String>,
) -> (result: ToolResult)
    ensures
        result.call_id == call_id,
        result.name == name,
        match outcome {
            Ok(content) => result.status == ToolResultStatus::Success && result.content == content,
            Err(message) => result.status == ToolResultStatus::Error && result.content@ == seq![
                InputContent::Text(message),
            ],
        },
{
    match outcome {
        Ok(content) => ToolResult { call_id, name, status: ToolResultStatus::Success, content },
        Err(message) => {
            let mut content: Vec<InputContent> = Vec::new();
            content.push(InputContent::Text(message));
            ToolResult { call_id, name, status: ToolResultStatus::Error, content }
        },
    }
}

/// How calls of a tool run. Commands and writing run one after the other; reading and searching may
/// run side by side. Of editing and listing nothing is told.
pub fn tool_policy(tool: WorkspaceTool) -> (policy: Option<ToolExecutionPolicy>)
    ensures
        policy == match tool {
            WorkspaceTool::Bash => Some(ToolExecutionPolicy::Serial),
            WorkspaceTool::Write => Some(ToolExecutionPolicy::Serial),
            WorkspaceTool::Read => Some(ToolExecutionPolicy::Parallel),
            WorkspaceTool::Grep => Some(ToolExecutionPolicy::Parallel),
            WorkspaceTool::Glob => Some(ToolExecutionPolicy::Parallel),
            _ => None,
        },
{
    match tool {
        WorkspaceTool::Bash => Some(ToolExecutionPolicy::Serial),
        WorkspaceTool::Write => Some(ToolExecutionPolicy::Serial),
        WorkspaceTool::Read => Some(ToolExecutionPolicy::Parallel),
        WorkspaceTool::Grep => Some(ToolExecutionPolicy::Parallel),
        WorkspaceTool::Glob => Some(ToolExecutionPolicy::Parallel),
        _ => None,
    }
}

/// A path as it is told: the root of a file system has no text of its own.
pub open spec fn told_path(path: Seq<char>) -> Seq<char> {
    if path.len() == 0 {
        "/"@
    } else {
        path
    }
}

/// What a workspace at a path, in a file system with a root, tells of itself.
pub fn workspace_context(root: &str, filesystem_root: &str) -> (context: WorkspaceContext)
    ensures
        context.current_workspace@ == told_path(root@),
        context.filesystem_root@ == told_path(filesystem_root@),
{
    WorkspaceContext {
        current_workspace: if root.is_empty() {
            "/".to_owned()
        } else {
            root.to_owned()
        },
        filesystem_root: if filesystem_root.is_empty() {
            "/".to_owned()
        } else {
            filesystem_root.to_owned()
        },
    }
}

/// The tools that only read cannot change files or run commands, and are all among the standard
/// ones.
pub proof fn law_read_only_tools_change_nothing(tool: WorkspaceTool)
    requires
        tools_of(WorkspaceToolSet::ReadOnly).contains(tool),
    ensures
        !changes_things(tool),
        tools_of(WorkspaceToolSet::Standard).contains(tool),
{
    let standard = tools_of(WorkspaceToolSet::Standard);
    assert(standard[0] == WorkspaceTool::Read);
    assert(standard[3] == WorkspaceTool::Grep);
    assert(standard[4] == WorkspaceTool::Glob);
    assert(standard[5] == WorkspaceTool::Ls);
}

/// The tools that only read are just those of the standard ones that change no file and run no command,
/// and every tool is a standard one.
pub proof fn law_read_only_tools_are_the_others(tool: WorkspaceTool)
    ensures
        tools_of(WorkspaceToolSet::Standard).contains(tool),
        tools_of(WorkspaceToolSet::ReadOnly).contains(tool) <==> !(tool == WorkspaceTool::Write
            || tool == WorkspaceTool::Edit || tool == WorkspaceTool::Bash),
{
    let standard = tools_of(WorkspaceToolSet::Standard);
    assert(standard[0] == WorkspaceTool::Read);
    assert(standard[1] == WorkspaceTool::Write);
    assert(standard[2] == WorkspaceTool::Edit);
    assert(standard[3] == WorkspaceTool::Grep);
    assert(standard[4] == WorkspaceTool::Glob);
    assert(standard[5] == WorkspaceTool::Ls);
    assert(standard[6] == WorkspaceTool::Bash);
    let reading = tools_of(WorkspaceToolSet::ReadOnly);
    assert(reading[0] == WorkspaceTool::Read);
    assert(reading[1] == WorkspaceTool::Grep);
    assert(reading[2] == WorkspaceTool::Glob);
    assert(reading[3] == WorkspaceTool::Ls);
}

/// No two tools are called by one name.
pub proof fn law_tools_have_names_of_their_own(tool: WorkspaceTool, other: WorkspaceTool)
    requires
        tool_name_of(tool) == tool_name_of(other),
    ensures
        tool == other,
{
    reveal_strlit("read");
    reveal_strlit("write");
    reveal_strlit("edit");
    reveal_strlit("grep");
    reveal_strlit("glob");
    reveal_strlit("ls");
    reveal_strlit("bash");
    let name = tool_name_of(tool);
    assert(name[0] == tool_name_of(other)[0]);
    assert(name[1] == tool_name_of(other)[1]);
}

/// A path is told as it is, and the root of a file system as a slash.
pub proof fn law_paths_are_told_as_they_are(path: Seq<char>)
    ensures
        path.len() > 0 ==> told_path(path) == path,
        told_path(Seq::empty()) == "/"@,
{
}

} // verus!
