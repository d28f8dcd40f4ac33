//! The tools that work on a workspace.

pub mod bash_tool;
pub mod bytes;
pub mod filters;
pub mod glob_tool;
pub mod grep_tool;
pub mod order;
pub mod paths;
pub mod place;
pub mod read_tool;
pub mod router;
pub mod walk;
