//! Reading what a project has written down.

pub mod frontmatter;
pub mod tool_def;
