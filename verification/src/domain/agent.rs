//! Agents, as their definition files describe them.
use crate::dict::Dict;
use crate::json::Json;
use vstd::prelude::*;

verus! {

/// What an agent's definition declares.
#[derive(Debug)]
pub struct AgentDef {
    pub name: String,
    pub description: String,
    pub model: String,
    /// The provider to ask, where the definition names one.
    pub provider: Option<String>,
    /// Whether the model can read images.
    pub vision: bool,
    /// The agents this one is told about.
    pub knows_about: Vec<String>,
    /// The tool servers this agent is given.
    pub mcp_servers: Vec<String>,
    /// What to add to the body of every request.
    pub extra_body: Dict<Json>,
    /// What to add to the headers of every request.
    pub extra_headers: Dict<String>,
}

/// A definition file: what it declares, and the instructions that follow, where there are any.
#[derive(Debug)]
pub struct ParsedAgentDef {
    pub frontmatter: AgentDef,
    pub body: Option<String>,
}

} // verus!
