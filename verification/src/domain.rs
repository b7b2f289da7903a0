//! What the orchestrator talks about, independent of how any of it is stored or sent.

pub mod agent;
pub mod ports;
pub mod session;
pub mod skill;
pub mod tool;
pub mod tool_health;
pub mod tool_loop;
pub mod tool_output;
