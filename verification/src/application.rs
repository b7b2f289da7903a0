//! What the orchestrator does with a run.

pub mod runner;
pub mod tools;
pub mod validator;
