//! A stateless orchestrator for model-driven agents: everything it decides, with proofs.

pub mod application;
pub mod clock;
pub mod dict;
pub mod domain;
pub mod infra;
pub mod json;
pub mod text;
