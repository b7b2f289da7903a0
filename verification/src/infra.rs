//! What stands between the orchestrator and the outside: configuration, credentials, prompt
//! templates, providers and tool servers.

pub mod config;
pub mod credentials;
pub mod hooks;
pub mod llm;
pub mod mcp;
pub mod persistence;
pub mod template;
pub mod timeouts;
