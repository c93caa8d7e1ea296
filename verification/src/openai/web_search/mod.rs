//! Web search for the Responses API: provider access, the dispatcher of the
//! agentic loop, and the blocking orchestrator.

pub mod config;
pub mod dispatch;
pub mod orchestration_laws;
pub mod orchestrator;
pub mod provider;
pub mod turn_laws;
pub mod turns;
