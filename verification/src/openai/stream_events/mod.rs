//! Accumulates state from native Responses API SSE event streams, and normalizes
//! successive inference streams into one downstream Responses lifecycle.

pub mod accumulation;
pub mod accumulation_laws;
pub mod accumulator;
pub mod chunks;
pub mod config;
pub mod delivery;
pub mod digest;
pub mod emission;
pub mod filter;
pub mod filter_laws;
pub mod laws;
pub mod lifecycle;
pub mod limits;
pub mod local_tools;
pub mod logical;
pub mod parser_state;
pub mod wire;
