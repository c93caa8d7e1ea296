//! Filters of the OpenAI Responses API.

pub mod retained;
pub mod sse;
pub mod sse_laws;
pub mod state;
pub mod stream_events;
pub mod translation;
pub mod url_security;
pub mod usage;
pub mod validate;
pub mod web_search;
