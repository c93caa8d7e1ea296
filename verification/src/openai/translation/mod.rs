//! Translation between the Responses and the Chat Completions API.

pub mod reasoning;
