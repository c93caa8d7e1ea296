//! Verified core of the API filters of an AI gateway.

pub mod collections;
pub mod filter;
pub mod filter_results;
pub mod header;
pub mod json;
pub mod json_model;
pub mod json_text;
pub mod openai;
pub mod operation;
pub mod promotion;
pub mod routing_laws;
pub mod service;
pub mod state_owner;
pub mod text;
pub mod text_order;
