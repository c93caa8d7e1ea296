//! Persistence business logic of the OpenAI-compatible APIs: how requests and
//! responses become records that a store holds for one owner.

pub mod conversations;
pub mod responses;
