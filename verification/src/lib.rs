//! A conversation engine for a streaming chat client.
//!
//! The crate owns the durable conversation state (threads and messages with
//! their edit and regeneration lineage), reassembles the backend's
//! incremental token stream into a structured transcript, and applies the
//! state-mutating operations (send, edit, regenerate, delete) under
//! well-defined invalidation rules.

mod clock;
pub mod attach;
pub mod engine;
pub mod parse;
pub mod protocol;
pub mod seq_facts;
pub mod store;
pub mod stream;
