//! Conversation memory.

pub mod context;
