//! What is laid over the experts: confidence, fusion and the critic.

pub mod confidence;
pub mod critic;
pub mod fusion;
pub mod linear_head;
