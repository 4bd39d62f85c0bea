//! Mixture-of-experts routing over state-space language models.

pub mod brain;
pub mod cli;
pub mod config;
pub mod experts;
pub mod layers;
pub mod memory;
pub mod pipeline;
pub mod score;
pub mod server;
pub mod text;
