//! The experts: where they live, how they are served, how they generate.

pub mod expert_router;
pub mod model;
pub mod registry;
pub mod table;
pub mod warm_tier;
