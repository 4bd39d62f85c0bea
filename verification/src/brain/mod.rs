//! Routing: from a prompt to the experts that answer it.

pub mod decompose;
pub mod gate;
pub mod native_router;
pub mod router;
