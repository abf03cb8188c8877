//! Tools that the agents can call.
pub mod knowledge;
