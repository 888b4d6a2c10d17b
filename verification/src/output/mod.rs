//! What the agent answers.

pub mod prometheus;
pub mod query;
