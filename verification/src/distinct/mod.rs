//! Exact distinct and uniqueness state backed by sorted runs.

pub mod budget;
pub mod laws;
pub mod merge;
pub mod order;
pub mod run;
pub mod sets;
pub mod state;
