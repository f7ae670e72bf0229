//! Versioned contract syntax and schema compilation.

pub mod accepted;
pub mod ast;
pub mod bounds;
pub mod compile;
pub mod dataset;
pub mod dataset_identity;
pub mod document;
pub mod fields;
pub mod json;
pub mod meaning;
pub mod plan_apart;
pub mod plan_digest;
pub mod plan_identity;
pub mod plans;
pub mod row;
pub mod rules;
pub mod v2;
