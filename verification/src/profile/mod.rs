//! Profiles of datasets, and validation by the plain rules of a contract without types.

pub mod agreement;
pub mod columns;
pub mod laws;
pub mod legacy;
pub mod rules;
pub mod scan;
