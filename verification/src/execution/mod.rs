//! Column-oriented execution of compiled contracts.

pub mod balance;
pub mod batching;
pub mod closing;
pub mod cutting;
pub mod dataset_finish;
pub mod dataset_state;
pub mod exact_rules;
pub mod exclusive;
pub mod executor;
pub mod fits;
pub mod kernels;
pub mod keys;
pub mod meaning;
pub mod merging;
pub mod naming;
pub mod ordering;
pub mod partition;
pub mod reach;
pub mod reading;
pub mod reference_state;
pub mod references;
pub mod report;
pub mod row_kernels;
pub mod stacking;
pub mod total;
pub mod uniqueness;
pub mod validation;
pub mod verdicts;
