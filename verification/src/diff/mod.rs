//! Keyed diffs of two datasets: checksummed partitions, bounded memory, exact counts.

pub mod accumulate;
pub mod budget;
pub mod compare;
pub mod laws;
pub mod ledger;
pub mod options;
pub mod partition;
pub mod partitioner;
pub mod record;
pub mod reports;
pub mod rows;
pub mod samples;
pub mod signatures;
pub mod table;
