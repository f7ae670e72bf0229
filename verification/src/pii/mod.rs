//! High-signal personal data: what a value looks like, and reports that never carry it.

pub mod detect;
pub mod laws;
pub mod options;
pub mod scan;
