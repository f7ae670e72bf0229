//! What callers in other languages ask for, and what they are told.

pub mod attest;
pub mod browser;
pub mod csv;
pub mod laws;
pub mod members;
pub mod requests;
