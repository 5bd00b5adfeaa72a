//! Splits a byte stream over a window of numbered output files, rotating them once the current
//! one reaches a size limit.
pub mod naming;
pub mod config;
pub mod rotation;
pub mod splitter;
pub mod laws;
