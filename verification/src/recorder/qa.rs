//! Per-file capture quality assurance: one pass over a day of events.
pub mod accumulator;
pub mod counting;
pub mod histogram;
pub mod history;
pub mod laws;
pub mod report;
