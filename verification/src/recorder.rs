//! Recording: counters, quality assurance, conversion, log files and the daily
//! sweep.
pub mod convert;
pub mod duty_laws;
pub mod laws;
pub mod naming_laws;
pub mod qa;
pub mod stats;
pub mod sweep;
pub mod tables;
pub mod wal;
