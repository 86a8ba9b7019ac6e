//! Write-ahead-log framing: one payload per frame, each guarded by a checksum,
//! and a reader that heals past corruption.
pub mod frame;
pub mod laws;
pub mod reader;
