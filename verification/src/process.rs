//! The capture process: what it checks before it starts, the heartbeat it logs,
//! and the universe of instruments it keeps.
pub mod heartbeat;
pub mod laws;
pub mod startup;
pub mod universe;
