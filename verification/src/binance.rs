//! The Binance USD-M venue: what its messages mean, how its connections and
//! pollers behave.
pub mod funding;
pub mod instruments;
pub mod laws;
pub mod messages;
pub mod poll_laws;
pub mod pollers;
pub mod polling;
pub mod session;
pub mod session_laws;
pub mod snapshots;
pub mod streams;
