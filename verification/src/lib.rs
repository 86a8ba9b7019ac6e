use vstd::prelude::*;

pub mod adapter;
pub mod backfill;
pub mod binance;
pub mod calendar;
pub mod cli;
pub mod config;
pub mod decimal;
pub mod events;
pub mod lifecycle;
pub mod listing;
pub mod order;
pub mod paths;
pub mod payloads;
pub mod process;
pub mod recorder;
pub mod symbology;
pub mod text;
pub mod timed;
pub mod types;
pub mod wire;

verus! {
}
