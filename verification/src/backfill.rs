//! History fetched over REST: months of funding, open interest and klines are
//! there to be downloaded. Backfilled data is derived and can be fetched again,
//! so it bypasses the log and lands in month files, each its own completion
//! marker; the current month lands as a partial file, refreshed by every run and
//! replaced once the month closes.
pub mod binance;
pub mod bybit;
pub mod funding;
pub mod klines;
pub mod laws;
pub mod month;
pub mod oi;
pub mod partition;
pub mod reconcile;

use crate::decimal::Decimal;
use crate::paths::{file_name, join, parent, path_join, path_name, path_parent};
use vstd::prelude::*;
use vstd::string::*;

verus! {

#[derive(Debug)]
pub enum BackfillError {
    Http(String),
    Parse(String),
    Io(String),
    Table(String),
    Invalid(String),
}

impl BackfillError {
    /// The message an operator sees.
    pub open spec fn text(self) -> Seq<char> {
        match self {
            BackfillError::Http(e) => "http: "@ + e@,
            BackfillError::Parse(e) => "parse: "@ + e@,
            BackfillError::Io(e) => "io: "@ + e@,
            BackfillError::Table(e) => "table: "@ + e@,
            BackfillError::Invalid(e) => "invalid: "@ + e@,
        }
    }

    pub fn message(&self) -> (r: String)
        ensures
            r@ == self.text(),
    {
        match self {
            BackfillError::Http(e) => "http: ".to_owned().concat(e.as_str()),
            BackfillError::Parse(e) => "parse: ".to_owned().concat(e.as_str()),
            BackfillError::Io(e) => "io: ".to_owned().concat(e.as_str()),
            BackfillError::Table(e) => "table: ".to_owned().concat(e.as_str()),
            BackfillError::Invalid(e) => "invalid: ".to_owned().concat(e.as_str()),
        }
    }
}

/// Minimum gap between REST requests, in nanoseconds of a steady clock.
/// Backfill is a batch job that shares the address's budget with live capture:
/// pace conservatively.
#[derive(Debug, Clone, Copy, PartialEq, Eq, Structural)]
pub struct Pacer {
    pub min_gap: u64,
    pub next: Option<u64>,
}

impl Pacer {
    /// What a request at `now` makes of the pacer.
    pub open spec fn spaced(self, now: u64, after: Pacer) -> bool {
        &&& after.min_gap == self.min_gap
        &&& after.next == Some((now + self.min_gap) as u64)
    }

    pub fn new(min_gap: u64) -> (r: Pacer)
        ensures
            r == (Pacer { min_gap, next: None }),
    {
        Pacer { min_gap, next: None }
    }

    /// The instant the next request has to wait for, if there was one before.
    pub fn wait(&self) -> (r: Option<u64>)
        ensures
            r == self.next,
    {
        self.next
    }

    /// A request goes out at `now`.
    pub fn passed(&mut self, now: u64)
        requires
            now + old(self).min_gap <= u64::MAX,
        ensures
            *final(self) == (Pacer {
                min_gap: old(self).min_gap,
                next: Some((now + old(self).min_gap) as u64),
            }),
            old(self).spaced(now, *final(self)),
    {
        self.next = Some(now + self.min_gap);
    }
}

impl Default for Pacer {
    /// About four requests a second.
    fn default() -> (r: Pacer)
        ensures
            r == (Pacer { min_gap: 250_000_000, next: None }),
    {
        Pacer::new(250_000_000)
    }
}

/// One realized funding settlement as venues report it over REST.
#[derive(Debug)]
pub struct FundingPoint {
    /// Venue-raw symbol in the venue's own case.
    pub symbol: String,
    pub funding_time_ms: u64,
    pub rate: Decimal,
}

impl Clone for FundingPoint {
    fn clone(&self) -> (r: Self)
        ensures
            r == *self,
    {
        FundingPoint {
            symbol: self.symbol.clone(),
            funding_time_ms: self.funding_time_ms,
            rate: self.rate,
        }
    }
}

/// A venue's perpetual as its instruments endpoint lists it.
#[derive(Debug)]
pub struct PerpMeta {
    /// Venue-raw symbol in the venue's own case.
    pub symbol: String,
    pub onboard_ms: Option<u64>,
    pub funding_interval_ns: Option<u64>,
}

impl Clone for PerpMeta {
    fn clone(&self) -> (r: Self)
        ensures
            r == *self,
    {
        PerpMeta {
            symbol: self.symbol.clone(),
            onboard_ms: self.onboard_ms,
            funding_interval_ns: self.funding_interval_ns,
        }
    }
}

/// The temporary file a month is written to: in the directory of the final
/// file, under its name behind `.tmp-`.
pub open spec fn tmp_text(p: Seq<char>) -> Seq<char> {
    path_join(
        match path_parent(p) {
            Some(d) => d,
            None => "."@,
        },
        ".tmp-"@ + (match path_name(p) {
            Some(n) => n,
            None => Seq::empty(),
        }),
    )
}

/// `<dataset dir>/.tmp-<file>`: what a crash leaves behind is cleaned up by the
/// next run.
pub fn tmp_path(final_path: &str) -> (r: String)
    ensures
        r@ == tmp_text(final_path@),
{
    let dir: String = match parent(final_path) {
        Some(d) => d,
        None => ".".to_owned(),
    };
    let name: String = match file_name(final_path) {
        Some(n) => n,
        None => String::new(),
    };
    join(dir.as_str(), ".tmp-".to_owned().concat(name.as_str()).as_str())
}

} // verus!
