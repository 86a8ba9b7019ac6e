//! Fee schedules: curated files are the truth, read strictly. Rates are
//! floating-point numbers where they are read; here a rate is the bit pattern of
//! one.
use super::SymbologyError;
use crate::calendar::{as_date, iso_date, Date};
use crate::order::{stable_sort, stable_sort_of, Ranked};
use crate::text::{
    before, ends_in, law_lex_total, law_lex_transitive, lex_lt, quote, quoted, same, strip_tail,
};
use vstd::prelude::*;
use vstd::string::*;

verus! {

/// One schedule of a venue.
#[derive(Debug)]
pub struct FeeEntry {
    /// First day it applied.
    pub valid_from: String,
    pub tier: String,
    pub market: String,
    /// Fractions as text.
    pub maker: String,
    pub taker: String,
}

#[derive(Debug)]
pub struct FeeRow {
    pub venue: String,
    pub tier: String,
    pub market: String,
    pub maker: u64,
    pub taker: u64,
    pub valid_from_ns: u64,
}

/// What reading a rate came to. Rebates exist, but nothing beyond five percent
/// either way is plausible.
#[derive(Debug, Clone, Copy, PartialEq, Eq, Structural)]
pub enum RateReading {
    NoNumber,
    Implausible,
    Rate(u64),
}

/// What is wrong with a rate.
pub open spec fn rate_fault(
    reading: RateReading,
    raw: Seq<char>,
    what: Seq<char>,
    venue: Seq<char>,
) -> Option<Seq<char>> {
    match reading {
        RateReading::NoNumber => Some(venue + " fees: bad "@ + what + " "@ + quoted(raw)),
        RateReading::Implausible => Some(
            venue + " fees: implausible "@ + what + " "@ + quoted(raw),
        ),
        RateReading::Rate(_) => None,
    }
}

/// A rate that was read, or what is wrong with it.
pub fn parse_rate(reading: RateReading, raw: &str, what: &str, venue: &str) -> (r: Result<
    u64,
    SymbologyError,
>)
    ensures
        match rate_fault(reading, raw@, what@, venue@) {
            Some(t) => r matches Err(SymbologyError::Parse(e)) && e@ == t,
            None => r matches Ok(v) && reading == RateReading::Rate(v),
        },
{
    match reading {
        RateReading::Rate(v) => Ok(v),
        RateReading::NoNumber => Err(
            SymbologyError::Parse(
                venue.to_owned().concat(" fees: bad ").concat(what).concat(" ").concat(
                    quote(raw).as_str(),
                ),
            ),
        ),
        RateReading::Implausible => Err(
            SymbologyError::Parse(
                venue.to_owned().concat(" fees: implausible ").concat(what).concat(" ").concat(
                    quote(raw).as_str(),
                ),
            ),
        ),
    }
}

/// The first thing that is wrong with a schedule: its day, its maker rate, its
/// taker rate.
pub open spec fn entry_fault(
    venue: Seq<char>,
    e: FeeEntry,
    maker: RateReading,
    taker: RateReading,
) -> Option<Seq<char>> {
    if as_date(iso_date(e.valid_from@)) is Err {
        Some(venue + " fees: bad valid_from "@ + quoted(e.valid_from@))
    } else {
        match rate_fault(maker, e.maker@, "maker"@, venue) {
            Some(t) => Some(t),
            None => rate_fault(taker, e.taker@, "taker"@, venue),
        }
    }
}

/// `r` is the row of a schedule.
pub open spec fn row_of(
    venue: Seq<char>,
    e: FeeEntry,
    maker: RateReading,
    taker: RateReading,
    r: FeeRow,
) -> bool {
    &&& r.venue@ == venue
    &&& r.tier@ == e.tier@
    &&& r.market@ == e.market@
    &&& maker == RateReading::Rate(r.maker)
    &&& taker == RateReading::Rate(r.taker)
    &&& as_date(iso_date(e.valid_from@)) matches Ok(d) && r.valid_from_ns == d.start_ns()
}

/// The row of a schedule whose rates have been read.
pub fn fee_row(venue: &str, e: &FeeEntry, maker: RateReading, taker: RateReading) -> (r: Result<
    FeeRow,
    SymbologyError,
>)
    ensures
        match entry_fault(venue@, *e, maker, taker) {
            Some(t) => r matches Err(SymbologyError::Parse(m)) && m@ == t,
            None => r matches Ok(row) && row_of(venue@, *e, maker, taker, row),
        },
{
    let date: Date = match Date::parse_iso(e.valid_from.as_str()) {
        Ok(d) => d,
        Err(_) => {
            return Err(
                SymbologyError::Parse(
                    venue.to_owned().concat(" fees: bad valid_from ").concat(
                        quote(e.valid_from.as_str()).as_str(),
                    ),
                ),
            );
        },
    };
    let maker: u64 = parse_rate(maker, e.maker.as_str(), "maker", venue)?;
    let taker: u64 = parse_rate(taker, e.taker.as_str(), "taker", venue)?;
    Ok(
        FeeRow {
            venue: venue.to_owned(),
            tier: e.tier.clone(),
            market: e.market.clone(),
            maker,
            taker,
            valid_from_ns: date.day_ns(),
        },
    )
}

/// The venue a schedule file is for, if it is one.
pub fn venue_of_file(name: &str) -> (r: Option<String>)
    ensures
        match r {
            Some(v) => ends_in(name@, ".toml"@) && v@ == name@.take(name@.len() - ".toml"@.len()),
            None => !ends_in(name@, ".toml"@),
        },
{
    strip_tail(name, ".toml")
}

/// A venue and how many rows its schedule has.
#[derive(Debug)]
pub struct VenueRows {
    pub venue: String,
    pub rows: usize,
}

impl Ranked for VenueRows {
    open spec fn rank_le(a: Self, b: Self) -> bool {
        lex_lt(a.venue@, b.venue@) || (a.venue@ == b.venue@ && a.rows <= b.rows)
    }

    proof fn rank_total(a: Self, b: Self) {
        law_lex_total(a.venue@, b.venue@);
    }

    proof fn rank_transitive(a: Self, b: Self, c: Self) {
        if lex_lt(a.venue@, b.venue@) && lex_lt(b.venue@, c.venue@) {
            law_lex_transitive(a.venue@, b.venue@, c.venue@);
        }
    }

    fn not_after(&self, other: &Self) -> (r: bool) {
        before(self.venue.as_str(), other.venue.as_str()) || (same(
            self.venue.as_str(),
            other.venue.as_str(),
        ) && self.rows <= other.rows)
    }
}

#[derive(Debug)]
pub struct FeesSummary {
    pub venues: Vec<VenueRows>,
    pub out_dir: String,
}

/// The summary of a build; one without a single schedule is an error.
pub fn summarize(venues: Vec<VenueRows>, fees_dir: &str, out_dir: &str) -> (r: Result<
    FeesSummary,
    SymbologyError,
>)
    ensures
        match r {
            Ok(s) => venues@.len() > 0 && stable_sort_of(venues@, s.venues@) && s.out_dir@
                == out_dir@,
            Err(e) => venues@.len() == 0 && (e matches SymbologyError::Invalid(t) && t@
                == "no <venue>.toml files under "@ + fees_dir@),
        },
{
    if venues.len() == 0 {
        return Err(
            SymbologyError::Invalid("no <venue>.toml files under ".to_owned().concat(fees_dir)),
        );
    }
    Ok(FeesSummary { venues: stable_sort(venues), out_dir: out_dir.to_owned() })
}

} // verus!
