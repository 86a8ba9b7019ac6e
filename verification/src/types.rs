//! Identifiers, instruments and the small value types events are made of.
use crate::decimal::{optional_same, same_optional, Decimal};
use crate::text::same;
use vstd::prelude::*;
use vstd::string::*;

verus! {

/// Nanoseconds since the Unix epoch.
pub type Nanos = u64;

/// Which connection, poller or watcher inside a venue process produced an
/// observation: 0 is REST, WebSocket connections count from 1 in spawn order.
#[derive(Debug, Clone, Copy, Hash, PartialEq, Eq, Structural)]
pub struct SourceId(pub u16);

impl SourceId {
    /// The source every REST observation carries.
    pub fn rest() -> (r: SourceId)
        ensures
            r == SourceId(0),
    {
        SourceId(0)
    }
}

/// A raw venue frame exactly as received, captured before parsing.
#[derive(Debug)]
pub struct RawFrame {
    pub local_ts: Nanos,
    pub source: SourceId,
    pub bytes: Vec<u8>,
}

impl Clone for RawFrame {
    fn clone(&self) -> (r: Self)
        ensures
            r.local_ts == self.local_ts,
            r.source == self.source,
            r.bytes@ == self.bytes@,
    {
        RawFrame { local_ts: self.local_ts, source: self.source, bytes: self.bytes.clone() }
    }
}

/// On-chain observation context; absent for every exchange event.
#[derive(Debug, Clone, Copy, PartialEq, Eq, Structural)]
pub struct Provenance {
    pub block: u64,
    pub tx_index: Option<u32>,
    pub log_index: Option<u32>,
    pub finality: Finality,
}

#[derive(Debug, Clone, Copy, PartialEq, Eq, Structural)]
pub enum Finality {
    Pending,
    Safe,
    Finalized,
}

#[derive(Debug, Clone, Copy, PartialEq, Eq, Structural)]
pub enum AggressorSide {
    Buy,
    Sell,
}

/// One price level of a book.
#[derive(Debug, Clone, Copy)]
pub struct Level {
    pub price: Decimal,
    pub qty: Decimal,
}

/// One trade. `id` is the venue-raw trade id kept as text: some venues number
/// their trades, others hash them.
#[derive(Debug)]
pub struct Trade {
    pub id: String,
    pub price: Decimal,
    pub qty: Decimal,
    pub aggressor_side: AggressorSide,
    /// Venue-raw fill type where the venue tells fills apart.
    pub kind: Option<String>,
}

impl Clone for Trade {
    fn clone(&self) -> (r: Self)
        ensures
            r == *self,
    {
        Trade {
            id: self.id.clone(),
            price: self.price,
            qty: self.qty,
            aggressor_side: self.aggressor_side,
            kind: match &self.kind {
                Some(k) => Some(k.clone()),
                None => None,
            },
        }
    }
}

/// Venue-raw instrument key, such as the lowercased Binance symbol.
#[derive(Debug, Hash, PartialEq, Eq)]
pub struct InstrumentId {
    pub value: String,
}

impl Clone for InstrumentId {
    fn clone(&self) -> (r: Self)
        ensures
            r == *self,
    {
        InstrumentId { value: self.value.clone() }
    }
}

/// Canonical asset symbol ("BTC", "USDT").
#[derive(Debug, Hash, PartialEq, Eq)]
pub struct Asset(pub String);

impl Clone for Asset {
    fn clone(&self) -> (r: Self)
        ensures
            r == *self,
    {
        Asset(self.0.clone())
    }
}

/// Instrument class across all target venue families.
#[derive(Debug, Clone, Copy, Hash, PartialEq, Eq, Structural)]
pub enum InstrumentClass {
    Spot,
    Perp,
    /// Dated future; `expiry` is the delivery time when known.
    Future { expiry: Option<Nanos> },
    /// One outcome token of a prediction market.
    PredictionOutcome,
    /// An AMM pool.
    Pool,
}

/// Lifecycle state of an instrument at observation time.
#[derive(Debug, Clone, Copy, Hash, PartialEq, Eq, Structural)]
pub enum LifecycleState {
    PendingTrading,
    Trading,
    Halted,
    Delisted,
}

#[derive(Debug, Clone, Copy, Hash, PartialEq, Eq, Structural)]
pub enum Linearity {
    Linear,
    Inverse,
}

/// Cross-venue canonical instrument identity. Events stay keyed by the
/// venue-raw id; the symbology registry maps between the two.
#[derive(Debug, Hash, PartialEq, Eq)]
pub struct CanonicalInstrumentId {
    pub base: Asset,
    pub quote: Asset,
    pub class: InstrumentClass,
    pub settle: Asset,
}

impl Clone for CanonicalInstrumentId {
    fn clone(&self) -> (r: Self)
        ensures
            r == *self,
    {
        CanonicalInstrumentId {
            base: self.base.clone(),
            quote: self.quote.clone(),
            class: self.class,
            settle: self.settle.clone(),
        }
    }
}

/// Venue instrument reference data.
#[derive(Debug)]
pub struct Instrument {
    pub id: InstrumentId,
    pub class: InstrumentClass,
    pub base: Asset,
    pub quote: Asset,
    pub tick_size: Option<Decimal>,
    pub lot_size: Option<Decimal>,
    pub min_notional: Option<Decimal>,
    /// Contract value multiplier; absent means 1.
    pub contract_multiplier: Option<Decimal>,
    pub settle_ccy: Option<Asset>,
    pub linearity: Option<Linearity>,
    /// Funding interval for perpetuals, when known.
    pub funding_interval: Option<Nanos>,
    pub lifecycle: LifecycleState,
}

impl Clone for Instrument {
    fn clone(&self) -> (r: Self)
        ensures
            r == *self,
    {
        Instrument {
            id: self.id.clone(),
            class: self.class,
            base: self.base.clone(),
            quote: self.quote.clone(),
            tick_size: self.tick_size,
            lot_size: self.lot_size,
            min_notional: self.min_notional,
            contract_multiplier: self.contract_multiplier,
            settle_ccy: match &self.settle_ccy {
                Some(a) => Some(a.clone()),
                None => None,
            },
            linearity: self.linearity,
            funding_interval: self.funding_interval,
            lifecycle: self.lifecycle,
        }
    }
}

/// The characters of an optional asset symbol.
pub open spec fn asset_view(a: Option<Asset>) -> Option<Seq<char>> {
    match a {
        Some(x) => Some(x.0@),
        None => None,
    }
}

impl Instrument {
    /// Two observations of an instrument agree: every text is the same, every
    /// decimal is the same number, every other field is equal.
    pub open spec fn same_as(self, o: Instrument) -> bool {
        &&& self.id.value@ == o.id.value@
        &&& self.class == o.class
        &&& self.base.0@ == o.base.0@
        &&& self.quote.0@ == o.quote.0@
        &&& same_optional(self.tick_size, o.tick_size)
        &&& same_optional(self.lot_size, o.lot_size)
        &&& same_optional(self.min_notional, o.min_notional)
        &&& same_optional(self.contract_multiplier, o.contract_multiplier)
        &&& asset_view(self.settle_ccy) == asset_view(o.settle_ccy)
        &&& self.linearity == o.linearity
        &&& self.funding_interval == o.funding_interval
        &&& self.lifecycle == o.lifecycle
    }

    pub fn same_observation(&self, o: &Instrument) -> (r: bool)
        ensures
            r == self.same_as(*o),
    {
        let settle: bool = match (&self.settle_ccy, &o.settle_ccy) {
            (Some(a), Some(b)) => same(a.0.as_str(), b.0.as_str()),
            (None, None) => true,
            _ => false,
        };
        settle && same(self.id.value.as_str(), o.id.value.as_str()) && self.class == o.class
            && same(self.base.0.as_str(), o.base.0.as_str()) && same(
            self.quote.0.as_str(),
            o.quote.0.as_str(),
        ) && optional_same(&self.tick_size, &o.tick_size) && optional_same(
            &self.lot_size,
            &o.lot_size,
        ) && optional_same(&self.min_notional, &o.min_notional) && optional_same(
            &self.contract_multiplier,
            &o.contract_multiplier,
        ) && self.linearity == o.linearity && self.funding_interval == o.funding_interval
            && self.lifecycle == o.lifecycle
    }
}

/// Which venue an event comes from.
#[derive(Debug, Hash, PartialEq, Eq)]
pub struct VenueId {
    pub value: String,
}

impl Clone for VenueId {
    fn clone(&self) -> (r: Self)
        ensures
            r == *self,
    {
        VenueId { value: self.value.clone() }
    }
}

/// The value of a timestamp once it is read as a signed 64-bit number.
pub open spec fn signed(x: u64) -> int {
    if x < 0x8000_0000_0000_0000 {
        x as int
    } else {
        x - 0x1_0000_0000_0000_0000
    }
}

/// Read a timestamp as a signed 64-bit number.
pub fn to_signed(x: u64) -> (r: i64)
    ensures
        r == signed(x),
{
    if x < 0x8000_0000_0000_0000 {
        x as i64
    } else {
        let y: u64 = u64::MAX - x;
        -1 - (y as i64)
    }
}

/// Milliseconds since the epoch as nanoseconds.
pub fn ms_to_nanos(ms: u64) -> (r: Nanos)
    requires
        ms * 1_000_000 <= u64::MAX,
    ensures
        r == ms * 1_000_000,
{
    ms * 1_000_000
}

} // verus!
