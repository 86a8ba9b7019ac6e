//! What an event carries, by domain.
use crate::decimal::Decimal;
use crate::types::{AggressorSide, Instrument, InstrumentId, Level, Nanos, Trade};
use vstd::prelude::*;

verus! {

/// Domain-namespaced payload: consumers filter coarsely on the domain, and each
/// domain grows without touching the others.
#[derive(Debug)]
pub enum Payload {
    Market(MarketPayload),
    Reference(ReferencePayload),
    Chain(ChainPayload),
    Account(AccountPayload),
    Control(ControlPayload),
}

#[derive(Debug)]
pub enum MarketPayload {
    BookTicker {
        best_bid: Level,
        best_ask: Level,
        /// Venue book-sequence id of this top-of-book change.
        update_id: u64,
    },
    BookSnapshot {
        bids: Vec<Level>,
        asks: Vec<Level>,
        /// Book version this snapshot represents; an update continues it when
        /// `first_update_id <= last_update_id + 1 <= final_update_id`.
        last_update_id: u64,
    },
    BookUpdate {
        bids: Vec<Level>,
        asks: Vec<Level>,
        first_update_id: u64,
        final_update_id: u64,
        /// `final_update_id` of the previous update on this stream. A break in
        /// the chain outside reconnects means lost data.
        prev_final_update_id: Option<u64>,
        /// Venue event time, kept beside the transaction time of the envelope.
        event_time: Option<Nanos>,
    },
    Trades { trades: Vec<Trade> },
    MarkPrice { price: Decimal },
    IndexPrice { price: Decimal },
    FundingRatePrediction {
        rate: Decimal,
        next_funding_time: Nanos,
        /// Funding interval: the same rate costs eight times as much a year at
        /// one hour as at eight.
        interval: Option<Nanos>,
        premium_index: Option<Decimal>,
        clamp_min: Option<Decimal>,
        clamp_max: Option<Decimal>,
    },
    FundingRateRealized { rate: Decimal, funding_time: Nanos, interval: Option<Nanos> },
    OpenInterest { open_interest: Decimal, open_interest_value: Option<Decimal> },
    /// Forced liquidation order; `side` is the side of the order itself.
    Liquidation {
        side: AggressorSide,
        price: Decimal,
        qty: Decimal,
        filled_qty: Option<Decimal>,
        avg_price: Option<Decimal>,
        /// Venue-raw order status.
        order_status: Option<String>,
    },
}

/// Instrument lifecycle and resolution events.
#[derive(Debug)]
pub enum ReferencePayload {
    InstrumentAdded { instrument: Instrument },
    InstrumentChanged { instrument: Instrument },
    InstrumentDelisted { instrument_id: InstrumentId },
    /// Prediction-market resolution; `outcome` is the venue-raw winner.
    MarketResolved { outcome: String },
}

impl Clone for ReferencePayload {
    fn clone(&self) -> (r: Self)
        ensures
            r == *self,
    {
        match self {
            ReferencePayload::InstrumentAdded { instrument } => ReferencePayload::InstrumentAdded {
                instrument: instrument.clone(),
            },
            ReferencePayload::InstrumentChanged { instrument } =>
                ReferencePayload::InstrumentChanged { instrument: instrument.clone() },
            ReferencePayload::InstrumentDelisted { instrument_id } =>
                ReferencePayload::InstrumentDelisted { instrument_id: instrument_id.clone() },
            ReferencePayload::MarketResolved { outcome } => ReferencePayload::MarketResolved {
                outcome: outcome.clone(),
            },
        }
    }
}

/// Reserved for on-chain payloads; nothing produces one yet.
#[non_exhaustive]
#[derive(Debug, Clone, Copy, PartialEq, Eq, Structural)]
pub enum ChainPayload {
    Reserved,
}

/// Reserved for private account and execution payloads; nothing produces one
/// yet.
#[non_exhaustive]
#[derive(Debug, Clone, Copy, PartialEq, Eq, Structural)]
pub enum AccountPayload {
    Reserved,
}

/// Capture and transport truth: connection state, gaps, snapshot brackets,
/// subscription acknowledgements, reorganisations. Recorded and replayed like
/// market data.
#[derive(Debug)]
pub enum ControlPayload {
    ConnUp { label: String },
    ConnDown { label: String, reason: String },
    /// Emitted by a lossy hop when events were dropped.
    Gap { reason: String, dropped: u64 },
    SnapshotBegin,
    SnapshotEnd,
    SubAck { request_id: u64, ok: bool, detail: Option<String> },
    /// Chain reorganisation observed from `from_block`.
    Reorg { from_block: u64 },
}

impl Clone for ControlPayload {
    fn clone(&self) -> (r: Self)
        ensures
            r == *self,
    {
        match self {
            ControlPayload::ConnUp { label } => ControlPayload::ConnUp { label: label.clone() },
            ControlPayload::ConnDown { label, reason } => ControlPayload::ConnDown {
                label: label.clone(),
                reason: reason.clone(),
            },
            ControlPayload::Gap { reason, dropped } => ControlPayload::Gap {
                reason: reason.clone(),
                dropped: *dropped,
            },
            ControlPayload::SnapshotBegin => ControlPayload::SnapshotBegin,
            ControlPayload::SnapshotEnd => ControlPayload::SnapshotEnd,
            ControlPayload::SubAck { request_id, ok, detail } => ControlPayload::SubAck {
                request_id: *request_id,
                ok: *ok,
                detail: match detail {
                    Some(d) => Some(d.clone()),
                    None => None,
                },
            },
            ControlPayload::Reorg { from_block } => ControlPayload::Reorg {
                from_block: *from_block,
            },
        }
    }
}

} // verus!
