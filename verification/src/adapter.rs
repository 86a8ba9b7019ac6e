//! The boundary between venues and consumers: what can be subscribed to, and
//! how a venue or a sink fails.
use crate::text::{quote, quoted};
use crate::types::{InstrumentClass, InstrumentId, RawFrame};
use vstd::prelude::*;
use vstd::string::*;

verus! {

#[derive(Debug, Clone, Copy, Hash, PartialEq, Eq, Structural)]
pub enum DataType {
    BookTicker,
    BookDepth,
    Trade,
    FundingRate,
    MarkPrice,
    IndexPrice,
    Liquidation,
    /// REST-only on most exchanges; captured by pollers, not streams.
    OpenInterest,
}

/// What a subscription covers. A venue-wide stream is one stream instead of
/// hundreds and immune to listing lag.
#[derive(Debug)]
pub enum Scope {
    Instruments(Vec<InstrumentId>),
    /// Every instrument of a class.
    Class(InstrumentClass),
    All,
}

#[derive(Debug)]
pub struct Subscription {
    pub scope: Scope,
    pub data: Vec<DataType>,
}

#[derive(Debug)]
pub enum VenueError {
    ConnectionFailed(String),
    AuthenticationFailed(String),
    InvalidInstrument(InstrumentId),
    SubscriptionFailed(String),
    RequestFailed(String),
}

impl VenueError {
    /// The message an operator sees.
    pub open spec fn text(self) -> Seq<char> {
        match self {
            VenueError::ConnectionFailed(m) => "connection failed: "@ + m@,
            VenueError::AuthenticationFailed(m) => "authentication failed: "@ + m@,
            VenueError::InvalidInstrument(id) => "invalid instrument: "@ + quoted(id.value@),
            VenueError::SubscriptionFailed(m) => "subscription failed: "@ + m@,
            VenueError::RequestFailed(m) => "request failed: "@ + m@,
        }
    }

    pub fn message(&self) -> (r: String)
        ensures
            r@ == self.text(),
    {
        match self {
            VenueError::ConnectionFailed(m) => "connection failed: ".to_owned().concat(m.as_str()),
            VenueError::AuthenticationFailed(m) => "authentication failed: ".to_owned().concat(
                m.as_str(),
            ),
            VenueError::InvalidInstrument(id) => "invalid instrument: ".to_owned().concat(
                quote(id.value.as_str()).as_str(),
            ),
            VenueError::SubscriptionFailed(m) => "subscription failed: ".to_owned().concat(
                m.as_str(),
            ),
            VenueError::RequestFailed(m) => "request failed: ".to_owned().concat(m.as_str()),
        }
    }
}

#[derive(Debug, Clone, Copy, PartialEq, Eq, Structural)]
pub enum EventSinkError {
    Closed,
    Full,
}

impl EventSinkError {
    /// The message an operator sees.
    pub open spec fn text(self) -> Seq<char> {
        match self {
            EventSinkError::Closed => "event sink closed"@,
            EventSinkError::Full => "event sink full"@,
        }
    }

    pub fn message(&self) -> (r: String)
        ensures
            r@ == self.text(),
    {
        match self {
            EventSinkError::Closed => "event sink closed".to_owned(),
            EventSinkError::Full => "event sink full".to_owned(),
        }
    }
}

/// Receives raw venue frames before parsing. Implementations hand the frame on
/// and return; capturing must never delay the read loop.
pub trait RawFrameSink: Send + Sync + 'static {
    fn send_raw(&self, frame: RawFrame);
}

/// No-op tee for venues running without raw capture.
impl RawFrameSink for () {
    fn send_raw(&self, _frame: RawFrame) {
    }
}

} // verus!
