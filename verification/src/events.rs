//! The event envelope.
use crate::payloads::{ControlPayload, Payload};
use crate::types::{InstrumentId, Nanos, Provenance, SourceId, VenueId};
use vstd::prelude::*;

verus! {

/// One observation. `venue_ts` is the venue's transaction time where it gives
/// one; event time is the fallback for streams without. `local_ts` is the
/// receive time of the capture host and always present.
#[derive(Debug)]
pub struct Event {
    pub venue: VenueId,
    /// Absent only for venue-scoped events.
    pub instrument: Option<InstrumentId>,
    pub venue_ts: Option<Nanos>,
    pub local_ts: Nanos,
    /// Which connection or poller produced this observation.
    pub source: SourceId,
    pub provenance: Option<Provenance>,
    pub payload: Payload,
}

/// The characters of an optional instrument id.
pub open spec fn instrument_view(i: Option<InstrumentId>) -> Option<Seq<char>> {
    match i {
        Some(id) => Some(id.value@),
        None => None,
    }
}

impl Event {
    /// The envelope around the payload: venue, instrument, times, source.
    pub open spec fn enveloped(
        self,
        venue: Seq<char>,
        instrument: Option<Seq<char>>,
        venue_ts: Option<Nanos>,
        local_ts: Nanos,
        source: SourceId,
    ) -> bool {
        &&& self.venue.value@ == venue
        &&& instrument_view(self.instrument) == instrument
        &&& self.venue_ts == venue_ts
        &&& self.local_ts == local_ts
        &&& self.source == source
        &&& self.provenance is None
    }
}

/// A control event: venue-scoped, without instrument or venue time.
pub fn control_event(
    venue: &VenueId,
    local_ts: Nanos,
    source: SourceId,
    payload: ControlPayload,
) -> (r: Event)
    ensures
        r.enveloped(venue.value@, None, None, local_ts, source),
        r.payload == Payload::Control(payload),
{
    Event {
        venue: venue.clone(),
        instrument: None,
        venue_ts: None,
        local_ts,
        source,
        provenance: None,
        payload: Payload::Control(payload),
    }
}

} // verus!
