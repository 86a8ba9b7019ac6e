//! One self-healing stream connection: read until failure, record that the
//! connection went down, reconnect at once after a stable session and with a
//! jittered delay otherwise, subscribe again, repeat.
//!
//! Times are nanoseconds of a steady clock, delays are milliseconds.
use crate::order::NameMap;
use crate::payloads::ControlPayload;
use crate::text::opt_view;
use vstd::prelude::*;
use vstd::string::*;

verus! {

/// The venue pings every few minutes; silence beyond this is a dead connection.
pub const STALE_CONN_TIMEOUT_NS: u64 = 300_000_000_000;

pub const ACK_TIMEOUT_NS: u64 = 10_000_000_000;

/// A shorter session counts as flapping.
pub const STABLE_SESSION_NS: u64 = 60_000_000_000;

pub const FIRST_DELAY_MS: u64 = 1_000;

pub const MAX_DELAY_MS: u64 = 30_000;

// ---------------------------------------------------------------------------
// Backoff
// ---------------------------------------------------------------------------

/// `rand`'s thread-local generator, `random_range` over an inclusive range: some
/// number of the range. Which one is chance.
#[verifier::external_body]
fn random_up_to(max: u64) -> (r: u64)
    ensures
        r <= max,
{
    rand::Rng::random_range(&mut rand::rng(), 0..=max)
}

/// Retry policy: a second, doubling to half a minute, jittered.
#[derive(Debug, Clone, Copy, PartialEq, Eq, Structural)]
pub struct ExponentialBackoff {
    pub current_ms: u64,
    pub max_ms: u64,
}

/// The delay after a delay.
pub open spec fn doubled(ms: u64) -> u64 {
    if ms * 2 <= MAX_DELAY_MS {
        (ms * 2) as u64
    } else {
        MAX_DELAY_MS
    }
}

impl ExponentialBackoff {
    pub open spec fn wf(self) -> bool {
        FIRST_DELAY_MS <= self.current_ms <= self.max_ms && self.max_ms == MAX_DELAY_MS
    }

    pub fn new() -> (r: ExponentialBackoff)
        ensures
            r.wf(),
            r.current_ms == FIRST_DELAY_MS,
    {
        ExponentialBackoff { current_ms: FIRST_DELAY_MS, max_ms: MAX_DELAY_MS }
    }

    /// The next delay with the jitter given.
    pub fn delay_with(&mut self, jitter_ms: u64) -> (r: u64)
        requires
            old(self).wf(),
            jitter_ms <= old(self).current_ms / 4,
        ensures
            final(self).wf(),
            final(self).current_ms == doubled(old(self).current_ms),
            r == old(self).current_ms + jitter_ms,
    {
        let delay: u64 = self.current_ms;
        self.current_ms = if delay * 2 <= self.max_ms {
            delay * 2
        } else {
            self.max_ms
        };
        delay + jitter_ms
    }

    /// The next delay, up to a quarter longer, so that a disconnect of the whole
    /// venue does not bring every connection back at one instant.
    pub fn next_delay(&mut self) -> (r: u64)
        requires
            old(self).wf(),
        ensures
            final(self).wf(),
            final(self).current_ms == doubled(old(self).current_ms),
            old(self).current_ms <= r <= old(self).current_ms + old(self).current_ms / 4,
    {
        let jitter_ms: u64 = random_up_to(self.current_ms / 4);
        self.delay_with(jitter_ms)
    }

    pub fn reset(&mut self)
        requires
            old(self).wf(),
        ensures
            *final(self) == (ExponentialBackoff {
                current_ms: FIRST_DELAY_MS,
                max_ms: old(self).max_ms,
            }),
            final(self).wf(),
    {
        self.current_ms = FIRST_DELAY_MS;
    }
}

impl Default for ExponentialBackoff {
    fn default() -> (r: ExponentialBackoff)
        ensures
            r.wf(),
            r.current_ms == FIRST_DELAY_MS,
    {
        ExponentialBackoff::new()
    }
}

/// The undelayed wait before the `n`th retry in a row.
pub open spec fn nth_delay(n: nat) -> u64
    decreases n,
{
    if n == 0 {
        FIRST_DELAY_MS
    } else {
        doubled(nth_delay((n - 1) as nat))
    }
}

/// Waits never shrink and stay between a second and half a minute, and from the
/// fifth on they are half a minute.
pub proof fn law_delays_grow_and_stay_capped(n: nat)
    ensures
        FIRST_DELAY_MS <= nth_delay(n) <= MAX_DELAY_MS,
        nth_delay(n) <= nth_delay(n + 1),
        n >= 5 ==> nth_delay(n) == MAX_DELAY_MS,
    decreases n,
{
    reveal_with_fuel(nth_delay, 7);
    if n > 0 {
        law_delays_grow_and_stay_capped((n - 1) as nat);
    }
}

// ---------------------------------------------------------------------------
// Replies
// ---------------------------------------------------------------------------

/// Whether the subscribe request was answered. Data may come before the reply:
/// the watcher of replies sees only what is no data.
#[derive(Debug, Clone, Copy, PartialEq, Eq, Structural)]
pub enum AckState {
    Awaiting { id: u64, deadline: u64 },
    Settled,
}

/// A frame that has the form of a reply.
#[derive(Debug)]
pub struct WsReply {
    /// It has a result that is not null.
    pub has_result: bool,
    /// The error, as it is shown.
    pub error: Option<String>,
    pub id: Option<u64>,
}

#[derive(Debug)]
pub enum ReplyAction {
    AckOk(u64),
    AckErr(u64, String),
    VenueError(String),
    Ignored,
}

/// The request whose reply is awaited.
pub open spec fn awaited(ack: AckState) -> Option<u64> {
    match ack {
        AckState::Awaiting { id, .. } => Some(id),
        AckState::Settled => None,
    }
}

/// `r` is what a frame that is no data means, if it is a reply at all. Errors
/// that answer nothing are told, not swallowed.
pub open spec fn classified(reply: Option<WsReply>, ack: AckState, r: ReplyAction) -> bool {
    match reply {
        None => r is Ignored,
        Some(w) => {
            let ours = w.id is Some && w.id == awaited(ack);
            match w.error {
                Some(e) => if ours {
                    r matches ReplyAction::AckErr(id, t) && w.id == Some(id) && t@ == e@
                } else {
                    r matches ReplyAction::VenueError(t) && t@ == e@
                },
                None => if ours && !w.has_result {
                    r matches ReplyAction::AckOk(id) && w.id == Some(id)
                } else {
                    r is Ignored
                },
            }
        },
    }
}

pub fn classify_reply(reply: &Option<WsReply>, ack: &AckState) -> (r: ReplyAction)
    ensures
        classified(*reply, *ack, r),
{
    let w: &WsReply = match reply {
        Some(w) => w,
        None => {
            return ReplyAction::Ignored;
        },
    };
    let ours: Option<u64> = match (w.id, ack) {
        (Some(id), AckState::Awaiting { id: wanted, .. }) => if id == *wanted {
            Some(id)
        } else {
            None
        },
        _ => None,
    };
    match (&w.error, ours) {
        (Some(e), Some(id)) => ReplyAction::AckErr(id, e.clone()),
        (Some(e), None) => ReplyAction::VenueError(e.clone()),
        (None, Some(id)) => if !w.has_result {
            ReplyAction::AckOk(id)
        } else {
            ReplyAction::Ignored
        },
        (None, None) => ReplyAction::Ignored,
    }
}

// ---------------------------------------------------------------------------
// A session
// ---------------------------------------------------------------------------

/// What happened on a connection.
#[derive(Debug)]
pub enum Input {
    /// Nothing came within the read timeout.
    Timeout,
    /// A text frame: whether it was data, whose book it updated, and what it
    /// replied if it was not.
    Text { is_data: bool, depth_symbol: Option<String>, reply: Option<WsReply> },
    /// A ping, and whether the answer could be sent.
    Ping { answered: bool },
    Closed,
    ReadError,
    Ended,
    /// Any other frame.
    Other,
    Cancelled,
}

#[derive(Debug, Clone, Copy)]
pub enum LoopExit {
    Shutdown,
    Reconnect(&'static str),
}

/// What a session does about it.
#[derive(Debug)]
pub struct Step {
    /// Control events to record, in order.
    pub controls: Vec<ControlPayload>,
    /// The symbol to fetch a snapshot of.
    pub snapshot: Option<String>,
    /// Why the session is over, if it is.
    pub exit: Option<LoopExit>,
}

/// One connected session. Every session asks anew for the snapshot of each
/// symbol on its first book update: the chain of updates broke with the
/// connection.
pub struct Session {
    pub ack: AckState,
    pub depth_seen: NameMap<()>,
}

/// The session goes on without a word.
pub open spec fn quiet(s: Step) -> bool {
    s.controls@.len() == 0 && s.snapshot is None && s.exit is None
}

/// The session ends for the reason, with no control event of its own.
pub open spec fn ends(s: Step, reason: Seq<char>) -> bool {
    s.controls@.len() == 0 && s.snapshot is None && (s.exit matches Some(LoopExit::Reconnect(t))
        && t@ == reason)
}

pub open spec fn sub_ack(c: ControlPayload, id: u64, ok: bool, detail: Option<Seq<char>>) -> bool {
    c matches ControlPayload::SubAck { request_id, ok: o, detail: d } && request_id == id && o == ok
        && opt_view(d) == detail
}

pub open spec fn conn_up(c: ControlPayload, label: Seq<char>) -> bool {
    c matches ControlPayload::ConnUp { label: l } && l@ == label
}

pub open spec fn conn_down(c: ControlPayload, label: Seq<char>, reason: Seq<char>) -> bool {
    c matches ControlPayload::ConnDown { label: l, reason: r } && l@ == label && r@ == reason
}

/// How long a session waits for the next frame.
pub open spec fn waits_for(ack: AckState, now: u64, r: u64) -> bool {
    r == (match ack {
        AckState::Awaiting { deadline, .. } => if deadline <= now {
            0
        } else if deadline - now <= STALE_CONN_TIMEOUT_NS {
            deadline - now
        } else {
            STALE_CONN_TIMEOUT_NS as int
        },
        AckState::Settled => STALE_CONN_TIMEOUT_NS as int,
    })
}

/// A session begins with its subscribe request awaited.
pub open spec fn begun(s: Session, request_id: u64, now: u64) -> bool {
    s.ack == (AckState::Awaiting { id: request_id, deadline: (now + ACK_TIMEOUT_NS) as u64 })
        && s.seen() == Set::<Seq<char>>::empty()
}

impl Session {
    pub open spec fn wf(self) -> bool {
        self.depth_seen.wf()
    }

    /// The books that were updated in this session.
    pub open spec fn seen(self) -> Set<Seq<char>> {
        self.depth_seen.as_map().dom()
    }

    /// The snapshot a book update asks for: the first of its symbol does.
    pub open spec fn asks(self, depth_symbol: Option<Seq<char>>) -> Option<Seq<char>> {
        match depth_symbol {
            Some(s) => if self.seen().contains(s) {
                None
            } else {
                Some(s)
            },
            None => None,
        }
    }

    /// What a text frame leads to.
    pub open spec fn after_text(
        self,
        next: Session,
        label: Seq<char>,
        is_data: bool,
        depth_symbol: Option<Seq<char>>,
        reply: Option<WsReply>,
        step: Step,
    ) -> bool {
        &&& next.seen() == (match depth_symbol {
            Some(s) => self.seen().insert(s),
            None => self.seen(),
        })
        &&& opt_view(step.snapshot) == self.asks(depth_symbol)
        &&& if is_data {
            next.ack == self.ack && step.controls@.len() == 0 && step.exit is None
        } else {
            exists|a: ReplyAction| #[trigger]
                classified(reply, self.ack, a) && (match a {
                    ReplyAction::AckOk(id) => next.ack == AckState::Settled
                        && step.controls@.len() == 2 && sub_ack(step.controls@[0], id, true, None)
                        && conn_up(step.controls@[1], label) && step.exit is None,
                    ReplyAction::AckErr(id, t) => next.ack == self.ack && step.controls@.len() == 1
                        && sub_ack(step.controls@[0], id, false, Some(t@)) && (
                    step.exit matches Some(LoopExit::Reconnect(w)) && w@ == "subscribe rejected"@),
                    _ => next.ack == self.ack && step.controls@.len() == 0 && step.exit is None,
                })
        }
    }

    /// What an input leads to.
    pub open spec fn leads_to(
        self,
        next: Session,
        label: Seq<char>,
        input: Input,
        step: Step,
    ) -> bool {
        match input {
            Input::Text { is_data, depth_symbol, reply } => self.after_text(
                next,
                label,
                is_data,
                opt_view(depth_symbol),
                reply,
                step,
            ),
            _ => next.ack == self.ack && next.seen() == self.seen() && (match input {
                Input::Timeout => match self.ack {
                    AckState::Awaiting { id, .. } => step.controls@.len() == 1 && sub_ack(
                        step.controls@[0],
                        id,
                        false,
                        Some("ack timeout"@),
                    ) && step.snapshot is None && (step.exit matches Some(LoopExit::Reconnect(t))
                        && t@ == "subscribe ack timeout"@),
                    AckState::Settled => ends(step, "stale connection (no traffic)"@),
                },
                Input::Ping { answered } => if answered {
                    quiet(step)
                } else {
                    ends(step, "pong send failed"@)
                },
                Input::Closed => ends(step, "closed by server"@),
                Input::ReadError => ends(step, "read error"@),
                Input::Ended => ends(step, "stream ended"@),
                Input::Cancelled => step.controls@.len() == 0 && step.snapshot is None
                    && step.exit == Some(LoopExit::Shutdown),
                _ => quiet(step),
            }),
        }
    }

    /// A session whose subscribe request went out at `now`.
    pub fn start(request_id: u64, now: u64) -> (r: Session)
        requires
            now + ACK_TIMEOUT_NS <= u64::MAX,
        ensures
            r.wf(),
            r.ack == (AckState::Awaiting {
                id: request_id,
                deadline: (now + ACK_TIMEOUT_NS) as u64,
            }),
            r.seen() == Set::<Seq<char>>::empty(),
            begun(r, request_id, now),
    {
        let r: Session = Session {
            ack: AckState::Awaiting { id: request_id, deadline: now + ACK_TIMEOUT_NS },
            depth_seen: NameMap::new(),
        };
        assert(r.seen() =~= Set::<Seq<char>>::empty());
        r
    }

    /// How long to wait for the next frame: until the reply is due, or until
    /// silence means a dead connection.
    pub fn read_timeout(&self, now: u64) -> (r: u64)
        ensures
            r == (match self.ack {
                AckState::Awaiting { deadline, .. } => if deadline <= now {
                    0
                } else if deadline - now <= STALE_CONN_TIMEOUT_NS {
                    deadline - now
                } else {
                    STALE_CONN_TIMEOUT_NS as int
                },
                AckState::Settled => STALE_CONN_TIMEOUT_NS as int,
            }),
            waits_for(self.ack, now, r),
    {
        match self.ack {
            AckState::Awaiting { deadline, .. } => {
                if deadline <= now {
                    0
                } else if deadline - now <= STALE_CONN_TIMEOUT_NS {
                    deadline - now
                } else {
                    STALE_CONN_TIMEOUT_NS
                }
            },
            AckState::Settled => STALE_CONN_TIMEOUT_NS,
        }
    }

    fn on_text(
        &mut self,
        label: &str,
        is_data: bool,
        depth_symbol: &Option<String>,
        reply: &Option<WsReply>,
    ) -> (r: Step)
        requires
            old(self).wf(),
        ensures
            final(self).wf(),
            old(self).after_text(
                *final(self),
                label@,
                is_data,
                opt_view(*depth_symbol),
                *reply,
                r,
            ),
    {
        let mut snapshot: Option<String> = None;
        if let Some(s) = depth_symbol {
            if !self.depth_seen.contains(s.as_str()) {
                snapshot = Some(s.clone());
            }
            self.depth_seen.put(s.clone(), ());
        }
        assert(self.seen() =~= (match opt_view(*depth_symbol) {
            Some(s) => old(self).seen().insert(s),
            None => old(self).seen(),
        }));
        let mut controls: Vec<ControlPayload> = Vec::new();
        if is_data {
            return Step { controls, snapshot, exit: None };
        }
        let action: ReplyAction = classify_reply(reply, &self.ack);
        let ghost a = action;
        match action {
            ReplyAction::AckOk(id) => {
                controls.push(ControlPayload::SubAck { request_id: id, ok: true, detail: None });
                controls.push(ControlPayload::ConnUp { label: label.to_owned() });
                self.ack = AckState::Settled;
                assert(classified(*reply, old(self).ack, a));
                Step { controls, snapshot, exit: None }
            },
            ReplyAction::AckErr(id, detail) => {
                controls.push(
                    ControlPayload::SubAck { request_id: id, ok: false, detail: Some(detail) },
                );
                assert(classified(*reply, old(self).ack, a));
                Step {
                    controls,
                    snapshot,
                    exit: Some(LoopExit::Reconnect("subscribe rejected")),
                }
            },
            _ => {
                assert(classified(*reply, old(self).ack, a));
                Step { controls, snapshot, exit: None }
            },
        }
    }

    /// Take in what happened.
    pub fn step(&mut self, label: &str, input: &Input) -> (r: Step)
        requires
            old(self).wf(),
        ensures
            final(self).wf(),
            old(self).leads_to(*final(self), label@, *input, r),
    {
        let mut controls: Vec<ControlPayload> = Vec::new();
        let exit: Option<LoopExit> = match input {
            Input::Text { is_data, depth_symbol, reply } => {
                return self.on_text(label, *is_data, depth_symbol, reply);
            },
            Input::Timeout => match self.ack {
                AckState::Awaiting { id, .. } => {
                    controls.push(
                        ControlPayload::SubAck {
                            request_id: id,
                            ok: false,
                            detail: Some("ack timeout".to_owned()),
                        },
                    );
                    Some(LoopExit::Reconnect("subscribe ack timeout"))
                },
                AckState::Settled => Some(LoopExit::Reconnect("stale connection (no traffic)")),
            },
            Input::Ping { answered } => if *answered {
                None
            } else {
                Some(LoopExit::Reconnect("pong send failed"))
            },
            Input::Closed => Some(LoopExit::Reconnect("closed by server")),
            Input::ReadError => Some(LoopExit::Reconnect("read error")),
            Input::Ended => Some(LoopExit::Reconnect("stream ended")),
            Input::Other => None,
            Input::Cancelled => Some(LoopExit::Shutdown),
        };
        Step { controls, snapshot: None, exit }
    }
}

/// A symbol's snapshot is asked for once per session: after a book update it is
/// seen, and seen symbols are not asked for.
pub proof fn law_one_snapshot_per_session(s: Session, next: Session, symbol: Seq<char>)
    requires
        next.seen() == s.seen().insert(symbol),
    ensures
        next.asks(Some(symbol)) is None,
        forall|other: Seq<char>| #[trigger]
            s.asks(Some(other)) is None ==> next.asks(Some(other)) is None,
{
}

// ---------------------------------------------------------------------------
// A connection over its sessions
// ---------------------------------------------------------------------------

/// What a connection remembers between sessions.
#[derive(Debug, Clone, Copy, PartialEq, Eq, Structural)]
pub struct Connection {
    pub backoff: ExponentialBackoff,
    /// The id of its last subscribe request.
    pub sub_id: u64,
    /// The next attempt waits.
    pub delay_next: bool,
}

/// The wait before an attempt.
pub open spec fn delayed(o: Connection, n: Connection, r: Option<u64>) -> bool {
    &&& n.sub_id == o.sub_id
    &&& n.delay_next == o.delay_next
    &&& match r {
        Some(ms) => o.delay_next && o.backoff.current_ms <= ms <= o.backoff.current_ms
            + o.backoff.current_ms / 4 && n.backoff.current_ms == doubled(o.backoff.current_ms),
        None => !o.delay_next && n.backoff == o.backoff,
    }
}

/// What the end of a session leads to.
pub open spec fn concluded(
    o: Connection,
    n: Connection,
    label: Seq<char>,
    exit: LoopExit,
    lasted_ns: u64,
    r: (ControlPayload, bool),
) -> bool {
    match exit {
        LoopExit::Shutdown => conn_down(r.0, label, "shutdown"@) && !r.1 && n == o,
        LoopExit::Reconnect(reason) => conn_down(r.0, label, reason@) && r.1 && n.sub_id
            == o.sub_id && n.delay_next == (lasted_ns < STABLE_SESSION_NS) && n.backoff.current_ms
            == (if lasted_ns >= STABLE_SESSION_NS {
            FIRST_DELAY_MS
        } else {
            o.backoff.current_ms
        }),
    }
}

impl Connection {
    pub open spec fn wf(self) -> bool {
        self.backoff.wf()
    }

    pub fn new(sub_id: u64) -> (r: Connection)
        ensures
            r.wf(),
            r.backoff.current_ms == FIRST_DELAY_MS,
            r.sub_id == sub_id,
            !r.delay_next,
    {
        Connection { backoff: ExponentialBackoff::new(), sub_id, delay_next: false }
    }

    /// How long to wait before the next attempt; nothing after a stable
    /// session.
    pub fn attempt_delay(&mut self) -> (r: Option<u64>)
        requires
            old(self).wf(),
        ensures
            final(self).wf(),
            final(self).sub_id == old(self).sub_id,
            final(self).delay_next == old(self).delay_next,
            match r {
                Some(ms) => old(self).delay_next && old(self).backoff.current_ms <= ms <= old(self).backoff.current_ms + old(self).backoff.current_ms / 4
                    && final(self).backoff.current_ms == doubled(old(self).backoff.current_ms),
                None => !old(self).delay_next && final(self).backoff == old(self).backoff,
            },
            delayed(*old(self), *final(self), r),
    {
        if self.delay_next {
            let ms: u64 = self.backoff.next_delay();
            Some(ms)
        } else {
            None
        }
    }

    /// The id of the next subscribe request.
    pub fn next_request(&mut self) -> (r: u64)
        requires
            old(self).sub_id < u64::MAX,
        ensures
            *final(self) == (Connection { sub_id: (old(self).sub_id + 1) as u64, ..*old(self) }),
            r == final(self).sub_id,
    {
        self.sub_id = self.sub_id + 1;
        self.sub_id
    }

    /// Connecting or subscribing failed.
    pub fn attempt_failed(&mut self)
        ensures
            *final(self) == (Connection { delay_next: true, ..*old(self) }),
    {
        self.delay_next = true;
    }

    /// A session that lasted `lasted_ns` is over. The control event to record,
    /// and whether to connect again. Only a stable session is retried at once,
    /// and it makes the delays start over.
    pub fn session_over(&mut self, label: &str, exit: LoopExit, lasted_ns: u64) -> (r: (
        ControlPayload,
        bool,
    ))
        requires
            old(self).wf(),
        ensures
            final(self).wf(),
            match exit {
                LoopExit::Shutdown => conn_down(r.0, label@, "shutdown"@) && !r.1 && *final(self)
                    == *old(self),
                LoopExit::Reconnect(reason) => conn_down(r.0, label@, reason@) && r.1 && final(self).sub_id == old(self).sub_id && final(self).delay_next == (lasted_ns
                    < STABLE_SESSION_NS) && final(self).backoff.current_ms == (if lasted_ns
                    >= STABLE_SESSION_NS {
                    FIRST_DELAY_MS
                } else {
                    old(self).backoff.current_ms
                }),
            },
            concluded(*old(self), *final(self), label@, exit, lasted_ns, r),
    {
        match exit {
            LoopExit::Shutdown => (
                ControlPayload::ConnDown {
                    label: label.to_owned(),
                    reason: "shutdown".to_owned(),
                },
                false,
            ),
            LoopExit::Reconnect(reason) => {
                let stable: bool = lasted_ns >= STABLE_SESSION_NS;
                if stable {
                    self.backoff.reset();
                }
                self.delay_next = !stable;
                (
                    ControlPayload::ConnDown {
                        label: label.to_owned(),
                        reason: reason.to_owned(),
                    },
                    true,
                )
            },
        }
    }
}

} // verus!
