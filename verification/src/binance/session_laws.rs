//! What connections are for: when a session goes on, what it records, and what a
//! subscription takes.
use super::funding::FundingMeta;
use super::instruments::{filter_read, instrument_of, trading, SymbolInfo};
use super::session::{
    begun, classified, concluded, delayed, nth_delay, waits_for, AckState, Connection, Input,
    LoopExit, ReplyAction, Session, Step, WsReply,
};
use super::streams::{
    any_wants, conn_count, has_depth, planned, symbol_stream, wants, wide_stream, ConnPlan,
};
use crate::adapter::{DataType, Scope, Subscription};
use crate::payloads::ControlPayload;
use crate::text::{has_text, lowercase};
use crate::types::{Instrument, InstrumentClass, LifecycleState, Linearity};
use vstd::prelude::*;

verus! {

// ---------------------------------------------------------------------------
// Sessions
// ---------------------------------------------------------------------------

/// The reply answers the subscribe request that is awaited.
pub open spec fn answers(reply: Option<WsReply>, ack: AckState) -> bool {
    &&& reply is Some
    &&& ack is Awaiting
    &&& reply->0.id == Some(ack->id)
}

/// A reply settles the request exactly where it answers it with neither a result
/// nor an error; it rejects the request exactly where it answers it with an error;
/// an error that answers nothing is the venue's own; all else is ignored.
pub proof fn law_replies_answer_their_request(
    reply: Option<WsReply>,
    ack: AckState,
    a: ReplyAction,
)
    requires
        classified(reply, ack, a),
    ensures
        a is AckOk <==> answers(reply, ack) && reply->0.error is None && !reply->0.has_result,
        a is AckErr <==> answers(reply, ack) && reply->0.error is Some,
        a is VenueError <==> reply is Some && !answers(reply, ack) && reply->0.error is Some,
        a is Ignored <==> reply is None || (reply->0.error is None && (!answers(reply, ack)
            || reply->0.has_result)),
        a matches ReplyAction::AckOk(id) ==> Some(id) == reply->0.id,
        a matches ReplyAction::AckErr(id, t) ==> Some(id) == reply->0.id && t@
            == reply->0.error->0@,
        a matches ReplyAction::VenueError(t) ==> t@ == reply->0.error->0@,
{
}

/// The frame rejects the subscription.
pub open spec fn rejects(input: Input, ack: AckState) -> bool {
    input matches Input::Text { is_data, reply, .. } && !is_data && answers(reply, ack)
        && reply->0.error is Some
}

/// The frame grants the subscription.
pub open spec fn grants(input: Input, ack: AckState) -> bool {
    input matches Input::Text { is_data, reply, .. } && !is_data && answers(reply, ack)
        && reply->0.error is None && !reply->0.has_result
}

/// A session goes on through text, answered pings and other frames, and only
/// through them; it ends for good only when it is cancelled. A rejected
/// subscription ends it too.
pub proof fn law_session_goes_on_while_it_is_alive(
    s: Session,
    next: Session,
    label: Seq<char>,
    input: Input,
    step: Step,
)
    requires
        s.leads_to(next, label, input, step),
    ensures
        step.exit is None <==> (input is Text && !rejects(input, s.ack)) || input is Other || (
        input matches Input::Ping { answered } && answered),
        step.exit is Some && step.exit->0 is Shutdown <==> input is Cancelled,
{
    if let Input::Text { is_data, depth_symbol, reply } = input {
        if !is_data {
            let a = choose|a: ReplyAction| #[trigger]
                classified(reply, s.ack, a) && (match a {
                    ReplyAction::AckOk(id) => next.ack == AckState::Settled
                        && step.controls@.len() == 2 && super::session::sub_ack(
                        step.controls@[0],
                        id,
                        true,
                        None,
                    ) && super::session::conn_up(step.controls@[1], label) && step.exit is None,
                    ReplyAction::AckErr(id, t) => next.ack == s.ack && step.controls@.len() == 1
                        && super::session::sub_ack(step.controls@[0], id, false, Some(t@)) && (
                    step.exit matches Some(LoopExit::Reconnect(w)) && w@ == "subscribe rejected"@),
                    _ => next.ack == s.ack && step.controls@.len() == 0 && step.exit is None,
                });
            law_replies_answer_their_request(reply, s.ack, a);
        }
    }
}

/// A connection is up exactly when its subscription is granted, and that is told
/// then: first the acknowledgement, then the connection under its name. Nothing
/// else settles a request.
pub proof fn law_granted_subscription_is_up(
    s: Session,
    next: Session,
    label: Seq<char>,
    input: Input,
    step: Step,
)
    requires
        s.leads_to(next, label, input, step),
    ensures
        grants(input, s.ack) ==> next.ack is Settled && step.controls@.len() == 2 && (
        step.controls@[0] matches ControlPayload::SubAck { request_id, ok, detail } && request_id
            == s.ack->id && ok && detail is None) && (
        step.controls@[1] matches ControlPayload::ConnUp { label: l } && l@ == label),
        !grants(input, s.ack) ==> next.ack == s.ack && forall|i: int|
            0 <= i < step.controls@.len() ==> !((#[trigger] step.controls@[i]) is ConnUp),
{
    if let Input::Text { is_data, depth_symbol, reply } = input {
        if !is_data {
            let a = choose|a: ReplyAction| #[trigger]
                classified(reply, s.ack, a) && (match a {
                    ReplyAction::AckOk(id) => next.ack == AckState::Settled
                        && step.controls@.len() == 2 && super::session::sub_ack(
                        step.controls@[0],
                        id,
                        true,
                        None,
                    ) && super::session::conn_up(step.controls@[1], label) && step.exit is None,
                    ReplyAction::AckErr(id, t) => next.ack == s.ack && step.controls@.len() == 1
                        && super::session::sub_ack(step.controls@[0], id, false, Some(t@)) && (
                    step.exit matches Some(LoopExit::Reconnect(w)) && w@ == "subscribe rejected"@),
                    _ => next.ack == s.ack && step.controls@.len() == 0 && step.exit is None,
                });
            law_replies_answer_their_request(reply, s.ack, a);
        }
    }
}

/// A subscription that is rejected, or not answered in time, is told as refused,
/// with its request and the reason; nothing else is.
pub proof fn law_refused_subscription_is_told(
    s: Session,
    next: Session,
    label: Seq<char>,
    input: Input,
    step: Step,
)
    requires
        s.leads_to(next, label, input, step),
    ensures
        rejects(input, s.ack) ==> step.controls@.len() == 1 && (
        step.controls@[0] matches ControlPayload::SubAck { request_id, ok, detail } && request_id
            == s.ack->id && !ok && detail is Some && detail->0@
            == input->Text_reply->0.error->0@),
        input is Timeout && s.ack is Awaiting ==> step.controls@.len() == 1 && (
        step.controls@[0] matches ControlPayload::SubAck { request_id, ok, detail } && request_id
            == s.ack->id && !ok && detail is Some),
        !rejects(input, s.ack) && !grants(input, s.ack) && !(input is Timeout && s.ack is Awaiting)
            ==> step.controls@.len() == 0,
{
    if let Input::Text { is_data, depth_symbol, reply } = input {
        if !is_data {
            let a = choose|a: ReplyAction| #[trigger]
                classified(reply, s.ack, a) && (match a {
                    ReplyAction::AckOk(id) => next.ack == AckState::Settled
                        && step.controls@.len() == 2 && super::session::sub_ack(
                        step.controls@[0],
                        id,
                        true,
                        None,
                    ) && super::session::conn_up(step.controls@[1], label) && step.exit is None,
                    ReplyAction::AckErr(id, t) => next.ack == s.ack && step.controls@.len() == 1
                        && super::session::sub_ack(step.controls@[0], id, false, Some(t@)) && (
                    step.exit matches Some(LoopExit::Reconnect(w)) && w@ == "subscribe rejected"@),
                    _ => next.ack == s.ack && step.controls@.len() == 0 && step.exit is None,
                });
            law_replies_answer_their_request(reply, s.ack, a);
        }
    }
}

/// A snapshot is asked for exactly at the first update of a book in a session, and
/// of that book; from then on the book is known, and no other comes to be.
pub proof fn law_first_update_asks_for_a_snapshot(
    s: Session,
    next: Session,
    label: Seq<char>,
    input: Input,
    step: Step,
    symbol: Seq<char>,
)
    requires
        s.leads_to(next, label, input, step),
    ensures
        step.snapshot is Some <==> (input matches Input::Text { depth_symbol: Some(b), .. }
            && !s.depth_seen.as_map().dom().contains(b@)),
        step.snapshot is Some ==> step.snapshot->0@ == input->depth_symbol->0@,
        next.depth_seen.as_map().dom().contains(symbol) <==> s.depth_seen.as_map().dom().contains(
            symbol,
        ) || (input matches Input::Text { depth_symbol: Some(b), .. } && b@ == symbol),
{
    assert(next.seen().contains(symbol) == next.depth_seen.as_map().dom().contains(symbol));
    assert(s.seen().contains(symbol) == s.depth_seen.as_map().dom().contains(symbol));
}

/// A session awaits the answer to its request for ten seconds, knowing no book
/// yet.
pub proof fn law_session_begins_awaiting(s: Session, request_id: u64, now: u64)
    requires
        begun(s, request_id, now),
        now + 10 * 1_000_000_000 <= u64::MAX,
    ensures
        s.ack matches AckState::Awaiting { id, deadline } && id == request_id && deadline == now
            + 10 * 1_000_000_000,
        forall|b: Seq<char>| !(#[trigger] s.depth_seen.as_map().dom().contains(b)),
{
    assert forall|b: Seq<char>| !(#[trigger] s.depth_seen.as_map().dom().contains(b)) by {
        assert(!s.seen().contains(b));
    }
}

/// A session never waits beyond five minutes of silence, nor beyond the instant
/// its answer is due; and no shorter than the nearer of the two.
pub proof fn law_silence_is_bounded(ack: AckState, now: u64, r: u64)
    requires
        waits_for(ack, now, r),
    ensures
        r <= 300 * 1_000_000_000,
        ack is Settled ==> r == 300 * 1_000_000_000,
        ack matches AckState::Awaiting { deadline, .. } ==> (now + r <= deadline || r == 0) && (r
            == 300 * 1_000_000_000 || now + r >= deadline),
{
}

// ---------------------------------------------------------------------------
// Connections
// ---------------------------------------------------------------------------

/// Waits double from one second and stay at half a minute.
pub proof fn law_waits_double_to_half_a_minute(n: nat)
    ensures
        nth_delay(0) == 1_000,
        nth_delay(n + 1) == (if nth_delay(n) * 2 < 30_000 {
            nth_delay(n) * 2
        } else {
            30_000
        }),
{
}

/// The next attempt waits exactly after a session that lasted under a minute; one
/// that lasted longer makes the waits begin anew. The end is told as the connection
/// down, with its reason. Only a shutdown is not followed by another attempt, and
/// that changes nothing.
pub proof fn law_stable_sessions_reconnect_at_once(
    o: Connection,
    n: Connection,
    label: Seq<char>,
    exit: LoopExit,
    lasted_ns: u64,
    r: (ControlPayload, bool),
)
    requires
        concluded(o, n, label, exit, lasted_ns, r),
    ensures
        r.1 <==> exit is Reconnect,
        r.0 is ConnDown,
        r.0 matches ControlPayload::ConnDown { label: l, reason } ==> l@ == label && (
        exit matches LoopExit::Reconnect(w) ==> reason@ == w@) && (exit is Shutdown ==> reason@
            == "shutdown"@),
        exit is Shutdown ==> n == o,
        exit is Reconnect ==> n.sub_id == o.sub_id && (n.delay_next <==> lasted_ns < 60
            * 1_000_000_000) && (n.delay_next ==> n.backoff.current_ms == o.backoff.current_ms)
            && (!n.delay_next ==> n.backoff.current_ms == 1_000),
{
}

/// An attempt that is to wait waits at least as long as it is its turn, at most a
/// quarter longer, and the next wait is twice as long, up to half a minute; one
/// that is not to wait does not.
pub proof fn law_waits_are_jittered_by_a_quarter(o: Connection, n: Connection, r: Option<u64>)
    requires
        delayed(o, n, r),
    ensures
        r is Some <==> o.delay_next,
        r is Some ==> o.backoff.current_ms <= r->0 && 4 * (r->0 - o.backoff.current_ms)
            <= o.backoff.current_ms && n.backoff.current_ms == (if o.backoff.current_ms * 2
            < 30_000 {
            (o.backoff.current_ms * 2) as u64
        } else {
            30_000
        }),
        r is None ==> n.backoff == o.backoff,
        n.sub_id == o.sub_id,
        n.delay_next == o.delay_next,
{
}

// ---------------------------------------------------------------------------
// Streams
// ---------------------------------------------------------------------------

/// Mark price, index price and funding come over one stream.
pub open spec fn rides_on_mark(dt: DataType) -> bool {
    dt == DataType::MarkPrice || dt == DataType::IndexPrice || dt == DataType::FundingRate
}

/// Two data types of a symbol share a stream exactly where they are the same or
/// both ride on the mark price; and so do those of all symbols.
pub proof fn law_streams_are_told_apart(symbol: Seq<char>, a: DataType, b: DataType)
    ensures
        symbol_stream(symbol, a) is Some && symbol_stream(symbol, a) == symbol_stream(symbol, b)
            ==> a == b || (rides_on_mark(a) && rides_on_mark(b)),
        wide_stream(a) is Some && wide_stream(a) == wide_stream(b) ==> a == b || (rides_on_mark(a)
            && rides_on_mark(b)),
        rides_on_mark(a) && rides_on_mark(b) ==> symbol_stream(symbol, a) == symbol_stream(
            symbol,
            b,
        ) && wide_stream(a) == wide_stream(b),
        symbol_stream(symbol, a) is None <==> a == DataType::OpenInterest,
        wide_stream(a) is None <==> a == DataType::OpenInterest || a == DataType::Trade || a
            == DataType::BookDepth,
{
    reveal_strlit("@bookTicker");
    reveal_strlit("@trade");
    reveal_strlit("@depth@100ms");
    reveal_strlit("@markPrice@1s");
    reveal_strlit("@forceOrder");
    reveal_strlit("!bookTicker");
    reveal_strlit("!markPrice@arr@1s");
    reveal_strlit("!forceOrder@arr");
    let n = symbol.len() as int;
    assert((symbol + "@bookTicker"@)[n + 1] == 'b');
    assert((symbol + "@trade"@)[n + 1] == 't');
    assert((symbol + "@depth@100ms"@)[n + 1] == 'd');
    assert((symbol + "@markPrice@1s"@)[n + 1] == 'm');
    assert((symbol + "@forceOrder"@)[n + 1] == 'f');
    assert("!bookTicker"@[1] == 'b' && "!markPrice@arr@1s"@[1] == 'm' && "!forceOrder@arr"@[1]
        == 'f');
}

/// The stream of a data type is the venue's: the symbol, then the type as the
/// venue names it.
pub proof fn law_streams_have_the_names_of_the_venue(symbol: Seq<char>)
    ensures
        symbol_stream(symbol, DataType::BookTicker) == Some(symbol + "@bookTicker"@),
        symbol_stream(symbol, DataType::Trade) == Some(symbol + "@trade"@),
        symbol_stream(symbol, DataType::BookDepth) == Some(symbol + "@depth@100ms"@),
        symbol_stream(symbol, DataType::MarkPrice) == Some(symbol + "@markPrice@1s"@),
        symbol_stream(symbol, DataType::Liquidation) == Some(symbol + "@forceOrder"@),
        wide_stream(DataType::BookTicker) == Some("!bookTicker"@),
        wide_stream(DataType::MarkPrice) == Some("!markPrice@arr@1s"@),
        wide_stream(DataType::Liquidation) == Some("!forceOrder@arr"@),
{
}

/// A stream is taken exactly where some subscription asks for a data type that it
/// carries: of an instrument that it lists, or of all.
pub proof fn law_subscriptions_take_their_streams(subs: Seq<Subscription>, name: Seq<char>)
    ensures
        any_wants(subs, name) <==> exists|k: int|
            0 <= k < subs.len() && takes(#[trigger] subs[k], name),
{
    if any_wants(subs, name) {
        let k = choose|k: int| 0 <= k < subs.len() && wants(#[trigger] subs[k], name);
        lemma_takes(subs[k], name);
    }
    if exists|k: int| 0 <= k < subs.len() && takes(#[trigger] subs[k], name) {
        let k = choose|k: int| 0 <= k < subs.len() && takes(#[trigger] subs[k], name);
        lemma_takes(subs[k], name);
    }
}

/// The subscription asks for a data type that the stream carries.
pub open spec fn takes(s: Subscription, name: Seq<char>) -> bool {
    exists|d: int| 0 <= d < s.data@.len() && brings(s.scope, #[trigger] s.data@[d], name)
}

/// The stream brings the data type within the scope.
pub open spec fn brings(scope: Scope, dt: DataType, name: Seq<char>) -> bool {
    match scope {
        Scope::Instruments(ids) => exists|i: int|
            0 <= i < ids@.len() && symbol_stream((#[trigger] ids@[i]).value@, dt) == Some(name),
        Scope::All => wide_stream(dt) == Some(name),
        Scope::Class(_) => false,
    }
}

proof fn lemma_takes(s: Subscription, name: Seq<char>)
    ensures
        wants(s, name) <==> takes(s, name),
{
    match s.scope {
        Scope::Instruments(ids) => {
            if wants(s, name) {
                let i = choose|i: int|
                    0 <= i < ids@.len() && super::streams::symbol_wants(
                        (#[trigger] ids@[i]).value@,
                        s.data@,
                        name,
                    );
                let d = choose|d: int|
                    0 <= d < s.data@.len() && symbol_stream(ids@[i].value@, #[trigger] s.data@[d])
                        == Some(name);
                assert(brings(s.scope, s.data@[d], name));
            }
            if takes(s, name) {
                let d = choose|d: int|
                    0 <= d < s.data@.len() && brings(s.scope, #[trigger] s.data@[d], name);
                let i = choose|i: int|
                    0 <= i < ids@.len() && symbol_stream((#[trigger] ids@[i]).value@, s.data@[d])
                        == Some(name);
                assert(super::streams::symbol_wants(ids@[i].value@, s.data@, name));
            }
        },
        Scope::All => {
            if wants(s, name) {
                let d = choose|d: int|
                    0 <= d < s.data@.len() && wide_stream(#[trigger] s.data@[d]) == Some(name);
                assert(brings(s.scope, s.data@[d], name));
            }
            if takes(s, name) {
                let d = choose|d: int|
                    0 <= d < s.data@.len() && brings(s.scope, #[trigger] s.data@[d], name);
                assert(wide_stream(s.data@[d]) == Some(name));
            }
        },
        Scope::Class(_) => {},
    }
}

/// Snapshots are needed exactly where a stream carries book updates.
pub proof fn law_depth_streams_need_snapshots(streams: Seq<String>)
    ensures
        has_depth(streams) <==> exists|i: int|
            0 <= i < streams.len() && has_text((#[trigger] streams[i])@, "@depth"@),
{
}

/// Connections are numbered as they are opened, from one behind those that are
/// open, and so are their requests; no two share a request, and none has more
/// streams than it may.
pub proof fn law_connections_are_numbered(
    p: ConnPlan,
    q: ConnPlan,
    streams: Seq<String>,
    i: int,
    j: int,
    max: int,
    open: int,
    last_id: int,
)
    requires
        planned(p, streams, i, max, open, last_id),
        planned(q, streams, j, max, open, last_id),
        0 <= i < j,
        0 <= open,
        0 < max,
        0 <= i * max <= streams.len(),
    ensures
        p.request_id == last_id + 1 + i,
        q.request_id - p.request_id == j - i,
        open + j < 0xffff ==> p.source.0 == open + i + 1 && q.source.0 == open + j + 1,
        p.streams@.len() <= max,
        p.label@ == "ws-"@ + crate::text::dec((open + i + 1) as nat),
{
    assert((i + 1) * max == i * max + max) by (nonlinear_arith);
}

/// As many connections are opened as the streams take when each is filled.
pub proof fn law_connections_are_filled(streams: int, max: int)
    requires
        0 <= streams,
        0 < max,
    ensures
        conn_count(streams, max) * max >= streams,
        streams > 0 ==> (conn_count(streams, max) - 1) * max < streams,
        streams == 0 ==> conn_count(streams, max) == 0,
{
    let c = conn_count(streams, max);
    assert(c * max >= streams && (streams > 0 ==> (c - 1) * max < streams) && (streams == 0 ==> c
        == 0)) by (nonlinear_arith)
        requires
            c == (streams + max - 1) / max,
            0 <= streams,
            0 < max,
    ;
}

// ---------------------------------------------------------------------------
// Listed symbols
// ---------------------------------------------------------------------------

/// The instrument of a listed symbol tells what the listing says of it, each size
/// from its own filter.
pub proof fn law_instrument_tells_the_listing(
    s: SymbolInfo,
    funding: Map<Seq<char>, FundingMeta>,
    i: Instrument,
)
    requires
        instrument_of(s, funding, i),
    ensures
        i.id.value@ == lowercase(s.symbol@),
        i.base.0@ == s.base_asset@,
        i.quote.0@ == s.quote_asset@,
        s.contract_type@ == "PERPETUAL"@ <==> i.class == InstrumentClass::Perp,
        i.class matches InstrumentClass::Future { expiry } ==> (expiry is Some
            <==> s.delivery_date is Some) && (expiry is Some && s.delivery_date->0
            <= 18_446_744_073_709 ==> expiry->0 / 1_000_000 == s.delivery_date->0 && expiry->0
            % 1_000_000 == 0),
        i.class == InstrumentClass::Perp || i.class is Future,
        filter_read(s.filters@, "PRICE_FILTER"@, "tickSize"@, i.tick_size),
        filter_read(s.filters@, "LOT_SIZE"@, "stepSize"@, i.lot_size),
        filter_read(s.filters@, "MIN_NOTIONAL"@, "notional"@, i.min_notional),
        i.contract_multiplier is None,
        i.settle_ccy is Some <==> s.margin_asset is Some,
        i.settle_ccy is Some ==> (i.settle_ccy->0).0@ == s.margin_asset->0@,
        i.linearity == Some(Linearity::Linear) <==> s.margin_asset is Some && s.margin_asset->0@
            == s.quote_asset@,
        i.linearity == Some(Linearity::Inverse) <==> s.margin_asset is Some && s.margin_asset->0@
            != s.quote_asset@,
        i.funding_interval is Some <==> s.contract_type@ == "PERPETUAL"@,
        i.funding_interval is Some && funding.dom().contains(lowercase(s.symbol@))
            ==> i.funding_interval->0 == funding[lowercase(s.symbol@)].interval,
        i.funding_interval is Some && !funding.dom().contains(lowercase(s.symbol@))
            ==> i.funding_interval->0 == 8 * 3_600 * 1_000_000_000,
        i.lifecycle == LifecycleState::Trading <==> s.status@ == "TRADING"@,
        i.lifecycle == LifecycleState::PendingTrading <==> s.status@ == "PENDING_TRADING"@,
        i.lifecycle == LifecycleState::Delisted <==> s.status@ == "DELIVERED"@ || s.status@
            == "CLOSE"@,
{
    reveal_strlit("TRADING");
    reveal_strlit("PENDING_TRADING");
    reveal_strlit("DELIVERED");
    reveal_strlit("CLOSE");
    assert("TRADING"@.len() == 7 && "PENDING_TRADING"@.len() == 15 && "DELIVERED"@.len() == 9
        && "CLOSE"@.len() == 5);
}

/// The symbols that trade are exactly those whose status says so, in their order.
pub proof fn law_only_trading_symbols_are_taken(symbols: Seq<SymbolInfo>)
    ensures
        trading(symbols).len() == symbols.filter(|s: SymbolInfo| s.status@ == "TRADING"@).len(),
        forall|i: int|
            0 <= i < symbols.len() && (#[trigger] symbols[i]).status@ == "TRADING"@ ==> {
                let at = trading(symbols.take(i)).len() as int;
                at < trading(symbols).len() && trading(symbols)[at] == symbols[i]
            },
    decreases symbols.len(),
{
    reveal(Seq::filter);
    if symbols.len() > 0 {
        let p = symbols.drop_last();
        let n = symbols.len() - 1;
        law_only_trading_symbols_are_taken(p);
        assert forall|i: int|
            0 <= i < symbols.len() && (#[trigger] symbols[i]).status@ == "TRADING"@ implies ({
            let at = trading(symbols.take(i)).len() as int;
            at < trading(symbols).len() && trading(symbols)[at] == symbols[i]
        }) by {
            if i < n {
                assert(p[i] == symbols[i]);
                assert(p.take(i) =~= symbols.take(i));
            } else {
                assert(symbols.take(i) =~= p);
            }
        }
    }
}

} // verus!
