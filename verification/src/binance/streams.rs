//! The streams a subscription takes and how they spread over connections.
use crate::adapter::{DataType, Scope, Subscription};
use crate::order::{ascending, NameMap};
use crate::text::{contains_text, dec, has_text, push_u64, views};
use crate::types::SourceId;
use vstd::prelude::*;
use vstd::string::*;

verus! {

/// The venue's limit of streams per connection.
pub const MAX_STREAMS_PER_CONN: usize = 200;

/// The stream that carries a data type of one symbol. Mark, index and funding
/// ride on one; open interest has none.
pub open spec fn symbol_stream(symbol: Seq<char>, dt: DataType) -> Option<Seq<char>> {
    match dt {
        DataType::BookTicker => Some(symbol + "@bookTicker"@),
        DataType::Trade => Some(symbol + "@trade"@),
        DataType::BookDepth => Some(symbol + "@depth@100ms"@),
        DataType::FundingRate | DataType::MarkPrice | DataType::IndexPrice => Some(
            symbol + "@markPrice@1s"@,
        ),
        DataType::Liquidation => Some(symbol + "@forceOrder"@),
        DataType::OpenInterest => None,
    }
}

/// The stream that carries a data type of all symbols, if there is one.
pub open spec fn wide_stream(dt: DataType) -> Option<Seq<char>> {
    match dt {
        DataType::BookTicker => Some("!bookTicker"@),
        DataType::FundingRate | DataType::MarkPrice | DataType::IndexPrice => Some(
            "!markPrice@arr@1s"@,
        ),
        DataType::Liquidation => Some("!forceOrder@arr"@),
        _ => None,
    }
}

/// The stream carries one of the data types of the symbol.
pub open spec fn symbol_wants(symbol: Seq<char>, data: Seq<DataType>, name: Seq<char>) -> bool {
    exists|d: int| 0 <= d < data.len() && symbol_stream(symbol, #[trigger] data[d]) == Some(name)
}

/// The stream carries one of the data types of all symbols.
pub open spec fn wide_wants(data: Seq<DataType>, name: Seq<char>) -> bool {
    exists|d: int| 0 <= d < data.len() && wide_stream(#[trigger] data[d]) == Some(name)
}

/// A subscription takes the stream. Classes are expanded by whoever knows the
/// universe.
pub open spec fn wants(s: Subscription, name: Seq<char>) -> bool {
    match s.scope {
        Scope::Instruments(ids) => exists|i: int|
            0 <= i < ids@.len() && symbol_wants((#[trigger] ids@[i]).value@, s.data@, name),
        Scope::All => wide_wants(s.data@, name),
        Scope::Class(_) => false,
    }
}

/// One of the subscriptions takes the stream.
pub open spec fn any_wants(subs: Seq<Subscription>, name: Seq<char>) -> bool {
    exists|i: int| 0 <= i < subs.len() && wants(#[trigger] subs[i], name)
}

fn symbol_stream_name(symbol: &str, dt: DataType) -> (r: Option<String>)
    ensures
        crate::text::opt_view(r) == symbol_stream(symbol@, dt),
{
    match dt {
        DataType::BookTicker => Some(symbol.to_owned().concat("@bookTicker")),
        DataType::Trade => Some(symbol.to_owned().concat("@trade")),
        DataType::BookDepth => Some(symbol.to_owned().concat("@depth@100ms")),
        DataType::FundingRate | DataType::MarkPrice | DataType::IndexPrice => Some(
            symbol.to_owned().concat("@markPrice@1s"),
        ),
        DataType::Liquidation => Some(symbol.to_owned().concat("@forceOrder")),
        DataType::OpenInterest => None,
    }
}

fn wide_stream_name(dt: DataType) -> (r: Option<String>)
    ensures
        crate::text::opt_view(r) == wide_stream(dt),
{
    match dt {
        DataType::BookTicker => Some("!bookTicker".to_owned()),
        DataType::FundingRate | DataType::MarkPrice | DataType::IndexPrice => Some(
            "!markPrice@arr@1s".to_owned(),
        ),
        DataType::Liquidation => Some("!forceOrder@arr".to_owned()),
        _ => None,
    }
}

fn add_symbol(symbol: &str, data: &Vec<DataType>, names: &mut NameMap<()>)
    requires
        old(names).wf(),
    ensures
        final(names).wf(),
        forall|n: Seq<char>| #[trigger]
            final(names).as_map().dom().contains(n) <==> old(names).as_map().dom().contains(n)
                || symbol_wants(symbol@, data@, n),
{
    let ghost held = names.as_map().dom();
    let mut i: usize = 0;
    while i < data.len()
        invariant
            i <= data@.len(),
            names.wf(),
            forall|n: Seq<char>| #[trigger]
                names.as_map().dom().contains(n) <==> held.contains(n) || symbol_wants(
                    symbol@,
                    data@.take(i as int),
                    n,
                ),
        decreases data@.len() - i,
    {
        let ghost before = names.as_map().dom();
        let name: Option<String> = symbol_stream_name(symbol, data[i]);
        let ghost added = symbol_stream(symbol@, data@[i as int]);
        if let Some(n) = name {
            names.put(n, ());
        }
        proof {
            let p = data@.take(i as int);
            let q = data@.take(i + 1);
            assert(q[i as int] == data@[i as int]);
            assert forall|n: Seq<char>| #[trigger]
                names.as_map().dom().contains(n) <==> held.contains(n) || symbol_wants(
                    symbol@,
                    q,
                    n,
                ) by {
                assert(before.contains(n) <==> held.contains(n) || symbol_wants(symbol@, p, n));
                if symbol_wants(symbol@, p, n) {
                    let d = choose|d: int|
                        0 <= d < p.len() && symbol_stream(symbol@, #[trigger] p[d]) == Some(n);
                    assert(q[d] == p[d]);
                }
                if symbol_wants(symbol@, q, n) && added != Some(n) {
                    let d = choose|d: int|
                        0 <= d < q.len() && symbol_stream(symbol@, #[trigger] q[d]) == Some(n);
                    assert(p[d] == q[d]);
                }
            }
        }
        i = i + 1;
    }
    assert(data@.take(data@.len() as int) =~= data@);
}

fn add_wide(data: &Vec<DataType>, names: &mut NameMap<()>)
    requires
        old(names).wf(),
    ensures
        final(names).wf(),
        forall|n: Seq<char>| #[trigger]
            final(names).as_map().dom().contains(n) <==> old(names).as_map().dom().contains(n)
                || wide_wants(data@, n),
{
    let ghost held = names.as_map().dom();
    let mut i: usize = 0;
    while i < data.len()
        invariant
            i <= data@.len(),
            names.wf(),
            forall|n: Seq<char>| #[trigger]
                names.as_map().dom().contains(n) <==> held.contains(n) || wide_wants(
                    data@.take(i as int),
                    n,
                ),
        decreases data@.len() - i,
    {
        let ghost before = names.as_map().dom();
        let name: Option<String> = wide_stream_name(data[i]);
        let ghost added = wide_stream(data@[i as int]);
        if let Some(n) = name {
            names.put(n, ());
        }
        proof {
            let p = data@.take(i as int);
            let q = data@.take(i + 1);
            assert(q[i as int] == data@[i as int]);
            assert forall|n: Seq<char>| #[trigger]
                names.as_map().dom().contains(n) <==> held.contains(n) || wide_wants(q, n) by {
                assert(before.contains(n) <==> held.contains(n) || wide_wants(p, n));
                if wide_wants(p, n) {
                    let d = choose|d: int|
                        0 <= d < p.len() && wide_stream(#[trigger] p[d]) == Some(n);
                    assert(q[d] == p[d]);
                }
                if wide_wants(q, n) && added != Some(n) {
                    let d = choose|d: int|
                        0 <= d < q.len() && wide_stream(#[trigger] q[d]) == Some(n);
                    assert(p[d] == q[d]);
                }
            }
        }
        i = i + 1;
    }
    assert(data@.take(data@.len() as int) =~= data@);
}

fn add_subscription(s: &Subscription, names: &mut NameMap<()>)
    requires
        old(names).wf(),
    ensures
        final(names).wf(),
        forall|n: Seq<char>| #[trigger]
            final(names).as_map().dom().contains(n) <==> old(names).as_map().dom().contains(n)
                || wants(*s, n),
{
    match &s.scope {
        Scope::Instruments(ids) => {
            let ghost held = names.as_map().dom();
            let mut i: usize = 0;
            while i < ids.len()
                invariant
                    i <= ids@.len(),
                    names.wf(),
                    forall|n: Seq<char>| #[trigger]
                        names.as_map().dom().contains(n) <==> held.contains(n) || exists|k: int|
                            0 <= k < i && symbol_wants((#[trigger] ids@[k]).value@, s.data@, n),
                decreases ids@.len() - i,
            {
                let ghost before = names.as_map().dom();
                add_symbol(ids[i].value.as_str(), &s.data, names);
                proof {
                    assert forall|n: Seq<char>| #[trigger]
                        names.as_map().dom().contains(n) <==> held.contains(n) || exists|k: int|
                            0 <= k < i + 1 && symbol_wants(
                                (#[trigger] ids@[k]).value@,
                                s.data@,
                                n,
                            ) by {
                        assert(before.contains(n) <==> held.contains(n) || exists|k: int|
                            0 <= k < i && symbol_wants((#[trigger] ids@[k]).value@, s.data@, n));
                        if symbol_wants(ids@[i as int].value@, s.data@, n) {
                            assert(0 <= i < i + 1 && symbol_wants(
                                ids@[i as int].value@,
                                s.data@,
                                n,
                            ));
                        }
                    }
                }
                i = i + 1;
            }
        },
        Scope::All => {
            add_wide(&s.data, names);
        },
        Scope::Class(_) => {},
    }
}

/// The streams that the subscriptions take, each once.
pub fn stream_names(subs: &Vec<Subscription>) -> (r: Vec<String>)
    ensures
        ascending(views(r@)),
        forall|n: Seq<char>| #[trigger] views(r@).contains(n) <==> any_wants(subs@, n),
{
    let mut names: NameMap<()> = NameMap::new();
    let mut i: usize = 0;
    while i < subs.len()
        invariant
            i <= subs@.len(),
            names.wf(),
            forall|n: Seq<char>| #[trigger]
                names.as_map().dom().contains(n) <==> exists|k: int|
                    0 <= k < i && wants(#[trigger] subs@[k], n),
        decreases subs@.len() - i,
    {
        let ghost before = names.as_map().dom();
        add_subscription(&subs[i], &mut names);
        proof {
            assert forall|n: Seq<char>| #[trigger]
                names.as_map().dom().contains(n) <==> exists|k: int|
                    0 <= k < i + 1 && wants(#[trigger] subs@[k], n) by {
                assert(before.contains(n) <==> exists|k: int|
                    0 <= k < i && wants(#[trigger] subs@[k], n));
                if wants(subs@[i as int], n) {
                    assert(0 <= i < i + 1 && wants(subs@[i as int], n));
                }
            }
        }
        i = i + 1;
    }
    proof {
        assert forall|n: Seq<char>| #[trigger] views(names.names@).contains(n) <==> any_wants(
            subs@,
            n,
        ) by {
            assert(names.as_map().dom().contains(n) <==> exists|k: int|
                0 <= k < i && wants(#[trigger] subs@[k], n));
        }
    }
    names.names
}

/// One of the streams carries book updates, which build on a snapshot.
pub open spec fn has_depth(streams: Seq<String>) -> bool {
    exists|i: int| 0 <= i < streams.len() && has_text((#[trigger] streams[i])@, "@depth"@)
}

pub fn needs_snapshots(streams: &Vec<String>) -> (r: bool)
    ensures
        r == has_depth(streams@),
{
    let mut i: usize = 0;
    while i < streams.len()
        invariant
            i <= streams@.len(),
            forall|j: int| 0 <= j < i ==> !has_text((#[trigger] streams@[j])@, "@depth"@),
        decreases streams@.len() - i,
    {
        if contains_text(streams[i].as_str(), "@depth") {
            assert(has_text(streams@[i as int]@, "@depth"@));
            return true;
        }
        i = i + 1;
    }
    false
}

/// One connection to be opened.
#[derive(Debug)]
pub struct ConnPlan {
    /// Connections count from 1 in the order they are opened; REST is source 0.
    pub source: SourceId,
    pub label: String,
    /// The id of its subscribe request.
    pub request_id: u64,
    pub streams: Vec<String>,
}

/// `p` is the plan of the `i`th connection after `open` others, with requests
/// numbered after `last_id`.
pub open spec fn planned(
    p: ConnPlan,
    streams: Seq<String>,
    i: int,
    max: int,
    open: int,
    last_id: int,
) -> bool {
    let no = open + i + 1;
    &&& p.source == SourceId((no % 0x1_0000) as u16)
    &&& p.label@ == "ws-"@ + dec(no as nat)
    &&& p.request_id == last_id + i + 1
    &&& p.streams@ == streams.subrange(
        i * max,
        if (i + 1) * max <= streams.len() {
            (i + 1) * max
        } else {
            streams.len() as int
        },
    )
}

/// How many connections the streams take.
pub open spec fn conn_count(streams: int, max: int) -> int {
    (streams + max - 1) / max
}

proof fn lemma_chunks(n: int, max: int, k: int)
    requires
        0 < max,
        0 <= n,
        0 <= k,
    ensures
        k * max < n ==> k < conn_count(n, max),
        k * max >= n ==> k >= conn_count(n, max),
{
    let c = conn_count(n, max);
    vstd::arithmetic::div_mod::lemma_fundamental_div_mod(n + max - 1, max);
    vstd::arithmetic::div_mod::lemma_mod_bound(n + max - 1, max);
    assert(c * max <= n + max - 1 < c * max + max) by (nonlinear_arith)
        requires
            n + max - 1 == max * c + (n + max - 1) % max,
            0 <= (n + max - 1) % max < max,
    ;
    if k * max < n && k >= c {
        assert(c * max <= k * max) by (nonlinear_arith)
            requires
                c <= k,
                0 < max,
        ;
    }
    if k * max >= n && k < c {
        assert(k * max + max <= c * max) by (nonlinear_arith)
            requires
                k + 1 <= c,
                0 < max,
        ;
    }
}

/// Spread the streams over connections, as many on each as it takes.
pub fn plan_connections(streams: &Vec<String>, max: usize, open: usize, last_id: u64) -> (r: Vec<
    ConnPlan,
>)
    requires
        max > 0,
        open + streams@.len() < usize::MAX,
        last_id + streams@.len() < u64::MAX,
    ensures
        r@.len() == conn_count(streams@.len() as int, max as int),
        forall|i: int|
            0 <= i < r@.len() ==> planned(
                #[trigger] r@[i],
                streams@,
                i,
                max as int,
                open as int,
                last_id as int,
            ),
{
    let mut out: Vec<ConnPlan> = Vec::new();
    let n: usize = streams.len();
    let mut at: usize = 0;
    proof {
        lemma_chunks(n as int, max as int, 0);
    }
    while at < n
        invariant
            n == streams@.len(),
            max > 0,
            open + n < usize::MAX,
            last_id + n < u64::MAX,
            at <= n,
            out@.len() <= at,
            at == out@.len() * max || at == n,
            at < n ==> at == out@.len() * max,
            out@.len() * max >= at,
            at == n ==> out@.len() == conn_count(n as int, max as int),
            forall|i: int|
                0 <= i < out@.len() ==> planned(
                    #[trigger] out@[i],
                    streams@,
                    i,
                    max as int,
                    open as int,
                    last_id as int,
                ),
        decreases n - at,
    {
        let ghost k = out@.len() as int;
        let end: usize = if n - at <= max {
            n
        } else {
            at + max
        };
        let mut chunk: Vec<String> = Vec::new();
        let mut j: usize = at;
        while j < end
            invariant
                at <= j <= end <= n,
                n == streams@.len(),
                chunk@ == streams@.subrange(at as int, j as int),
            decreases end - j,
        {
            chunk.push(streams[j].clone());
            j = j + 1;
            assert(chunk@ =~= streams@.subrange(at as int, j as int));
        }
        let no: usize = open + out.len() + 1;
        let mut label: String = "ws-".to_owned();
        push_u64(&mut label, no as u64);
        let request_id: u64 = last_id + out.len() as u64 + 1;
        let source: SourceId = SourceId((no % 0x1_0000) as u16);
        proof {
            assert((k + 1) * max == k * max + max) by (nonlinear_arith);
            lemma_chunks(n as int, max as int, k);
            lemma_chunks(n as int, max as int, k + 1);
        }
        out.push(ConnPlan { source, label, request_id, streams: chunk });
        at = end;
    }
    out
}

/// Every stream rides on exactly one connection: the one its position falls to.
pub proof fn law_every_stream_is_planned(
    plans: Seq<ConnPlan>,
    streams: Seq<String>,
    max: int,
    open: int,
    last_id: int,
    j: int,
)
    requires
        0 < max,
        0 <= j < streams.len(),
        plans.len() == conn_count(streams.len() as int, max),
        forall|i: int|
            0 <= i < plans.len() ==> planned(
                #[trigger] plans[i],
                streams,
                i,
                max,
                open,
                last_id,
            ),
    ensures
        0 <= j / max < plans.len(),
        j % max < plans[j / max].streams@.len(),
        plans[j / max].streams@[j % max] == streams[j],
        plans[j / max].streams@.len() <= max,
{
    let k = j / max;
    vstd::arithmetic::div_mod::lemma_fundamental_div_mod(j, max);
    vstd::arithmetic::div_mod::lemma_mod_bound(j, max);
    assert(k * max <= j && j == k * max + j % max && 0 <= k) by (nonlinear_arith)
        requires
            j == max * k + j % max,
            0 <= j % max < max,
            0 <= j,
            0 < max,
            k == j / max,
    ;
    lemma_chunks(streams.len() as int, max, k);
    assert((k + 1) * max == k * max + max) by (nonlinear_arith);
    assert(planned(plans[k], streams, k, max, open, last_id));
}

} // verus!
