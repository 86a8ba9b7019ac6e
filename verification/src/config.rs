//! Configuration of a capture process. Validation is loud: a configuration that
//! names a stream the process cannot capture is refused at startup instead of
//! yielding silence.
pub mod laws;

use crate::adapter::{DataType, Scope, Subscription};
use crate::order::{ascending, NameMap};
use crate::paths::{join, path_join};
use crate::text::{dec, lowercase, push_u64, quote, quoted, same, to_lower, views};
use crate::types::InstrumentId;
use vstd::prelude::*;
use vstd::string::*;

verus! {

#[derive(Debug)]
pub enum ConfigError {
    Io(String),
    Parse(String),
    Invalid(String),
}

impl ConfigError {
    /// The message an operator sees.
    pub open spec fn text(self) -> Seq<char> {
        match self {
            ConfigError::Io(e) => "config read failed: "@ + e@,
            ConfigError::Parse(e) => "config parse failed: "@ + e@,
            ConfigError::Invalid(m) => "config invalid: "@ + m@,
        }
    }

    pub fn message(&self) -> (r: String)
        ensures
            r@ == self.text(),
    {
        match self {
            ConfigError::Io(e) => "config read failed: ".to_owned().concat(e.as_str()),
            ConfigError::Parse(e) => "config parse failed: ".to_owned().concat(e.as_str()),
            ConfigError::Invalid(m) => "config invalid: ".to_owned().concat(m.as_str()),
        }
    }
}

#[derive(Debug)]
pub struct Config {
    pub venue: VenueCfg,
    pub paths: PathsCfg,
    pub logging: LoggingCfg,
    pub capture: CaptureCfg,
    pub pollers: PollersCfg,
    pub universe: UniverseCfg,
    pub subscriptions: Vec<SubscriptionCfg>,
}

#[derive(Debug)]
pub struct VenueCfg {
    /// Capture namespace and directory name.
    pub id: String,
}

#[derive(Debug)]
pub struct PathsCfg {
    /// Root of the data layout.
    pub data_dir: String,
}

impl PathsCfg {
    pub fn wal_dir(&self) -> (r: String)
        ensures
            r@ == path_join(self.data_dir@, "wal"@),
    {
        join(self.data_dir.as_str(), "wal")
    }

    pub fn raw_dir(&self) -> (r: String)
        ensures
            r@ == path_join(self.data_dir@, "raw"@),
    {
        join(self.data_dir.as_str(), "raw")
    }

    pub fn parquet_dir(&self) -> (r: String)
        ensures
            r@ == path_join(self.data_dir@, "parquet"@),
    {
        join(self.data_dir.as_str(), "parquet")
    }

    pub fn meta_dir(&self) -> (r: String)
        ensures
            r@ == path_join(self.data_dir@, "meta"@),
    {
        join(self.data_dir.as_str(), "meta")
    }
}

#[derive(Debug)]
pub struct LoggingCfg {
    /// Filter directives of the log.
    pub filter: String,
}

impl Default for LoggingCfg {
    fn default() -> (r: LoggingCfg)
        ensures
            r.filter@ == "info"@,
    {
        LoggingCfg { filter: "info".to_owned() }
    }
}

#[derive(Debug)]
pub struct CaptureCfg {
    /// Keep the raw frames: with them a parser bug means normalizing again, not
    /// lost data.
    pub raw_tee: bool,
    pub heartbeat_secs: u64,
}

impl Default for CaptureCfg {
    fn default() -> (r: CaptureCfg)
        ensures
            r.raw_tee,
            r.heartbeat_secs == 60,
    {
        CaptureCfg { raw_tee: true, heartbeat_secs: 60 }
    }
}

/// Cadences of the REST pollers, all venue-wide.
#[derive(Debug)]
pub struct PollersCfg {
    /// Mark, index and funding prediction.
    pub premium_index_secs: u64,
    /// One sweep over the perpetuals per interval.
    pub open_interest_secs: u64,
    pub funding_realized_secs: u64,
}

impl Default for PollersCfg {
    fn default() -> (r: PollersCfg)
        ensures
            r.premium_index_secs == 30,
            r.open_interest_secs == 300,
            r.funding_realized_secs == 300,
    {
        PollersCfg { premium_index_secs: 30, open_interest_secs: 300, funding_realized_secs: 300 }
    }
}

/// The bounds of a poller's cadence.
pub const POLLER_SECS_MIN: u64 = 5;

pub const POLLER_SECS_MAX: u64 = 3600;

/// The universe manager's part.
#[derive(Debug)]
pub struct UniverseCfg {
    /// How often listings are compared.
    pub poll_secs: u64,
    /// What to subscribe to for perpetuals that begin to trade; nothing by
    /// default. Venue-wide pollers follow the universe by themselves.
    pub auto_subscribe_data: Vec<DataTypeCfg>,
}

impl Default for UniverseCfg {
    fn default() -> (r: UniverseCfg)
        ensures
            r.poll_secs == 900,
            r.auto_subscribe_data@.len() == 0,
    {
        UniverseCfg { poll_secs: 900, auto_subscribe_data: Vec::new() }
    }
}

/// The bounds of the universe manager's cadence.
pub const UNIVERSE_POLL_MIN: u64 = 60;

pub const UNIVERSE_POLL_MAX: u64 = 86_400;

/// One subscription: a list of instruments or all of them, never both.
#[derive(Debug)]
pub struct SubscriptionCfg {
    /// Venue-raw instrument ids in any case.
    pub instruments: Vec<String>,
    pub all: bool,
    pub data: Vec<DataTypeCfg>,
}

#[derive(Debug, Clone, Copy, PartialEq, Eq, Structural)]
pub enum DataTypeCfg {
    BookTicker,
    BookDepth,
    Trade,
    FundingRate,
    MarkPrice,
    IndexPrice,
    Liquidation,
    OpenInterest,
}

impl DataTypeCfg {
    /// The data type an entry stands for.
    pub open spec fn data_type(self) -> DataType {
        match self {
            DataTypeCfg::BookTicker => DataType::BookTicker,
            DataTypeCfg::BookDepth => DataType::BookDepth,
            DataTypeCfg::Trade => DataType::Trade,
            DataTypeCfg::FundingRate => DataType::FundingRate,
            DataTypeCfg::MarkPrice => DataType::MarkPrice,
            DataTypeCfg::IndexPrice => DataType::IndexPrice,
            DataTypeCfg::Liquidation => DataType::Liquidation,
            DataTypeCfg::OpenInterest => DataType::OpenInterest,
        }
    }

    pub fn to_data_type(self) -> (r: DataType)
        ensures
            r == self.data_type(),
    {
        match self {
            DataTypeCfg::BookTicker => DataType::BookTicker,
            DataTypeCfg::BookDepth => DataType::BookDepth,
            DataTypeCfg::Trade => DataType::Trade,
            DataTypeCfg::FundingRate => DataType::FundingRate,
            DataTypeCfg::MarkPrice => DataType::MarkPrice,
            DataTypeCfg::IndexPrice => DataType::IndexPrice,
            DataTypeCfg::Liquidation => DataType::Liquidation,
            DataTypeCfg::OpenInterest => DataType::OpenInterest,
        }
    }

    /// How a configuration writes it.
    pub open spec fn written(self) -> Seq<char> {
        match self {
            DataTypeCfg::BookTicker => "book_ticker"@,
            DataTypeCfg::BookDepth => "book_depth"@,
            DataTypeCfg::Trade => "trade"@,
            DataTypeCfg::FundingRate => "funding_rate"@,
            DataTypeCfg::MarkPrice => "mark_price"@,
            DataTypeCfg::IndexPrice => "index_price"@,
            DataTypeCfg::Liquidation => "liquidation"@,
            DataTypeCfg::OpenInterest => "open_interest"@,
        }
    }

    pub fn name(self) -> (r: &'static str)
        ensures
            r@ == self.written(),
    {
        match self {
            DataTypeCfg::BookTicker => "book_ticker",
            DataTypeCfg::BookDepth => "book_depth",
            DataTypeCfg::Trade => "trade",
            DataTypeCfg::FundingRate => "funding_rate",
            DataTypeCfg::MarkPrice => "mark_price",
            DataTypeCfg::IndexPrice => "index_price",
            DataTypeCfg::Liquidation => "liquidation",
            DataTypeCfg::OpenInterest => "open_interest",
        }
    }
}

/// Whether a data type can be captured on Binance USD-M. The per-symbol
/// mark-price streams are acknowledged but silent, so mark, index and funding
/// come from a venue-wide poller; books and trades have no venue-wide stream.
pub open spec fn supported(dt: DataTypeCfg, venue_wide: bool) -> bool {
    match dt {
        DataTypeCfg::MarkPrice | DataTypeCfg::IndexPrice | DataTypeCfg::FundingRate => venue_wide,
        DataTypeCfg::BookTicker | DataTypeCfg::BookDepth | DataTypeCfg::Trade => !venue_wide,
        _ => true,
    }
}

/// Why a data type cannot be captured.
pub open spec fn unsupported_text(venue_wide: bool) -> Seq<char> {
    if venue_wide {
        "no venue-wide Binance stream for this data type — list instruments explicitly"@
    } else {
        "mark/index/funding come from the venue-wide premiumIndex REST poller (the per-symbol WS stream is acked but silent) — use `all = true` for this data type"@
    }
}

/// Why a data type cannot be captured on Binance USD-M, if it cannot.
pub fn binance_unsupported_reason(dt: DataTypeCfg, venue_wide: bool) -> (r: Option<&'static str>)
    ensures
        match r {
            Some(t) => !supported(dt, venue_wide) && t@ == unsupported_text(venue_wide),
            None => supported(dt, venue_wide),
        },
{
    match dt {
        DataTypeCfg::MarkPrice | DataTypeCfg::IndexPrice | DataTypeCfg::FundingRate => {
            if !venue_wide {
                Some(
                    "mark/index/funding come from the venue-wide premiumIndex REST poller (the per-symbol WS stream is acked but silent) — use `all = true` for this data type",
                )
            } else {
                None
            }
        },
        DataTypeCfg::BookTicker | DataTypeCfg::BookDepth | DataTypeCfg::Trade => {
            if venue_wide {
                Some(
                    "no venue-wide Binance stream for this data type — list instruments explicitly",
                )
            } else {
                None
            }
        },
        _ => None,
    }
}

/// The data types of the entries.
pub open spec fn data_types(d: Seq<DataTypeCfg>) -> Seq<DataType> {
    d.map_values(|c: DataTypeCfg| c.data_type())
}

/// The ids in lower case.
pub open spec fn lowered(ids: Seq<String>) -> Seq<Seq<char>> {
    ids.map_values(|s: String| lowercase(s@))
}

pub open spec fn id_views(ids: Seq<InstrumentId>) -> Seq<Seq<char>> {
    ids.map_values(|i: InstrumentId| i.value@)
}

impl SubscriptionCfg {
    /// `s` is the subscription in the adapter's form.
    pub open spec fn adapted(self, s: Subscription) -> bool {
        &&& s.data@ == data_types(self.data@)
        &&& if self.all {
            s.scope is All
        } else {
            s.scope matches Scope::Instruments(ids) && id_views(ids@) == lowered(self.instruments@)
        }
    }

    pub fn to_subscription(&self) -> (r: Subscription)
        ensures
            self.adapted(r),
    {
        let mut data: Vec<DataType> = Vec::new();
        let mut i: usize = 0;
        while i < self.data.len()
            invariant
                i <= self.data@.len(),
                data@ == data_types(self.data@.take(i as int)),
            decreases self.data@.len() - i,
        {
            data.push(self.data[i].to_data_type());
            assert(data@ =~= data_types(self.data@.take(i + 1)));
            i = i + 1;
        }
        assert(self.data@.take(self.data@.len() as int) =~= self.data@);
        if self.all {
            return Subscription { scope: Scope::All, data };
        }
        let mut ids: Vec<InstrumentId> = Vec::new();
        let mut j: usize = 0;
        while j < self.instruments.len()
            invariant
                j <= self.instruments@.len(),
                id_views(ids@) == lowered(self.instruments@.take(j as int)),
            decreases self.instruments@.len() - j,
        {
            let ghost o = ids@;
            ids.push(InstrumentId { value: to_lower(self.instruments[j].as_str()) });
            proof {
                assert(id_views(ids@) =~= id_views(o).push(lowercase(self.instruments@[j as int]@)));
                assert(lowered(self.instruments@.take(j + 1)) =~= lowered(
                    self.instruments@.take(j as int),
                ).push(lowercase(self.instruments@[j as int]@)));
            }
            j = j + 1;
        }
        assert(self.instruments@.take(self.instruments@.len() as int) =~= self.instruments@);
        Subscription { scope: Scope::Instruments(ids), data }
    }
}

// ---------------------------------------------------------------------------
// Validation
// ---------------------------------------------------------------------------

pub open spec fn poller_ok(secs: u64) -> bool {
    POLLER_SECS_MIN <= secs <= POLLER_SECS_MAX
}

pub open spec fn poller_text(name: Seq<char>, secs: u64) -> Seq<char> {
    "pollers."@ + name + " = "@ + dec(secs as nat) + " out of bounds (5..=3600 s)"@
}

/// What is wrong with the types to subscribe to automatically.
pub open spec fn auto_fault(data: Seq<DataTypeCfg>) -> Option<Seq<char>>
    decreases data.len(),
{
    if data.len() == 0 {
        None
    } else if data[0] == DataTypeCfg::OpenInterest {
        Some(
            "universe.auto_subscribe_data: open_interest — the OI poller already follows the universe; remove it"@,
        )
    } else if !supported(data[0], false) {
        Some(
            "universe.auto_subscribe_data: `"@ + data[0].written() + "`: "@ + unsupported_text(
                false,
            ),
        )
    } else {
        auto_fault(data.drop_first())
    }
}

/// What is wrong with the types of a subscription.
pub open spec fn data_fault(at: Seq<char>, data: Seq<DataTypeCfg>, all: bool) -> Option<Seq<char>>
    decreases data.len(),
{
    if data.len() == 0 {
        None
    } else if !supported(data[0], all) {
        Some(at + ": `"@ + data[0].written() + "`: "@ + unsupported_text(all))
    } else {
        data_fault(at, data.drop_first(), all)
    }
}

pub open spec fn place(i: nat) -> Seq<char> {
    "subscriptions["@ + dec(i) + "]"@
}

/// What is wrong with the `i`th subscription.
pub open spec fn subscription_fault(s: SubscriptionCfg, i: nat) -> Option<Seq<char>> {
    if s.all && s.instruments@.len() > 0 {
        Some(place(i) + ": `all = true` and `instruments` are mutually exclusive"@)
    } else if !s.all && s.instruments@.len() == 0 {
        Some(place(i) + ": set either `instruments = [..]` or `all = true`"@)
    } else if s.data@.len() == 0 {
        Some(place(i) + ": `data` is empty"@)
    } else {
        data_fault(place(i), s.data@, s.all)
    }
}

/// What is wrong with the first faulty subscription from the `i`th on.
pub open spec fn subscriptions_fault(subs: Seq<SubscriptionCfg>, i: nat) -> Option<Seq<char>>
    decreases subs.len() - i,
{
    if i >= subs.len() {
        None
    } else {
        match subscription_fault(subs[i as int], i) {
            Some(t) => Some(t),
            None => subscriptions_fault(subs, i + 1),
        }
    }
}

impl Config {
    /// The first thing that is wrong with the configuration.
    pub open spec fn fault(self) -> Option<Seq<char>> {
        if self.venue.id@ != "binance"@ {
            Some(
                "unknown venue id "@ + quoted(self.venue.id@) + "; supported: \"binance\""@,
            )
        } else if self.subscriptions@.len() == 0 {
            Some("no [[subscriptions]] configured; nothing to capture"@)
        } else if !poller_ok(self.pollers.premium_index_secs) {
            Some(poller_text("premium_index_secs"@, self.pollers.premium_index_secs))
        } else if !poller_ok(self.pollers.open_interest_secs) {
            Some(poller_text("open_interest_secs"@, self.pollers.open_interest_secs))
        } else if !poller_ok(self.pollers.funding_realized_secs) {
            Some(poller_text("funding_realized_secs"@, self.pollers.funding_realized_secs))
        } else if !(UNIVERSE_POLL_MIN <= self.universe.poll_secs <= UNIVERSE_POLL_MAX) {
            Some(
                "universe.poll_secs = "@ + dec(self.universe.poll_secs as nat)
                    + " out of bounds (60..=86400 s)"@,
            )
        } else {
            match auto_fault(self.universe.auto_subscribe_data@) {
                Some(t) => Some(t),
                None => subscriptions_fault(self.subscriptions@, 0),
            }
        }
    }

    /// Whether every stream the configuration names can be captured.
    pub fn validate(&self) -> (r: Result<(), ConfigError>)
        ensures
            match self.fault() {
                Some(t) => r matches Err(ConfigError::Invalid(m)) && m@ == t,
                None => r is Ok,
            },
    {
        if !same(self.venue.id.as_str(), "binance") {
            return Err(
                ConfigError::Invalid(
                    "unknown venue id ".to_owned().concat(
                        quote(self.venue.id.as_str()).as_str(),
                    ).concat("; supported: \"binance\""),
                ),
            );
        }
        if self.subscriptions.len() == 0 {
            return Err(
                ConfigError::Invalid(
                    "no [[subscriptions]] configured; nothing to capture".to_owned(),
                ),
            );
        }
        check_poller("premium_index_secs", self.pollers.premium_index_secs)?;
        check_poller("open_interest_secs", self.pollers.open_interest_secs)?;
        check_poller("funding_realized_secs", self.pollers.funding_realized_secs)?;
        let poll: u64 = self.universe.poll_secs;
        if !(UNIVERSE_POLL_MIN <= poll && poll <= UNIVERSE_POLL_MAX) {
            let mut s: String = "universe.poll_secs = ".to_owned();
            push_u64(&mut s, poll);
            s.append(" out of bounds (60..=86400 s)");
            return Err(ConfigError::Invalid(s));
        }
        check_auto(&self.universe.auto_subscribe_data)?;
        let mut i: usize = 0;
        while i < self.subscriptions.len()
            invariant
                i <= self.subscriptions@.len(),
                self.fault() == subscriptions_fault(self.subscriptions@, i as nat),
            decreases self.subscriptions@.len() - i,
        {
            check_subscription(&self.subscriptions[i], i)?;
            i = i + 1;
        }
        Ok(())
    }

    /// All subscriptions in the adapter's form.
    pub fn subscriptions(&self) -> (r: Vec<Subscription>)
        ensures
            r@.len() == self.subscriptions@.len(),
            forall|i: int|
                0 <= i < r@.len() ==> self.subscriptions@[i].adapted(#[trigger] r@[i]),
    {
        let mut out: Vec<Subscription> = Vec::new();
        let mut i: usize = 0;
        while i < self.subscriptions.len()
            invariant
                i <= self.subscriptions@.len(),
                out@.len() == i,
                forall|j: int|
                    0 <= j < i ==> self.subscriptions@[j].adapted(#[trigger] out@[j]),
            decreases self.subscriptions@.len() - i,
        {
            out.push(self.subscriptions[i].to_subscription());
            i = i + 1;
        }
        out
    }

    /// The instrument is named by one of the first `n` subscriptions.
    pub open spec fn names_until(self, n: int, k: int, name: Seq<char>) -> bool {
        exists|s: int, i: int|
            0 <= s < self.subscriptions@.len() && 0 <= i < self.subscriptions@[s].instruments@.len()
                && (s < n || (s == n && i < k)) && lowercase(
                #[trigger] self.subscriptions@[s].instruments@[i]@,
            ) == name
    }

    /// The instrument is named by a subscription.
    pub open spec fn names_instrument(self, name: Seq<char>) -> bool {
        self.names_until(self.subscriptions@.len() as int, 0, name)
    }

    /// Every instrument the configuration names, in lower case, once each, in
    /// dictionary order.
    pub fn explicit_instruments(&self) -> (r: Vec<String>)
        ensures
            ascending(views(r@)),
            forall|name: Seq<char>| #[trigger]
                views(r@).contains(name) <==> self.names_instrument(name),
    {
        let mut ids: NameMap<()> = NameMap::new();
        let mut s: usize = 0;
        while s < self.subscriptions.len()
            invariant
                s <= self.subscriptions@.len(),
                ids.wf(),
                forall|name: Seq<char>| #[trigger]
                    ids.as_map().dom().contains(name) <==> self.names_until(s as int, 0, name),
            decreases self.subscriptions@.len() - s,
        {
            let list: &Vec<String> = &self.subscriptions[s].instruments;
            let mut i: usize = 0;
            while i < list.len()
                invariant
                    s < self.subscriptions@.len(),
                    list == &self.subscriptions@[s as int].instruments,
                    i <= list@.len(),
                    ids.wf(),
                    forall|name: Seq<char>| #[trigger]
                        ids.as_map().dom().contains(name) <==> self.names_until(
                            s as int,
                            i as int,
                            name,
                        ),
                decreases list@.len() - i,
            {
                let ghost before = ids.as_map();
                let id: String = to_lower(list[i].as_str());
                ids.put(id, ());
                proof {
                    assert forall|name: Seq<char>| #[trigger]
                        ids.as_map().dom().contains(name) <==> self.names_until(
                            s as int,
                            i + 1,
                            name,
                        ) by {
                        assert(before.dom().contains(name) <==> self.names_until(
                            s as int,
                            i as int,
                            name,
                        ));
                        if self.names_until(s as int, i + 1, name) && !self.names_until(
                            s as int,
                            i as int,
                            name,
                        ) {
                            assert(name == lowercase(
                                self.subscriptions@[s as int].instruments@[i as int]@,
                            ));
                        }
                        if name == lowercase(
                            self.subscriptions@[s as int].instruments@[i as int]@,
                        ) {
                            assert(self.names_until(s as int, i + 1, name));
                        }
                    }
                }
                i = i + 1;
            }
            proof {
                assert forall|name: Seq<char>| #[trigger]
                    ids.as_map().dom().contains(name) <==> self.names_until(s + 1, 0, name) by {
                    assert(ids.as_map().dom().contains(name) <==> self.names_until(
                        s as int,
                        i as int,
                        name,
                    ));
                }
            }
            s = s + 1;
        }
        proof {
            assert forall|name: Seq<char>| #[trigger]
                views(ids.names@).contains(name) <==> self.names_instrument(name) by {
                assert(ids.as_map().dom().contains(name) <==> self.names_until(s as int, 0, name));
            }
        }
        ids.names
    }
}

fn check_poller(name: &str, secs: u64) -> (r: Result<(), ConfigError>)
    ensures
        if poller_ok(secs) {
            r is Ok
        } else {
            r matches Err(ConfigError::Invalid(m)) && m@ == poller_text(name@, secs)
        },
{
    if POLLER_SECS_MIN <= secs && secs <= POLLER_SECS_MAX {
        return Ok(());
    }
    let mut s: String = "pollers.".to_owned();
    s.append(name);
    s.append(" = ");
    push_u64(&mut s, secs);
    s.append(" out of bounds (5..=3600 s)");
    Err(ConfigError::Invalid(s))
}

fn check_auto(data: &Vec<DataTypeCfg>) -> (r: Result<(), ConfigError>)
    ensures
        match auto_fault(data@) {
            Some(t) => r matches Err(ConfigError::Invalid(m)) && m@ == t,
            None => r is Ok,
        },
{
    let mut i: usize = 0;
    assert(data@.skip(0) =~= data@);
    while i < data.len()
        invariant
            i <= data@.len(),
            auto_fault(data@) == auto_fault(data@.skip(i as int)),
        decreases data@.len() - i,
    {
        assert(data@.skip(i as int).drop_first() =~= data@.skip(i + 1));
        let dt: DataTypeCfg = data[i];
        if dt == DataTypeCfg::OpenInterest {
            return Err(
                ConfigError::Invalid(
                    "universe.auto_subscribe_data: open_interest — the OI poller already follows the universe; remove it".to_owned(),
                ),
            );
        }
        if let Some(reason) = binance_unsupported_reason(dt, false) {
            return Err(
                ConfigError::Invalid(
                    "universe.auto_subscribe_data: `".to_owned().concat(dt.name()).concat(
                        "`: ",
                    ).concat(reason),
                ),
            );
        }
        i = i + 1;
    }
    Ok(())
}

fn check_subscription(s: &SubscriptionCfg, i: usize) -> (r: Result<(), ConfigError>)
    ensures
        match subscription_fault(*s, i as nat) {
            Some(t) => r matches Err(ConfigError::Invalid(m)) && m@ == t,
            None => r is Ok,
        },
{
    let mut at: String = "subscriptions[".to_owned();
    push_u64(&mut at, i as u64);
    at.append("]");
    if s.all && s.instruments.len() > 0 {
        return Err(
            ConfigError::Invalid(
                at.concat(": `all = true` and `instruments` are mutually exclusive"),
            ),
        );
    }
    if !s.all && s.instruments.len() == 0 {
        return Err(
            ConfigError::Invalid(at.concat(": set either `instruments = [..]` or `all = true`")),
        );
    }
    if s.data.len() == 0 {
        return Err(ConfigError::Invalid(at.concat(": `data` is empty")));
    }
    let mut j: usize = 0;
    assert(s.data@.skip(0) =~= s.data@);
    while j < s.data.len()
        invariant
            j <= s.data@.len(),
            at@ == place(i as nat),
            subscription_fault(*s, i as nat) == data_fault(
                place(i as nat),
                s.data@.skip(j as int),
                s.all,
            ),
        decreases s.data@.len() - j,
    {
        assert(s.data@.skip(j as int).drop_first() =~= s.data@.skip(j + 1));
        let dt: DataTypeCfg = s.data[j];
        if let Some(reason) = binance_unsupported_reason(dt, s.all) {
            return Err(
                ConfigError::Invalid(
                    at.concat(": `").concat(dt.name()).concat("`: ").concat(reason),
                ),
            );
        }
        j = j + 1;
    }
    Ok(())
}

// ---------------------------------------------------------------------------
// What a valid configuration is
// ---------------------------------------------------------------------------

/// A subscription that can be captured: either a list or all, and only types
/// that can be had that way.
pub open spec fn subscription_ok(s: SubscriptionCfg) -> bool {
    &&& s.all <==> s.instruments@.len() == 0
    &&& s.data@.len() > 0
    &&& forall|i: int| 0 <= i < s.data@.len() ==> supported(#[trigger] s.data@[i], s.all)
}

impl Config {
    /// Everything the configuration names can be captured.
    pub open spec fn capturable(self) -> bool {
        &&& self.venue.id@ == "binance"@
        &&& self.subscriptions@.len() > 0
        &&& poller_ok(self.pollers.premium_index_secs)
        &&& poller_ok(self.pollers.open_interest_secs)
        &&& poller_ok(self.pollers.funding_realized_secs)
        &&& UNIVERSE_POLL_MIN <= self.universe.poll_secs <= UNIVERSE_POLL_MAX
        &&& forall|i: int|
            0 <= i < self.universe.auto_subscribe_data@.len() ==> auto_ok(
                #[trigger] self.universe.auto_subscribe_data@[i],
            )
        &&& forall|i: int|
            0 <= i < self.subscriptions@.len() ==> subscription_ok(#[trigger] self.subscriptions@[i])
    }
}

/// A type that can be subscribed to automatically: per instrument and over a
/// stream.
pub open spec fn auto_ok(dt: DataTypeCfg) -> bool {
    dt != DataTypeCfg::OpenInterest && supported(dt, false)
}

proof fn lemma_auto(data: Seq<DataTypeCfg>)
    ensures
        auto_fault(data) is None <==> forall|i: int|
            0 <= i < data.len() ==> auto_ok(#[trigger] data[i]),
    decreases data.len(),
{
    if data.len() > 0 {
        let d = data.drop_first();
        lemma_auto(d);
        assert(forall|i: int| 0 <= i < d.len() ==> #[trigger] d[i] == data[i + 1]);
        if forall|i: int| 0 <= i < data.len() ==> auto_ok(#[trigger] data[i]) {
            assert(auto_ok(data[0]));
        } else if auto_fault(data) is None {
            assert forall|i: int| 0 <= i < data.len() implies auto_ok(#[trigger] data[i]) by {
                if i > 0 {
                    assert(auto_ok(d[i - 1]));
                }
            }
        }
    }
}

proof fn lemma_data(at: Seq<char>, data: Seq<DataTypeCfg>, all: bool)
    ensures
        data_fault(at, data, all) is None <==> forall|i: int|
            0 <= i < data.len() ==> supported(#[trigger] data[i], all),
    decreases data.len(),
{
    if data.len() > 0 {
        let d = data.drop_first();
        lemma_data(at, d, all);
        assert(forall|i: int| 0 <= i < d.len() ==> #[trigger] d[i] == data[i + 1]);
        if forall|i: int| 0 <= i < data.len() ==> supported(#[trigger] data[i], all) {
            assert(supported(data[0], all));
        } else if data_fault(at, data, all) is None {
            assert forall|i: int| 0 <= i < data.len() implies supported(
                #[trigger] data[i],
                all,
            ) by {
                if i > 0 {
                    assert(supported(d[i - 1], all));
                }
            }
        }
    }
}

proof fn lemma_subscriptions(subs: Seq<SubscriptionCfg>, n: nat)
    ensures
        subscriptions_fault(subs, n) is None <==> forall|i: int|
            n <= i < subs.len() ==> subscription_ok(#[trigger] subs[i]),
    decreases subs.len() - n,
{
    if n < subs.len() {
        lemma_subscriptions(subs, n + 1);
        lemma_data(place(n), subs[n as int].data@, subs[n as int].all);
        if subscriptions_fault(subs, n) is None {
            assert forall|i: int| n <= i < subs.len() implies subscription_ok(#[trigger] subs[i]) by {
                if i == n {
                    assert(subscription_fault(subs[i], n) is None);
                }
            }
        } else if forall|i: int| n <= i < subs.len() ==> subscription_ok(#[trigger] subs[i]) {
            assert(subscription_ok(subs[n as int]));
        }
    }
}

/// A configuration is refused exactly when it names something that cannot be
/// captured or a cadence that is out of bounds.
pub proof fn law_valid_means_capturable(c: Config)
    ensures
        c.fault() is None <==> c.capturable(),
{
    lemma_auto(c.universe.auto_subscribe_data@);
    lemma_subscriptions(c.subscriptions@, 0);
}

} // verus!
