//! Listed symbols as instruments.
use super::funding::{funding_for, meta_for, FundingMap, FundingMeta};
use super::messages::in_nanos;
use crate::decimal::{decimal_read, Decimal};
use crate::listing::{filter_text, filter_value, Filter};
use crate::text::{lowercase, opt_view, same, to_lower};
use crate::types::{
    asset_view, ms_to_nanos, Asset, Instrument, InstrumentClass, InstrumentId, LifecycleState,
    Linearity,
};
use vstd::prelude::*;
use vstd::string::*;

verus! {

/// A symbol as the exchange information lists it.
#[derive(Debug)]
pub struct SymbolInfo {
    pub symbol: String,
    pub contract_type: String,
    pub base_asset: String,
    pub quote_asset: String,
    pub margin_asset: Option<String>,
    pub status: String,
    /// Milliseconds; of a perpetual, a date far off.
    pub delivery_date: Option<u64>,
    pub filters: Vec<Filter>,
}

/// `r` is the decimal of a filter's field, if there is one.
pub open spec fn filter_read(
    filters: Seq<Filter>,
    filter_type: Seq<char>,
    key: Seq<char>,
    r: Option<Decimal>,
) -> bool {
    match filter_value(filters, filter_type, key) {
        Some(t) => decimal_read(t, r),
        None => r is None,
    }
}

/// The decimal of a filter's field. Filters are looked up by type: a closed list
/// of them would not survive the venue adding one.
pub fn filter_decimal(filters: &Vec<Filter>, filter_type: &str, key: &str) -> (r: Option<Decimal>)
    ensures
        filter_read(filters@, filter_type@, key@, r),
{
    match filter_text(filters, filter_type, key) {
        Some(t) => Decimal::parse(t.as_str()),
        None => None,
    }
}

pub open spec fn is_perp(s: SymbolInfo) -> bool {
    s.contract_type@ == "PERPETUAL"@
}

/// USD-M futures are never spot: what is not perpetual is dated.
pub open spec fn class_of(s: SymbolInfo) -> InstrumentClass {
    if is_perp(s) {
        InstrumentClass::Perp
    } else {
        InstrumentClass::Future {
            expiry: match s.delivery_date {
                Some(ms) => Some((ms * 1_000_000) as u64),
                None => None,
            },
        }
    }
}

pub open spec fn lifecycle_of(status: Seq<char>) -> LifecycleState {
    if status == "TRADING"@ {
        LifecycleState::Trading
    } else if status == "PENDING_TRADING"@ {
        LifecycleState::PendingTrading
    } else if status == "DELIVERED"@ || status == "CLOSE"@ {
        LifecycleState::Delisted
    } else {
        LifecycleState::Halted
    }
}

/// `i` is the instrument of a listed symbol.
pub open spec fn instrument_of(
    s: SymbolInfo,
    funding: Map<Seq<char>, FundingMeta>,
    i: Instrument,
) -> bool {
    &&& i.id.value@ == lowercase(s.symbol@)
    &&& i.class == class_of(s)
    &&& i.base.0@ == s.base_asset@
    &&& i.quote.0@ == s.quote_asset@
    &&& filter_read(s.filters@, "PRICE_FILTER"@, "tickSize"@, i.tick_size)
    &&& filter_read(s.filters@, "LOT_SIZE"@, "stepSize"@, i.lot_size)
    &&& filter_read(s.filters@, "MIN_NOTIONAL"@, "notional"@, i.min_notional)
    &&& i.contract_multiplier is None
    &&& asset_view(i.settle_ccy) == opt_view(s.margin_asset)
    &&& i.linearity == (match s.margin_asset {
        Some(m) => Some(
            if m@ == s.quote_asset@ {
                Linearity::Linear
            } else {
                Linearity::Inverse
            },
        ),
        None => None,
    })
    &&& i.funding_interval == (if is_perp(s) {
        Some(meta_for(funding, lowercase(s.symbol@)).interval)
    } else {
        None
    })
    &&& i.lifecycle == lifecycle_of(s.status@)
}

/// The delivery time of a dated symbol can be told in nanoseconds.
pub open spec fn delivery_fits(s: SymbolInfo) -> bool {
    !is_perp(s) && s.delivery_date is Some ==> in_nanos(s.delivery_date->0)
}

/// The instrument of a listed symbol.
pub fn symbol_to_instrument(s: &SymbolInfo, funding: &FundingMap) -> (r: Instrument)
    requires
        funding.wf(),
        delivery_fits(*s),
    ensures
        instrument_of(*s, funding.as_map(), r),
{
    let perp: bool = same(s.contract_type.as_str(), "PERPETUAL");
    let class: InstrumentClass = if perp {
        InstrumentClass::Perp
    } else {
        InstrumentClass::Future {
            expiry: match s.delivery_date {
                Some(ms) => Some(ms_to_nanos(ms)),
                None => None,
            },
        }
    };
    let id: String = to_lower(s.symbol.as_str());
    let funding_interval: Option<u64> = if perp {
        Some(funding_for(funding, id.as_str()).interval)
    } else {
        None
    };
    let status: &str = s.status.as_str();
    let lifecycle: LifecycleState = if same(status, "TRADING") {
        LifecycleState::Trading
    } else if same(status, "PENDING_TRADING") {
        LifecycleState::PendingTrading
    } else if same(status, "DELIVERED") || same(status, "CLOSE") {
        LifecycleState::Delisted
    } else {
        LifecycleState::Halted
    };
    let linearity: Option<Linearity> = match &s.margin_asset {
        Some(m) => Some(
            if same(m.as_str(), s.quote_asset.as_str()) {
                Linearity::Linear
            } else {
                Linearity::Inverse
            },
        ),
        None => None,
    };
    Instrument {
        id: InstrumentId { value: id },
        class,
        base: Asset(s.base_asset.clone()),
        quote: Asset(s.quote_asset.clone()),
        tick_size: filter_decimal(&s.filters, "PRICE_FILTER", "tickSize"),
        lot_size: filter_decimal(&s.filters, "LOT_SIZE", "stepSize"),
        min_notional: filter_decimal(&s.filters, "MIN_NOTIONAL", "notional"),
        contract_multiplier: None,
        settle_ccy: match &s.margin_asset {
            Some(m) => Some(Asset(m.clone())),
            None => None,
        },
        linearity,
        funding_interval,
        lifecycle,
    }
}

pub open spec fn is_trading(s: SymbolInfo) -> bool {
    s.status@ == "TRADING"@
}

/// The symbols that trade, in order.
pub open spec fn trading(symbols: Seq<SymbolInfo>) -> Seq<SymbolInfo> {
    symbols.filter(|s: SymbolInfo| is_trading(s))
}

/// The instruments of the symbols that trade.
pub fn trading_instruments(symbols: &Vec<SymbolInfo>, funding: &FundingMap) -> (r: Vec<Instrument>)
    requires
        funding.wf(),
        forall|i: int|
            0 <= i < symbols@.len() && is_trading(#[trigger] symbols@[i]) ==> delivery_fits(
                symbols@[i],
            ),
    ensures
        r@.len() == trading(symbols@).len(),
        forall|i: int|
            0 <= i < r@.len() ==> instrument_of(
                trading(symbols@)[i],
                funding.as_map(),
                #[trigger] r@[i],
            ),
{
    let mut out: Vec<Instrument> = Vec::new();
    let mut i: usize = 0;
    proof {
        reveal(Seq::filter);
    }
    while i < symbols.len()
        invariant
            i <= symbols@.len(),
            funding.wf(),
            forall|j: int|
                0 <= j < symbols@.len() && is_trading(#[trigger] symbols@[j]) ==> delivery_fits(
                    symbols@[j],
                ),
            out@.len() == trading(symbols@.take(i as int)).len(),
            forall|j: int|
                0 <= j < out@.len() ==> instrument_of(
                    trading(symbols@.take(i as int))[j],
                    funding.as_map(),
                    #[trigger] out@[j],
                ),
        decreases symbols@.len() - i,
    {
        proof {
            reveal(Seq::filter);
            let t = symbols@.take(i + 1);
            assert(t.drop_last() =~= symbols@.take(i as int));
            assert(t.last() == symbols@[i as int]);
        }
        if same(symbols[i].status.as_str(), "TRADING") {
            out.push(symbol_to_instrument(&symbols[i], funding));
        }
        i = i + 1;
    }
    assert(symbols@.take(symbols@.len() as int) =~= symbols@);
    out
}

} // verus!
