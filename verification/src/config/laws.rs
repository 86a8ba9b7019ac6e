//! What a configuration asks for: what of it can be had, and what it becomes.
use super::{
    poller_ok, supported, unsupported_text, Config, DataTypeCfg, SubscriptionCfg, UNIVERSE_POLL_MAX, UNIVERSE_POLL_MIN,
};
use crate::adapter::{DataType, Scope, Subscription};
use crate::text::lowercase;
use vstd::prelude::*;
use vstd::string::*;

verus! {

/// Open interest and liquidations can be had both ways. Mark, index and funding
/// can be had of the whole venue only, books and trades of listed instruments
/// only.
pub proof fn law_what_can_be_had(dt: DataTypeCfg)
    ensures
        supported(dt, true) && supported(dt, false) <==> dt is OpenInterest || dt is Liquidation,
        supported(dt, true) && !supported(dt, false) <==> dt is MarkPrice || dt is IndexPrice
            || dt is FundingRate,
        !supported(dt, true) && supported(dt, false) <==> dt is BookTicker || dt is BookDepth
            || dt is Trade,
{
}

/// A valid configuration polls every five seconds to every hour, and compares
/// listings every minute to every day; the bounds themselves are fine.
pub proof fn law_cadences_are_bounded(c: Config)
    requires
        c.fault() is None,
    ensures
        5 <= c.pollers.premium_index_secs <= 3600,
        5 <= c.pollers.open_interest_secs <= 3600,
        5 <= c.pollers.funding_realized_secs <= 3600,
        60 <= c.universe.poll_secs <= 86_400,
        poller_ok(5) && poller_ok(3600) && !poller_ok(4) && !poller_ok(3601),
        UNIVERSE_POLL_MIN == 60 && UNIVERSE_POLL_MAX == 86_400,
{
    super::law_valid_means_capturable(c);
}

/// Of a valid configuration every subscription is either a list or all, asks for
/// something, and for nothing that cannot be had that way.
pub proof fn law_valid_subscriptions_can_be_had(c: Config, i: int, j: int)
    requires
        c.fault() is None,
        0 <= i < c.subscriptions@.len(),
        0 <= j < c.subscriptions@[i].data@.len(),
    ensures
        c.subscriptions@[i].all <==> c.subscriptions@[i].instruments@.len() == 0,
        c.subscriptions@[i].data@.len() > 0,
        c.subscriptions@[i].all ==> !(c.subscriptions@[i].data@[j] is BookTicker)
            && !(c.subscriptions@[i].data@[j] is BookDepth) && !(c.subscriptions@[i].data@[j] is Trade),
        !c.subscriptions@[i].all ==> !(c.subscriptions@[i].data@[j] is MarkPrice)
            && !(c.subscriptions@[i].data@[j] is IndexPrice)
            && !(c.subscriptions@[i].data@[j] is FundingRate),
{
    super::law_valid_means_capturable(c);
    assert(super::subscription_ok(c.subscriptions@[i]));
    assert(supported(c.subscriptions@[i].data@[j], c.subscriptions@[i].all));
}

/// Of a valid configuration only streams of single instruments are subscribed to
/// automatically.
pub proof fn law_valid_automatic_types(c: Config, i: int)
    requires
        c.fault() is None,
        0 <= i < c.universe.auto_subscribe_data@.len(),
    ensures
        ({
            let dt = c.universe.auto_subscribe_data@[i];
            dt is BookTicker || dt is BookDepth || dt is Trade || dt is Liquidation
        }),
{
    super::law_valid_means_capturable(c);
    assert(super::auto_ok(c.universe.auto_subscribe_data@[i]));
}

/// The two name the same type of data.
pub open spec fn same_type(c: DataTypeCfg, d: DataType) -> bool {
    match c {
        DataTypeCfg::BookTicker => d is BookTicker,
        DataTypeCfg::BookDepth => d is BookDepth,
        DataTypeCfg::Trade => d is Trade,
        DataTypeCfg::FundingRate => d is FundingRate,
        DataTypeCfg::MarkPrice => d is MarkPrice,
        DataTypeCfg::IndexPrice => d is IndexPrice,
        DataTypeCfg::Liquidation => d is Liquidation,
        DataTypeCfg::OpenInterest => d is OpenInterest,
    }
}

/// A subscription asks for what its entry says: every type of data in order,
/// and every listed instrument in lower case and in order, or all of them.
pub proof fn law_subscription_asks_for_its_entry(c: SubscriptionCfg, s: Subscription, i: int)
    requires
        c.adapted(s),
    ensures
        s.data@.len() == c.data@.len(),
        0 <= i < c.data@.len() ==> same_type(c.data@[i], s.data@[i]),
        c.all <==> s.scope is All,
        !(s.scope is Class),
        s.scope matches Scope::Instruments(ids) ==> ids@.len() == c.instruments@.len() && (0 <= i
            < ids@.len() ==> ids@[i].value@ == lowercase(c.instruments@[i]@)),
{
    if !c.all {
        let ids = s.scope->Instruments_0;
        assert(super::id_views(ids@).len() == ids@.len());
        assert(super::lowered(c.instruments@).len() == c.instruments@.len());
        if 0 <= i < ids@.len() {
            assert(super::id_views(ids@)[i] == ids@[i].value@);
            assert(super::lowered(c.instruments@)[i] == lowercase(c.instruments@[i]@));
        }
    }
}

/// An instrument is named where some subscription lists it, in whatever case.
pub proof fn law_listed_instruments_are_named(c: Config, name: Seq<char>)
    ensures
        c.names_instrument(name) <==> exists|s: int, i: int|
            0 <= s < c.subscriptions@.len() && 0 <= i < c.subscriptions@[s].instruments@.len()
                && lowercase(#[trigger] c.subscriptions@[s].instruments@[i]@) == name,
{
}

/// What cannot be had of the whole venue is to be listed; what cannot be had of
/// single instruments is to be asked for of all.
pub proof fn law_reasons_tell_the_way_out()
    ensures
        unsupported_text(true)
            == "no venue-wide Binance stream for this data type — list instruments explicitly"@,
        unsupported_text(false) != unsupported_text(true),
{
    reveal_strlit(
        "no venue-wide Binance stream for this data type — list instruments explicitly",
    );
    reveal_strlit(
        "mark/index/funding come from the venue-wide premiumIndex REST poller (the per-symbol WS stream is acked but silent) — use `all = true` for this data type",
    );
    assert(unsupported_text(true)[0] == 'n');
    assert(unsupported_text(false)[0] == 'm');
}

} // verus!
