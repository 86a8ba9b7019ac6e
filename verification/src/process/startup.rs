//! What the capture process decides before and while it runs.
use super::universe::{index, listing};
use crate::calendar::Date;
use crate::order::NameMap;
use crate::paths::{join, path_join};
use crate::text::lowercase;
use crate::types::Instrument;
use vstd::prelude::*;
use vstd::string::*;

verus! {

/// How long a fetch of the listing may take; a hung one would hold up shutdown.
pub const EXCHANGE_INFO_TIMEOUT_SECS: u64 = 30;

/// How often the process looks whether a dump is due.
pub const MAIN_TICK_SECS: u64 = 60;

/// The venue lists an instrument of that lowercased id.
pub open spec fn lists(instruments: Seq<Instrument>, id: Seq<char>) -> bool {
    exists|i: int|
        0 <= i < instruments.len() && lowercase((#[trigger] instruments[i]).id.value@) == id
}

proof fn lemma_listing(list: Seq<Instrument>, id: Seq<char>)
    ensures
        listing(list).dom().contains(id) == lists(list, id),
    decreases list.len(),
{
    if list.len() > 0 {
        let d = list.drop_last();
        lemma_listing(d, id);
        if lists(d, id) {
            let i = choose|i: int|
                0 <= i < d.len() && lowercase((#[trigger] d[i]).id.value@) == id;
            assert(list[i] == d[i]);
        }
        if lists(list, id) {
            let i = choose|i: int|
                0 <= i < list.len() && lowercase((#[trigger] list[i]).id.value@) == id;
            if i < d.len() {
                assert(d[i] == list[i]);
            }
        }
        if lowercase(list.last().id.value@) == id {
            assert(list[list.len() - 1] == list.last());
        }
    }
}

/// The configured instruments that the venue does not list.
pub open spec fn unlisted(configured: Seq<String>, instruments: Seq<Instrument>) -> Seq<String> {
    configured.filter(|id: String| !lists(instruments, id@))
}

/// The configured instruments that the venue does not list. A venue
/// acknowledges a subscription to a misspelt symbol and then sends nothing, so
/// these stop the process.
pub fn unknown_instruments(configured: &Vec<String>, instruments: Vec<Instrument>) -> (r: Vec<
    String,
>)
    ensures
        r@ == configured@.filter(|id: String| !lists(instruments@, id@)),
        r@ == unlisted(configured@, instruments@),
{
    let ghost all = instruments@;
    let ghost keep = |id: String| !lists(all, id@);
    let known: NameMap<Instrument> = index(instruments);
    let mut r: Vec<String> = Vec::new();
    let mut i: usize = 0;
    proof {
        reveal(Seq::filter);
    }
    while i < configured.len()
        invariant
            i <= configured@.len(),
            known.wf(),
            known.as_map() == listing(all),
            keep == (|id: String| !lists(all, id@)),
            r@ == configured@.take(i as int).filter(keep),
        decreases configured@.len() - i,
    {
        proof {
            reveal(Seq::filter);
            let t = configured@.take(i + 1);
            assert(t.drop_last() =~= configured@.take(i as int));
            assert(t.last() == configured@[i as int]);
            lemma_listing(all, configured@[i as int]@);
        }
        if !known.contains(configured[i].as_str()) {
            r.push(configured[i].clone());
        }
        i = i + 1;
    }
    assert(configured@.take(configured@.len() as int) =~= configured@);
    r
}

/// No listing was dumped today.
pub open spec fn undumped(last: Option<Date>, today: Date) -> bool {
    last != Some(today)
}

/// Whether the listing is still to be dumped today: once a day, and again after
/// a failure.
pub fn dump_due(last: &Option<Date>, today: &Date) -> (r: bool)
    ensures
        r == (*last != Some(*today)),
        r == undumped(*last, *today),
{
    match last {
        Some(d) => *d != *today,
        None => true,
    }
}

/// Where the listing of a day is dumped.
pub fn dump_path(meta_dir: &str, venue: &str, date: &Date) -> (r: String)
    requires
        date.wf(),
    ensures
        r@ == path_join(path_join(meta_dir@, venue@), date.text() + "-exchangeInfo.json"@),
{
    let dir: String = join(meta_dir, venue);
    join(dir.as_str(), date.to_text().concat("-exchangeInfo.json").as_str())
}

} // verus!
