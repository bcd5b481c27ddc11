//! Enrichers: resolve a callsign into route, schedule and delay.
//!
//! Raw ADS-B carries none of this, so each provider asks an external flight-info API. A
//! [`CompositeEnricher`] combines the answers of several (e.g. route from adsbdb, delay from
//! AeroDataBox), and a [`CachingEnricher`] remembers answers for a while, to respect rate limits
//! and free-tier quotas.
pub mod adsbdb;
pub mod aerodatabox;

pub use adsbdb::AdsbdbRoute;
pub use aerodatabox::AeroDataBoxStatus;

use crate::model::FlightInfo;
use vstd::hash_map::StringHashMap;
use vstd::prelude::*;
use vstd::string::*;

verus! {

/// What to do with the answer to a lookup, by its HTTP status.
#[derive(Debug, Clone, Copy, PartialEq, Eq, Structural)]
pub enum Reply {
    /// Nothing is known for the callsign.
    Unknown,
    /// The lookup failed.
    Failed,
    /// The body holds the answer.
    Decode,
}

/// What to do with the answer to a lookup: a 404 says that the callsign is not known, and is not
/// an error; any other client or server error is one.
pub fn reply_to_status(status: u16) -> (r: Reply)
    ensures
        r == Reply::Unknown <==> status == 404,
        r == Reply::Failed <==> status != 404 && 400 <= status < 600,
        r == Reply::Decode <==> !(400 <= status < 600),
{
    if status == 404 {
        Reply::Unknown
    } else if 400 <= status && status < 600 {
        Reply::Failed
    } else {
        Reply::Decode
    }
}

/// What came of a lookup. `Unknown` is an answer; `Failed` is a transport or parse failure.
#[derive(Debug)]
pub enum Outcome {
    Found(FlightInfo),
    Unknown,
    Failed,
}

/// A flight-info API that can be asked.
#[derive(Debug)]
pub enum Provider {
    Adsbdb(AdsbdbRoute),
    AeroDataBox(AeroDataBoxStatus),
}

/// Several providers, whose answers are merged into a single [`FlightInfo`].
///
/// Earlier providers take precedence for overlapping fields (see [`FlightInfo::merge`]). A
/// provider that fails is skipped rather than failing the whole lookup.
#[derive(Debug)]
pub struct CompositeEnricher {
    pub enrichers: Vec<Provider>,
}

/// All that the outcomes found, merged in order.
pub open spec fn merged_outcomes(outcomes: Seq<Outcome>) -> FlightInfo
    decreases outcomes.len(),
{
    if outcomes.len() == 0 {
        FlightInfo::nothing()
    } else {
        match outcomes.last() {
            Outcome::Found(info) => FlightInfo::merged(
                merged_outcomes(outcomes.drop_last()),
                info,
            ),
            _ => merged_outcomes(outcomes.drop_last()),
        }
    }
}

/// The answer of several providers: all that they found, unless that is nothing.
pub open spec fn combined(outcomes: Seq<Outcome>) -> Option<FlightInfo> {
    FlightInfo::useful(merged_outcomes(outcomes))
}

impl CompositeEnricher {
    pub fn new(enrichers: Vec<Provider>) -> (r: Self)
        ensures
            r.enrichers == enrichers,
    {
        CompositeEnricher { enrichers }
    }

    pub fn is_empty(&self) -> (r: bool)
        ensures
            r == (self.enrichers@.len() == 0),
    {
        self.enrichers.len() == 0
    }

    /// The answer for a callsign, given what came of asking each provider in turn.
    pub fn enrich(outcomes: Vec<Outcome>) -> (r: Option<FlightInfo>)
        ensures
            r == combined(outcomes@),
    {
        let ghost all = outcomes@;
        let mut merged: Option<FlightInfo> = None;
        for outcome in it: outcomes
            invariant
                it.seq() == all,
                merged_outcomes(all.take(it.index())) == match merged {
                    Some(info) => info,
                    None => FlightInfo::nothing(),
                },
        {
            proof {
                let n = it.index();
                assert(all.take(n + 1).drop_last() =~= all.take(n));
                assert(all.take(n + 1).last() == outcome);
            }
            if let Outcome::Found(info) = outcome {
                merged = match merged {
                    Some(mut acc) => {
                        acc.merge(info);
                        Some(acc)
                    },
                    None => Some(info),
                };
            }
        }
        proof {
            assert(all.take(all.len() as int) =~= all);
        }
        match merged {
            Some(info) => info.unless_empty(),
            None => None,
        }
    }
}

/// A cache of answers, by callsign: when each was stored, in nanoseconds, and what it was.
pub type CacheView = Map<Seq<char>, (u128, Option<FlightInfo>)>;

/// Nanoseconds from one reading of a clock to another. They never count backwards.
pub open spec fn elapsed(from: u128, to: u128) -> int {
    if to >= from {
        to - from
    } else {
        0
    }
}

/// The answer that a cache has for a callsign, if it has one that is younger than `ttl_nanos`.
pub open spec fn cached(cache: CacheView, ttl_nanos: u128, callsign: Seq<char>, now: u128) -> Option<
    Option<FlightInfo>,
> {
    if cache.contains_key(callsign) && elapsed(cache[callsign].0, now) < ttl_nanos {
        Some(cache[callsign].1)
    } else {
        None
    }
}

/// A cache after a lookup. A failure leaves no trace.
pub open spec fn stored(cache: CacheView, callsign: Seq<char>, now: u128, outcome: Outcome) -> CacheView {
    match outcome {
        Outcome::Found(info) => cache.insert(callsign, (now, Some(info))),
        Outcome::Unknown => cache.insert(callsign, (now, None)),
        Outcome::Failed => cache,
    }
}

/// An enricher with a cache in front of it, keyed by callsign, whose entries age.
pub struct CachingEnricher<E> {
    pub inner: E,
    pub ttl_nanos: u128,
    pub cache: StringHashMap<(u128, Option<FlightInfo>)>,
}

impl<E> CachingEnricher<E> {
    /// What the cache holds.
    pub open spec fn contents(self) -> CacheView {
        self.cache@
    }

    pub fn new(inner: E, ttl_nanos: u128) -> (r: Self)
        ensures
            r.inner == inner,
            r.ttl_nanos == ttl_nanos,
            r.contents() == CacheView::empty(),
    {
        CachingEnricher { inner, ttl_nanos, cache: StringHashMap::new() }
    }

    /// The cached answer for a callsign, if there is one that has not expired.
    pub fn lookup(&self, callsign: &str, now: u128) -> (r: Option<Option<FlightInfo>>)
        ensures
            r == cached(self.contents(), self.ttl_nanos, callsign@, now),
            r is Some <==> self.contents().contains_key(callsign@) && 0 < self.ttl_nanos && now
                < self.contents()[callsign@].0 + self.ttl_nanos,
            r is Some ==> r == Some(self.contents()[callsign@].1),
    {
        if let Some((at, info)) = self.cache.get(callsign) {
            let age: u128 = if now >= *at {
                now - *at
            } else {
                0
            };
            if age < self.ttl_nanos {
                return Some(
                    match info {
                        Some(i) => Some(i.clone()),
                        None => None,
                    },
                );
            }
        }
        None
    }

    /// Keep what came of a lookup, unless it failed.
    pub fn store(&mut self, callsign: &str, now: u128, outcome: &Outcome)
        ensures
            final(self).inner == old(self).inner,
            final(self).ttl_nanos == old(self).ttl_nanos,
            final(self).contents() == stored(old(self).contents(), callsign@, now, *outcome),
    {
        match outcome {
            Outcome::Found(info) => {
                self.cache.insert(String::from_str(callsign), (now, Some(info.clone())));
            },
            Outcome::Unknown => {
                self.cache.insert(String::from_str(callsign), (now, None));
            },
            Outcome::Failed => {},
        }
    }
}

impl CachingEnricher<CompositeEnricher> {
    /// The answer for a callsign that the cache has none for, given what came of asking each
    /// provider in turn. It is kept, also when nothing was found.
    pub fn enrich(&mut self, callsign: &str, now: u128, outcomes: Vec<Outcome>) -> (r: Option<
        FlightInfo,
    >)
        ensures
            r == combined(outcomes@),
            final(self).inner == old(self).inner,
            final(self).ttl_nanos == old(self).ttl_nanos,
            final(self).contents() == old(self).contents().insert(callsign@, (now, r)),
    {
        match CompositeEnricher::enrich(outcomes) {
            Some(info) => {
                let answer = info.clone();
                self.store(callsign, now, &Outcome::Found(info));
                Some(answer)
            },
            None => {
                self.store(callsign, now, &Outcome::Unknown);
                None
            },
        }
    }
}

/// What was stored for a callsign is what the cache answers until the entry expires, and the
/// answers for other callsigns stay as they were.
pub proof fn law_cache_answers_what_was_stored(
    cache: CacheView,
    ttl_nanos: u128,
    callsign: Seq<char>,
    other: Seq<char>,
    at: u128,
    now: u128,
    outcome: Outcome,
)
    ensures
        elapsed(at, now) < ttl_nanos ==> (outcome matches Outcome::Found(info) ==> cached(
            stored(cache, callsign, at, outcome),
            ttl_nanos,
            callsign,
            now,
        ) == Some(Some(info))),
        elapsed(at, now) < ttl_nanos ==> (outcome is Unknown ==> cached(
            stored(cache, callsign, at, outcome),
            ttl_nanos,
            callsign,
            now,
        ) == Some(None::<FlightInfo>)),
        other != callsign ==> cached(
            stored(cache, callsign, at, outcome),
            ttl_nanos,
            other,
            now,
        ) == cached(cache, ttl_nanos, other, now),
{
}

/// Once the lifetime of an entry is over, the cache has no answer.
pub proof fn law_cache_entries_expire(
    cache: CacheView,
    ttl_nanos: u128,
    callsign: Seq<char>,
    at: u128,
    now: u128,
    outcome: Outcome,
)
    requires
        outcome !is Failed,
        elapsed(at, now) >= ttl_nanos,
    ensures
        cached(stored(cache, callsign, at, outcome), ttl_nanos, callsign, now) is None,
{
}

/// A failed lookup is not remembered.
pub proof fn law_failures_are_not_cached(
    cache: CacheView,
    ttl_nanos: u128,
    callsign: Seq<char>,
    at: u128,
    now: u128,
)
    ensures
        cached(stored(cache, callsign, at, Outcome::Failed), ttl_nanos, callsign, now) == cached(
            cache,
            ttl_nanos,
            callsign,
            now,
        ),
{
}

/// What an outcome found; nothing for one that found nothing or failed.
pub open spec fn found(outcome: Outcome) -> FlightInfo {
    match outcome {
        Outcome::Found(info) => info,
        _ => FlightInfo::nothing(),
    }
}

/// A provider that fails is skipped: the answer is the same as if it had not been asked.
pub proof fn law_failures_are_skipped(outcomes: Seq<Outcome>, i: int)
    requires
        0 <= i < outcomes.len(),
        outcomes[i] is Failed,
    ensures
        combined(outcomes) == combined(outcomes.remove(i)),
{
    lemma_skipped(outcomes, i);
}

proof fn lemma_skipped(outcomes: Seq<Outcome>, i: int)
    requires
        0 <= i < outcomes.len(),
        outcomes[i] is Failed,
    ensures
        merged_outcomes(outcomes) == merged_outcomes(outcomes.remove(i)),
    decreases outcomes.len(),
{
    if i == outcomes.len() - 1 {
        assert(outcomes.remove(i) =~= outcomes.drop_last());
    } else {
        lemma_skipped(outcomes.drop_last(), i);
        assert(outcomes.remove(i).drop_last() =~= outcomes.drop_last().remove(i));
        assert(outcomes.remove(i).last() == outcomes.last());
    }
}

/// Earlier providers take precedence: each field of the answer is that of the first provider
/// that found it.
pub proof fn law_earlier_providers_take_precedence(outcomes: Seq<Outcome>, i: int)
    requires
        0 <= i < outcomes.len(),
    ensures
        found(outcomes[i]).origin is Some && (forall|k: int|
            0 <= k < i ==> found(#[trigger] outcomes[k]).origin is None) ==> merged_outcomes(
            outcomes,
        ).origin == found(outcomes[i]).origin,
        found(outcomes[i]).destination is Some && (forall|k: int|
            0 <= k < i ==> found(#[trigger] outcomes[k]).destination is None) ==> merged_outcomes(
            outcomes,
        ).destination == found(outcomes[i]).destination,
        found(outcomes[i]).scheduled_departure is Some && (forall|k: int|
            0 <= k < i ==> found(#[trigger] outcomes[k]).scheduled_departure is None)
            ==> merged_outcomes(outcomes).scheduled_departure == found(
            outcomes[i],
        ).scheduled_departure,
        found(outcomes[i]).scheduled_arrival is Some && (forall|k: int|
            0 <= k < i ==> found(#[trigger] outcomes[k]).scheduled_arrival is None)
            ==> merged_outcomes(outcomes).scheduled_arrival == found(outcomes[i]).scheduled_arrival,
        found(outcomes[i]).estimated_arrival is Some && (forall|k: int|
            0 <= k < i ==> found(#[trigger] outcomes[k]).estimated_arrival is None)
            ==> merged_outcomes(outcomes).estimated_arrival == found(outcomes[i]).estimated_arrival,
        found(outcomes[i]).actual_departure is Some && (forall|k: int|
            0 <= k < i ==> found(#[trigger] outcomes[k]).actual_departure is None)
            ==> merged_outcomes(outcomes).actual_departure == found(outcomes[i]).actual_departure,
        found(outcomes[i]).delay_minutes is Some && (forall|k: int|
            0 <= k < i ==> found(#[trigger] outcomes[k]).delay_minutes is None) ==> merged_outcomes(
            outcomes,
        ).delay_minutes == found(outcomes[i]).delay_minutes,
    decreases outcomes.len(),
{
    let rest = outcomes.drop_last();
    if i == outcomes.len() - 1 {
        assert(forall|k: int| 0 <= k < rest.len() ==> rest[k] == outcomes[k]);
        law_fields_not_found_are_absent(rest);
    } else {
        assert(rest[i] == outcomes[i]);
        assert(forall|k: int| 0 <= k < i ==> rest[k] == outcomes[k]);
        law_earlier_providers_take_precedence(rest, i);
    }
}

/// A field that no provider found is absent from the answer.
pub proof fn law_fields_not_found_are_absent(outcomes: Seq<Outcome>)
    ensures
        (forall|k: int| 0 <= k < outcomes.len() ==> found(#[trigger] outcomes[k]).origin is None)
            ==> merged_outcomes(outcomes).origin is None,
        (forall|k: int| 0 <= k < outcomes.len() ==> found(#[trigger] outcomes[k]).destination is None)
            ==> merged_outcomes(outcomes).destination is None,
        (forall|k: int|
            0 <= k < outcomes.len() ==> found(#[trigger] outcomes[k]).scheduled_departure is None)
            ==> merged_outcomes(outcomes).scheduled_departure is None,
        (forall|k: int|
            0 <= k < outcomes.len() ==> found(#[trigger] outcomes[k]).scheduled_arrival is None)
            ==> merged_outcomes(outcomes).scheduled_arrival is None,
        (forall|k: int|
            0 <= k < outcomes.len() ==> found(#[trigger] outcomes[k]).estimated_arrival is None)
            ==> merged_outcomes(outcomes).estimated_arrival is None,
        (forall|k: int|
            0 <= k < outcomes.len() ==> found(#[trigger] outcomes[k]).actual_departure is None)
            ==> merged_outcomes(outcomes).actual_departure is None,
        (forall|k: int|
            0 <= k < outcomes.len() ==> found(#[trigger] outcomes[k]).delay_minutes is None)
            ==> merged_outcomes(outcomes).delay_minutes is None,
    decreases outcomes.len(),
{
    if outcomes.len() > 0 {
        let rest = outcomes.drop_last();
        assert(forall|k: int| 0 <= k < rest.len() ==> rest[k] == outcomes[k]);
        assert(outcomes.last() == outcomes[outcomes.len() - 1]);
        law_fields_not_found_are_absent(rest);
    }
}

} // verus!
