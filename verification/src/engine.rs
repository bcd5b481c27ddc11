//! The core engine: filter the aircraft that a poll observed to each region, tell who entered,
//! stayed and left, and put together the [`SpottingEvent`]s that frontends subscribe to.
use crate::config::{watched_views, Config, ConfigError, ConfigErrorView};
use crate::enrich::{
    AdsbdbRoute, AeroDataBoxStatus, CacheView, CachingEnricher, CompositeEnricher, Provider,
};
use crate::geo::{Measured, WatchedRegion, WatchedRegionView};
use crate::model::{Aircraft, EventKind, FlightInfo, SpottingEvent};
use crate::source::NetworkSource;
use crate::text::trimmed_end;
use crate::time::Timestamp;
use vstd::prelude::*;
use vstd::string::*;

verus! {

/// Cache lifetime for enrichment lookups: five minutes in nanoseconds.
pub const ENRICH_TTL_NANOS: u128 = 300_000_000_000;

/// An aircraft that a poll observed, measured against the region that was polled.
#[derive(Debug)]
pub struct Observation {
    pub aircraft: Aircraft,
    pub measured: Measured,
}

/// Something that happened to an aircraft, before enrichment.
#[derive(Debug)]
pub struct PendingEvent {
    pub kind: EventKind,
    pub region: String,
    pub aircraft: Aircraft,
}

/// Whether a list has an aircraft with that address.
pub open spec fn lists(list: Seq<Aircraft>, hex: Seq<char>) -> bool {
    exists|i: int| 0 <= i < list.len() && (#[trigger] list[i]).hex@ == hex
}

/// Whether no two aircraft of a list have the same address.
pub open spec fn distinct(list: Seq<Aircraft>) -> bool {
    forall|i: int, j: int|
        0 <= i < j < list.len() ==> (#[trigger] list[i]).hex@ != (#[trigger] list[j]).hex@
}

/// A list with an aircraft added, in place of the one with its address if there is one.
pub open spec fn upserted(list: Seq<Aircraft>, a: Aircraft) -> Seq<Aircraft> {
    if lists(list, a.hex@) {
        list.map_values(
            |x: Aircraft|
                if x.hex@ == a.hex@ {
                    a
                } else {
                    x
                },
        )
    } else {
        list.push(a)
    }
}

/// Whether a region admits an observed aircraft.
pub open spec fn admits(region: WatchedRegionView, o: Observation) -> bool {
    region.admitted(o.aircraft.lat, o.aircraft.lon, o.aircraft.altitude_ft, o.measured@)
}

/// The aircraft inside a region, by address: of those that it admits, the last report of each.
pub open spec fn inside(region: WatchedRegionView, observed: Seq<Observation>) -> Seq<Aircraft>
    decreases observed.len(),
{
    if observed.len() == 0 {
        Seq::empty()
    } else if admits(region, observed.last()) {
        upserted(inside(region, observed.drop_last()), observed.last().aircraft)
    } else {
        inside(region, observed.drop_last())
    }
}

/// The event of an aircraft that is inside now: it entered, unless it was inside before.
pub open spec fn arrival(name: String, previous: Seq<Aircraft>, a: Aircraft) -> PendingEvent {
    PendingEvent {
        kind: if lists(previous, a.hex@) {
            EventKind::Updated
        } else {
            EventKind::Entered
        },
        region: name,
        aircraft: a,
    }
}

/// The events of the aircraft that are inside now.
pub open spec fn arrivals(
    name: String,
    previous: Seq<Aircraft>,
    current: Seq<Aircraft>,
) -> Seq<PendingEvent> {
    current.map_values(|a: Aircraft| arrival(name, previous, a))
}

/// The events of the aircraft that were inside before and are not any more. They show the
/// aircraft as it was last seen.
pub open spec fn departures(
    name: String,
    previous: Seq<Aircraft>,
    current: Seq<Aircraft>,
) -> Seq<PendingEvent>
    decreases previous.len(),
{
    if previous.len() == 0 {
        Seq::empty()
    } else {
        let rest = departures(name, previous.drop_last(), current);
        if lists(current, previous.last().hex@) {
            rest
        } else {
            rest.push(
                PendingEvent { kind: EventKind::Left, region: name, aircraft: previous.last() },
            )
        }
    }
}

/// What happened in a region between two polls.
pub open spec fn events_between(
    name: String,
    previous: Seq<Aircraft>,
    current: Seq<Aircraft>,
) -> Seq<PendingEvent> {
    arrivals(name, previous, current) + departures(name, previous, current)
}

/// The place of an aircraft with that address in a list, if there is one.
fn find(list: &Vec<Aircraft>, hex: &String) -> (r: Option<usize>)
    ensures
        match r {
            Some(i) => i < list@.len() && list@[i as int].hex@ == hex@,
            None => !lists(list@, hex@),
        },
{
    let mut i: usize = 0;
    while i < list.len()
        invariant
            i <= list@.len(),
            forall|k: int| 0 <= k < i ==> (#[trigger] list@[k]).hex@ != hex@,
        decreases list@.len() - i,
    {
        if list[i].hex == *hex {
            return Some(i);
        }
        i = i + 1;
    }
    None
}

/// Adds an aircraft to a list, in place of the one with its address if there is one.
fn upsert(list: &mut Vec<Aircraft>, a: Aircraft)
    requires
        distinct(old(list)@),
    ensures
        final(list)@ == upserted(old(list)@, a),
        distinct(final(list)@),
{
    match find(list, &a.hex) {
        Some(i) => {
            proof {
                assert(lists(list@, a.hex@));
            }
            list.set(i, a);
            proof {
                assert(list@ =~= upserted(old(list)@, a));
            }
        },
        None => {
            list.push(a);
        },
    }
}

/// The aircraft inside a region (see [`inside`]).
pub fn aircraft_inside(region: &WatchedRegion, observed: Vec<Observation>) -> (r: Vec<Aircraft>)
    requires
        forall|i: int|
            0 <= i < observed@.len() ==> region@.region.measured_by(
                (#[trigger] observed@[i]).measured@,
            ),
    ensures
        r@ == inside(region@, observed@),
        distinct(r@),
{
    let ghost all = observed@;
    let mut current: Vec<Aircraft> = Vec::new();
    proof {
        assert(all.take(0) =~= Seq::empty());
    }
    for o in it: observed
        invariant
            it.seq() == all,
            forall|i: int|
                0 <= i < all.len() ==> region@.region.measured_by((#[trigger] all[i]).measured@),
            current@ == inside(region@, all.take(it.index())),
            distinct(current@),
    {
        proof {
            let n = it.index();
            assert(all[n] == o);
            assert(all.take(n + 1).drop_last() =~= all.take(n));
            assert(all.take(n + 1).last() == o);
        }
        if region.admits(o.aircraft.lat, o.aircraft.lon, o.aircraft.altitude_ft, &o.measured) {
            upsert(&mut current, o.aircraft);
        }
    }
    proof {
        assert(all.take(all.len() as int) =~= all);
    }
    current
}

/// What happened in a region between two polls (see [`events_between`]).
pub fn events(name: &String, previous: &Vec<Aircraft>, current: &Vec<Aircraft>) -> (r: Vec<
    PendingEvent,
>)
    ensures
        r@ == events_between(*name, previous@, current@),
{
    let mut out: Vec<PendingEvent> = Vec::new();
    let mut i: usize = 0;
    while i < current.len()
        invariant
            i <= current@.len(),
            out@ == arrivals(*name, previous@, current@).take(i as int),
        decreases current@.len() - i,
    {
        let kind = match find(previous, &current[i].hex) {
            Some(k) => {
                proof {
                    assert(previous@[k as int].hex@ == current@[i as int].hex@);
                }
                EventKind::Updated
            },
            None => EventKind::Entered,
        };
        out.push(PendingEvent { kind, region: name.clone(), aircraft: current[i].clone() });
        proof {
            assert(out@ =~= arrivals(*name, previous@, current@).take(i + 1));
        }
        i = i + 1;
    }
    proof {
        assert(out@ =~= arrivals(*name, previous@, current@));
        assert(previous@.take(0) =~= Seq::empty());
    }
    let mut j: usize = 0;
    while j < previous.len()
        invariant
            j <= previous@.len(),
            out@ == arrivals(*name, previous@, current@) + departures(
                *name,
                previous@.take(j as int),
                current@,
            ),
        decreases previous@.len() - j,
    {
        proof {
            assert(previous@.take(j + 1).drop_last() =~= previous@.take(j as int));
            assert(previous@.take(j + 1).last() == previous@[j as int]);
        }
        match find(current, &previous[j].hex) {
            Some(k) => {
                proof {
                    assert(current@[k as int].hex@ == previous@[j as int].hex@);
                }
            },
            None => {
                out.push(
                    PendingEvent {
                        kind: EventKind::Left,
                        region: name.clone(),
                        aircraft: previous[j].clone(),
                    },
                );
            },
        }
        j = j + 1;
    }
    proof {
        assert(previous@.take(j as int) =~= previous@);
    }
    out
}

impl PendingEvent {
    /// The callsign to look up before the event goes out: that of an aircraft that entered.
    pub open spec fn lookup_of(self) -> Option<String> {
        if self.kind == EventKind::Entered {
            self.aircraft.callsign
        } else {
            None
        }
    }

    /// The callsign to look up before the event goes out, if there is one.
    pub fn lookup(&self) -> (r: Option<String>)
        ensures
            r == self.lookup_of(),
            self.kind == EventKind::Entered ==> r == self.aircraft.callsign,
            self.kind != EventKind::Entered ==> r is None,
    {
        match (self.kind, &self.aircraft.callsign) {
            (EventKind::Entered, Some(callsign)) => Some(callsign.clone()),
            _ => None,
        }
    }

    /// The event as it goes out. What a lookup found belongs to an aircraft that entered with a
    /// callsign; any other event carries none.
    pub fn emit(self, found: Option<FlightInfo>, observed_at: Timestamp) -> (r: SpottingEvent)
        ensures
            r == (SpottingEvent {
                kind: self.kind,
                region: self.region,
                aircraft: self.aircraft,
                flight_info: if self.lookup_of() is Some {
                    found
                } else {
                    None
                },
                observed_at,
            }),
            self.kind == EventKind::Entered && self.aircraft.callsign is Some ==> r.flight_info
                == found,
            self.kind != EventKind::Entered || self.aircraft.callsign is None
                ==> r.flight_info is None,
    {
        let flight_info = match self.lookup() {
            Some(_) => found,
            None => None,
        };
        SpottingEvent {
            kind: self.kind,
            region: self.region,
            aircraft: self.aircraft,
            flight_info,
            observed_at,
        }
    }
}

/// The engine: what it watches, whom it asks, and who is inside.
pub struct Engine {
    pub source: NetworkSource,
    pub enricher: CachingEnricher<CompositeEnricher>,
    pub regions: Vec<WatchedRegion>,
    pub poll_interval_secs: u64,
    /// For each region the aircraft currently inside, with their last-seen state.
    pub present: Vec<Vec<Aircraft>>,
}

/// Whether a list of providers is the one that the configuration asks for.
pub open spec fn providers_of(config: Config, providers: Seq<Provider>) -> bool {
    let route: int = if config.enrich.adsbdb {
        1
    } else {
        0
    };
    let status: int = if config.enrich.aerodatabox_key is Some {
        1
    } else {
        0
    };
    &&& providers.len() == route + status
    &&& config.enrich.adsbdb ==> (providers[0] matches Provider::Adsbdb(p) && p.base_url@
        == "https://api.adsbdb.com/v0"@)
    &&& config.enrich.aerodatabox_key matches Some(key) ==> (
    providers[route] matches Provider::AeroDataBox(p) && p.api_key == key && p.host
        == config.enrich.aerodatabox_host)
}

impl Engine {
    /// Whether there is a list of aircraft for each region, without two of one address.
    pub open spec fn wf(self) -> bool {
        &&& self.present@.len() == self.regions@.len()
        &&& forall|i: int| 0 <= i < self.present@.len() ==> distinct((#[trigger] self.present@[i])@)
    }

    /// Why a configuration gives no engine, if it gives none.
    pub open spec fn config_error(config: Config) -> Option<ConfigErrorView> {
        if config.source.kind@ != "network"@ {
            Some(ConfigErrorView::UnknownSource { kind: config.source.kind@ })
        } else {
            match config.resolved_regions() {
                Ok(_) => None,
                Err(e) => Some(e),
            }
        }
    }

    /// Build an engine from config, with the configured source and enrichers.
    pub fn from_config(config: &Config) -> (r: Result<Self, ConfigError>)
        ensures
            match r {
                Ok(engine) => {
                    &&& Engine::config_error(*config) is None
                    &&& engine.wf()
                    &&& engine.source.base_url@ == trimmed_end(config.source.base_url@, '/')
                    &&& providers_of(*config, engine.enricher.inner.enrichers@)
                    &&& engine.enricher.ttl_nanos == ENRICH_TTL_NANOS
                    &&& engine.enricher.ttl_nanos == 5 * 60 * 1_000_000_000
                    &&& engine.enricher.contents() == CacheView::empty()
                    &&& config.resolved_regions() is Ok
                    &&& watched_views(engine.regions@) == config.resolved_regions()->Ok_0
                    &&& engine.poll_interval_secs == config.poll_interval_secs
                    &&& forall|i: int|
                        0 <= i < engine.present@.len() ==> (#[trigger] engine.present@[i])@.len()
                            == 0
                },
                Err(e) => Engine::config_error(*config) == Some(e@),
            },
    {
        if config.source.kind != String::from_str("network") {
            return Err(ConfigError::UnknownSource { kind: config.source.kind.clone() });
        }
        let source = NetworkSource::new(config.source.base_url.as_str());
        let mut enrichers: Vec<Provider> = Vec::new();
        if config.enrich.adsbdb {
            enrichers.push(Provider::Adsbdb(AdsbdbRoute::new()));
        }
        if let Some(key) = &config.enrich.aerodatabox_key {
            enrichers.push(
                Provider::AeroDataBox(
                    AeroDataBoxStatus::new(key.clone(), config.enrich.aerodatabox_host.clone()),
                ),
            );
        }
        let enricher = CachingEnricher::new(CompositeEnricher::new(enrichers), ENRICH_TTL_NANOS);
        let regions = match config.resolve_regions() {
            Ok(regions) => regions,
            Err(e) => {
                return Err(e);
            },
        };
        let mut present: Vec<Vec<Aircraft>> = Vec::new();
        while present.len() < regions.len()
            invariant
                present@.len() <= regions@.len(),
                forall|i: int| 0 <= i < present@.len() ==> (#[trigger] present@[i])@.len() == 0,
            decreases regions@.len() - present@.len(),
        {
            present.push(Vec::new());
        }
        Ok(
            Engine {
                source,
                enricher,
                regions,
                poll_interval_secs: config.poll_interval_secs,
                present,
            },
        )
    }

    /// Take in what a poll of a region observed, or that the poll failed (`None`): tells what
    /// happened in the region, and keeps who is inside. A failed poll changes nothing.
    pub fn poll_region(&mut self, idx: usize, observed: Option<Vec<Observation>>) -> (r: Vec<
        PendingEvent,
    >)
        requires
            old(self).wf(),
            idx < old(self).regions@.len(),
            observed matches Some(list) ==> forall|i: int|
                0 <= i < list@.len() ==> old(self).regions@[idx as int]@.region.measured_by(
                    (#[trigger] list@[i]).measured@,
                ),
        ensures
            final(self).wf(),
            final(self).source == old(self).source,
            final(self).enricher == old(self).enricher,
            final(self).regions == old(self).regions,
            final(self).poll_interval_secs == old(self).poll_interval_secs,
            forall|i: int|
                0 <= i < old(self).present@.len() && i != idx ==> #[trigger] final(self).present@[i]
                    == old(self).present@[i],
            match observed {
                Some(list) => {
                    &&& final(self).present@[idx as int]@ == inside(
                        old(self).regions@[idx as int]@,
                        list@,
                    )
                    &&& r@ == events_between(
                        old(self).regions@[idx as int].name,
                        old(self).present@[idx as int]@,
                        final(self).present@[idx as int]@,
                    )
                },
                None => {
                    &&& final(self).present == old(self).present
                    &&& r@.len() == 0
                },
            },
    {
        match observed {
            Some(list) => {
                let current = aircraft_inside(&self.regions[idx], list);
                let r = events(&self.regions[idx].name, &self.present[idx], &current);
                self.present.set(idx, current);
                r
            },
            None => Vec::new(),
        }
    }
}

/// An aircraft is inside a region if and only if the region admits a report of it.
pub proof fn law_inside_are_the_admitted(
    region: WatchedRegionView,
    observed: Seq<Observation>,
    hex: Seq<char>,
)
    ensures
        lists(inside(region, observed), hex) <==> exists|i: int|
            0 <= i < observed.len() && admits(region, #[trigger] observed[i])
                && observed[i].aircraft.hex@ == hex,
    decreases observed.len(),
{
    if observed.len() > 0 {
        let rest = observed.drop_last();
        let before = inside(region, rest);
        law_inside_are_the_admitted(region, rest, hex);
        if exists|i: int|
            0 <= i < rest.len() && admits(region, #[trigger] rest[i]) && rest[i].aircraft.hex@
                == hex {
            let i = choose|i: int|
                0 <= i < rest.len() && admits(region, #[trigger] rest[i]) && rest[i].aircraft.hex@
                    == hex;
            assert(observed[i] == rest[i]);
        }
        if admits(region, observed.last()) {
            lemma_upserted_lists(before, observed.last().aircraft, hex);
        }
        if lists(inside(region, observed), hex) && !lists(before, hex) {
            assert(admits(region, observed[observed.len() - 1]));
        }
        if exists|i: int|
            0 <= i < observed.len() && admits(region, #[trigger] observed[i])
                && observed[i].aircraft.hex@ == hex {
            let i = choose|i: int|
                0 <= i < observed.len() && admits(region, #[trigger] observed[i])
                    && observed[i].aircraft.hex@ == hex;
            if i < rest.len() {
                assert(rest[i] == observed[i]);
            }
        }
    }
}

proof fn lemma_upserted_lists(list: Seq<Aircraft>, a: Aircraft, hex: Seq<char>)
    ensures
        lists(upserted(list, a), hex) <==> lists(list, hex) || hex == a.hex@,
        upserted(list, a).contains(a),
        forall|x: Aircraft|
            #![trigger upserted(list, a).contains(x)]
            list.contains(x) && x.hex@ != a.hex@ ==> upserted(list, a).contains(x),
{
    let new = upserted(list, a);
    if lists(list, a.hex@) {
        let k = choose|k: int| 0 <= k < list.len() && (#[trigger] list[k]).hex@ == a.hex@;
        assert(new[k] == a);
    } else {
        assert(new[list.len() as int] == a);
    }
    if lists(list, hex) {
        let k = choose|k: int| 0 <= k < list.len() && (#[trigger] list[k]).hex@ == hex;
        assert(new[k].hex@ == hex);
    }
    if lists(new, hex) && hex != a.hex@ {
        let k = choose|k: int| 0 <= k < new.len() && (#[trigger] new[k]).hex@ == hex;
        assert(list[k].hex@ == hex);
    }
    assert forall|x: Aircraft| list.contains(x) && x.hex@ != a.hex@ implies #[trigger] new.contains(
        x,
    ) by {
        let k = choose|k: int| 0 <= k < list.len() && list[k] == x;
        assert(new[k] == x);
    }
}

/// Of several reports of one aircraft in a poll, the last that the region admits is kept.
pub proof fn law_last_report_is_kept(region: WatchedRegionView, observed: Seq<Observation>, i: int)
    requires
        0 <= i < observed.len(),
        admits(region, observed[i]),
        forall|k: int|
            i < k < observed.len() && admits(region, #[trigger] observed[k])
                ==> observed[k].aircraft.hex@ != observed[i].aircraft.hex@,
    ensures
        inside(region, observed).contains(observed[i].aircraft),
    decreases observed.len(),
{
    let rest = observed.drop_last();
    let last = observed.last();
    if i == rest.len() {
        lemma_upserted_lists(inside(region, rest), last.aircraft, last.aircraft.hex@);
    } else {
        assert forall|k: int| i < k < rest.len() && admits(region, #[trigger] rest[k]) implies
            rest[k].aircraft.hex@ != rest[i].aircraft.hex@ by {
            assert(rest[k] == observed[k]);
        }
        law_last_report_is_kept(region, rest, i);
        if admits(region, last) {
            assert(observed[observed.len() - 1] == last);
            lemma_upserted_lists(inside(region, rest), last.aircraft, last.aircraft.hex@);
        }
    }
}

/// Whether an aircraft is inside after some events, for a listener who knows whether it was
/// inside before them.
pub open spec fn inside_after(before: bool, events: Seq<PendingEvent>, hex: Seq<char>) -> bool
    decreases events.len(),
{
    if events.len() == 0 {
        before
    } else if events.last().aircraft.hex@ == hex {
        events.last().kind != EventKind::Left
    } else {
        inside_after(before, events.drop_last(), hex)
    }
}

/// A listener who follows the events knows of every aircraft whether it is inside.
pub proof fn law_events_tell_who_is_inside(
    name: String,
    previous: Seq<Aircraft>,
    current: Seq<Aircraft>,
    hex: Seq<char>,
)
    ensures
        inside_after(lists(previous, hex), events_between(name, previous, current), hex) == lists(
            current,
            hex,
        ),
{
    let before = lists(previous, hex);
    lemma_inside_after_arrivals(before, name, previous, current, hex);
    let between = before || lists(current, hex);
    lemma_inside_after_departures(between, name, previous, current, hex);
    lemma_inside_after_both(
        before,
        arrivals(name, previous, current),
        departures(name, previous, current),
        hex,
    );
}

/// The aircraft inside a region after several polls, each with the aircraft that it found inside, or
/// `None` where it failed.
pub open spec fn inside_after_polls(polls: Seq<Option<Seq<Aircraft>>>) -> Seq<Aircraft>
    decreases polls.len(),
{
    if polls.len() == 0 {
        Seq::empty()
    } else {
        match polls.last() {
            Some(current) => current,
            None => inside_after_polls(polls.drop_last()),
        }
    }
}

/// What happened in a region over several polls, from before the first. Nothing comes of a poll that
/// failed.
pub open spec fn history(name: String, polls: Seq<Option<Seq<Aircraft>>>) -> Seq<PendingEvent>
    decreases polls.len(),
{
    if polls.len() == 0 {
        Seq::empty()
    } else {
        let rest = polls.drop_last();
        match polls.last() {
            Some(current) => history(name, rest) + events_between(
                name,
                inside_after_polls(rest),
                current,
            ),
            None => history(name, rest),
        }
    }
}

/// A listener who follows the events from the start knows after any number of polls who is inside.
pub proof fn law_history_tells_who_is_inside(
    name: String,
    polls: Seq<Option<Seq<Aircraft>>>,
    hex: Seq<char>,
)
    ensures
        inside_after(false, history(name, polls), hex) == lists(inside_after_polls(polls), hex),
    decreases polls.len(),
{
    if polls.len() > 0 {
        let rest = polls.drop_last();
        law_history_tells_who_is_inside(name, rest, hex);
        if let Some(current) = polls.last() {
            let previous = inside_after_polls(rest);
            law_events_tell_who_is_inside(name, previous, current, hex);
            lemma_inside_after_both(
                false,
                history(name, rest),
                events_between(name, previous, current),
                hex,
            );
        }
    }
}

/// What happened to one aircraft, in order.
pub open spec fn kinds_of(events: Seq<PendingEvent>, hex: Seq<char>) -> Seq<EventKind>
    decreases events.len(),
{
    if events.len() == 0 {
        Seq::empty()
    } else if events.last().aircraft.hex@ == hex {
        kinds_of(events.drop_last(), hex).push(events.last().kind)
    } else {
        kinds_of(events.drop_last(), hex)
    }
}

/// Whether a place is the first, or the one after a `Left`.
pub open spec fn starts_run(kinds: Seq<EventKind>, i: int) -> bool {
    i == 0 || kinds[i - 1] == EventKind::Left
}

/// Whether an aircraft enters exactly at the start and after it left: its kinds form runs of one
/// `Entered`, any number of `Updated` and one `Left`, which the last run may lack.
pub open spec fn in_runs(kinds: Seq<EventKind>) -> bool {
    forall|i: int|
        0 <= i < kinds.len() ==> (kinds[i] == EventKind::Entered <==> #[trigger] starts_run(
            kinds,
            i,
        ))
}

proof fn lemma_next_in_runs(kinds: Seq<EventKind>, next: EventKind)
    requires
        in_runs(kinds),
        next == EventKind::Entered <==> kinds.len() == 0 || kinds.last() == EventKind::Left,
    ensures
        in_runs(kinds.push(next)),
{
    let all = kinds.push(next);
    assert forall|i: int| 0 <= i < all.len() implies (all[i] == EventKind::Entered
        <==> #[trigger] starts_run(all, i)) by {
        if i < kinds.len() {
            assert(starts_run(kinds, i) == starts_run(all, i));
        }
    }
}

/// Over any polls, some of which may fail, what happens to one aircraft forms runs of entering,
/// being updated and leaving, and it is inside exactly if something happened to it and it did not
/// leave last.
pub proof fn law_history_is_in_runs(
    name: String,
    polls: Seq<Option<Seq<Aircraft>>>,
    hex: Seq<char>,
)
    requires
        forall|i: int|
            0 <= i < polls.len() ==> (#[trigger] polls[i] matches Some(current) ==> distinct(
                current,
            )),
    ensures
        in_runs(kinds_of(history(name, polls), hex)),
        lists(inside_after_polls(polls), hex) <==> kinds_of(history(name, polls), hex).len() > 0
            && kinds_of(history(name, polls), hex).last() != EventKind::Left,
    decreases polls.len(),
{
    if polls.len() > 0 {
        let rest = polls.drop_last();
        assert forall|i: int| 0 <= i < rest.len() implies (#[trigger] rest[i] matches Some(current)
            ==> distinct(current)) by {
            assert(rest[i] == polls[i]);
        }
        law_history_is_in_runs(name, rest, hex);
        assert(polls[polls.len() - 1] == polls.last());
        if let Some(current) = polls.last() {
            let previous = inside_after_polls(rest);
            lemma_inside_after_polls_distinct(rest);
            law_kind_of_one_poll(name, previous, current, hex);
            lemma_kinds_of_both(history(name, rest), events_between(name, previous, current), hex);
            let before = kinds_of(history(name, rest), hex);
            let more = kinds_of(events_between(name, previous, current), hex);
            if more.len() == 0 {
                assert(before + more =~= before);
            } else {
                assert(before + more =~= before.push(more[0]));
                lemma_next_in_runs(before, more[0]);
            }
        }
    }
}

proof fn lemma_inside_after_polls_distinct(polls: Seq<Option<Seq<Aircraft>>>)
    requires
        forall|i: int|
            0 <= i < polls.len() ==> (#[trigger] polls[i] matches Some(current) ==> distinct(
                current,
            )),
    ensures
        distinct(inside_after_polls(polls)),
    decreases polls.len(),
{
    if polls.len() > 0 {
        let rest = polls.drop_last();
        assert forall|i: int| 0 <= i < rest.len() implies (#[trigger] rest[i] matches Some(current)
            ==> distinct(current)) by {
            assert(rest[i] == polls[i]);
        }
        assert(polls[polls.len() - 1] == polls.last());
        lemma_inside_after_polls_distinct(rest);
    }
}

/// In one poll at most one thing happens to an aircraft: it enters if it is inside only now, it is
/// updated if it is inside before and now, it leaves if it was inside only before.
pub proof fn law_kind_of_one_poll(
    name: String,
    previous: Seq<Aircraft>,
    current: Seq<Aircraft>,
    hex: Seq<char>,
)
    requires
        distinct(previous),
        distinct(current),
    ensures
        kinds_of(events_between(name, previous, current), hex) == (if lists(current, hex) {
            if lists(previous, hex) {
                seq![EventKind::Updated]
            } else {
                seq![EventKind::Entered]
            }
        } else if lists(previous, hex) {
            seq![EventKind::Left]
        } else {
            Seq::empty()
        }),
{
    lemma_kinds_of_arrivals(name, previous, current, hex);
    lemma_kinds_of_departures(name, previous, current, hex);
    lemma_kinds_of_both(
        arrivals(name, previous, current),
        departures(name, previous, current),
        hex,
    );
    let first = kinds_of(arrivals(name, previous, current), hex);
    let second = kinds_of(departures(name, previous, current), hex);
    assert(second.len() == 0 ==> first + second =~= first);
    assert(first.len() == 0 ==> first + second =~= second);
}

proof fn lemma_kinds_of_both(first: Seq<PendingEvent>, second: Seq<PendingEvent>, hex: Seq<char>)
    ensures
        kinds_of(first + second, hex) == kinds_of(first, hex) + kinds_of(second, hex),
    decreases second.len(),
{
    if second.len() == 0 {
        assert(first + second =~= first);
        assert(kinds_of(first, hex) + kinds_of(second, hex) =~= kinds_of(first, hex));
    } else {
        assert((first + second).drop_last() =~= first + second.drop_last());
        lemma_kinds_of_both(first, second.drop_last(), hex);
        assert(kinds_of(first + second, hex) =~= kinds_of(first, hex) + kinds_of(second, hex));
    }
}

proof fn lemma_kinds_of_arrivals(
    name: String,
    previous: Seq<Aircraft>,
    current: Seq<Aircraft>,
    hex: Seq<char>,
)
    requires
        distinct(current),
    ensures
        kinds_of(arrivals(name, previous, current), hex) == (if !lists(current, hex) {
            Seq::empty()
        } else if lists(previous, hex) {
            seq![EventKind::Updated]
        } else {
            seq![EventKind::Entered]
        }),
    decreases current.len(),
{
    if current.len() > 0 {
        let rest = current.drop_last();
        assert(arrivals(name, previous, current).drop_last() =~= arrivals(name, previous, rest));
        lemma_kinds_of_arrivals(name, previous, rest, hex);
        lemma_last_is_alone(current, hex);
    }
}

proof fn lemma_kinds_of_departures(
    name: String,
    previous: Seq<Aircraft>,
    current: Seq<Aircraft>,
    hex: Seq<char>,
)
    requires
        distinct(previous),
    ensures
        kinds_of(departures(name, previous, current), hex) == (if lists(previous, hex) && !lists(
            current,
            hex,
        ) {
            seq![EventKind::Left]
        } else {
            Seq::empty()
        }),
    decreases previous.len(),
{
    if previous.len() > 0 {
        let rest = departures(name, previous.drop_last(), current);
        lemma_kinds_of_departures(name, previous.drop_last(), current, hex);
        lemma_last_is_alone(previous, hex);
        if !lists(current, previous.last().hex@) {
            assert(departures(name, previous, current).drop_last() =~= rest);
        }
    }
}

/// The last aircraft of a list without two of one address is the only one with its address.
proof fn lemma_last_is_alone(list: Seq<Aircraft>, hex: Seq<char>)
    requires
        distinct(list),
        list.len() > 0,
    ensures
        distinct(list.drop_last()),
        lists(list, hex) <==> lists(list.drop_last(), hex) || list.last().hex@ == hex,
        list.last().hex@ == hex ==> !lists(list.drop_last(), hex),
{
    lemma_lists_drop_last(list, hex);
    let rest = list.drop_last();
    if list.last().hex@ == hex && lists(rest, hex) {
        let k = choose|k: int| 0 <= k < rest.len() && (#[trigger] rest[k]).hex@ == hex;
        assert(list[k].hex@ != list[list.len() - 1].hex@);
    }
}

/// No two aircraft inside a region have the same address.
pub proof fn law_inside_is_distinct(region: WatchedRegionView, observed: Seq<Observation>)
    ensures
        distinct(inside(region, observed)),
    decreases observed.len(),
{
    if observed.len() > 0 {
        law_inside_is_distinct(region, observed.drop_last());
    }
}

proof fn lemma_inside_after_both(
    before: bool,
    first: Seq<PendingEvent>,
    second: Seq<PendingEvent>,
    hex: Seq<char>,
)
    ensures
        inside_after(before, first + second, hex) == inside_after(
            inside_after(before, first, hex),
            second,
            hex,
        ),
    decreases second.len(),
{
    if second.len() == 0 {
        assert(first + second =~= first);
    } else {
        assert((first + second).drop_last() =~= first + second.drop_last());
        lemma_inside_after_both(before, first, second.drop_last(), hex);
    }
}

proof fn lemma_inside_after_arrivals(
    before: bool,
    name: String,
    previous: Seq<Aircraft>,
    current: Seq<Aircraft>,
    hex: Seq<char>,
)
    ensures
        inside_after(before, arrivals(name, previous, current), hex) == (before || lists(
            current,
            hex,
        )),
    decreases current.len(),
{
    if current.len() > 0 {
        let rest = current.drop_last();
        assert(arrivals(name, previous, current).drop_last() =~= arrivals(name, previous, rest));
        lemma_inside_after_arrivals(before, name, previous, rest, hex);
        lemma_lists_drop_last(current, hex);
    }
}

proof fn lemma_inside_after_departures(
    before: bool,
    name: String,
    previous: Seq<Aircraft>,
    current: Seq<Aircraft>,
    hex: Seq<char>,
)
    ensures
        inside_after(before, departures(name, previous, current), hex) == (before && (lists(
            previous,
            hex,
        ) ==> lists(current, hex))),
    decreases previous.len(),
{
    if previous.len() > 0 {
        let rest = departures(name, previous.drop_last(), current);
        lemma_inside_after_departures(before, name, previous.drop_last(), current, hex);
        lemma_lists_drop_last(previous, hex);
        if !lists(current, previous.last().hex@) {
            assert(departures(name, previous, current).drop_last() =~= rest);
        }
    }
}

proof fn lemma_lists_drop_last(list: Seq<Aircraft>, hex: Seq<char>)
    requires
        list.len() > 0,
    ensures
        lists(list, hex) <==> lists(list.drop_last(), hex) || list.last().hex@ == hex,
{
    let rest = list.drop_last();
    if lists(list, hex) {
        let k = choose|k: int| 0 <= k < list.len() && (#[trigger] list[k]).hex@ == hex;
        if k < rest.len() {
            assert(rest[k] == list[k]);
        }
    }
    if lists(rest, hex) {
        let k = choose|k: int| 0 <= k < rest.len() && (#[trigger] rest[k]).hex@ == hex;
        assert(list[k] == rest[k]);
    }
    assert(list[list.len() - 1] == list.last());
}

/// An aircraft that was not inside before can only enter, and shows its new state; one that was
/// inside before is updated with its new state or, if it is not inside any more, leaves with its
/// old one.
pub proof fn law_event_kinds(
    name: String,
    previous: Seq<Aircraft>,
    current: Seq<Aircraft>,
    i: int,
)
    requires
        0 <= i < events_between(name, previous, current).len(),
    ensures
        ({
            let e = events_between(name, previous, current)[i];
            &&& e.region == name
            &&& match e.kind {
                EventKind::Entered => current.contains(e.aircraft) && !lists(
                    previous,
                    e.aircraft.hex@,
                ),
                EventKind::Updated => current.contains(e.aircraft) && lists(
                    previous,
                    e.aircraft.hex@,
                ),
                EventKind::Left => previous.contains(e.aircraft) && !lists(
                    current,
                    e.aircraft.hex@,
                ),
            }
        }),
{
    let first = arrivals(name, previous, current);
    if i < first.len() {
        assert(current.contains(current[i]));
    } else {
        lemma_departures(name, previous, current);
    }
}

/// Every departure shows an aircraft that was inside and is not any more.
proof fn lemma_departures(name: String, previous: Seq<Aircraft>, current: Seq<Aircraft>)
    ensures
        forall|j: int|
            0 <= j < departures(name, previous, current).len() ==> ({
                let e = #[trigger] departures(name, previous, current)[j];
                &&& e.kind == EventKind::Left
                &&& e.region == name
                &&& previous.contains(e.aircraft)
                &&& !lists(current, e.aircraft.hex@)
            }),
    decreases previous.len(),
{
    if previous.len() > 0 {
        let rest = previous.drop_last();
        lemma_departures(name, rest, current);
        assert forall|j: int| 0 <= j < departures(name, previous, current).len() implies ({
            let e = #[trigger] departures(name, previous, current)[j];
            &&& e.kind == EventKind::Left
            &&& e.region == name
            &&& previous.contains(e.aircraft)
            &&& !lists(current, e.aircraft.hex@)
        }) by {
            if j < departures(name, rest, current).len() {
                let e = departures(name, rest, current)[j];
                let k = choose|k: int| 0 <= k < rest.len() && rest[k] == e.aircraft;
                assert(previous[k] == e.aircraft);
            } else {
                assert(previous[previous.len() - 1] == previous.last());
            }
        }
    }
}

/// A poll reports every aircraft at most once.
pub proof fn law_one_event_for_each_aircraft(
    name: String,
    previous: Seq<Aircraft>,
    current: Seq<Aircraft>,
    i: int,
    j: int,
)
    requires
        distinct(previous),
        distinct(current),
        0 <= i < j < events_between(name, previous, current).len(),
    ensures
        events_between(name, previous, current)[i].aircraft.hex@ != events_between(
            name,
            previous,
            current,
        )[j].aircraft.hex@,
{
    let first = arrivals(name, previous, current);
    let second = departures(name, previous, current);
    if j < first.len() {
        assert(current[i].hex@ != current[j].hex@);
    } else if i < first.len() {
        lemma_departures(name, previous, current);
        assert(!lists(current, second[j - first.len()].aircraft.hex@));
        assert(current[i].hex@ == first[i].aircraft.hex@);
    } else {
        lemma_departures_distinct(name, previous, current);
    }
}

proof fn lemma_departures_distinct(name: String, previous: Seq<Aircraft>, current: Seq<Aircraft>)
    requires
        distinct(previous),
    ensures
        forall|i: int, j: int|
            0 <= i < j < departures(name, previous, current).len() ==> (
            #[trigger] departures(name, previous, current)[i]).aircraft.hex@ != (
            #[trigger] departures(name, previous, current)[j]).aircraft.hex@,
    decreases previous.len(),
{
    if previous.len() > 0 {
        let rest = previous.drop_last();
        lemma_departures_distinct(name, rest, current);
        lemma_departures(name, rest, current);
        let old_ones = departures(name, rest, current);
        assert forall|i: int| 0 <= i < old_ones.len() implies (#[trigger] old_ones[i]).aircraft.hex@
            != previous.last().hex@ by {
            let k = choose|k: int| 0 <= k < rest.len() && rest[k] == old_ones[i].aircraft;
            assert(previous[k].hex@ != previous[previous.len() - 1].hex@);
        }
    }
}

/// While the same aircraft stay inside, nobody enters or leaves: each is updated.
pub proof fn law_who_stays_is_updated(
    name: String,
    previous: Seq<Aircraft>,
    current: Seq<Aircraft>,
)
    requires
        forall|hex: Seq<char>| #[trigger] lists(previous, hex) == lists(current, hex),
    ensures
        events_between(name, previous, current).len() == current.len(),
        forall|i: int|
            0 <= i < current.len() ==> #[trigger] events_between(name, previous, current)[i] == (
            PendingEvent { kind: EventKind::Updated, region: name, aircraft: current[i] }),
{
    lemma_departures(name, previous, current);
    let gone = departures(name, previous, current);
    if gone.len() > 0 {
        let a = gone[0].aircraft;
        let k = choose|k: int| 0 <= k < previous.len() && previous[k] == a;
        assert(previous[k].hex@ == a.hex@);
        assert(lists(previous, a.hex@));
    }
    assert forall|i: int| 0 <= i < current.len() implies #[trigger] events_between(
        name,
        previous,
        current,
    )[i] == (PendingEvent { kind: EventKind::Updated, region: name, aircraft: current[i] }) by {
        assert(lists(current, current[i].hex@));
        assert(lists(previous, current[i].hex@));
    }
}

/// In a region where nobody was inside before, everybody inside enters.
pub proof fn law_first_poll_enters(name: String, current: Seq<Aircraft>)
    ensures
        events_between(name, Seq::empty(), current).len() == current.len(),
        forall|i: int|
            0 <= i < current.len() ==> #[trigger] events_between(name, Seq::empty(), current)[i]
                == (PendingEvent { kind: EventKind::Entered, region: name, aircraft: current[i] }),
{
}

} // verus!
