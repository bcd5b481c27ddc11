//! Who is inside a region, and what is told of it.
use crate::engine::{
    admits, arrivals, departures, distinct, events_between, inside, kinds_of, law_event_kinds,
    law_inside_are_the_admitted, law_inside_is_distinct, law_kind_of_one_poll,
    law_last_report_is_kept, lists, Observation, PendingEvent,
};
use crate::geo::WatchedRegionView;
use crate::model::{Aircraft, EventKind};
use vstd::prelude::*;

verus! {

/// An aircraft is looked up exactly if it enters with a callsign, and by that callsign, whatever
/// else is known of it.
pub proof fn law_who_is_looked_up(e: PendingEvent)
    ensures
        e.kind == EventKind::Entered ==> e.lookup_of() == e.aircraft.callsign,
        e.kind != EventKind::Entered ==> e.lookup_of() is None,
        e.aircraft.callsign is None ==> e.lookup_of() is None,
{
}

/// Whether a report says that its aircraft is in a region: at a point that the region holds, and at
/// no altitude outside of the band.
pub open spec fn reported_inside(region: WatchedRegionView, o: Observation) -> bool {
    &&& region.region.holds(o.aircraft.lat, o.aircraft.lon, o.measured@)
    &&& o.aircraft.altitude_ft matches Some(alt) ==> {
        &&& region.min_alt_ft matches Some(min) ==> !alt.below(min)
        &&& region.max_alt_ft matches Some(max) ==> !max.below(alt)
    }
}

/// An aircraft is inside a region exactly if some report says so, and it is there once.
pub proof fn law_inside_is_the_last_report(
    region: WatchedRegionView,
    observed: Seq<Observation>,
    hex: Seq<char>,
)
    ensures
        (exists|k: int|
            0 <= k < inside(region, observed).len() && (#[trigger] inside(
                region,
                observed,
            )[k]).hex@ == hex) <==> exists|i: int|
            0 <= i < observed.len() && reported_inside(region, #[trigger] observed[i])
                && observed[i].aircraft.hex@ == hex,
        forall|j: int, k: int|
            0 <= j < k < inside(region, observed).len() ==> (#[trigger] inside(
                region,
                observed,
            )[j]).hex@ != (#[trigger] inside(region, observed)[k]).hex@,
{
    law_inside_are_the_admitted(region, observed, hex);
    law_inside_is_distinct(region, observed);
    if lists(inside(region, observed), hex) {
        let i = choose|i: int|
            0 <= i < observed.len() && admits(region, #[trigger] observed[i])
                && observed[i].aircraft.hex@ == hex;
        assert(reported_inside(region, observed[i]));
    }
    if exists|i: int|
        0 <= i < observed.len() && reported_inside(region, #[trigger] observed[i])
            && observed[i].aircraft.hex@ == hex {
        let i = choose|i: int|
            0 <= i < observed.len() && reported_inside(region, #[trigger] observed[i])
                && observed[i].aircraft.hex@ == hex;
        assert(admits(region, observed[i]));
    }
}

/// The state in which an aircraft is inside is that of the last report that says so.
pub proof fn law_state_is_the_last_report(
    region: WatchedRegionView,
    observed: Seq<Observation>,
    i: int,
    a: Aircraft,
)
    requires
        0 <= i < observed.len(),
        reported_inside(region, observed[i]),
        forall|k: int|
            i < k < observed.len() && reported_inside(region, #[trigger] observed[k])
                ==> observed[k].aircraft.hex@ != observed[i].aircraft.hex@,
        inside(region, observed).contains(a),
        a.hex@ == observed[i].aircraft.hex@,
    ensures
        a == observed[i].aircraft,
{
    assert forall|k: int|
        i < k < observed.len() && admits(
            region,
            #[trigger] observed[k],
        ) implies observed[k].aircraft.hex@ != observed[i].aircraft.hex@ by {
        assert(reported_inside(region, observed[k]));
    }
    law_last_report_is_kept(region, observed, i);
    law_inside_is_distinct(region, observed);
    lemma_one_of_an_address(inside(region, observed), a, observed[i].aircraft);
}

proof fn lemma_one_of_an_address(list: Seq<Aircraft>, a: Aircraft, b: Aircraft)
    requires
        distinct(list),
        list.contains(a),
        list.contains(b),
        a.hex@ == b.hex@,
    ensures
        a == b,
{
    let i = choose|i: int| 0 <= i < list.len() && list[i] == a;
    let j = choose|j: int| 0 <= j < list.len() && list[j] == b;
    if i < j {
        assert(list[i].hex@ != list[j].hex@);
    } else if j < i {
        assert(list[j].hex@ != list[i].hex@);
    }
}

/// What is told of a poll: of each aircraft inside now one event with its new state, `Updated` if it
/// was inside before and `Entered` if not; of each that was inside and is not any more one `Left`
/// with its old state; and nothing else.
pub proof fn law_what_is_told_of_a_poll(
    name: String,
    previous: Seq<Aircraft>,
    current: Seq<Aircraft>,
    e: PendingEvent,
)
    requires
        distinct(previous),
        distinct(current),
    ensures
        events_between(name, previous, current).contains(e) <==> {
            &&& e.region == name
            &&& match e.kind {
                EventKind::Entered => current.contains(e.aircraft) && !(exists|i: int|
                    0 <= i < previous.len() && (#[trigger] previous[i]).hex@ == e.aircraft.hex@),
                EventKind::Updated => current.contains(e.aircraft) && (exists|i: int|
                    0 <= i < previous.len() && (#[trigger] previous[i]).hex@ == e.aircraft.hex@),
                EventKind::Left => previous.contains(e.aircraft) && !(exists|i: int|
                    0 <= i < current.len() && (#[trigger] current[i]).hex@ == e.aircraft.hex@),
            }
        },
{
    let events = events_between(name, previous, current);
    if events.contains(e) {
        let i = choose|i: int| 0 <= i < events.len() && events[i] == e;
        law_event_kinds(name, previous, current, i);
    }
    if e.region == name && e.kind == EventKind::Left && previous.contains(e.aircraft) && !lists(
        current,
        e.aircraft.hex@,
    ) {
        lemma_departure(name, previous, current, e.aircraft);
        let gone = departures(name, previous, current);
        let i = choose|i: int| 0 <= i < gone.len() && gone[i] == e;
        assert(events[arrivals(name, previous, current).len() + i] == e);
    }
    if e.region == name && e.kind != EventKind::Left && current.contains(e.aircraft) && (e.kind
        == EventKind::Updated) == lists(previous, e.aircraft.hex@) {
        let i = choose|i: int| 0 <= i < current.len() && current[i] == e.aircraft;
        assert(arrivals(name, previous, current)[i] == e);
        assert(events[i] == e);
    }
}

proof fn lemma_departure(
    name: String,
    previous: Seq<Aircraft>,
    current: Seq<Aircraft>,
    a: Aircraft,
)
    requires
        previous.contains(a),
        !lists(current, a.hex@),
    ensures
        departures(name, previous, current).contains(
            (PendingEvent { kind: EventKind::Left, region: name, aircraft: a }),
        ),
    decreases previous.len(),
{
    let e = PendingEvent { kind: EventKind::Left, region: name, aircraft: a };
    let rest = previous.drop_last();
    let all = departures(name, previous, current);
    if previous.last() == a {
        assert(all.last() == e);
    } else {
        let i = choose|i: int| 0 <= i < previous.len() && previous[i] == a;
        assert(rest[i] == a);
        lemma_departure(name, rest, current, a);
        let before = departures(name, rest, current);
        let k = choose|k: int| 0 <= k < before.len() && before[k] == e;
        assert(all[k] == e);
    }
}

/// A poll tells exactly one thing of an aircraft that is inside before or after it.
pub proof fn law_one_event_of_each(
    name: String,
    previous: Seq<Aircraft>,
    current: Seq<Aircraft>,
    hex: Seq<char>,
)
    requires
        distinct(previous),
        distinct(current),
    ensures
        kinds_of(events_between(name, previous, current), hex).len() == (if lists(
            previous,
            hex,
        ) || lists(current, hex) {
            1nat
        } else {
            0
        }),
{
    law_kind_of_one_poll(name, previous, current, hex);
}

} // verus!
