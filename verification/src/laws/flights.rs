//! Flight information: merging, caching, and what the APIs say.
use crate::enrich::adsbdb;
use crate::enrich::aerodatabox::{
    self, flight_info_of, law_delay_is_exact, stop_of, Movement, Stop, TimeObj,
};
use crate::enrich::{
    cached, combined, found, law_earlier_providers_take_precedence,
    law_fields_not_found_are_absent, stored, CacheView, Outcome,
};
use crate::model::{Airport, FlightInfo};
use crate::text::trimmed;
use crate::time::{formatted_instant, nanos_between, rfc3339_instant, whole_minutes};
use vstd::prelude::*;

verus! {

/// Merging takes each field from the first side that has it.
pub proof fn law_merge_takes_the_first(a: FlightInfo, b: FlightInfo)
    ensures
        FlightInfo::merged(a, b).origin == (if a.origin is Some {
            a.origin
        } else {
            b.origin
        }),
        FlightInfo::merged(a, b).destination == (if a.destination is Some {
            a.destination
        } else {
            b.destination
        }),
        FlightInfo::merged(a, b).scheduled_departure == (if a.scheduled_departure is Some {
            a.scheduled_departure
        } else {
            b.scheduled_departure
        }),
        FlightInfo::merged(a, b).scheduled_arrival == (if a.scheduled_arrival is Some {
            a.scheduled_arrival
        } else {
            b.scheduled_arrival
        }),
        FlightInfo::merged(a, b).estimated_arrival == (if a.estimated_arrival is Some {
            a.estimated_arrival
        } else {
            b.estimated_arrival
        }),
        FlightInfo::merged(a, b).actual_departure == (if a.actual_departure is Some {
            a.actual_departure
        } else {
            b.actual_departure
        }),
        FlightInfo::merged(a, b).delay_minutes == (if a.delay_minutes is Some {
            a.delay_minutes
        } else {
            b.delay_minutes
        }),
{
}

/// Information is useful exactly if one of its fields is there, and is handed on as it is.
pub proof fn law_useful_is_not_empty(info: FlightInfo)
    ensures
        FlightInfo::useful(info) is Some <==> info.origin is Some || info.destination is Some
            || info.scheduled_departure is Some || info.scheduled_arrival is Some
            || info.estimated_arrival is Some || info.actual_departure is Some
            || info.delay_minutes is Some,
        FlightInfo::useful(info) matches Some(same) ==> same == info,
{
}

/// The answer has each field as the first provider that found it gave it, whatever the other
/// providers said and whatever else they found.
pub proof fn law_answer_has_what_was_found_first(outcomes: Seq<Outcome>, i: int)
    requires
        0 <= i < outcomes.len(),
    ensures
        (outcomes[i] matches Outcome::Found(info) ==> info.origin is Some && (forall|k: int|
            0 <= k < i ==> ((#[trigger] outcomes[k]) matches Outcome::Found(other)
                ==> other.origin is None)) ==> combined(outcomes) is Some && combined(
            outcomes,
        )->0.origin == info.origin),
        (outcomes[i] matches Outcome::Found(info) ==> info.destination is Some && (forall|k: int|
            0 <= k < i ==> ((#[trigger] outcomes[k]) matches Outcome::Found(other)
                ==> other.destination is None)) ==> combined(outcomes) is Some && combined(
            outcomes,
        )->0.destination == info.destination),
        (outcomes[i] matches Outcome::Found(info) ==> info.scheduled_departure is Some && (forall|k: int|
            0 <= k < i ==> ((#[trigger] outcomes[k]) matches Outcome::Found(other)
                ==> other.scheduled_departure is None)) ==> combined(outcomes) is Some && combined(
            outcomes,
        )->0.scheduled_departure == info.scheduled_departure),
        (outcomes[i] matches Outcome::Found(info) ==> info.scheduled_arrival is Some && (forall|k: int|
            0 <= k < i ==> ((#[trigger] outcomes[k]) matches Outcome::Found(other)
                ==> other.scheduled_arrival is None)) ==> combined(outcomes) is Some && combined(
            outcomes,
        )->0.scheduled_arrival == info.scheduled_arrival),
        (outcomes[i] matches Outcome::Found(info) ==> info.estimated_arrival is Some && (forall|k: int|
            0 <= k < i ==> ((#[trigger] outcomes[k]) matches Outcome::Found(other)
                ==> other.estimated_arrival is None)) ==> combined(outcomes) is Some && combined(
            outcomes,
        )->0.estimated_arrival == info.estimated_arrival),
        (outcomes[i] matches Outcome::Found(info) ==> info.actual_departure is Some && (forall|k: int|
            0 <= k < i ==> ((#[trigger] outcomes[k]) matches Outcome::Found(other)
                ==> other.actual_departure is None)) ==> combined(outcomes) is Some && combined(
            outcomes,
        )->0.actual_departure == info.actual_departure),
        (outcomes[i] matches Outcome::Found(info) ==> info.delay_minutes is Some && (forall|k: int|
            0 <= k < i ==> ((#[trigger] outcomes[k]) matches Outcome::Found(other)
                ==> other.delay_minutes is None)) ==> combined(outcomes) is Some && combined(
            outcomes,
        )->0.delay_minutes == info.delay_minutes),
{
    law_earlier_providers_take_precedence(outcomes, i);
    if found(outcomes[i]).origin is Some && (forall|k: int|
        0 <= k < i ==> ((#[trigger] outcomes[k]) matches Outcome::Found(other)
            ==> other.origin is None)) {
        assert forall|k: int| 0 <= k < i implies found(#[trigger] outcomes[k]).origin is None by {}
    }
    if found(outcomes[i]).destination is Some && (forall|k: int|
        0 <= k < i ==> ((#[trigger] outcomes[k]) matches Outcome::Found(other)
            ==> other.destination is None)) {
        assert forall|k: int| 0 <= k < i implies found(#[trigger] outcomes[k]).destination is None by {}
    }
    if found(outcomes[i]).scheduled_departure is Some && (forall|k: int|
        0 <= k < i ==> ((#[trigger] outcomes[k]) matches Outcome::Found(other)
            ==> other.scheduled_departure is None)) {
        assert forall|k: int| 0 <= k < i implies found(#[trigger] outcomes[k]).scheduled_departure is None by {}
    }
    if found(outcomes[i]).scheduled_arrival is Some && (forall|k: int|
        0 <= k < i ==> ((#[trigger] outcomes[k]) matches Outcome::Found(other)
            ==> other.scheduled_arrival is None)) {
        assert forall|k: int| 0 <= k < i implies found(#[trigger] outcomes[k]).scheduled_arrival is None by {}
    }
    if found(outcomes[i]).estimated_arrival is Some && (forall|k: int|
        0 <= k < i ==> ((#[trigger] outcomes[k]) matches Outcome::Found(other)
            ==> other.estimated_arrival is None)) {
        assert forall|k: int| 0 <= k < i implies found(#[trigger] outcomes[k]).estimated_arrival is None by {}
    }
    if found(outcomes[i]).actual_departure is Some && (forall|k: int|
        0 <= k < i ==> ((#[trigger] outcomes[k]) matches Outcome::Found(other)
            ==> other.actual_departure is None)) {
        assert forall|k: int| 0 <= k < i implies found(#[trigger] outcomes[k]).actual_departure is None by {}
    }
    if found(outcomes[i]).delay_minutes is Some && (forall|k: int|
        0 <= k < i ==> ((#[trigger] outcomes[k]) matches Outcome::Found(other)
            ==> other.delay_minutes is None)) {
        assert forall|k: int| 0 <= k < i implies found(#[trigger] outcomes[k]).delay_minutes is None by {}
    }
}

/// The answer has no field that no provider found, and where none found anything there is no answer.
pub proof fn law_answer_has_nothing_else(outcomes: Seq<Outcome>)
    ensures
        (forall|k: int|
            0 <= k < outcomes.len() ==> ((#[trigger] outcomes[k]) matches Outcome::Found(info)
                ==> info.origin is None)) ==> (combined(outcomes) matches Some(answer)
            ==> answer.origin is None),
        (forall|k: int|
            0 <= k < outcomes.len() ==> ((#[trigger] outcomes[k]) matches Outcome::Found(info)
                ==> info.destination is None)) ==> (combined(outcomes) matches Some(answer)
            ==> answer.destination is None),
        (forall|k: int|
            0 <= k < outcomes.len() ==> ((#[trigger] outcomes[k]) matches Outcome::Found(info)
                ==> info.scheduled_departure is None)) ==> (combined(outcomes) matches Some(answer)
            ==> answer.scheduled_departure is None),
        (forall|k: int|
            0 <= k < outcomes.len() ==> ((#[trigger] outcomes[k]) matches Outcome::Found(info)
                ==> info.scheduled_arrival is None)) ==> (combined(outcomes) matches Some(answer)
            ==> answer.scheduled_arrival is None),
        (forall|k: int|
            0 <= k < outcomes.len() ==> ((#[trigger] outcomes[k]) matches Outcome::Found(info)
                ==> info.estimated_arrival is None)) ==> (combined(outcomes) matches Some(answer)
            ==> answer.estimated_arrival is None),
        (forall|k: int|
            0 <= k < outcomes.len() ==> ((#[trigger] outcomes[k]) matches Outcome::Found(info)
                ==> info.actual_departure is None)) ==> (combined(outcomes) matches Some(answer)
            ==> answer.actual_departure is None),
        (forall|k: int|
            0 <= k < outcomes.len() ==> ((#[trigger] outcomes[k]) matches Outcome::Found(info)
                ==> info.delay_minutes is None)) ==> (combined(outcomes) matches Some(answer)
            ==> answer.delay_minutes is None),
        (forall|k: int|
            0 <= k < outcomes.len() ==> ((#[trigger] outcomes[k]) matches Outcome::Found(info)
                ==> info == FlightInfo::nothing())) ==> combined(outcomes) is None,
{
    law_fields_not_found_are_absent(outcomes);
    if forall|k: int|
        0 <= k < outcomes.len() ==> ((#[trigger] outcomes[k]) matches Outcome::Found(info)
            ==> info.origin is None) {
        assert forall|k: int| 0 <= k < outcomes.len() implies found(
            #[trigger] outcomes[k],
        ).origin is None by {}
    }
    if forall|k: int|
        0 <= k < outcomes.len() ==> ((#[trigger] outcomes[k]) matches Outcome::Found(info)
            ==> info.destination is None) {
        assert forall|k: int| 0 <= k < outcomes.len() implies found(
            #[trigger] outcomes[k],
        ).destination is None by {}
    }
    if forall|k: int|
        0 <= k < outcomes.len() ==> ((#[trigger] outcomes[k]) matches Outcome::Found(info)
            ==> info.scheduled_departure is None) {
        assert forall|k: int| 0 <= k < outcomes.len() implies found(
            #[trigger] outcomes[k],
        ).scheduled_departure is None by {}
    }
    if forall|k: int|
        0 <= k < outcomes.len() ==> ((#[trigger] outcomes[k]) matches Outcome::Found(info)
            ==> info.scheduled_arrival is None) {
        assert forall|k: int| 0 <= k < outcomes.len() implies found(
            #[trigger] outcomes[k],
        ).scheduled_arrival is None by {}
    }
    if forall|k: int|
        0 <= k < outcomes.len() ==> ((#[trigger] outcomes[k]) matches Outcome::Found(info)
            ==> info.estimated_arrival is None) {
        assert forall|k: int| 0 <= k < outcomes.len() implies found(
            #[trigger] outcomes[k],
        ).estimated_arrival is None by {}
    }
    if forall|k: int|
        0 <= k < outcomes.len() ==> ((#[trigger] outcomes[k]) matches Outcome::Found(info)
            ==> info.actual_departure is None) {
        assert forall|k: int| 0 <= k < outcomes.len() implies found(
            #[trigger] outcomes[k],
        ).actual_departure is None by {}
    }
    if forall|k: int|
        0 <= k < outcomes.len() ==> ((#[trigger] outcomes[k]) matches Outcome::Found(info)
            ==> info.delay_minutes is None) {
        assert forall|k: int| 0 <= k < outcomes.len() implies found(
            #[trigger] outcomes[k],
        ).delay_minutes is None by {}
    }
}

/// An answer stored at `at` is given back at `now` exactly if its lifetime is not over by then:
/// `now < at + ttl_nanos`. With a lifetime of zero nothing is ever given back.
pub proof fn law_answers_last_for_their_lifetime(
    cache: CacheView,
    ttl_nanos: u128,
    callsign: Seq<char>,
    at: u128,
    now: u128,
    answer: Option<FlightInfo>,
)
    ensures
        cached(cache.insert(callsign, (at, answer)), ttl_nanos, callsign, now) == (if 0 < ttl_nanos
            && now < at + ttl_nanos {
            Some(answer)
        } else {
            None
        }),
{
}

/// What was found or not found is stored as the answer from then on; a failure stores nothing; and
/// in a cache without an entry there is no answer.
pub proof fn law_what_is_stored(
    cache: CacheView,
    ttl_nanos: u128,
    callsign: Seq<char>,
    other: Seq<char>,
    at: u128,
    now: u128,
    info: FlightInfo,
)
    ensures
        at + ttl_nanos <= now ==> cached(
            stored(cache, callsign, at, Outcome::Found(info)),
            ttl_nanos,
            callsign,
            now,
        ) is None,
        0 < ttl_nanos && now < at + ttl_nanos ==> cached(
            stored(cache, callsign, at, Outcome::Found(info)),
            ttl_nanos,
            callsign,
            now,
        ) == Some(Some(info)),
        at + ttl_nanos <= now ==> cached(
            stored(cache, callsign, at, Outcome::Unknown),
            ttl_nanos,
            callsign,
            now,
        ) is None,
        0 < ttl_nanos && now < at + ttl_nanos ==> cached(
            stored(cache, callsign, at, Outcome::Unknown),
            ttl_nanos,
            callsign,
            now,
        ) == Some(None::<FlightInfo>),
        stored(cache, callsign, at, Outcome::Failed) == cache,
        other != callsign ==> cached(
            stored(cache, callsign, at, Outcome::Found(info)),
            ttl_nanos,
            other,
            now,
        ) == cached(cache, ttl_nanos, other, now),
        other != callsign ==> cached(
            stored(cache, callsign, at, Outcome::Unknown),
            ttl_nanos,
            other,
            now,
        ) == cached(cache, ttl_nanos, other, now),
        cached(CacheView::empty(), ttl_nanos, callsign, now) is None,
{
}

/// Airports are carried over code by code.
pub proof fn law_airports_are_carried_over(a: adsbdb::RawAirport, b: aerodatabox::RawAirport)
    ensures
        adsbdb::airport_of(Some(a)) matches Some(x) && x.icao == a.icao_code && x.iata
            == a.iata_code && x.name == a.name,
        adsbdb::airport_of(None) is None,
        aerodatabox::airport_of(Some(b)) matches Some(y) && y.icao == b.icao && y.iata == b.iata
            && y.name == b.name,
        aerodatabox::airport_of(None) is None,
{
}

/// The code of an airport is its IATA code if it has one, or else its ICAO code if it has one.
pub proof fn law_code_of_an_airport(a: Airport)
    ensures
        a.iata matches Some(iata) ==> a.code() == Some(iata@),
        a.iata is None ==> (a.icao matches Some(icao) ==> a.code() == Some(icao@)),
        a.iata is None && a.icao is None ==> a.code() is None,
{
}

/// The delay goes by the arrival alone: it is the whole minutes from the scheduled to the estimated
/// time of arrival where both are known, and otherwise there is none, whatever is known of the
/// departure.
pub proof fn law_delay_is_that_of_the_arrival(
    departure: Option<Stop>,
    arrival: Option<Stop>,
    other: Option<Stop>,
)
    ensures
        flight_info_of(departure, arrival).delay_minutes == flight_info_of(
            other,
            arrival,
        ).delay_minutes,
        arrival is None ==> flight_info_of(departure, arrival).delay_minutes is None,
        arrival matches Some(stop) ==> (stop.scheduled is None || stop.estimated is None
            ==> flight_info_of(departure, arrival).delay_minutes is None),
        arrival matches Some(stop) ==> (stop.scheduled matches Some(s) ==> (
        stop.estimated matches Some(e) ==> (flight_info_of(
            departure,
            arrival,
        ).delay_minutes matches Some(minutes) && minutes == whole_minutes(nanos_between(s, e))))),
        flight_info_of(departure, arrival).delay_minutes matches Some(minutes) ==> ({
            let info = flight_info_of(departure, arrival);
            &&& info.scheduled_arrival is Some
            &&& info.estimated_arrival is Some
            &&& minutes == whole_minutes(
                nanos_between(info.scheduled_arrival->0, info.estimated_arrival->0),
            )
        }),
{
    if let Some(stop) = arrival {
        if let (Some(s), Some(e)) = (stop.scheduled, stop.estimated) {
            law_delay_is_exact(s, e);
        }
    }
}

/// Each end of a flight gives its own airport and times: the departure the origin, the arrival the
/// destination.
pub proof fn law_each_end_gives_its_own(departure: Stop, arrival: Stop)
    ensures
        ({
            let info = flight_info_of(Some(departure), Some(arrival));
            &&& info.origin == departure.airport
            &&& info.scheduled_departure == departure.scheduled
            &&& info.actual_departure == departure.estimated
            &&& info.destination == arrival.airport
            &&& info.scheduled_arrival == arrival.scheduled
            &&& info.estimated_arrival == arrival.estimated
        }),
        ({
            let info = flight_info_of(None, Some(arrival));
            &&& info.origin is None
            &&& info.scheduled_departure is None
            &&& info.actual_departure is None
            &&& info.destination == arrival.airport
            &&& info.scheduled_arrival == arrival.scheduled
            &&& info.estimated_arrival == arrival.estimated
        }),
        ({
            let info = flight_info_of(Some(departure), None);
            &&& info.origin == departure.airport
            &&& info.scheduled_departure == departure.scheduled
            &&& info.actual_departure == departure.estimated
            &&& info.destination is None
            &&& info.scheduled_arrival is None
            &&& info.estimated_arrival is None
        }),
        flight_info_of(None, None) == FlightInfo::nothing(),
{
}

/// An end of a flight has the airport and the scheduled time that its movement names, and as its
/// estimated time the actual one, or else that of the runway, the revised one, the predicted one,
/// each where it can be read.
pub proof fn law_most_authoritative_time(m: Movement)
    ensures
        stop_of(None) is None,
        stop_of(Some(m)) matches Some(stop) && {
            let read = |t: Option<TimeObj>| if t is Some {
                t->0.instant()
            } else {
                None
            };
            &&& stop.airport == aerodatabox::airport_of(m.airport)
            &&& stop.scheduled == read(m.scheduled_time)
            &&& read(m.actual_time) is Some ==> stop.estimated == read(m.actual_time)
            &&& read(m.actual_time) is None && read(m.runway_time) is Some ==> stop.estimated
                == read(m.runway_time)
            &&& read(m.actual_time) is None && read(m.runway_time) is None && read(
                m.revised_time,
            ) is Some ==> stop.estimated == read(m.revised_time)
            &&& read(m.actual_time) is None && read(m.runway_time) is None && read(
                m.revised_time,
            ) is None ==> stop.estimated == read(m.predicted_time)
        },
{
}

/// A time is read from its trimmed text: as RFC 3339 where that can be done, or else with seconds,
/// without seconds, without the zone, in that order.
pub proof fn law_how_times_are_read(t: TimeObj)
    ensures
        t.utc is None ==> t.instant() is None,
        t.utc matches Some(utc) ==> ({
            let text = trimmed(utc@);
            let with_seconds = formatted_instant(text, "%Y-%m-%d %H:%M:%SZ"@);
            let without = formatted_instant(text, "%Y-%m-%d %H:%MZ"@);
            let bare = formatted_instant(text, "%Y-%m-%d %H:%M"@);
            &&& rfc3339_instant(text) is Some ==> t.instant() == rfc3339_instant(text)
            &&& rfc3339_instant(text) is None && with_seconds is Some ==> t.instant()
                == with_seconds
            &&& rfc3339_instant(text) is None && with_seconds is None && without is Some
                ==> t.instant() == without
            &&& rfc3339_instant(text) is None && with_seconds is None && without is None
                ==> t.instant() == bare
        }),
{
}

} // verus!
