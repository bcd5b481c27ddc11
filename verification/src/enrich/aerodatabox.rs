//! Schedule and delay enrichment via AeroDataBox (RapidAPI / api.market). Requires an API key.
//!
//! `GET https://{host}/flights/callsign/{callsign}` with `x-rapidapi-key` / `x-rapidapi-host`
//! headers returns an array of flight movements. Each has `departure` and `arrival` objects with
//! an `airport` and several time objects (`scheduledTime`, `revisedTime`, `predictedTime`,
//! `runwayTime`, `actualTime`), each carrying a `utc` timestamp string like `"2024-01-01 10:00Z"`.
use crate::model::{Airport, FlightInfo};
use crate::text::{trim, trimmed};
use crate::time::{
    formatted_instant, minutes_between, nanos_between, parse_formatted, parse_rfc3339,
    rfc3339_instant, whole_minutes, Timestamp,
};
use vstd::prelude::*;
use vstd::string::*;

verus! {

/// The AeroDataBox API.
#[derive(Debug)]
pub struct AeroDataBoxStatus {
    pub host: String,
    pub api_key: String,
}

impl AeroDataBoxStatus {
    pub fn new(api_key: String, host: String) -> (r: Self)
        ensures
            r.api_key == api_key,
            r.host == host,
    {
        AeroDataBoxStatus { host, api_key }
    }

    /// The URL that asks for a callsign.
    pub fn request_url(&self, callsign: &str) -> (r: String)
        ensures
            r@ == "https://"@ + self.host@ + "/flights/callsign/"@ + trimmed(callsign@),
    {
        let mut r = String::from_str("https://");
        r.append(self.host.as_str());
        r.append("/flights/callsign/");
        r.append(trim(callsign));
        r
    }
}

/// One flight movement.
#[derive(Debug)]
pub struct Flight {
    pub departure: Option<Movement>,
    pub arrival: Option<Movement>,
}

/// One end of a flight.
#[derive(Debug)]
pub struct Movement {
    pub airport: Option<RawAirport>,
    pub scheduled_time: Option<TimeObj>,
    pub revised_time: Option<TimeObj>,
    pub predicted_time: Option<TimeObj>,
    pub runway_time: Option<TimeObj>,
    pub actual_time: Option<TimeObj>,
}

/// A time as AeroDataBox writes it.
#[derive(Debug)]
pub struct TimeObj {
    pub utc: Option<String>,
}

/// An airport as AeroDataBox writes it.
#[derive(Debug)]
pub struct RawAirport {
    pub icao: Option<String>,
    pub iata: Option<String>,
    pub name: Option<String>,
}

impl From<RawAirport> for Airport {
    fn from(a: RawAirport) -> (r: Self) {
        Airport { icao: a.icao, iata: a.iata, name: a.name }
    }
}

impl vstd::std_specs::convert::FromSpecImpl<RawAirport> for Airport {
    open spec fn obeys_from_spec() -> bool {
        true
    }

    open spec fn from_spec(a: RawAirport) -> Airport {
        Airport { icao: a.icao, iata: a.iata, name: a.name }
    }
}

/// An optional airport in the shared model.
pub open spec fn airport_of(a: Option<RawAirport>) -> Option<Airport> {
    match a {
        Some(raw) => Some(Airport { icao: raw.icao, iata: raw.iata, name: raw.name }),
        None => None,
    }
}

/// An optional airport in the shared model.
fn to_airport(a: Option<RawAirport>) -> (r: Option<Airport>)
    ensures
        r == airport_of(a),
{
    match a {
        Some(raw) => Some(Airport::from(raw)),
        None => None,
    }
}

/// The first of four readings that gave an instant.
pub open spec fn first_instant(
    a: Option<Timestamp>,
    b: Option<Timestamp>,
    c: Option<Timestamp>,
    d: Option<Timestamp>,
) -> Option<Timestamp> {
    if a is Some {
        a
    } else if b is Some {
        b
    } else if c is Some {
        c
    } else {
        d
    }
}

/// The first of four readings that gave an instant.
pub fn pick_first(
    a: Option<Timestamp>,
    b: Option<Timestamp>,
    c: Option<Timestamp>,
    d: Option<Timestamp>,
) -> (r: Option<Timestamp>)
    ensures
        r == first_instant(a, b, c, d),
{
    if a.is_some() {
        a
    } else if b.is_some() {
        b
    } else if c.is_some() {
        c
    } else {
        d
    }
}

/// The instant that a text stands for: read as RFC 3339, or else in AeroDataBox's
/// "YYYY-MM-DD HH:MM[:SS]Z" form.
pub open spec fn instant_of(text: Seq<char>) -> Option<Timestamp> {
    first_instant(
        rfc3339_instant(text),
        formatted_instant(text, "%Y-%m-%d %H:%M:%SZ"@),
        formatted_instant(text, "%Y-%m-%d %H:%MZ"@),
        formatted_instant(text, "%Y-%m-%d %H:%M"@),
    )
}

impl TimeObj {
    /// The instant that the time object gives, if it gives one.
    pub open spec fn instant(self) -> Option<Timestamp> {
        match self.utc {
            Some(text) => instant_of(trimmed(text@)),
            None => None,
        }
    }

    /// The instant that the time object gives, if it gives one.
    pub fn parse(&self) -> (r: Option<Timestamp>)
        ensures
            r == self.instant(),
            r matches Some(t) ==> t.wf(),
    {
        match &self.utc {
            Some(text) => {
                let raw = trim(text.as_str());
                pick_first(
                    parse_rfc3339(raw),
                    parse_formatted(raw, "%Y-%m-%d %H:%M:%SZ"),
                    parse_formatted(raw, "%Y-%m-%d %H:%MZ"),
                    parse_formatted(raw, "%Y-%m-%d %H:%M"),
                )
            },
            None => None,
        }
    }
}

/// The instant of an optional time object.
pub open spec fn optional_instant(t: Option<TimeObj>) -> Option<Timestamp> {
    match t {
        Some(time) => time.instant(),
        None => None,
    }
}

/// The instant of an optional time object.
fn parse_optional(t: &Option<TimeObj>) -> (r: Option<Timestamp>)
    ensures
        r == optional_instant(*t),
        r matches Some(i) ==> i.wf(),
{
    match t {
        Some(time) => time.parse(),
        None => None,
    }
}

impl Movement {
    /// The scheduled time.
    pub open spec fn scheduled_instant(self) -> Option<Timestamp> {
        optional_instant(self.scheduled_time)
    }

    /// Best available "real" time, most authoritative first.
    pub open spec fn estimated_instant(self) -> Option<Timestamp> {
        first_instant(
            optional_instant(self.actual_time),
            optional_instant(self.runway_time),
            optional_instant(self.revised_time),
            optional_instant(self.predicted_time),
        )
    }

    /// The scheduled time.
    pub fn scheduled(&self) -> (r: Option<Timestamp>)
        ensures
            r == self.scheduled_instant(),
            r matches Some(t) ==> t.wf(),
    {
        parse_optional(&self.scheduled_time)
    }

    /// Best available "real" time, most authoritative first.
    pub fn estimated(&self) -> (r: Option<Timestamp>)
        ensures
            r == self.estimated_instant(),
            r matches Some(t) ==> t.wf(),
    {
        pick_first(
            parse_optional(&self.actual_time),
            parse_optional(&self.runway_time),
            parse_optional(&self.revised_time),
            parse_optional(&self.predicted_time),
        )
    }
}

/// The airport and the two times of one end of a flight.
#[derive(Debug)]
pub struct Stop {
    pub airport: Option<Airport>,
    pub scheduled: Option<Timestamp>,
    pub estimated: Option<Timestamp>,
}

impl Stop {
    /// Whether both times are instants that can be computed with.
    pub open spec fn wf(self) -> bool {
        &&& self.scheduled matches Some(t) ==> t.wf()
        &&& self.estimated matches Some(t) ==> t.wf()
    }
}

/// The minutes by which one time is later than another, if both are known.
pub open spec fn delay_of(scheduled: Option<Timestamp>, estimated: Option<Timestamp>) -> Option<i64> {
    match (scheduled, estimated) {
        (Some(s), Some(e)) => Some(whole_minutes(nanos_between(s, e)) as i64),
        _ => None,
    }
}

/// A delay is the number of whole minutes from the scheduled to the estimated time, for any two
/// instants: it always fits.
pub proof fn law_delay_is_exact(scheduled: Timestamp, estimated: Timestamp)
    ensures
        delay_of(Some(scheduled), Some(estimated)) is Some,
        delay_of(Some(scheduled), Some(estimated))->0 == whole_minutes(
            nanos_between(scheduled, estimated),
        ),
{
}

/// Swapping the two times turns a delay into an equal lead.
pub proof fn law_delay_is_antisymmetric(scheduled: Timestamp, estimated: Timestamp)
    ensures
        whole_minutes(nanos_between(estimated, scheduled)) == -whole_minutes(
            nanos_between(scheduled, estimated),
        ),
{
}

/// A flight's information, given what is known of its two ends.
pub open spec fn flight_info_of(departure: Option<Stop>, arrival: Option<Stop>) -> FlightInfo {
    FlightInfo {
        origin: match departure {
            Some(stop) => stop.airport,
            None => None,
        },
        scheduled_departure: match departure {
            Some(stop) => stop.scheduled,
            None => None,
        },
        actual_departure: match departure {
            Some(stop) => stop.estimated,
            None => None,
        },
        destination: match arrival {
            Some(stop) => stop.airport,
            None => None,
        },
        scheduled_arrival: match arrival {
            Some(stop) => stop.scheduled,
            None => None,
        },
        estimated_arrival: match arrival {
            Some(stop) => stop.estimated,
            None => None,
        },
        delay_minutes: match arrival {
            Some(stop) => delay_of(stop.scheduled, stop.estimated),
            None => None,
        },
    }
}

/// A flight's information, given what is known of its two ends.
pub fn flight_info_from(departure: Option<Stop>, arrival: Option<Stop>) -> (r: FlightInfo)
    requires
        arrival matches Some(stop) ==> stop.wf(),
    ensures
        r == flight_info_of(departure, arrival),
{
    let mut info = FlightInfo::default();
    if let Some(stop) = departure {
        info.scheduled_departure = stop.scheduled;
        info.actual_departure = stop.estimated;
        info.origin = stop.airport;
    }
    if let Some(stop) = arrival {
        info.scheduled_arrival = stop.scheduled;
        info.estimated_arrival = stop.estimated;
        if let (Some(s), Some(e)) = (stop.scheduled, stop.estimated) {
            info.delay_minutes = Some(minutes_between(s, e));
        }
        info.destination = stop.airport;
    }
    info
}

/// What a movement says of its end of a flight.
pub open spec fn stop_of(m: Option<Movement>) -> Option<Stop> {
    match m {
        Some(movement) => Some(
            Stop {
                airport: airport_of(movement.airport),
                scheduled: movement.scheduled_instant(),
                estimated: movement.estimated_instant(),
            },
        ),
        None => None,
    }
}

/// What a movement says of its end of a flight.
fn to_stop(m: Option<Movement>) -> (r: Option<Stop>)
    ensures
        r == stop_of(m),
        r matches Some(stop) ==> stop.wf(),
{
    match m {
        Some(movement) => {
            let scheduled = movement.scheduled();
            let estimated = movement.estimated();
            Some(Stop { airport: to_airport(movement.airport), scheduled, estimated })
        },
        None => None,
    }
}

/// Build a `FlightInfo` from a single flight movement.
pub fn to_flight_info(flight: Flight) -> (r: FlightInfo)
    ensures
        r == flight_info_of(stop_of(flight.departure), stop_of(flight.arrival)),
{
    let departure = to_stop(flight.departure);
    let arrival = to_stop(flight.arrival);
    flight_info_from(departure, arrival)
}

impl AeroDataBoxStatus {
    /// What the answer says of the flight: the information of the first movement, unless it is
    /// empty.
    pub fn enrich(flights: Vec<Flight>) -> (r: Option<FlightInfo>)
        ensures
            r == if flights@.len() > 0 {
                FlightInfo::useful(
                    flight_info_of(stop_of(flights@[0].departure), stop_of(flights@[0].arrival)),
                )
            } else {
                None
            },
    {
        let mut flights: Vec<Flight> = flights;
        if flights.len() > 0 {
            to_flight_info(flights.remove(0)).unless_empty()
        } else {
            None
        }
    }
}

} // verus!
