//! Core data types shared by the engine, the sources, the enrichers and the frontends.
use crate::double::Double;
use crate::text::{copy_optional, optional};
use crate::time::Timestamp;
use vstd::prelude::*;

verus! {

/// A single aircraft as a position source reports it.
///
/// Only fields that ADS-B feeds reliably carry are required; the rest are optional because ground
/// traffic and partial messages often omit them.
#[derive(Debug)]
pub struct Aircraft {
    /// ICAO 24-bit address as a lowercase hex string, e.g. `"4ca7b5"`. Stable identity.
    pub hex: String,
    /// Trimmed callsign / flight id, e.g. `"BAW123"`. `None` if the aircraft transmits none.
    pub callsign: Option<String>,
    pub lat: Double,
    pub lon: Double,
    /// Barometric altitude in feet. `None` when on the ground or not reported.
    pub altitude_ft: Option<Double>,
    /// Ground speed in knots.
    pub ground_speed_kt: Option<Double>,
    /// True track over ground in degrees.
    pub track_deg: Option<Double>,
    /// Aircraft type designator, e.g. `"A320"`.
    pub type_code: Option<String>,
    /// Registration / tail number, e.g. `"G-EUYB"`.
    pub registration: Option<String>,
    /// Mode A squawk code.
    pub squawk: Option<String>,
}

/// What an [`Aircraft`] says, with its texts as character sequences.
pub struct AircraftView {
    pub hex: Seq<char>,
    pub callsign: Option<Seq<char>>,
    pub lat: Double,
    pub lon: Double,
    pub altitude_ft: Option<Double>,
    pub ground_speed_kt: Option<Double>,
    pub track_deg: Option<Double>,
    pub type_code: Option<Seq<char>>,
    pub registration: Option<Seq<char>>,
    pub squawk: Option<Seq<char>>,
}

impl View for Aircraft {
    type V = AircraftView;

    open spec fn view(&self) -> AircraftView {
        AircraftView {
            hex: self.hex@,
            callsign: optional(self.callsign),
            lat: self.lat,
            lon: self.lon,
            altitude_ft: self.altitude_ft,
            ground_speed_kt: self.ground_speed_kt,
            track_deg: self.track_deg,
            type_code: optional(self.type_code),
            registration: optional(self.registration),
            squawk: optional(self.squawk),
        }
    }
}

impl Clone for Aircraft {
    fn clone(&self) -> (r: Self)
        ensures
            r == *self,
    {
        Aircraft {
            hex: self.hex.clone(),
            callsign: copy_optional(&self.callsign),
            lat: self.lat,
            lon: self.lon,
            altitude_ft: self.altitude_ft,
            ground_speed_kt: self.ground_speed_kt,
            track_deg: self.track_deg,
            type_code: copy_optional(&self.type_code),
            registration: copy_optional(&self.registration),
            squawk: copy_optional(&self.squawk),
        }
    }
}

/// An airport, as an enricher resolves it.
#[derive(Debug)]
pub struct Airport {
    pub icao: Option<String>,
    pub iata: Option<String>,
    pub name: Option<String>,
}

impl Clone for Airport {
    fn clone(&self) -> (r: Self)
        ensures
            r == *self,
    {
        Airport {
            icao: copy_optional(&self.icao),
            iata: copy_optional(&self.iata),
            name: copy_optional(&self.name),
        }
    }
}

impl Airport {
    /// The code that an airport goes by: IATA, or else ICAO.
    pub open spec fn code(self) -> Option<Seq<char>> {
        match self.iata {
            Some(iata) => Some(iata@),
            None => optional(self.icao),
        }
    }

    /// The code that the airport goes by: IATA, or else ICAO.
    pub fn short_code(&self) -> (r: Option<String>)
        ensures
            optional(r) == self.code(),
    {
        match &self.iata {
            Some(iata) => Some(iata.clone()),
            None => copy_optional(&self.icao),
        }
    }
}

/// Route and schedule of a flight, assembled by one or more enrichers.
///
/// Any field may be absent, depending on which enrichers are configured and what they could
/// resolve.
#[derive(Debug)]
pub struct FlightInfo {
    pub origin: Option<Airport>,
    pub destination: Option<Airport>,
    pub scheduled_departure: Option<Timestamp>,
    pub scheduled_arrival: Option<Timestamp>,
    pub estimated_arrival: Option<Timestamp>,
    pub actual_departure: Option<Timestamp>,
    /// Arrival delay in minutes (positive = late).
    pub delay_minutes: Option<i64>,
}

/// The first of two options that holds something.
pub open spec fn first_of<T>(a: Option<T>, b: Option<T>) -> Option<T> {
    if a is Some {
        a
    } else {
        b
    }
}

/// A copy of an optional airport.
pub fn copy_airport(a: &Option<Airport>) -> (r: Option<Airport>)
    ensures
        r == *a,
{
    match a {
        Some(airport) => Some(airport.clone()),
        None => None,
    }
}

impl Clone for FlightInfo {
    fn clone(&self) -> (r: Self)
        ensures
            r == *self,
    {
        FlightInfo {
            origin: copy_airport(&self.origin),
            destination: copy_airport(&self.destination),
            scheduled_departure: self.scheduled_departure,
            scheduled_arrival: self.scheduled_arrival,
            estimated_arrival: self.estimated_arrival,
            actual_departure: self.actual_departure,
            delay_minutes: self.delay_minutes,
        }
    }
}

impl Default for FlightInfo {
    fn default() -> (r: Self)
        ensures
            r == FlightInfo::nothing(),
    {
        FlightInfo {
            origin: None,
            destination: None,
            scheduled_departure: None,
            scheduled_arrival: None,
            estimated_arrival: None,
            actual_departure: None,
            delay_minutes: None,
        }
    }
}

impl FlightInfo {
    /// The information without any content.
    pub open spec fn nothing() -> FlightInfo {
        FlightInfo {
            origin: None,
            destination: None,
            scheduled_departure: None,
            scheduled_arrival: None,
            estimated_arrival: None,
            actual_departure: None,
            delay_minutes: None,
        }
    }

    /// `a` with the fields that it lacks taken from `b`.
    pub open spec fn merged(a: FlightInfo, b: FlightInfo) -> FlightInfo {
        FlightInfo {
            origin: first_of(a.origin, b.origin),
            destination: first_of(a.destination, b.destination),
            scheduled_departure: first_of(a.scheduled_departure, b.scheduled_departure),
            scheduled_arrival: first_of(a.scheduled_arrival, b.scheduled_arrival),
            estimated_arrival: first_of(a.estimated_arrival, b.estimated_arrival),
            actual_departure: first_of(a.actual_departure, b.actual_departure),
            delay_minutes: first_of(a.delay_minutes, b.delay_minutes),
        }
    }

    /// True when this carries no useful information at all.
    pub fn is_empty(&self) -> (r: bool)
        ensures
            r == (*self == FlightInfo::nothing()),
    {
        self.origin.is_none() && self.destination.is_none() && self.scheduled_departure.is_none()
            && self.scheduled_arrival.is_none() && self.estimated_arrival.is_none()
            && self.actual_departure.is_none() && self.delay_minutes.is_none()
    }

    /// Merge another `FlightInfo` into this one, filling only the fields that it does not have.
    pub fn merge(&mut self, other: FlightInfo)
        ensures
            *final(self) == FlightInfo::merged(*old(self), other),
    {
        if self.origin.is_none() {
            self.origin = other.origin;
        }
        if self.destination.is_none() {
            self.destination = other.destination;
        }
        if self.scheduled_departure.is_none() {
            self.scheduled_departure = other.scheduled_departure;
        }
        if self.scheduled_arrival.is_none() {
            self.scheduled_arrival = other.scheduled_arrival;
        }
        if self.estimated_arrival.is_none() {
            self.estimated_arrival = other.estimated_arrival;
        }
        if self.actual_departure.is_none() {
            self.actual_departure = other.actual_departure;
        }
        if self.delay_minutes.is_none() {
            self.delay_minutes = other.delay_minutes;
        }
    }

    /// The information, unless it is empty.
    pub fn unless_empty(self) -> (r: Option<FlightInfo>)
        ensures
            r == FlightInfo::useful(self),
    {
        if self.is_empty() {
            None
        } else {
            Some(self)
        }
    }

    /// The information, unless it is empty.
    pub open spec fn useful(info: FlightInfo) -> Option<FlightInfo> {
        if info == FlightInfo::nothing() {
            None
        } else {
            Some(info)
        }
    }
}

/// Merging keeps every field that was there before: what came first takes precedence.
pub proof fn law_merge_keeps_present_fields(a: FlightInfo, b: FlightInfo)
    ensures
        a.origin is Some ==> FlightInfo::merged(a, b).origin == a.origin,
        a.destination is Some ==> FlightInfo::merged(a, b).destination == a.destination,
        a.scheduled_departure is Some ==> FlightInfo::merged(a, b).scheduled_departure
            == a.scheduled_departure,
        a.scheduled_arrival is Some ==> FlightInfo::merged(a, b).scheduled_arrival
            == a.scheduled_arrival,
        a.estimated_arrival is Some ==> FlightInfo::merged(a, b).estimated_arrival
            == a.estimated_arrival,
        a.actual_departure is Some ==> FlightInfo::merged(a, b).actual_departure
            == a.actual_departure,
        a.delay_minutes is Some ==> FlightInfo::merged(a, b).delay_minutes == a.delay_minutes,
{
}

/// Merging is associative, and merging with nothing on either side changes nothing.
pub proof fn law_merge_is_a_monoid(a: FlightInfo, b: FlightInfo, c: FlightInfo)
    ensures
        FlightInfo::merged(FlightInfo::merged(a, b), c) == FlightInfo::merged(
            a,
            FlightInfo::merged(b, c),
        ),
        FlightInfo::merged(a, FlightInfo::nothing()) == a,
        FlightInfo::merged(FlightInfo::nothing(), a) == a,
{
}

/// Merging the same information a second time changes nothing.
pub proof fn law_merge_is_idempotent(a: FlightInfo, b: FlightInfo)
    ensures
        FlightInfo::merged(FlightInfo::merged(a, b), b) == FlightInfo::merged(a, b),
        FlightInfo::merged(a, a) == a,
{
}

/// A merge is empty exactly when both of its sides are.
pub proof fn law_merge_is_empty_iff_both_are(a: FlightInfo, b: FlightInfo)
    ensures
        FlightInfo::merged(a, b) == FlightInfo::nothing() <==> a == FlightInfo::nothing() && b
            == FlightInfo::nothing(),
{
}

/// What happened to an aircraft relative to a watched region.
#[derive(Debug, Clone, Copy, PartialEq, Eq, Structural)]
pub enum EventKind {
    /// Aircraft just appeared inside the region.
    Entered,
    /// Aircraft remains inside the region (position refreshed).
    Updated,
    /// Aircraft left the region (or stopped being reported).
    Left,
}

/// A spotting event, as the engine broadcasts it to every subscribed frontend.
#[derive(Debug)]
pub struct SpottingEvent {
    pub kind: EventKind,
    /// Name of the region this event pertains to.
    pub region: String,
    pub aircraft: Aircraft,
    /// Enrichment, if it was resolved (only populated on `Entered`).
    pub flight_info: Option<FlightInfo>,
    pub observed_at: Timestamp,
}

impl Clone for SpottingEvent {
    fn clone(&self) -> (r: Self)
        ensures
            r == *self,
    {
        SpottingEvent {
            kind: self.kind,
            region: self.region.clone(),
            aircraft: self.aircraft.clone(),
            flight_info: match &self.flight_info {
                Some(info) => Some(info.clone()),
                None => None,
            },
            observed_at: self.observed_at,
        }
    }
}

} // verus!
