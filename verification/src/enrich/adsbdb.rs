//! Route enrichment via adsbdb.com: free, no API key.
//!
//! `GET https://api.adsbdb.com/v0/callsign/{callsign}` gives
//! `{ "response": { "flightroute": { "origin": {...}, "destination": {...} } } }`.
//! For an unrecognised callsign the API returns `{ "response": "unknown callsign" }`.
use crate::model::{Airport, FlightInfo};
use crate::text::{trim, trimmed};
use vstd::prelude::*;
use vstd::string::*;

verus! {

/// The adsbdb API.
#[derive(Debug)]
pub struct AdsbdbRoute {
    pub base_url: String,
}

impl AdsbdbRoute {
    pub fn new() -> (r: Self)
        ensures
            r.base_url@ == "https://api.adsbdb.com/v0"@,
    {
        AdsbdbRoute { base_url: String::from_str("https://api.adsbdb.com/v0") }
    }

    /// The URL that asks for a callsign.
    pub fn request_url(&self, callsign: &str) -> (r: String)
        ensures
            r@ == self.base_url@ + "/callsign/"@ + trimmed(callsign@),
    {
        let mut r = self.base_url.clone();
        r.append("/callsign/");
        r.append(trim(callsign));
        r
    }
}

/// The answer: a route on success, or anything else, e.g. the bare string `"unknown callsign"`.
#[derive(Debug)]
pub enum ResponseField {
    Route { flightroute: FlightRoute },
    Other,
}

#[derive(Debug)]
pub struct FlightRoute {
    pub origin: Option<RawAirport>,
    pub destination: Option<RawAirport>,
}

/// An airport as adsbdb writes it.
#[derive(Debug)]
pub struct RawAirport {
    pub icao_code: Option<String>,
    pub iata_code: Option<String>,
    pub name: Option<String>,
}

impl From<RawAirport> for Airport {
    fn from(a: RawAirport) -> (r: Self) {
        Airport { icao: a.icao_code, iata: a.iata_code, name: a.name }
    }
}

impl vstd::std_specs::convert::FromSpecImpl<RawAirport> for Airport {
    open spec fn obeys_from_spec() -> bool {
        true
    }

    open spec fn from_spec(a: RawAirport) -> Airport {
        Airport { icao: a.icao_code, iata: a.iata_code, name: a.name }
    }
}

/// An optional airport in the shared model.
pub open spec fn airport_of(a: Option<RawAirport>) -> Option<Airport> {
    match a {
        Some(raw) => Some(Airport { icao: raw.icao_code, iata: raw.iata_code, name: raw.name }),
        None => None,
    }
}

/// An optional airport in the shared model.
fn to_airport(a: Option<RawAirport>) -> (r: Option<Airport>)
    ensures
        r == airport_of(a),
{
    match a {
        Some(raw) => Some(Airport::from(raw)),
        None => None,
    }
}

impl AdsbdbRoute {
    /// What the answer says of the flight: its route, unless that has neither end.
    pub fn enrich(response: ResponseField) -> (r: Option<FlightInfo>)
        ensures
            r == match response {
                ResponseField::Route { flightroute } => FlightInfo::useful(
                    FlightInfo {
                        origin: airport_of(flightroute.origin),
                        destination: airport_of(flightroute.destination),
                        ..FlightInfo::nothing()
                    },
                ),
                ResponseField::Other => None,
            },
    {
        match response {
            ResponseField::Route { flightroute } => {
                let info = FlightInfo {
                    origin: to_airport(flightroute.origin),
                    destination: to_airport(flightroute.destination),
                    scheduled_departure: None,
                    scheduled_arrival: None,
                    estimated_arrival: None,
                    actual_departure: None,
                    delay_minutes: None,
                };
                info.unless_empty()
            },
            ResponseField::Other => None,
        }
    }
}

} // verus!
