//! Enrichers: answers, merging and caching.
use planespotter::enrich::adsbdb::{self, FlightRoute, ResponseField};
use planespotter::enrich::aerodatabox::{
    self, flight_info_from, pick_first, to_flight_info, Flight, Movement, Stop, TimeObj,
};
use planespotter::enrich::{
    reply_to_status, AdsbdbRoute, AeroDataBoxStatus, CachingEnricher, CompositeEnricher, Outcome,
    Provider, Reply,
};
use planespotter::model::{Airport, FlightInfo};
use planespotter::time::Timestamp;
use serde_json::Value;

fn text(v: &Value, key: &str) -> Option<String> {
    v.get(key).and_then(Value::as_str).map(|s| s.to_string())
}

fn adsbdb_airport(v: Option<&Value>) -> Option<adsbdb::RawAirport> {
    v.filter(|a| a.is_object()).map(|a| adsbdb::RawAirport {
        icao_code: text(a, "icao_code"),
        iata_code: text(a, "iata_code"),
        name: text(a, "name"),
    })
}

fn response(json: &str) -> ResponseField {
    let env: Value = serde_json::from_str(json).unwrap();
    match env["response"].get("flightroute") {
        Some(route) => ResponseField::Route {
            flightroute: FlightRoute {
                origin: adsbdb_airport(route.get("origin")),
                destination: adsbdb_airport(route.get("destination")),
            },
        },
        None => ResponseField::Other,
    }
}

fn time_obj(v: Option<&Value>) -> Option<TimeObj> {
    v.map(|t| TimeObj { utc: text(t, "utc") })
}

fn movement(v: Option<&Value>) -> Option<Movement> {
    v.map(|m| Movement {
        airport: m.get("airport").map(|a| aerodatabox::RawAirport {
            icao: text(a, "icao"),
            iata: text(a, "iata"),
            name: text(a, "name"),
        }),
        scheduled_time: time_obj(m.get("scheduledTime")),
        revised_time: time_obj(m.get("revisedTime")),
        predicted_time: time_obj(m.get("predictedTime")),
        runway_time: time_obj(m.get("runwayTime")),
        actual_time: time_obj(m.get("actualTime")),
    })
}

fn flights(json: &str) -> Vec<Flight> {
    let v: Value = serde_json::from_str(json).unwrap();
    v.as_array()
        .unwrap()
        .iter()
        .map(|f| Flight { departure: movement(f.get("departure")), arrival: movement(f.get("arrival")) })
        .collect()
}

fn at(utc: &str) -> Option<TimeObj> {
    Some(TimeObj { utc: Some(utc.to_string()) })
}

fn no_times() -> Movement {
    Movement {
        airport: None,
        scheduled_time: None,
        revised_time: None,
        predicted_time: None,
        runway_time: None,
        actual_time: None,
    }
}

fn airport(iata: &str) -> Airport {
    Airport { icao: None, iata: Some(iata.to_string()), name: None }
}

fn route(from: Option<&str>, to: Option<&str>) -> FlightInfo {
    let mut info = FlightInfo::default();
    info.origin = from.map(airport);
    info.destination = to.map(airport);
    info
}

fn delayed(minutes: i64) -> FlightInfo {
    let mut info = FlightInfo::default();
    info.delay_minutes = Some(minutes);
    info
}

fn origin(info: &FlightInfo) -> Option<&str> {
    info.origin.as_ref().and_then(|a| a.iata.as_deref())
}

#[test]
fn parses_known_route() {
    let json = r#"{ "response": { "flightroute": {
            "callsign": "BAW100",
            "origin": { "icao_code": "EGLL", "iata_code": "LHR", "name": "London Heathrow" },
            "destination": { "icao_code": "KJFK", "iata_code": "JFK", "name": "New York JFK" }
        } } }"#;
    match response(json) {
        ResponseField::Route { flightroute } => {
            let o: Airport = flightroute.origin.unwrap().into();
            assert_eq!(o.icao.as_deref(), Some("EGLL"));
            assert_eq!(flightroute.destination.unwrap().iata_code, Some("JFK".into()));
        }
        _ => panic!("expected route"),
    }
}

#[test]
fn parses_unknown_callsign() {
    let json = r#"{ "response": "unknown callsign" }"#;
    assert!(matches!(response(json), ResponseField::Other));
}

#[test]
fn computes_delay_from_revised_arrival() {
    let json = r#"[{
            "departure": {
                "airport": { "icao": "EGLL", "iata": "LHR", "name": "Heathrow" },
                "scheduledTime": { "utc": "2024-01-01 10:00Z" }
            },
            "arrival": {
                "airport": { "icao": "KJFK", "iata": "JFK", "name": "JFK" },
                "scheduledTime": { "utc": "2024-01-01 18:00Z" },
                "revisedTime": { "utc": "2024-01-01 18:14Z" }
            }
        }]"#;
    let info = to_flight_info(flights(json).into_iter().next().unwrap());
    assert_eq!(info.origin.unwrap().iata.as_deref(), Some("LHR"));
    assert_eq!(info.destination.unwrap().icao.as_deref(), Some("KJFK"));
    assert_eq!(info.delay_minutes, Some(14));
}

#[test]
fn parses_rfc3339_time() {
    let t = TimeObj { utc: Some("2024-01-01T18:00:00Z".into()) };
    assert!(t.parse().is_some());
}

#[test]
fn times_are_read_in_four_forms() {
    let noon = Some(Timestamp { secs: 1_704_110_400, nanos: 0 });
    for utc in [
        "2024-01-01T12:00:00Z",
        "2024-01-01T14:00:00+02:00",
        "2024-01-01 12:00:00Z",
        "2024-01-01 12:00Z",
        "2024-01-01 12:00",
        "  2024-01-01 12:00Z\n",
    ] {
        assert_eq!(TimeObj { utc: Some(utc.to_string()) }.parse(), noon, "{utc}");
    }
    let half = TimeObj { utc: Some("2024-01-01T12:00:00.5Z".to_string()) };
    assert_eq!(half.parse(), Some(Timestamp { secs: 1_704_110_400, nanos: 500_000_000 }));
    for utc in ["", "noon", "2024-01-01", "2024-13-01 12:00Z", "2024-01-01 12:00:00"] {
        assert_eq!(TimeObj { utc: Some(utc.to_string()) }.parse(), None, "{utc}");
    }
    assert_eq!(TimeObj { utc: None }.parse(), None);
}

#[test]
fn a_leap_second_is_read_on_top_of_its_predecessor() {
    let t = TimeObj { utc: Some("2016-12-31T23:59:60Z".to_string()) };
    let leap = t.parse().unwrap();
    assert_eq!(leap, Timestamp { secs: 1_483_228_799, nanos: 1_000_000_000 });
    assert!(leap.is_valid());
}

#[test]
fn the_most_authoritative_time_counts() {
    let t = |h: i64| Some(Timestamp { secs: 1_704_067_200 + h * 3600, nanos: 0 });
    let mut m = no_times();
    assert_eq!(m.estimated(), None);
    m.predicted_time = at("2024-01-01 01:00Z");
    assert_eq!(m.estimated(), t(1));
    m.revised_time = at("2024-01-01 02:00Z");
    assert_eq!(m.estimated(), t(2));
    m.runway_time = at("2024-01-01 03:00Z");
    assert_eq!(m.estimated(), t(3));
    m.actual_time = at("2024-01-01 04:00Z");
    assert_eq!(m.estimated(), t(4));
    m.actual_time = at("not a time");
    assert_eq!(m.estimated(), t(3));
    assert_eq!(m.scheduled(), None);
    m.scheduled_time = at("2024-01-01 05:00Z");
    assert_eq!(m.scheduled(), t(5));
    assert_eq!(pick_first(None, t(1), t(2), None), t(1));
    assert_eq!(pick_first(None, None, None, t(2)), t(2));
}

#[test]
fn delays_count_whole_minutes_towards_zero() {
    let delay = |scheduled: Timestamp, estimated: Timestamp| {
        let stop = Stop { airport: None, scheduled: Some(scheduled), estimated: Some(estimated) };
        flight_info_from(None, Some(stop)).delay_minutes
    };
    let t = |secs: i64, nanos: u32| Timestamp { secs, nanos };
    assert_eq!(delay(t(0, 0), t(840, 0)), Some(14));
    assert_eq!(delay(t(0, 0), t(59, 999_999_999)), Some(0));
    assert_eq!(delay(t(59, 999_999_999), t(0, 0)), Some(0));
    assert_eq!(delay(t(0, 1), t(60, 0)), Some(0));
    assert_eq!(delay(t(180, 0), t(0, 0)), Some(-3));
    assert_eq!(delay(t(179, 0), t(0, 0)), Some(-2));
    // A leap second counts where the clock runs past it.
    assert_eq!(delay(t(59, 1_000_000_000), t(119, 0)), Some(1));
    assert_eq!(delay(t(59, 0), t(119, 0)), Some(1));
}

#[test]
fn the_widest_span_of_instants_has_a_delay() {
    let first = Timestamp { secs: planespotter::time::EARLIEST_SECS, nanos: 0 };
    let last = Timestamp { secs: planespotter::time::LATEST_SECS, nanos: 1_999_999_999 };
    assert!(first.is_valid() && last.is_valid());
    let stop = Stop { airport: None, scheduled: Some(first), estimated: Some(last) };
    let minutes = (last.secs - first.secs + 2) / 60;
    assert_eq!(flight_info_from(None, Some(stop)).delay_minutes, Some(minutes));
}

#[test]
fn a_delay_takes_both_times() {
    let stop = |scheduled, estimated| Some(Stop { airport: Some(airport("JFK")), scheduled, estimated });
    let t = Some(Timestamp { secs: 60, nanos: 0 });
    assert_eq!(flight_info_from(None, stop(t, None)).delay_minutes, None);
    assert_eq!(flight_info_from(None, stop(None, t)).delay_minutes, None);
    let info = flight_info_from(stop(t, t), None);
    assert_eq!(info.delay_minutes, None);
    assert_eq!(info.scheduled_departure, t);
    assert_eq!(info.actual_departure, t);
    assert_eq!(origin(&info), Some("JFK"));
    assert!(info.destination.is_none());
}

#[test]
fn the_first_movement_is_taken() {
    assert!(AeroDataBoxStatus::enrich(vec![]).is_none());
    let empty = Flight { departure: Some(no_times()), arrival: None };
    let mut known = no_times();
    known.scheduled_time = at("2024-01-01 05:00Z");
    let second = Flight { departure: Some(known), arrival: None };
    assert!(AeroDataBoxStatus::enrich(vec![empty, second]).is_none());
    let mut known = no_times();
    known.scheduled_time = at("2024-01-01 05:00Z");
    let first = Flight { departure: Some(known), arrival: None };
    assert!(AeroDataBoxStatus::enrich(vec![first]).unwrap().scheduled_departure.is_some());
}

#[test]
fn a_route_without_ends_is_no_information() {
    let info = AdsbdbRoute::enrich(response(
        r#"{ "response": { "flightroute": { "origin": { "iata_code": "LHR" } } } }"#,
    ))
    .unwrap();
    assert_eq!(origin(&info), Some("LHR"));
    assert!(info.destination.is_none());
    let none = response(r#"{ "response": { "flightroute": {} } }"#);
    assert!(AdsbdbRoute::enrich(none).is_none());
    assert!(AdsbdbRoute::enrich(ResponseField::Other).is_none());
}

#[test]
fn requests_name_the_trimmed_callsign() {
    assert_eq!(
        AdsbdbRoute::new().request_url(" BAW100 "),
        "https://api.adsbdb.com/v0/callsign/BAW100"
    );
    let status = AeroDataBoxStatus::new("key".to_string(), "example.com".to_string());
    assert_eq!(status.api_key, "key");
    assert_eq!(status.request_url("BAW100\t"), "https://example.com/flights/callsign/BAW100");
}

#[test]
fn a_missing_callsign_is_no_failure() {
    assert_eq!(reply_to_status(200), Reply::Decode);
    assert_eq!(reply_to_status(304), Reply::Decode);
    assert_eq!(reply_to_status(399), Reply::Decode);
    assert_eq!(reply_to_status(400), Reply::Failed);
    assert_eq!(reply_to_status(404), Reply::Unknown);
    assert_eq!(reply_to_status(429), Reply::Failed);
    assert_eq!(reply_to_status(599), Reply::Failed);
    assert_eq!(reply_to_status(600), Reply::Decode);
}

#[test]
fn merging_fills_only_what_is_missing() {
    let mut a = route(Some("LHR"), None);
    a.merge(route(Some("AMS"), Some("JFK")));
    assert_eq!(origin(&a), Some("LHR"));
    assert_eq!(a.destination.as_ref().unwrap().iata.as_deref(), Some("JFK"));
    a.merge(delayed(7));
    a.merge(delayed(9));
    assert_eq!(a.delay_minutes, Some(7));
    let t = |secs: i64| Some(Timestamp { secs, nanos: 0 });
    let mut times = FlightInfo::default();
    times.scheduled_departure = t(1);
    times.scheduled_arrival = t(2);
    times.estimated_arrival = t(3);
    times.actual_departure = t(4);
    a.merge(times);
    assert_eq!(a.scheduled_departure, t(1));
    assert_eq!(a.scheduled_arrival, t(2));
    assert_eq!(a.estimated_arrival, t(3));
    assert_eq!(a.actual_departure, t(4));
    assert!(!a.is_empty());
    assert!(FlightInfo::default().is_empty());
    assert!(FlightInfo::default().unless_empty().is_none());
    assert!(!delayed(0).is_empty());
}

#[test]
fn providers_are_merged_in_order_and_failures_skipped() {
    let outcomes = vec![
        Outcome::Failed,
        Outcome::Found(route(Some("LHR"), None)),
        Outcome::Unknown,
        Outcome::Found(route(Some("AMS"), Some("JFK"))),
        Outcome::Found(delayed(5)),
    ];
    let info = CompositeEnricher::enrich(outcomes).unwrap();
    assert_eq!(origin(&info), Some("LHR"));
    assert_eq!(info.destination.unwrap().iata.as_deref(), Some("JFK"));
    assert_eq!(info.delay_minutes, Some(5));
    assert!(CompositeEnricher::enrich(vec![]).is_none());
    assert!(CompositeEnricher::enrich(vec![Outcome::Failed, Outcome::Unknown]).is_none());
    assert!(CompositeEnricher::enrich(vec![Outcome::Found(FlightInfo::default())]).is_none());
}

#[test]
fn a_composite_knows_its_providers() {
    assert!(CompositeEnricher::new(vec![]).is_empty());
    let one = CompositeEnricher::new(vec![Provider::Adsbdb(AdsbdbRoute::new())]);
    assert!(!one.is_empty());
    assert_eq!(one.enrichers.len(), 1);
}

#[test]
fn the_cache_answers_until_entries_expire() {
    let mut c = CachingEnricher::new(CompositeEnricher::new(vec![]), 300);
    assert!(c.lookup("BAW1", 0).is_none());
    c.store("BAW1", 1000, &Outcome::Found(delayed(3)));
    c.store("BAW2", 1000, &Outcome::Unknown);
    assert_eq!(c.lookup("BAW1", 1299).unwrap().unwrap().delay_minutes, Some(3));
    assert!(c.lookup("BAW2", 1299).unwrap().is_none());
    assert!(c.lookup("BAW1", 1300).is_none());
    assert!(c.lookup("BAW1", 10).unwrap().is_some()); // a clock never counts backwards
    assert!(c.lookup("BAW3", 1000).is_none());
    c.store("BAW1", 2000, &Outcome::Found(delayed(4)));
    assert_eq!(c.lookup("BAW1", 2299).unwrap().unwrap().delay_minutes, Some(4));
}

#[test]
fn failures_are_not_cached() {
    let mut c = CachingEnricher::new(CompositeEnricher::new(vec![]), 300);
    c.store("BAW1", 0, &Outcome::Failed);
    assert!(c.lookup("BAW1", 0).is_none());
    c.store("BAW1", 0, &Outcome::Found(delayed(3)));
    c.store("BAW1", 100, &Outcome::Failed);
    assert!(c.lookup("BAW1", 299).unwrap().is_some());
    assert!(c.lookup("BAW1", 300).is_none());
}

#[test]
fn an_answer_is_kept_also_when_it_is_empty() {
    let mut c = CachingEnricher::new(CompositeEnricher::new(vec![]), 300);
    assert!(c.enrich("BAW1", 5, vec![Outcome::Failed]).is_none());
    assert!(c.lookup("BAW1", 304).unwrap().is_none());
    assert!(c.lookup("BAW1", 305).is_none());
    let found = c.enrich("BAW1", 400, vec![Outcome::Found(delayed(8))]).unwrap();
    assert_eq!(found.delay_minutes, Some(8));
    assert_eq!(c.lookup("BAW1", 400).unwrap().unwrap().delay_minutes, Some(8));
}
