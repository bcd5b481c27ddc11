//! The network source: requests and records.
use planespotter::double::Double;
use planespotter::model::Aircraft;
use planespotter::source::network::{aircraft_in, query_radius, AltitudeField, RawAircraft};
use planespotter::source::NetworkSource;
use serde_json::Value;

fn d(x: f64) -> Double {
    Double { bits: x.to_bits() }
}

fn text(v: &Value, key: &str) -> Option<String> {
    v.get(key).and_then(Value::as_str).map(|s| s.to_string())
}

fn number(v: &Value, key: &str) -> Option<Double> {
    v.get(key).and_then(Value::as_f64).map(d)
}

fn altitude(v: Option<&Value>) -> AltitudeField {
    match v {
        Some(Value::Number(n)) => {
            if let Some(u) = n.as_u64() {
                AltitudeField::Unsigned(u)
            } else if let Some(i) = n.as_i64() {
                AltitudeField::Negative(i)
            } else {
                AltitudeField::Float(d(n.as_f64().unwrap()))
            }
        }
        _ => AltitudeField::Other,
    }
}

fn records(json: &str) -> Vec<RawAircraft> {
    let v: Value = serde_json::from_str(json).unwrap();
    v["ac"]
        .as_array()
        .unwrap()
        .iter()
        .map(|a| RawAircraft {
            hex: text(a, "hex"),
            flight: text(a, "flight"),
            lat: number(a, "lat"),
            lon: number(a, "lon"),
            alt_baro: altitude(a.get("alt_baro")),
            gs: number(a, "gs"),
            track: number(a, "track"),
            t: text(a, "t"),
            r: text(a, "r"),
            squawk: text(a, "squawk"),
        })
        .collect()
}

fn blank() -> RawAircraft {
    RawAircraft {
        hex: Some("ABC".to_string()),
        flight: None,
        lat: Some(d(1.0)),
        lon: Some(d(2.0)),
        alt_baro: AltitudeField::Other,
        gs: None,
        track: None,
        t: None,
        r: None,
        squawk: None,
    }
}

#[test]
fn skips_records_without_position() {
    let json = r#"{ "ac": [
            { "hex": "ABC123", "flight": "BAW123 ", "lat": 51.4, "lon": -0.4, "alt_baro": 3000, "t": "A320", "r": "G-EUYB" },
            { "hex": "DEF456", "flight": "NOPOS" },
            { "flight": "NOHEX", "lat": 1.0, "lon": 2.0 }
        ] }"#;
    let aircraft: Vec<Aircraft> =
        records(json).into_iter().filter_map(RawAircraft::into_aircraft).collect();
    assert_eq!(aircraft.len(), 1);
    let a = &aircraft[0];
    assert_eq!(a.hex, "abc123");
    assert_eq!(a.callsign.as_deref(), Some("BAW123")); // trimmed
    assert_eq!(a.altitude_ft, Some(d(3000.0)));
    assert_eq!(a.type_code.as_deref(), Some("A320"));
    assert_eq!(aircraft_in(records(json)).len(), 1);
}

#[test]
fn handles_ground_altitude_string() {
    let json = r#"{ "ac": [ { "hex": "abc", "lat": 1.0, "lon": 2.0, "alt_baro": "ground" } ] }"#;
    let a = records(json).into_iter().filter_map(RawAircraft::into_aircraft).next().unwrap();
    assert_eq!(a.altitude_ft, None); // "ground" -> not a number
}

#[test]
fn every_field_is_carried_over() {
    let json = r#"{ "ac": [ { "hex": "4CA7B5", "flight": "  RYR1AB\t", "lat": 53.5, "lon": -6.25,
        "alt_baro": -25, "gs": 120.5, "track": 270, "t": "B738", "r": "EI-ABC", "squawk": "7000" } ] }"#;
    let aircraft = aircraft_in(records(json));
    let a = &aircraft[0];
    assert_eq!(a.hex, "4ca7b5");
    assert_eq!(a.callsign.as_deref(), Some("RYR1AB"));
    assert_eq!((a.lat, a.lon), (d(53.5), d(-6.25)));
    assert_eq!(a.altitude_ft, Some(d(-25.0)));
    assert_eq!(a.ground_speed_kt, Some(d(120.5)));
    assert_eq!(a.track_deg, Some(d(270.0)));
    assert_eq!(a.type_code.as_deref(), Some("B738"));
    assert_eq!(a.registration.as_deref(), Some("EI-ABC"));
    assert_eq!(a.squawk.as_deref(), Some("7000"));
}

#[test]
fn a_blank_callsign_is_none() {
    let mut raw = blank();
    raw.flight = Some(" \u{2003} ".to_string());
    assert_eq!(raw.into_aircraft().unwrap().callsign, None);
    assert_eq!(blank().into_aircraft().unwrap().callsign, None);
}

#[test]
fn records_keep_their_order() {
    let mut second = blank();
    second.hex = Some("DEF".to_string());
    let mut lost = blank();
    lost.lon = None;
    let list = aircraft_in(vec![blank(), lost, second]);
    let hexes: Vec<&str> = list.iter().map(|a| a.hex.as_str()).collect();
    assert_eq!(hexes, vec!["abc", "def"]);
}

#[test]
fn a_given_address_and_altitude_are_taken_over() {
    let a = blank().describe("lower".to_string(), Some(d(12.0))).unwrap();
    assert_eq!(a.hex, "lower");
    assert_eq!(a.altitude_ft, Some(d(12.0)));
    let mut lost = blank();
    lost.lat = None;
    assert!(lost.describe("lower".to_string(), None).is_none());
}

#[test]
fn altitudes_are_read_as_doubles() {
    assert_eq!(AltitudeField::Unsigned(3000).to_feet(), Some(d(3000.0)));
    assert_eq!(AltitudeField::Unsigned(0).to_feet(), Some(d(0.0)));
    assert_eq!(AltitudeField::Unsigned(u64::MAX).to_feet(), Some(d(u64::MAX as f64)));
    assert_eq!(AltitudeField::Negative(-75).to_feet(), Some(d(-75.0)));
    assert_eq!(AltitudeField::Negative(i64::MIN).to_feet(), Some(d(i64::MIN as f64)));
    assert_eq!(AltitudeField::Float(d(812.5)).to_feet(), Some(d(812.5)));
    assert_eq!(AltitudeField::Other.to_feet(), None);
}

#[test]
fn the_query_radius_is_clamped_and_rounded_up() {
    assert_eq!(query_radius(d(6.0)), 6);
    assert_eq!(query_radius(d(6.000001)), 7);
    assert_eq!(query_radius(d(249.5)), 250);
    for x in [
        f64::NEG_INFINITY,
        -3.0,
        -0.0,
        0.0,
        5e-324,
        0.5,
        1.0,
        1.0000000000000002,
        1.5,
        1.9999999999999998,
        2.0,
        2.0000000000000004,
        3.0,
        4.2,
        7.99,
        8.0,
        15.5,
        16.0,
        31.25,
        63.0,
        64.1,
        100.0,
        127.5,
        128.0,
        200.7,
        249.0,
        249.99999999999997,
        250.0,
        250.00000000000003,
        1e300,
        f64::INFINITY,
        f64::NAN,
    ] {
        assert_eq!(query_radius(d(x)), x.clamp(1.0, 250.0).ceil() as u64, "radius {x}");
    }
}

#[test]
fn the_request_names_point_and_radius() {
    let source = NetworkSource::new("https://api.airplanes.live/v2//");
    assert_eq!(source.base_url, "https://api.airplanes.live/v2");
    assert_eq!(
        source.request_url("51.4775", "-0.4614", d(5.2)),
        "https://api.airplanes.live/v2/point/51.4775/-0.4614/6"
    );
    assert_eq!(NetworkSource::new("a/b").base_url, "a/b");
}
