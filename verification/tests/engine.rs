//! The engine: what it is built from, and what happens between polls.
use planespotter::config::{
    BBoxConfig, CircleConfig, Config, ConfigError, EnrichConfig, RegionConfig, SourceConfig,
};
use planespotter::double::Double;
use planespotter::engine::{aircraft_inside, events, Engine, Observation, PendingEvent, ENRICH_TTL_NANOS};
use planespotter::enrich::Provider;
use planespotter::geo::{Measured, Region, WatchedRegion};
use planespotter::model::{Aircraft, EventKind, FlightInfo};
use planespotter::time::Timestamp;

fn d(x: f64) -> Double {
    Double { bits: x.to_bits() }
}

fn plane(hex: &str, lat: f64) -> Aircraft {
    Aircraft {
        hex: hex.to_string(),
        callsign: None,
        lat: d(lat),
        lon: d(0.5),
        altitude_ft: None,
        ground_speed_kt: None,
        track_deg: None,
        type_code: None,
        registration: None,
        squawk: None,
    }
}

fn seen(hex: &str, lat: f64) -> Observation {
    Observation { aircraft: plane(hex, lat), measured: Measured::Nothing }
}

fn box_region(name: &str) -> RegionConfig {
    RegionConfig {
        name: name.to_string(),
        circle: None,
        polygon: None,
        bbox: Some(BBoxConfig { min_lat: d(0.0), min_lon: d(0.0), max_lat: d(1.0), max_lon: d(1.0) }),
        geojson: None,
        min_alt_ft: None,
        max_alt_ft: None,
    }
}

fn config(names: &[&str]) -> Config {
    Config {
        poll_interval_secs: 7,
        source: SourceConfig::default(),
        enrich: EnrichConfig::default(),
        regions: names.iter().map(|n| box_region(n)).collect(),
    }
}

fn kinds(events: &[PendingEvent]) -> Vec<(EventKind, String)> {
    events.iter().map(|e| (e.kind, e.aircraft.hex.clone())).collect()
}

#[test]
fn an_engine_is_built_from_its_config() {
    let mut cfg = config(&["a", "b"]);
    cfg.source.base_url = "https://example.com/v2/".to_string();
    cfg.enrich.adsbdb = true;
    cfg.enrich.aerodatabox_key = Some("key".to_string());
    cfg.enrich.aerodatabox_host = "host".to_string();
    let engine = Engine::from_config(&cfg).unwrap();
    assert_eq!(engine.source.base_url, "https://example.com/v2");
    assert_eq!(engine.poll_interval_secs, 7);
    assert_eq!(engine.regions.len(), 2);
    assert_eq!(engine.present.len(), 2);
    assert!(engine.present.iter().all(|list| list.is_empty()));
    assert_eq!(engine.enricher.ttl_nanos, ENRICH_TTL_NANOS);
    assert_eq!(ENRICH_TTL_NANOS, 300 * 1_000_000_000);
    let providers = &engine.enricher.inner.enrichers;
    assert_eq!(providers.len(), 2);
    assert!(matches!(&providers[0], Provider::Adsbdb(_)));
    match &providers[1] {
        Provider::AeroDataBox(p) => {
            assert_eq!(p.api_key, "key");
            assert_eq!(p.host, "host");
        }
        _ => panic!("expected AeroDataBox"),
    }
}

#[test]
fn enrichers_are_optional() {
    let engine = Engine::from_config(&config(&["a"])).unwrap();
    assert!(engine.enricher.inner.is_empty());
    let mut cfg = config(&["a"]);
    cfg.enrich.aerodatabox_key = Some("key".to_string());
    let engine = Engine::from_config(&cfg).unwrap();
    assert_eq!(engine.enricher.inner.enrichers.len(), 1);
    assert!(matches!(&engine.enricher.inner.enrichers[0], Provider::AeroDataBox(_)));
}

#[test]
fn an_unknown_source_is_an_error_before_the_regions() {
    let mut cfg = config(&[]);
    cfg.source.kind = "rtlsdr".to_string();
    let e = match Engine::from_config(&cfg) {
        Err(e) => e,
        Ok(_) => panic!("expected an error"),
    };
    assert!(matches!(e, ConfigError::UnknownSource { .. }));
    assert_eq!(e.message(), "unknown source kind \"rtlsdr\" (only \"network\" is implemented)");
    assert!(matches!(Engine::from_config(&config(&[])), Err(ConfigError::NoRegions)));
}

#[test]
fn aircraft_enter_stay_and_leave() {
    let mut engine = Engine::from_config(&config(&["home"])).unwrap();
    let first = engine.poll_region(0, Some(vec![seen("a", 0.5), seen("b", 0.5), seen("far", 9.0)]));
    assert_eq!(
        kinds(&first),
        vec![(EventKind::Entered, "a".to_string()), (EventKind::Entered, "b".to_string())]
    );
    assert!(first.iter().all(|e| e.region == "home"));
    let second = engine.poll_region(0, Some(vec![seen("b", 0.75), seen("c", 0.5)]));
    assert_eq!(
        kinds(&second),
        vec![
            (EventKind::Updated, "b".to_string()),
            (EventKind::Entered, "c".to_string()),
            (EventKind::Left, "a".to_string()),
        ]
    );
    assert_eq!(second[0].aircraft.lat, d(0.75)); // the new state
    assert_eq!(second[2].aircraft.lat, d(0.5)); // the state when it was last seen
    let hexes: Vec<&str> = engine.present[0].iter().map(|a| a.hex.as_str()).collect();
    assert_eq!(hexes, vec!["b", "c"]);
}

#[test]
fn leaving_the_region_is_leaving() {
    let mut engine = Engine::from_config(&config(&["home"])).unwrap();
    engine.poll_region(0, Some(vec![seen("a", 0.5)]));
    let events = engine.poll_region(0, Some(vec![seen("a", 5.0)]));
    assert_eq!(kinds(&events), vec![(EventKind::Left, "a".to_string())]);
    assert_eq!(events[0].aircraft.lat, d(0.5));
    assert!(engine.present[0].is_empty());
    assert!(engine.poll_region(0, Some(vec![])).is_empty());
}

#[test]
fn a_failed_poll_changes_nothing() {
    let mut engine = Engine::from_config(&config(&["home"])).unwrap();
    engine.poll_region(0, Some(vec![seen("a", 0.5)]));
    assert!(engine.poll_region(0, None).is_empty());
    assert_eq!(engine.present[0].len(), 1);
    let events = engine.poll_region(0, Some(vec![seen("a", 0.5)]));
    assert_eq!(kinds(&events), vec![(EventKind::Updated, "a".to_string())]);
}

#[test]
fn regions_are_independent() {
    let mut engine = Engine::from_config(&config(&["one", "two"])).unwrap();
    engine.poll_region(0, Some(vec![seen("a", 0.5)]));
    let events = engine.poll_region(1, Some(vec![seen("a", 0.5)]));
    assert_eq!(kinds(&events), vec![(EventKind::Entered, "a".to_string())]);
    assert_eq!(events[0].region, "two");
    engine.poll_region(1, Some(vec![]));
    assert_eq!(engine.present[0].len(), 1);
    assert!(engine.present[1].is_empty());
}

#[test]
fn the_last_report_of_a_poll_is_kept() {
    let w = WatchedRegion {
        name: "w".to_string(),
        region: Region::BBox { min_lat: d(0.0), min_lon: d(0.0), max_lat: d(1.0), max_lon: d(1.0) },
        min_alt_ft: None,
        max_alt_ft: None,
    };
    let list = aircraft_inside(
        &w,
        vec![seen("a", 0.25), seen("b", 0.5), seen("a", 0.75), seen("a", 7.0)],
    );
    assert_eq!(list.len(), 2);
    assert_eq!(list[0].hex, "a");
    assert_eq!(list[0].lat, d(0.75));
    assert_eq!(list[1].hex, "b");
}

#[test]
fn the_altitude_band_decides_who_is_inside() {
    let mut cfg = config(&["low"]);
    cfg.regions[0].bbox = None;
    cfg.regions[0].circle = Some(CircleConfig { lat: d(0.0), lon: d(0.0), radius_nm: d(5.0) });
    cfg.regions[0].max_alt_ft = Some(d(4000.0));
    let mut engine = Engine::from_config(&cfg).unwrap();
    let at = |hex: &str, nm: f64, alt: Option<f64>| {
        let mut aircraft = plane(hex, 0.0);
        aircraft.altitude_ft = alt.map(d);
        Observation { aircraft, measured: Measured::Distance(d(nm)) }
    };
    let events = engine.poll_region(
        0,
        Some(vec![
            at("low", 1.0, Some(2500.0)),
            at("high", 1.0, Some(35000.0)),
            at("unknown", 5.0, None),
            at("far", 5.5, None),
        ]),
    );
    let hexes: Vec<&str> = events.iter().map(|e| e.aircraft.hex.as_str()).collect();
    assert_eq!(hexes, vec!["low", "unknown"]);
}

#[test]
fn events_between_two_lists() {
    let name = "r".to_string();
    let before = vec![plane("a", 0.1), plane("b", 0.2)];
    let after = vec![plane("c", 0.3), plane("b", 0.4)];
    assert_eq!(
        kinds(&events(&name, &before, &after)),
        vec![
            (EventKind::Entered, "c".to_string()),
            (EventKind::Updated, "b".to_string()),
            (EventKind::Left, "a".to_string()),
        ]
    );
    assert!(events(&name, &vec![], &vec![]).is_empty());
}

#[test]
fn only_an_entry_with_a_callsign_is_looked_up() {
    let pending = |kind: EventKind, callsign: Option<&str>| {
        let mut aircraft = plane("a", 0.5);
        aircraft.callsign = callsign.map(|c| c.to_string());
        PendingEvent { kind, region: "r".to_string(), aircraft }
    };
    let now = Timestamp { secs: 5, nanos: 6 };
    let found = || {
        let mut info = FlightInfo::default();
        info.delay_minutes = Some(1);
        Some(info)
    };
    let entered = pending(EventKind::Entered, Some("BAW1"));
    assert_eq!(entered.lookup().as_deref(), Some("BAW1"));
    let event = entered.emit(found(), now);
    assert_eq!(event.kind, EventKind::Entered);
    assert_eq!(event.region, "r");
    assert_eq!(event.aircraft.hex, "a");
    assert_eq!(event.observed_at, now);
    assert_eq!(event.flight_info.unwrap().delay_minutes, Some(1));
    for e in [
        pending(EventKind::Entered, None),
        pending(EventKind::Updated, Some("BAW1")),
        pending(EventKind::Left, Some("BAW1")),
    ] {
        assert_eq!(e.lookup(), None);
        assert!(e.emit(found(), now).flight_info.is_none());
    }
    assert!(pending(EventKind::Entered, Some("BAW1")).emit(None, now).flight_info.is_none());
}

#[test]
fn one_aircraft_enters_is_updated_and_leaves_in_turn() {
    let mut engine = Engine::from_config(&config(&["home"])).unwrap();
    let here = || Some(vec![seen("other", 0.5), seen("a", 0.5)]);
    let gone = || Some(vec![seen("other", 0.5)]);
    let polls = [gone(), here(), None, here(), here(), gone(), None, gone(), here(), gone(), here()];
    let mut kinds = vec![];
    for poll in polls {
        for e in engine.poll_region(0, poll) {
            if e.aircraft.hex == "a" {
                kinds.push(e.kind);
            }
        }
        let inside = engine.present[0].iter().any(|a| a.hex == "a");
        assert_eq!(inside, kinds.last().is_some_and(|k| *k != EventKind::Left));
    }
    assert_eq!(
        kinds,
        vec![
            EventKind::Entered,
            EventKind::Updated,
            EventKind::Updated,
            EventKind::Left,
            EventKind::Entered,
            EventKind::Left,
            EventKind::Entered,
        ]
    );
}
