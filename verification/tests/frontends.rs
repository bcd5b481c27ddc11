//! The board and the console: what a user sees of an event.
use planespotter::board::{airport_code, display_ident, id_of, status_text, Board, Row};
use planespotter::console::{format_event, format_event_for, format_route};
use planespotter::double::Double;
use planespotter::model::{Aircraft, Airport, EventKind, FlightInfo, SpottingEvent};
use planespotter::text::{decimal_of_i64, decimal_of_u64, text_before};
use planespotter::time::{Timestamp, EARLIEST_SECS, LATEST_SECS};

fn d(x: f64) -> Double {
    Double { bits: x.to_bits() }
}

fn plane(hex: &str) -> Aircraft {
    Aircraft {
        hex: hex.to_string(),
        callsign: None,
        lat: d(0.0),
        lon: d(0.0),
        altitude_ft: None,
        ground_speed_kt: None,
        track_deg: None,
        type_code: None,
        registration: None,
        squawk: None,
    }
}

fn event(kind: EventKind, region: &str, aircraft: Aircraft) -> SpottingEvent {
    SpottingEvent {
        kind,
        region: region.to_string(),
        aircraft,
        flight_info: None,
        observed_at: Timestamp { secs: 1_704_110_400 + 3 * 3600 + 4 * 60 + 5, nanos: 0 },
    }
}

fn airport(icao: Option<&str>, iata: Option<&str>) -> Option<Airport> {
    Some(Airport {
        icao: icao.map(|s| s.to_string()),
        iata: iata.map(|s| s.to_string()),
        name: Some("An airport".to_string()),
    })
}

fn info(origin: Option<Airport>, destination: Option<Airport>, delay: Option<i64>) -> FlightInfo {
    let mut info = FlightInfo::default();
    info.origin = origin;
    info.destination = destination;
    info.delay_minutes = delay;
    info
}

fn baw(kind: EventKind) -> SpottingEvent {
    let mut a = plane("4ca7b5");
    a.callsign = Some("BAW123".to_string());
    a.type_code = Some("A320".to_string());
    a.altitude_ft = Some(d(2999.6));
    a.ground_speed_kt = Some(d(140.2));
    event(kind, "Heathrow", a)
}

fn flights(board: &Board) -> Vec<String> {
    board.sorted_rows().iter().map(|r| r.flight.clone()).collect()
}

#[test]
fn airports_go_by_iata_or_icao() {
    assert_eq!(airport_code(&airport(Some("EGLL"), Some("LHR"))), "LHR");
    assert_eq!(airport_code(&airport(Some("EGLL"), None)), "EGLL");
    assert_eq!(airport_code(&airport(None, None)), "");
    assert_eq!(airport_code(&None), "");
}

#[test]
fn the_status_shows_the_delay() {
    let status = |delay: Option<i64>| status_text(&info(None, None, delay));
    assert_eq!(status(None), "");
    assert_eq!(status(Some(0)), "ON TIME");
    assert_eq!(status(Some(14)), "+14 MIN");
    assert_eq!(status(Some(-3)), "-3 MIN");
    assert_eq!(status(Some(i64::MIN)), format!("{} MIN", i64::MIN));
}

#[test]
fn an_aircraft_without_callsign_goes_by_its_address() {
    assert_eq!(display_ident(&plane("4ca7b5")), "4CA7B5");
    assert_eq!(display_ident(&baw(EventKind::Entered).aircraft), "BAW123");
}

#[test]
fn a_blank_row_has_only_its_identity() {
    let row = Row::blank("id", "region");
    assert_eq!((row.id.as_str(), row.region.as_str()), ("id", "region"));
    for field in [&row.flight, &row.ac, &row.from, &row.to, &row.alt, &row.status] {
        assert_eq!(field, "");
    }
}

#[test]
fn a_row_takes_events_in() {
    let mut row = Row::blank("id", "Heathrow");
    let mut entered = baw(EventKind::Entered);
    entered.flight_info =
        Some(info(airport(None, Some("LHR")), airport(Some("KJFK"), None), Some(14)));
    row.apply(&entered, "3000");
    assert_eq!(row.flight, "BAW123");
    assert_eq!(row.ac, "A320");
    assert_eq!(row.alt, "3000");
    assert_eq!((row.from.as_str(), row.to.as_str()), ("LHR", "KJFK"));
    assert_eq!(row.status, "+14 MIN");
    // An update refreshes what comes from the aircraft; route and status persist.
    row.apply(&event(EventKind::Updated, "Heathrow", plane("4ca7b5")), "ignored");
    assert_eq!(row.flight, "4CA7B5");
    assert_eq!(row.ac, "");
    assert_eq!(row.alt, "");
    assert_eq!((row.from.as_str(), row.to.as_str()), ("LHR", "KJFK"));
    assert_eq!(row.status, "+14 MIN");
    // Enrichment without an end clears it.
    entered.flight_info = Some(info(None, None, None));
    row.apply(&entered, "3000");
    assert_eq!((row.from.as_str(), row.to.as_str(), row.status.as_str()), ("", "", ""));
}

#[test]
fn the_board_follows_the_events() {
    let mut board = Board::new();
    assert!(board.sorted_rows().is_empty());
    board.apply_event(&baw(EventKind::Entered), "3000");
    board.apply_event(&event(EventKind::Updated, "Heathrow", plane("abc")), "");
    assert_eq!(flights(&board), vec!["ABC", "BAW123"]);
    assert_eq!(board.sorted_rows()[1].id, "Heathrow\u{1}4ca7b5");
    assert_eq!(board.sorted_rows()[1].region, "Heathrow");
    board.apply_event(&baw(EventKind::Updated), "2800");
    assert_eq!(flights(&board), vec!["ABC", "BAW123"]);
    assert_eq!(board.sorted_rows()[1].alt, "2800");
    board.apply_event(&event(EventKind::Left, "Heathrow", plane("abc")), "");
    assert_eq!(flights(&board), vec!["BAW123"]);
    board.apply_event(&event(EventKind::Left, "Heathrow", plane("abc")), "");
    assert_eq!(flights(&board), vec!["BAW123"]);
}

#[test]
fn one_aircraft_has_a_row_in_each_region() {
    let mut board = Board::new();
    board.apply_event(&event(EventKind::Entered, "one", plane("abc")), "");
    board.apply_event(&event(EventKind::Entered, "two", plane("abc")), "");
    assert_eq!(board.rows.len(), 2);
    board.apply_event(&event(EventKind::Left, "one", plane("abc")), "");
    assert_eq!(board.sorted_rows()[0].region, "two");
    assert_eq!(id_of("two", "abc"), "two\u{1}abc");
}

#[test]
fn rows_are_sorted_by_flight_and_id() {
    let mut board = Board::new();
    for hex in ["d", "b", "c", "a"] {
        let mut aircraft = plane(hex);
        aircraft.callsign = match hex {
            "b" | "d" => Some("SAME".to_string()),
            _ => None,
        };
        board.apply_event(&event(EventKind::Entered, "r", aircraft), "");
    }
    let ids: Vec<String> = board.sorted_rows().iter().map(|r| r.id.clone()).collect();
    assert_eq!(ids, vec!["r\u{1}a", "r\u{1}c", "r\u{1}b", "r\u{1}d"]);
}

#[test]
fn texts_are_ordered_as_strings_are() {
    let texts = ["", "A", "AB", "B", "a", "\u{1}", "é", "→", "\u{10ffff}", "AA", "A\u{1}"];
    for x in texts {
        for y in texts {
            assert_eq!(text_before(x, y), x < y, "{x:?} before {y:?}");
        }
    }
}

#[test]
fn numbers_in_decimal() {
    for n in [0, 7, 10, 99, 1005, u64::MAX] {
        assert_eq!(decimal_of_u64(n), format!("{n}"));
    }
    for n in [0, -1, 42, i64::MIN, i64::MAX, -100] {
        assert_eq!(decimal_of_i64(n), format!("{n}"));
    }
}

#[test]
fn routes_show_what_is_known() {
    let lhr = || airport(None, Some("LHR"));
    assert_eq!(format_route(&info(lhr(), airport(Some("KJFK"), None), Some(14))), "LHR → KJFK (+14 min)");
    assert_eq!(format_route(&info(lhr(), None, Some(-3))), "LHR → ??? (-3 min early)");
    assert_eq!(format_route(&info(None, lhr(), Some(0))), "??? → LHR (on time)");
    assert_eq!(format_route(&info(airport(None, None), lhr(), None)), "??? → LHR");
    assert_eq!(format_route(&info(None, None, Some(5))), " (+5 min)");
    assert_eq!(format_route(&FlightInfo::default()), "");
}

#[test]
fn events_are_lines_of_text() {
    let mut e = baw(EventKind::Entered);
    assert_eq!(
        format_event(&e, "3000", "140"),
        "[15:04:05] ENTER Heathrow | BAW123 (A320) | 3000ft, 140kt"
    );
    e.flight_info = Some(info(airport(None, Some("LHR")), airport(None, Some("JFK")), Some(0)));
    assert_eq!(
        format_event(&e, "3000", "140"),
        "[15:04:05] ENTER Heathrow | BAW123 (A320) | 3000ft, 140kt | LHR → JFK (on time)"
    );
    e.kind = EventKind::Updated;
    e.aircraft.altitude_ft = None;
    e.flight_info = None;
    assert_eq!(format_event(&e, "3000", "140"), "[15:04:05]   ··· Heathrow | BAW123 (A320) | 140kt");
    e.kind = EventKind::Left;
    e.aircraft.ground_speed_kt = None;
    e.aircraft.type_code = None;
    e.aircraft.callsign = None;
    assert_eq!(format_event(&e, "3000", "140"), "[15:04:05] LEAVE Heathrow | 4CA7B5 (?)");
    e.aircraft.altitude_ft = Some(d(0.0));
    e.flight_info = Some(FlightInfo::default());
    assert_eq!(format_event(&e, "0", "140"), "[15:04:05] LEAVE Heathrow | 4CA7B5 (?) | 0ft");
    assert_eq!(
        format_event_for(&e, "name", "0", "140"),
        "[15:04:05] LEAVE Heathrow | name (?) | 0ft"
    );
}

#[test]
fn the_clock_covers_all_instants() {
    let line = |secs: i64, nanos: u32| {
        let mut e = event(EventKind::Left, "r", plane("a"));
        e.observed_at = Timestamp { secs, nanos };
        assert!(e.observed_at.is_valid());
        format_event(&e, "", "")
    };
    assert_eq!(line(0, 0), "[00:00:00] LEAVE r | A (?)");
    assert_eq!(line(-1, 999_999_999), "[23:59:59] LEAVE r | A (?)");
    assert_eq!(line(59, 1_000_000_000), "[00:00:60] LEAVE r | A (?)");
    assert_eq!(line(EARLIEST_SECS, 0), "[00:00:00] LEAVE r | A (?)");
    assert_eq!(line(LATEST_SECS, 1_999_999_999), "[23:59:60] LEAVE r | A (?)");
}

#[test]
fn instants_out_of_range_are_told_apart() {
    let valid = |secs: i64, nanos: u32| {
        let t = Timestamp { secs, nanos };
        let known = chrono::DateTime::<chrono::Utc>::from_timestamp(secs, nanos).is_some();
        assert_eq!(t.is_valid(), known, "{secs} {nanos}");
        known
    };
    assert!(valid(0, 0));
    assert!(valid(EARLIEST_SECS, 0));
    assert!(!valid(EARLIEST_SECS - 1, 0));
    assert!(valid(LATEST_SECS, 0));
    assert!(!valid(LATEST_SECS + 1, 0));
    assert!(!valid(0, 1_000_000_000));
    assert!(valid(119, 1_999_999_999));
    assert!(!valid(119, 2_000_000_000));
    assert!(valid(-1, 1_000_000_000));
    assert!(!valid(-2, 1_000_000_000));
    assert!(!valid(i64::MIN, 0));
    assert!(!valid(i64::MAX, 0));
}
