//! Spotting events as lines of text for a terminal.
use crate::board::{display_ident, ident};
use crate::model::{Airport, EventKind, FlightInfo, SpottingEvent};
use crate::text::{ascii, ascii_raised, decimal, decimal_of_i64};
use crate::time::{clock_text, format_clock};
use vstd::prelude::*;
use vstd::string::*;

verus! {

/// The code of an airport that may be known, or question marks.
pub open spec fn code_or_unknown(a: Option<Airport>) -> Seq<char> {
    match a {
        Some(airport) => match airport.code() {
            Some(code) => code,
            None => "???"@,
        },
        None => "???"@,
    }
}

/// From where to where a flight goes; empty when neither end is known.
pub open spec fn ends_text(info: FlightInfo) -> Seq<char> {
    if info.origin is Some || info.destination is Some {
        code_or_unknown(info.origin) + " → "@ + code_or_unknown(info.destination)
    } else {
        Seq::empty()
    }
}

/// How late or early a flight is; empty when that is not known.
pub open spec fn delay_label(delay_minutes: Option<i64>) -> Seq<char> {
    match delay_minutes {
        Some(delay) => if delay > 0 {
            " (+"@ + decimal(delay as int) + " min)"@
        } else if delay < 0 {
            " ("@ + decimal(delay as int) + " min early)"@
        } else {
            " (on time)"@
        },
        None => Seq::empty(),
    }
}

/// A flight's route and delay.
pub open spec fn route_text(info: FlightInfo) -> Seq<char> {
    ends_text(info) + delay_label(info.delay_minutes)
}

/// The word for what happened.
pub open spec fn tag_text(kind: EventKind) -> Seq<char> {
    match kind {
        EventKind::Entered => "ENTER"@,
        EventKind::Updated => "  ···"@,
        EventKind::Left => "LEAVE"@,
    }
}

/// Altitude and speed, as far as they are known.
pub open spec fn detail_text(e: SpottingEvent, altitude: Seq<char>, speed: Seq<char>) -> Seq<char> {
    let feet = if e.aircraft.altitude_ft is Some {
        altitude + "ft"@
    } else {
        Seq::empty()
    };
    if e.aircraft.ground_speed_kt is Some {
        if feet.len() > 0 {
            feet + ", "@ + speed + "kt"@
        } else {
            speed + "kt"@
        }
    } else {
        feet
    }
}

/// A further column of a line; none for an empty text.
pub open spec fn column(text: Seq<char>) -> Seq<char> {
    if text.len() > 0 {
        " | "@ + text
    } else {
        Seq::empty()
    }
}

/// An event as a line of text, with the aircraft called by the given name.
pub open spec fn event_line_for(
    e: SpottingEvent,
    name: Seq<char>,
    altitude: Seq<char>,
    speed: Seq<char>,
) -> Seq<char> {
    let type_code = match e.aircraft.type_code {
        Some(t) => t@,
        None => "?"@,
    };
    let route = match e.flight_info {
        Some(info) => route_text(info),
        None => Seq::empty(),
    };
    "["@ + clock_text(e.observed_at) + "] "@ + tag_text(e.kind) + " "@ + e.region@ + " | "@ + name
        + " ("@ + type_code + ")"@ + column(detail_text(e, altitude, speed)) + column(route)
}

/// An event as a line of text.
pub open spec fn event_line(e: SpottingEvent, altitude: Seq<char>, speed: Seq<char>) -> Seq<char> {
    event_line_for(e, ident(e.aircraft), altitude, speed)
}

/// The code of an airport that may be known, or question marks.
fn code(a: &Option<Airport>) -> (r: String)
    ensures
        r@ == code_or_unknown(*a),
{
    match a {
        Some(airport) => match airport.short_code() {
            Some(code) => code,
            None => String::from_str("???"),
        },
        None => String::from_str("???"),
    }
}

/// Render a flight's route and delay.
pub fn format_route(info: &FlightInfo) -> (r: String)
    ensures
        r@ == route_text(*info),
{
    let mut s = String::new();
    if info.origin.is_some() || info.destination.is_some() {
        s.append(code(&info.origin).as_str());
        s.append(" → ");
        s.append(code(&info.destination).as_str());
    }
    proof {
        assert(s@ =~= ends_text(*info));
    }
    if let Some(delay) = info.delay_minutes {
        let mut label: String;
        if delay > 0 {
            label = String::from_str(" (+");
            label.append(decimal_of_i64(delay).as_str());
            label.append(" min)");
        } else if delay < 0 {
            label = String::from_str(" (");
            label.append(decimal_of_i64(delay).as_str());
            label.append(" min early)");
        } else {
            label = String::from_str(" (on time)");
        }
        s.append(label.as_str());
    }
    proof {
        assert(s@ =~= route_text(*info));
    }
    s
}

/// Altitude and speed, as far as they are known.
fn format_detail(e: &SpottingEvent, altitude: &str, speed: &str) -> (r: String)
    ensures
        r@ == detail_text(*e, altitude@, speed@),
{
    let mut detail = String::new();
    if e.aircraft.altitude_ft.is_some() {
        detail.append(altitude);
        detail.append("ft");
    }
    proof {
        reveal_strlit("ft");
        assert(e.aircraft.altitude_ft is Some ==> detail@ =~= altitude@ + "ft"@);
    }
    if e.aircraft.ground_speed_kt.is_some() {
        if !detail.as_str().is_empty() {
            detail.append(", ");
        }
        detail.append(speed);
        detail.append("kt");
    }
    proof {
        assert(detail@ =~= detail_text(*e, altitude@, speed@));
    }
    detail
}

/// Render a spotting event as a single human-readable line, with the aircraft called by the given
/// name. `altitude` and `speed` are as in [`format_event`].
pub fn format_event_for(e: &SpottingEvent, name: &str, altitude: &str, speed: &str) -> (r: String)
    requires
        e.observed_at.wf(),
    ensures
        r@ == event_line_for(*e, name@, altitude@, speed@),
{
    let detail = format_detail(e, altitude, speed);
    let route = match &e.flight_info {
        Some(info) => format_route(info),
        None => String::new(),
    };
    let mut line = String::from_str("[");
    line.append(format_clock(e.observed_at).as_str());
    line.append("] ");
    line.append(
        match e.kind {
            EventKind::Entered => "ENTER",
            EventKind::Updated => "  ···",
            EventKind::Left => "LEAVE",
        },
    );
    line.append(" ");
    line.append(e.region.as_str());
    line.append(" | ");
    line.append(name);
    line.append(" (");
    match &e.aircraft.type_code {
        Some(type_code) => line.append(type_code.as_str()),
        None => line.append("?"),
    }
    line.append(")");
    proof {
        assert(line@ + Seq::<char>::empty() =~= line@);
    }
    if !detail.as_str().is_empty() {
        let ghost was = line@;
        line.append(" | ");
        line.append(detail.as_str());
        proof {
            assert(line@ =~= was + column(detail@));
        }
    }
    proof {
        assert(line@ + Seq::<char>::empty() =~= line@);
    }
    if !route.as_str().is_empty() {
        let ghost was = line@;
        line.append(" | ");
        line.append(route.as_str());
        proof {
            assert(line@ =~= was + column(route@));
        }
    }
    line
}

/// Render a spotting event as a single human-readable line. `altitude` and `speed` are the
/// aircraft's altitude in whole feet and its ground speed in whole knots, if it has them.
pub fn format_event(e: &SpottingEvent, altitude: &str, speed: &str) -> (r: String)
    requires
        e.observed_at.wf(),
    ensures
        r@ == event_line(*e, altitude@, speed@),
        e.aircraft.callsign is None && ascii(e.aircraft.hex@) ==> r@ == event_line_for(
            *e,
            ascii_raised(e.aircraft.hex@),
            altitude@,
            speed@,
        ),
{
    let name = display_ident(&e.aircraft);
    format_event_for(e, name.as_str(), altitude, speed)
}

} // verus!
