//! What a user sees.
use crate::board::{board_after, delay_text, ident, row_before, row_id, BoardView, RowView};
use crate::console::{ends_text, event_line, event_line_for, route_text};
use crate::model::{Aircraft, EventKind, FlightInfo, SpottingEvent};
use crate::text::{before, decimal, law_text_order, uppercase};
use crate::time::clock_text;
use vstd::prelude::*;

verus! {

/// The id of a row is the region's name, the separator and the address.
pub proof fn law_id_of_a_row(region: Seq<char>, hex: Seq<char>)
    ensures
        row_id(region, hex).len() == region.len() + 1 + hex.len(),
        row_id(region, hex).take(region.len() as int) == region,
        row_id(region, hex)[region.len() as int] == '\u{1}',
        row_id(region, hex).skip(region.len() as int + 1) == hex,
{
    assert(row_id(region, hex).take(region.len() as int) =~= region);
    assert(row_id(region, hex).skip(region.len() as int + 1) =~= hex);
}

/// An aircraft goes by its callsign, or else by its address in upper case.
pub proof fn law_name_of_an_aircraft(a: Aircraft)
    ensures
        a.callsign matches Some(callsign) ==> ident(a) == callsign@,
        a.callsign is None ==> ident(a) == uppercase(a.hex@),
{
}

/// The row of an aircraft that enters or is updated shows its state; its route and status where the
/// event carries them, and otherwise those that it showed before, or none where it is new.
pub proof fn law_row_after_an_event(board: BoardView, ev: SpottingEvent, altitude: Seq<char>)
    requires
        ev.kind != EventKind::Left,
    ensures
        ({
            let id = row_id(ev.region@, ev.aircraft.hex@);
            let after = board_after(board, ev, altitude);
            let row = after[id];
            &&& after.contains_key(id)
            &&& ev.aircraft.callsign matches Some(callsign) ==> row.flight == callsign@
            &&& ev.aircraft.callsign is None ==> row.flight == uppercase(ev.aircraft.hex@)
            &&& ev.aircraft.type_code matches Some(type_code) ==> row.ac == type_code@
            &&& ev.aircraft.type_code is None ==> row.ac.len() == 0
            &&& ev.aircraft.altitude_ft is Some ==> row.alt == altitude
            &&& ev.aircraft.altitude_ft is None ==> row.alt.len() == 0
            &&& board.contains_key(id) ==> row.id == board[id].id && row.region == board[id].region
            &&& !board.contains_key(id) ==> row.id == id && row.region == ev.region@
            &&& ev.flight_info is None && board.contains_key(id) ==> row.from == board[id].from
                && row.to == board[id].to && row.status == board[id].status
            &&& ev.flight_info is None && !board.contains_key(id) ==> row.from.len() == 0
                && row.to.len() == 0 && row.status.len() == 0
            &&& ev.flight_info matches Some(info) ==> {
                &&& info.origin is None ==> row.from.len() == 0
                &&& info.origin matches Some(airport) ==> (airport.code() matches Some(code)
                    ==> row.from == code)
                &&& info.origin matches Some(airport) ==> (airport.code() is None
                    ==> row.from.len() == 0)
                &&& info.destination is None ==> row.to.len() == 0
                &&& info.destination matches Some(airport) ==> (airport.code() matches Some(code)
                    ==> row.to == code)
                &&& info.destination matches Some(airport) ==> (airport.code() is None
                    ==> row.to.len() == 0)
                &&& row.status == delay_text(info.delay_minutes)
            }
        }),
{
}

/// An event concerns one row: all others stay, and the row goes when its aircraft leaves.
pub proof fn law_event_concerns_one_row(
    board: BoardView,
    ev: SpottingEvent,
    altitude: Seq<char>,
    other: Seq<char>,
)
    ensures
        other != row_id(ev.region@, ev.aircraft.hex@) ==> board_after(
            board,
            ev,
            altitude,
        ).contains_key(other) == board.contains_key(other),
        other != row_id(ev.region@, ev.aircraft.hex@) && board.contains_key(other) ==> board_after(
            board,
            ev,
            altitude,
        )[other] == board[other],
        ev.kind == EventKind::Left ==> !board_after(board, ev, altitude).contains_key(
            row_id(ev.region@, ev.aircraft.hex@),
        ),
{
}

/// Rows come in the order of their flights, and those of one flight in the order of their ids.
pub proof fn law_rows_go_by_flight(a: RowView, b: RowView)
    ensures
        before(a.flight, b.flight) ==> row_before(a, b),
        a.flight == b.flight ==> row_before(a, b) == before(a.id, b.id),
        a.flight != b.flight ==> row_before(a, b) == before(a.flight, b.flight),
{
    law_text_order(a.flight, a.flight, a.flight);
}

/// A delay on the board: a plus for a late flight, a minus for an early one, in whole minutes.
pub proof fn law_delay_on_the_board(d: i64)
    ensures
        delay_text(None).len() == 0,
        d == 0 ==> delay_text(Some(d)) == "ON TIME"@,
        d > 0 ==> delay_text(Some(d)) == "+"@ + decimal(d as int) + " MIN"@,
        d < 0 ==> delay_text(Some(d)) == decimal(d as int) + " MIN"@,
{
}

/// A route on the terminal: from where to where if an end is known, with question marks for an end
/// or a code that is not, and the delay in words behind it.
pub proof fn law_route_on_the_terminal(info: FlightInfo)
    ensures
        ({
            let from = if info.origin is Some && info.origin->0.code() is Some {
                info.origin->0.code()->0
            } else {
                "???"@
            };
            let to = if info.destination is Some && info.destination->0.code() is Some {
                info.destination->0.code()->0
            } else {
                "???"@
            };
            let ends = if info.origin is None && info.destination is None {
                Seq::empty()
            } else {
                from + " → "@ + to
            };
            &&& info.delay_minutes is None ==> route_text(info) == ends
            &&& info.delay_minutes matches Some(d) ==> {
                &&& d > 0 ==> route_text(info) == ends + (" (+"@ + decimal(d as int) + " min)"@)
                &&& d < 0 ==> route_text(info) == ends + (" ("@ + decimal(d as int)
                    + " min early)"@)
                &&& d == 0 ==> route_text(info) == ends + " (on time)"@
            }
        }),
{
    assert(info.delay_minutes is None ==> route_text(info) =~= ends_text(info));
}

/// A line on the terminal: time, what happened, region, aircraft and type, and behind them, each
/// after a bar, altitude and speed as far as they are known, and the route if there is one.
pub proof fn law_line_on_the_terminal(
    e: SpottingEvent,
    name: Seq<char>,
    altitude: Seq<char>,
    speed: Seq<char>,
)
    ensures
        event_line(e, altitude, speed) == event_line_for(e, ident(e.aircraft), altitude, speed),
        ({
            let type_code = if e.aircraft.type_code is Some {
                e.aircraft.type_code->0@
            } else {
                "?"@
            };
            let tag = match e.kind {
                EventKind::Entered => "ENTER"@,
                EventKind::Updated => "  ···"@,
                EventKind::Left => "LEAVE"@,
            };
            let head = "["@ + clock_text(e.observed_at) + "] "@ + tag + " "@ + e.region@ + " | "@
                + name + " ("@ + type_code + ")"@;
            let high = e.aircraft.altitude_ft is Some;
            let fast = e.aircraft.ground_speed_kt is Some;
            let detail = if high && fast {
                " | "@ + (altitude + "ft"@ + ", "@ + speed + "kt"@)
            } else if high {
                " | "@ + (altitude + "ft"@)
            } else if fast {
                " | "@ + (speed + "kt"@)
            } else {
                Seq::empty()
            };
            let route = if e.flight_info is Some && route_text(e.flight_info->0).len() > 0 {
                " | "@ + route_text(e.flight_info->0)
            } else {
                Seq::empty()
            };
            event_line_for(e, name, altitude, speed) == head + detail + route
        }),
{
    reveal_strlit("ft");
    reveal_strlit("kt");
}

} // verus!
