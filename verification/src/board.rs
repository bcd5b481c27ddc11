//! A split-flap board of the aircraft inside the watched regions, kept up to date by the events
//! of the engine.
use crate::engine::{
    events_between, inside_after, law_event_kinds, law_events_tell_who_is_inside, lists, PendingEvent,
};
use crate::model::{Aircraft, Airport, EventKind, FlightInfo, SpottingEvent};
use crate::text::{
    ascii, ascii_raised, before, decimal, decimal_of_i64, law_text_order, text_before,
    to_uppercase, uppercase,
};
use vstd::prelude::*;
use vstd::string::*;

verus! {

/// One row on the board. The texts are ready for display.
#[derive(Debug)]
pub struct Row {
    pub id: String,
    pub region: String,
    pub flight: String,
    pub ac: String,
    pub from: String,
    pub to: String,
    pub alt: String,
    pub status: String,
}

/// What a [`Row`] shows.
pub struct RowView {
    pub id: Seq<char>,
    pub region: Seq<char>,
    pub flight: Seq<char>,
    pub ac: Seq<char>,
    pub from: Seq<char>,
    pub to: Seq<char>,
    pub alt: Seq<char>,
    pub status: Seq<char>,
}

impl View for Row {
    type V = RowView;

    open spec fn view(&self) -> RowView {
        RowView {
            id: self.id@,
            region: self.region@,
            flight: self.flight@,
            ac: self.ac@,
            from: self.from@,
            to: self.to@,
            alt: self.alt@,
            status: self.status@,
        }
    }
}

impl Clone for Row {
    fn clone(&self) -> (r: Self)
        ensures
            r == *self,
    {
        Row {
            id: self.id.clone(),
            region: self.region.clone(),
            flight: self.flight.clone(),
            ac: self.ac.clone(),
            from: self.from.clone(),
            to: self.to.clone(),
            alt: self.alt.clone(),
            status: self.status.clone(),
        }
    }
}

impl Default for Row {
    fn default() -> (r: Self)
        ensures
            r@ == RowView::blank(Seq::empty(), Seq::empty()),
    {
        Row {
            id: String::new(),
            region: String::new(),
            flight: String::new(),
            ac: String::new(),
            from: String::new(),
            to: String::new(),
            alt: String::new(),
            status: String::new(),
        }
    }
}

/// The text of an option that may hold one; empty if it does not.
pub open spec fn text_or_empty(s: Option<Seq<char>>) -> Seq<char> {
    match s {
        Some(t) => t,
        None => Seq::empty(),
    }
}

/// The code of an airport that may be known; empty if it is not.
pub open spec fn code_or_empty(a: Option<Airport>) -> Seq<char> {
    match a {
        Some(airport) => text_or_empty(airport.code()),
        None => Seq::empty(),
    }
}

/// How an aircraft is called: by its callsign, or else by its address in upper case.
pub open spec fn ident(a: Aircraft) -> Seq<char> {
    match a.callsign {
        Some(callsign) => callsign@,
        None => uppercase(a.hex@),
    }
}

/// How a delay shows on the board: empty when it is not known, and with its sign otherwise.
pub open spec fn delay_text(delay_minutes: Option<i64>) -> Seq<char> {
    match delay_minutes {
        None => Seq::empty(),
        Some(d) => if d == 0 {
            "ON TIME"@
        } else if d > 0 {
            "+"@ + decimal(d as int) + " MIN"@
        } else {
            decimal(d as int) + " MIN"@
        },
    }
}

impl RowView {
    /// A row with nothing on it but what it is for.
    pub open spec fn blank(id: Seq<char>, region: Seq<char>) -> RowView {
        RowView {
            id,
            region,
            flight: Seq::empty(),
            ac: Seq::empty(),
            from: Seq::empty(),
            to: Seq::empty(),
            alt: Seq::empty(),
            status: Seq::empty(),
        }
    }

    /// A row after an event. What comes from the aircraft is refreshed every time; route and
    /// status only when the event carries enrichment.
    pub open spec fn applied(self, ev: SpottingEvent, altitude: Seq<char>) -> RowView {
        RowView {
            id: self.id,
            region: self.region,
            flight: ident(ev.aircraft),
            ac: text_or_empty(ev.aircraft@.type_code),
            from: match ev.flight_info {
                Some(info) => code_or_empty(info.origin),
                None => self.from,
            },
            to: match ev.flight_info {
                Some(info) => code_or_empty(info.destination),
                None => self.to,
            },
            alt: if ev.aircraft.altitude_ft is Some {
                altitude
            } else {
                Seq::empty()
            },
            status: match ev.flight_info {
                Some(info) => delay_text(info.delay_minutes),
                None => self.status,
            },
        }
    }
}

/// How an aircraft is called (see [`ident`]).
pub fn display_ident(a: &Aircraft) -> (r: String)
    ensures
        r@ == ident(*a),
        a.callsign is None && ascii(a.hex@) ==> r@ == ascii_raised(a.hex@),
{
    match &a.callsign {
        Some(callsign) => callsign.clone(),
        None => to_uppercase(a.hex.as_str()),
    }
}

/// The code of an airport that may be known: IATA, or else ICAO, or else empty.
pub fn airport_code(a: &Option<Airport>) -> (r: String)
    ensures
        r@ == code_or_empty(*a),
{
    match a {
        Some(airport) => match airport.short_code() {
            Some(code) => code,
            None => String::new(),
        },
        None => String::new(),
    }
}

/// The status of a flight, by its delay.
pub fn status_text(info: &FlightInfo) -> (r: String)
    ensures
        r@ == delay_text(info.delay_minutes),
{
    match info.delay_minutes {
        None => String::new(),
        Some(d) => {
            if d == 0 {
                String::from_str("ON TIME")
            } else if d > 0 {
                let mut r = String::from_str("+");
                r.append(decimal_of_i64(d).as_str());
                r.append(" MIN");
                r
            } else {
                let mut r = decimal_of_i64(d);
                r.append(" MIN");
                r
            }
        },
    }
}

impl Row {
    /// A row with nothing on it but what it is for.
    pub fn blank(id: &str, region: &str) -> (r: Self)
        ensures
            r@ == RowView::blank(id@, region@),
    {
        let mut row = Row::default();
        row.id = String::from_str(id);
        row.region = String::from_str(region);
        row
    }

    /// Apply an engine event. What comes from the aircraft is refreshed every time; route and
    /// status only when the event carries enrichment (i.e. on `Entered`), so that they persist
    /// across updates. `altitude` is the aircraft's altitude in whole feet, if it has one.
    pub fn apply(&mut self, ev: &SpottingEvent, altitude: &str)
        ensures
            final(self)@ == old(self)@.applied(*ev, altitude@),
            ev.aircraft.callsign is None && ascii(ev.aircraft.hex@) ==> final(self).flight@
                == ascii_raised(ev.aircraft.hex@),
    {
        self.flight = display_ident(&ev.aircraft);
        self.ac = match &ev.aircraft.type_code {
            Some(type_code) => type_code.clone(),
            None => String::new(),
        };
        self.alt = match ev.aircraft.altitude_ft {
            Some(_) => String::from_str(altitude),
            None => String::new(),
        };
        if let Some(info) = &ev.flight_info {
            self.from = airport_code(&info.origin);
            self.to = airport_code(&info.destination);
            self.status = status_text(info);
        }
    }
}

/// The id of the row of an aircraft in a region.
pub open spec fn row_id(region: Seq<char>, hex: Seq<char>) -> Seq<char> {
    region + seq!['\u{1}'] + hex
}

/// The board: a row for each aircraft inside a region, no two with the same id.
#[derive(Debug)]
pub struct Board {
    pub rows: Vec<Row>,
}

/// Whether a list of rows has one with that id.
pub open spec fn shows(rows: Seq<Row>, id: Seq<char>) -> bool {
    exists|i: int| 0 <= i < rows.len() && (#[trigger] rows[i]).id@ == id
}

/// What a board shows, by row id.
pub type BoardView = Map<Seq<char>, RowView>;

impl View for Board {
    type V = BoardView;

    open spec fn view(&self) -> BoardView {
        Map::new(
            |id: Seq<char>| shows(self.rows@, id),
            |id: Seq<char>|
                self.rows@[choose|i: int|
                    0 <= i < self.rows@.len() && (#[trigger] self.rows@[i]).id@ == id]@,
        )
    }
}

/// A board after an event: a row goes when its aircraft leaves, and otherwise is there and takes
/// the event in.
pub open spec fn board_after(board: BoardView, ev: SpottingEvent, altitude: Seq<char>) -> BoardView {
    let id = row_id(ev.region@, ev.aircraft.hex@);
    if ev.kind == EventKind::Left {
        board.remove(id)
    } else {
        let row = if board.contains_key(id) {
            board[id]
        } else {
            RowView::blank(id, ev.region@)
        };
        board.insert(id, row.applied(ev, altitude))
    }
}

/// Whether one row comes before another on the board: by flight, and by id where the flights are
/// the same.
pub open spec fn row_before(a: RowView, b: RowView) -> bool {
    before(a.flight, b.flight) || (a.flight == b.flight && before(a.id, b.id))
}

/// The id of the row of an aircraft in a region (see [`row_id`]).
pub fn id_of(region: &str, hex: &str) -> (r: String)
    ensures
        r@ == row_id(region@, hex@),
{
    let mut id = String::from_str(region);
    proof {
        reveal_strlit("\u{1}");
    }
    id.append("\u{1}");
    id.append(hex);
    id
}

impl Board {
    /// Whether no two rows have the same id.
    pub open spec fn wf(self) -> bool {
        forall|i: int, j: int|
            0 <= i < j < self.rows@.len() ==> (#[trigger] self.rows@[i]).id@ != (
            #[trigger] self.rows@[j]).id@
    }

    /// An empty board.
    pub fn new() -> (r: Self)
        ensures
            r.wf(),
            r@ == BoardView::empty(),
    {
        let r = Board { rows: Vec::new() };
        proof {
            assert(r@ =~= BoardView::empty());
        }
        r
    }

    proof fn lemma_row_of(self, i: int)
        requires
            self.wf(),
            0 <= i < self.rows@.len(),
        ensures
            self@.contains_key(self.rows@[i].id@),
            self@[self.rows@[i].id@] == self.rows@[i]@,
    {
        let id = self.rows@[i].id@;
        let k = choose|k: int| 0 <= k < self.rows@.len() && (#[trigger] self.rows@[k]).id@ == id;
        assert(shows(self.rows@, id));
        if k < i {
            assert(self.rows@[k].id@ != self.rows@[i].id@);
        } else if k > i {
            assert(self.rows@[i].id@ != self.rows@[k].id@);
        }
    }

    /// The place of the row with that id, if there is one.
    fn find(&self, id: &String) -> (r: Option<usize>)
        ensures
            match r {
                Some(i) => i < self.rows@.len() && self.rows@[i as int].id@ == id@,
                None => !shows(self.rows@, id@),
            },
    {
        let mut i: usize = 0;
        while i < self.rows.len()
            invariant
                i <= self.rows@.len(),
                forall|k: int| 0 <= k < i ==> (#[trigger] self.rows@[k]).id@ != id@,
            decreases self.rows@.len() - i,
        {
            if self.rows[i].id == *id {
                return Some(i);
            }
            i = i + 1;
        }
        None
    }

    /// Take an event in. `altitude` is the aircraft's altitude in whole feet, if it has one.
    pub fn apply_event(&mut self, ev: &SpottingEvent, altitude: &str)
        requires
            old(self).wf(),
        ensures
            final(self).wf(),
            final(self)@ == board_after(old(self)@, *ev, altitude@),
            ev.kind != EventKind::Left && ev.aircraft.callsign is None && ascii(ev.aircraft.hex@)
                ==> final(self)@[row_id(ev.region@, ev.aircraft.hex@)].flight == ascii_raised(
                ev.aircraft.hex@,
            ),
    {
        let id = id_of(ev.region.as_str(), ev.aircraft.hex.as_str());
        let ghost was = *self;
        let found = self.find(&id);
        match ev.kind {
            EventKind::Left => {
                if let Some(i) = found {
                    self.rows.remove(i);
                    proof {
                        lemma_removed(was, *self, i as int);
                    }
                } else {
                    proof {
                        assert(was@.remove(id@) =~= was@);
                    }
                }
            },
            EventKind::Entered | EventKind::Updated => {
                match found {
                    Some(i) => {
                        let mut row = self.rows[i].clone();
                        row.apply(ev, altitude);
                        self.rows.set(i, row);
                        proof {
                            was.lemma_row_of(i as int);
                            lemma_replaced(was, *self, i as int);
                        }
                    },
                    None => {
                        let mut row = Row::blank(id.as_str(), ev.region.as_str());
                        row.apply(ev, altitude);
                        self.rows.push(row);
                        proof {
                            assert(self.rows@.drop_last() =~= was.rows@);
                            lemma_pushed(was, *self);
                        }
                    },
                }
            },
        }
    }
}

/// Whether one row comes before another (see [`row_before`]).
fn comes_before(a: &Row, b: &Row) -> (r: bool)
    ensures
        r == row_before(a@, b@),
{
    text_before(a.flight.as_str(), b.flight.as_str()) || (a.flight == b.flight && text_before(
        a.id.as_str(),
        b.id.as_str(),
    ))
}

impl Board {
    /// The rows in the order in which they are displayed.
    pub fn sorted_rows(&self) -> (r: Vec<Row>)
        requires
            self.wf(),
        ensures
            forall|i: int, j: int|
                0 <= i < j < r@.len() ==> row_before((#[trigger] r@[i])@, (#[trigger] r@[j])@),
            forall|i: int|
                0 <= i < r@.len() ==> self@.contains_key((#[trigger] r@[i]).id@)
                    && self@[r@[i].id@] == r@[i]@,
            forall|id: Seq<char>| #[trigger] self@.contains_key(id) ==> shows(r@, id),
    {
        let mut out: Vec<Row> = Vec::new();
        let mut n: usize = 0;
        while n < self.rows.len()
            invariant
                self.wf(),
                n <= self.rows@.len(),
                forall|i: int, j: int|
                    0 <= i < j < out@.len() ==> row_before(
                        (#[trigger] out@[i])@,
                        (#[trigger] out@[j])@,
                    ),
                forall|i: int|
                    0 <= i < out@.len() ==> self.rows@.take(n as int).contains(#[trigger] out@[i]),
                forall|k: int| 0 <= k < n ==> out@.contains(#[trigger] self.rows@[k]),
            decreases self.rows@.len() - n,
        {
            let row = self.rows[n].clone();
            let mut p: usize = 0;
            while p < out.len() && comes_before(&out[p], &row)
                invariant
                    p <= out@.len(),
                    forall|k: int| 0 <= k < p ==> row_before((#[trigger] out@[k])@, row@),
                decreases out@.len() - p,
            {
                p = p + 1;
            }
            let ghost was = out@;
            out.insert(p, row);
            proof {
                self.lemma_inserted(was, out@, n as int, p as int);
            }
            n = n + 1;
        }
        proof {
            assert(self.rows@.take(n as int) =~= self.rows@);
            assert forall|i: int| 0 <= i < out@.len() implies self@.contains_key(
                (#[trigger] out@[i]).id@,
            ) && self@[out@[i].id@] == out@[i]@ by {
                let k = choose|k: int| 0 <= k < self.rows@.len() && self.rows@[k] == out@[i];
                self.lemma_row_of(k);
            }
            assert forall|id: Seq<char>| #[trigger] self@.contains_key(id) implies shows(
                out@,
                id,
            ) by {
                let k = choose|k: int|
                    0 <= k < self.rows@.len() && (#[trigger] self.rows@[k]).id@ == id;
                let i = choose|i: int| 0 <= i < out@.len() && out@[i] == self.rows@[k];
                assert(out@[i].id@ == id);
            }
        }
        out
    }

    proof fn lemma_inserted(self, was: Seq<Row>, out: Seq<Row>, n: int, p: int)
        requires
            self.wf(),
            0 <= n < self.rows@.len(),
            0 <= p <= was.len(),
            out == was.insert(p, self.rows@[n]),
            forall|i: int, j: int|
                0 <= i < j < was.len() ==> row_before((#[trigger] was[i])@, (#[trigger] was[j])@),
            forall|i: int|
                0 <= i < was.len() ==> self.rows@.take(n).contains(#[trigger] was[i]),
            forall|k: int| 0 <= k < n ==> was.contains(#[trigger] self.rows@[k]),
            forall|k: int| 0 <= k < p ==> row_before((#[trigger] was[k])@, self.rows@[n]@),
            p < was.len() ==> !row_before(was[p]@, self.rows@[n]@),
        ensures
            forall|i: int, j: int|
                0 <= i < j < out.len() ==> row_before((#[trigger] out[i])@, (#[trigger] out[j])@),
            forall|i: int|
                0 <= i < out.len() ==> self.rows@.take(n + 1).contains(#[trigger] out[i]),
            forall|k: int| 0 <= k < n + 1 ==> out.contains(#[trigger] self.rows@[k]),
    {
        let row = self.rows@[n];
        assert(out.len() == was.len() + 1);
        assert forall|i: int| 0 <= i < out.len() implies #[trigger] out[i] == (if i < p {
            was[i]
        } else if i == p {
            row
        } else {
            was[i - 1]
        }) by {}
        assert forall|i: int| p <= i < was.len() implies row_before(row@, (#[trigger] was[i])@) by {
            let k = choose|k: int| 0 <= k < n && self.rows@.take(n)[k] == was[p];
            assert(self.rows@[k].id@ != row.id@);
            law_row_order(row@, was[p]@, was[i]@);
        }
        assert forall|i: int| 0 <= i < out.len() implies self.rows@.take(n + 1).contains(
            #[trigger] out[i],
        ) by {
            if i == p {
                assert(self.rows@.take(n + 1)[n] == row);
            } else {
                let m = if i < p {
                    i
                } else {
                    i - 1
                };
                let k = choose|k: int| 0 <= k < n && self.rows@.take(n)[k] == was[m];
                assert(self.rows@.take(n + 1)[k] == was[m]);
            }
        }
        assert forall|k: int| 0 <= k < n + 1 implies out.contains(#[trigger] self.rows@[k]) by {
            if k == n {
                assert(out[p] == row);
            } else {
                let m = choose|m: int| 0 <= m < was.len() && was[m] == self.rows@[k];
                assert(out[if m < p { m } else { m + 1 }] == was[m]);
            }
        }
    }
}

/// Rows with different ids are in an order: never both before each other, one before the other,
/// and before everything that the other is before.
pub proof fn law_row_order(a: RowView, b: RowView, c: RowView)
    ensures
        !(row_before(a, b) && row_before(b, a)),
        a.id != b.id ==> row_before(a, b) || row_before(b, a),
        row_before(a, b) && row_before(b, c) ==> row_before(a, c),
{
    law_text_order(a.flight, b.flight, c.flight);
    law_text_order(a.id, b.id, c.id);
}

/// The order of the rows is stable: there is only one way to put the same rows in order.
pub proof fn law_row_order_is_stable(a: Seq<RowView>, b: Seq<RowView>)
    requires
        forall|i: int, j: int|
            0 <= i < j < a.len() ==> row_before(#[trigger] a[i], #[trigger] a[j]),
        forall|i: int, j: int|
            0 <= i < j < b.len() ==> row_before(#[trigger] b[i], #[trigger] b[j]),
        forall|row: RowView| #[trigger] a.contains(row) <==> b.contains(row),
    ensures
        a == b,
    decreases a.len(),
{
    if a.len() == 0 {
        if b.len() > 0 {
            assert(a.contains(b[0]) <==> b.contains(b[0]));
        }
        assert(a =~= b);
    } else {
        assert(a.contains(a[0]));
        let k = choose|k: int| 0 <= k < b.len() && b[k] == a[0];
        assert(b.contains(b[0]));
        assert(a.contains(b[0]));
        let m = choose|m: int| 0 <= m < a.len() && a[m] == b[0];
        law_row_order(a[0], b[0], a[0]);
        law_row_order(a[0], a[0], a[0]);
        if k > 0 {
            assert(row_before(b[0], b[k]));
            if m > 0 {
                assert(row_before(a[0], a[m]));
            }
        }
        assert(a[0] == b[0]);
        let x = a.skip(1);
        let y = b.skip(1);
        assert forall|i: int, j: int| 0 <= i < j < x.len() implies row_before(
            #[trigger] x[i],
            #[trigger] x[j],
        ) by {
            assert(row_before(a[i + 1], a[j + 1]));
        }
        assert forall|i: int, j: int| 0 <= i < j < y.len() implies row_before(
            #[trigger] y[i],
            #[trigger] y[j],
        ) by {
            assert(row_before(b[i + 1], b[j + 1]));
        }
        assert forall|row: RowView| #[trigger] x.contains(row) <==> y.contains(row) by {
            if x.contains(row) {
                let i = choose|i: int| 0 <= i < x.len() && x[i] == row;
                assert(a[i + 1] == row);
                assert(a.contains(row));
                assert(row_before(a[0], a[i + 1]));
                let j = choose|j: int| 0 <= j < b.len() && b[j] == row;
                assert(j > 0);
                assert(y[j - 1] == row);
            }
            if y.contains(row) {
                let i = choose|i: int| 0 <= i < y.len() && y[i] == row;
                assert(b[i + 1] == row);
                assert(b.contains(row));
                assert(a.contains(row));
                assert(row_before(b[0], b[i + 1]));
                let j = choose|j: int| 0 <= j < a.len() && a[j] == row;
                assert(j > 0);
                assert(x[j - 1] == row);
            }
        }
        law_row_order_is_stable(x, y);
        assert(a =~= seq![a[0]] + x);
        assert(b =~= seq![b[0]] + y);
    }
}

proof fn lemma_removed(was: Board, is: Board, i: int)
    requires
        was.wf(),
        0 <= i < was.rows@.len(),
        is.rows@ == was.rows@.remove(i),
    ensures
        is.wf(),
        is@ == was@.remove(was.rows@[i].id@),
{
    let id = was.rows@[i].id@;
    assert forall|k: int| 0 <= k < is.rows@.len() implies (#[trigger] is.rows@[k])
        == was.rows@[if k < i { k } else { k + 1 }] by {}
    assert(is.wf());
    assert forall|other: Seq<char>| is@.contains_key(other) == was@.remove(id).contains_key(
        other,
    ) by {
        if shows(is.rows@, other) {
            let k = choose|k: int| 0 <= k < is.rows@.len() && (#[trigger] is.rows@[k]).id@ == other;
            assert(was.rows@[if k < i { k } else { k + 1 }].id@ == other);
        }
        if shows(was.rows@, other) && other != id {
            let k = choose|k: int|
                0 <= k < was.rows@.len() && (#[trigger] was.rows@[k]).id@ == other;
            assert(is.rows@[if k < i { k } else { k - 1 }].id@ == other);
        }
        if other == id && shows(is.rows@, other) {
            let k = choose|k: int| 0 <= k < is.rows@.len() && (#[trigger] is.rows@[k]).id@ == other;
            assert(was.rows@[if k < i { k } else { k + 1 }].id@ == was.rows@[i].id@);
        }
    }
    assert forall|other: Seq<char>| is@.contains_key(other) implies is@[other] == was@.remove(
        id,
    )[other] by {
        let k = choose|k: int| 0 <= k < is.rows@.len() && (#[trigger] is.rows@[k]).id@ == other;
        is.lemma_row_of(k);
        was.lemma_row_of(if k < i { k } else { k + 1 });
    }
    assert(is@ =~= was@.remove(id));
}

proof fn lemma_replaced(was: Board, is: Board, i: int)
    requires
        was.wf(),
        0 <= i < was.rows@.len(),
        is.rows@.len() == was.rows@.len(),
        is.rows@ == was.rows@.update(i, is.rows@[i]),
        is.rows@[i].id@ == was.rows@[i].id@,
    ensures
        is.wf(),
        is@ == was@.insert(was.rows@[i].id@, is.rows@[i]@),
{
    let id = was.rows@[i].id@;
    assert forall|k: int| 0 <= k < is.rows@.len() implies (#[trigger] is.rows@[k]).id@
        == was.rows@[k].id@ by {}
    assert(is.wf());
    assert forall|other: Seq<char>| is@.contains_key(other) == was@.contains_key(other) by {
        if shows(is.rows@, other) {
            let k = choose|k: int| 0 <= k < is.rows@.len() && (#[trigger] is.rows@[k]).id@ == other;
            assert(was.rows@[k].id@ == other);
        }
        if shows(was.rows@, other) {
            let k = choose|k: int|
                0 <= k < was.rows@.len() && (#[trigger] was.rows@[k]).id@ == other;
            assert(is.rows@[k].id@ == other);
        }
    }
    was.lemma_row_of(i);
    is.lemma_row_of(i);
    assert forall|other: Seq<char>| is@.contains_key(other) implies is@[other] == was@.insert(
        id,
        is.rows@[i]@,
    )[other] by {
        let k = choose|k: int| 0 <= k < is.rows@.len() && (#[trigger] is.rows@[k]).id@ == other;
        is.lemma_row_of(k);
        was.lemma_row_of(k);
    }
    assert(is@ =~= was@.insert(id, is.rows@[i]@));
}

proof fn lemma_pushed(was: Board, is: Board)
    requires
        was.wf(),
        is.rows@.len() == was.rows@.len() + 1,
        is.rows@.drop_last() == was.rows@,
        !shows(was.rows@, is.rows@.last().id@),
    ensures
        is.wf(),
        is@ == was@.insert(is.rows@.last().id@, is.rows@.last()@),
{
    let n = was.rows@.len() as int;
    let id = is.rows@.last().id@;
    assert forall|k: int| 0 <= k < n implies (#[trigger] is.rows@[k]) == was.rows@[k] by {
        assert(is.rows@.drop_last()[k] == was.rows@[k]);
    }
    assert(is.rows@[n] == is.rows@.last());
    assert(is.wf());
    assert forall|other: Seq<char>| is@.contains_key(other) == (was@.contains_key(other) || other
        == id) by {
        if shows(is.rows@, other) {
            let k = choose|k: int| 0 <= k < is.rows@.len() && (#[trigger] is.rows@[k]).id@ == other;
            if k < n {
                assert(was.rows@[k].id@ == other);
            }
        }
        if shows(was.rows@, other) {
            let k = choose|k: int|
                0 <= k < was.rows@.len() && (#[trigger] was.rows@[k]).id@ == other;
            assert(is.rows@[k].id@ == other);
        }
    }
    assert forall|other: Seq<char>| is@.contains_key(other) implies is@[other] == was@.insert(
        id,
        is.rows@.last()@,
    )[other] by {
        let k = choose|k: int| 0 <= k < is.rows@.len() && (#[trigger] is.rows@[k]).id@ == other;
        is.lemma_row_of(k);
        if k < n {
            was.lemma_row_of(k);
        }
    }
    assert(is@ =~= was@.insert(id, is.rows@.last()@));
}

/// Rows of different aircraft, or of different regions, have different ids, as long as no region
/// has the separator in its name.
pub proof fn law_row_ids_are_distinct(
    region: Seq<char>,
    hex: Seq<char>,
    other_region: Seq<char>,
    other_hex: Seq<char>,
)
    requires
        !region.contains('\u{1}'),
        !other_region.contains('\u{1}'),
        row_id(region, hex) == row_id(other_region, other_hex),
    ensures
        region == other_region,
        hex == other_hex,
{
    let a = row_id(region, hex);
    let b = row_id(other_region, other_hex);
    if region.len() < other_region.len() {
        assert(a[region.len() as int] == '\u{1}');
        assert(b[region.len() as int] == other_region[region.len() as int]);
    } else if other_region.len() < region.len() {
        assert(b[other_region.len() as int] == '\u{1}');
        assert(a[other_region.len() as int] == region[other_region.len() as int]);
    } else {
        assert forall|i: int| 0 <= i < region.len() implies region[i] == other_region[i] by {
            assert(a[i] == region[i]);
            assert(b[i] == other_region[i]);
        }
        assert(region =~= other_region);
        lemma_same_region(region, hex, other_hex);
    }
}

proof fn lemma_same_region(region: Seq<char>, hex: Seq<char>, other_hex: Seq<char>)
    ensures
        row_id(region, hex) == row_id(region, other_hex) ==> hex == other_hex,
{
    let a = row_id(region, hex);
    let b = row_id(region, other_hex);
    if a == b {
        assert(hex =~= a.skip(region.len() as int + 1));
        assert(other_hex =~= b.skip(region.len() as int + 1));
    }
}

/// A board after several events.
pub open spec fn board_after_all(
    board: BoardView,
    events: Seq<SpottingEvent>,
    altitudes: Seq<Seq<char>>,
) -> BoardView
    decreases events.len(),
{
    if events.len() == 0 {
        board
    } else {
        board_after(
            board_after_all(board, events.drop_last(), altitudes),
            events.last(),
            altitudes[events.len() - 1],
        )
    }
}

/// Whether events are those that the engine found, in its order.
pub open spec fn emitted(events: Seq<SpottingEvent>, pending: Seq<PendingEvent>) -> bool {
    &&& events.len() == pending.len()
    &&& forall|i: int|
        0 <= i < events.len() ==> {
            &&& (#[trigger] events[i]).kind == pending[i].kind
            &&& events[i].region == pending[i].region
            &&& events[i].aircraft == pending[i].aircraft
        }
}

/// A board that shows who is inside a region before a poll does so after it.
pub proof fn law_board_shows_who_is_inside(
    board: BoardView,
    name: String,
    previous: Seq<Aircraft>,
    current: Seq<Aircraft>,
    events: Seq<SpottingEvent>,
    altitudes: Seq<Seq<char>>,
    hex: Seq<char>,
)
    requires
        emitted(events, events_between(name, previous, current)),
        board.contains_key(row_id(name@, hex)) == lists(previous, hex),
    ensures
        board_after_all(board, events, altitudes).contains_key(row_id(name@, hex)) == lists(
            current,
            hex,
        ),
{
    let pending = events_between(name, previous, current);
    assert forall|i: int| 0 <= i < pending.len() implies (#[trigger] pending[i]).region == name by {
        law_event_kinds(name, previous, current, i);
    }
    lemma_shown(board, name, pending, events, altitudes, hex);
    law_events_tell_who_is_inside(name, previous, current, hex);
}

proof fn lemma_shown(
    board: BoardView,
    name: String,
    pending: Seq<PendingEvent>,
    events: Seq<SpottingEvent>,
    altitudes: Seq<Seq<char>>,
    hex: Seq<char>,
)
    requires
        emitted(events, pending),
        forall|i: int| 0 <= i < pending.len() ==> (#[trigger] pending[i]).region == name,
    ensures
        board_after_all(board, events, altitudes).contains_key(row_id(name@, hex)) == inside_after(
            board.contains_key(row_id(name@, hex)),
            pending,
            hex,
        ),
    decreases events.len(),
{
    if events.len() > 0 {
        lemma_shown(board, name, pending.drop_last(), events.drop_last(), altitudes, hex);
        assert(events.last().kind == pending.last().kind);
        lemma_same_region(name@, hex, events.last().aircraft.hex@);
    }
}

/// A poll of one region leaves the rows of another as they are, as long as neither has the
/// separator in its name.
pub proof fn law_other_regions_stay(
    board: BoardView,
    name: String,
    events: Seq<SpottingEvent>,
    altitudes: Seq<Seq<char>>,
    other: Seq<char>,
    hex: Seq<char>,
)
    requires
        forall|i: int| 0 <= i < events.len() ==> (#[trigger] events[i]).region == name,
        name@ != other,
        !name@.contains('\u{1}'),
        !other.contains('\u{1}'),
    ensures
        board_after_all(board, events, altitudes).contains_key(row_id(other, hex))
            == board.contains_key(row_id(other, hex)),
        board_after_all(board, events, altitudes)[row_id(other, hex)] == board[row_id(other, hex)],
    decreases events.len(),
{
    if events.len() > 0 {
        assert(events[events.len() - 1].region == name);
        law_other_regions_stay(board, name, events.drop_last(), altitudes, other, hex);
        if row_id(name@, events.last().aircraft.hex@) == row_id(other, hex) {
            law_row_ids_are_distinct(name@, events.last().aircraft.hex@, other, hex);
        }
    }
}

/// Route and status of a row persist across events that carry no enrichment, as long as the
/// aircraft does not leave.
pub proof fn law_route_persists(
    board: BoardView,
    events: Seq<SpottingEvent>,
    altitudes: Seq<Seq<char>>,
    id: Seq<char>,
)
    requires
        board.contains_key(id),
        forall|i: int|
            0 <= i < events.len() ==> (#[trigger] events[i]).kind != EventKind::Left
                && events[i].flight_info is None,
    ensures
        board_after_all(board, events, altitudes).contains_key(id),
        board_after_all(board, events, altitudes)[id].from == board[id].from,
        board_after_all(board, events, altitudes)[id].to == board[id].to,
        board_after_all(board, events, altitudes)[id].status == board[id].status,
    decreases events.len(),
{
    if events.len() > 0 {
        law_route_persists(board, events.drop_last(), altitudes, id);
        assert(events.last() == events[events.len() - 1]);
    }
}

/// The last event of an aircraft that is inside is what its row shows of the aircraft.
pub proof fn law_row_shows_the_latest(board: BoardView, ev: SpottingEvent, altitude: Seq<char>)
    requires
        ev.kind != EventKind::Left,
    ensures
        ({
            let row = board_after(board, ev, altitude)[row_id(ev.region@, ev.aircraft.hex@)];
            &&& row.flight == ident(ev.aircraft)
            &&& row.ac == text_or_empty(ev.aircraft@.type_code)
            &&& ev.aircraft.altitude_ft is Some ==> row.alt == altitude
            &&& ev.aircraft.altitude_ft is None ==> row.alt.len() == 0
        }),
{
}

} // verus!
