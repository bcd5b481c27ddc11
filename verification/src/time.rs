//! Instants of time, and what the `chrono` crate does with them.
use crate::text::digit;
use vstd::prelude::*;

verus! {

/// The first second of the earliest year that `chrono` can hold.
pub const EARLIEST_SECS: i64 = -8_334_601_228_800;

/// The last second of the latest year that `chrono` can hold.
pub const LATEST_SECS: i64 = 8_210_266_876_799;

/// Nanoseconds in a second.
pub const NANOS_PER_SEC: u32 = 1_000_000_000;

/// An instant in UTC: seconds since the start of 1970, and nanoseconds within the second. A leap
/// second is written as its predecessor with a second's worth of nanoseconds on top.
#[derive(Debug, Clone, Copy, PartialEq, Eq, Structural)]
pub struct Timestamp {
    pub secs: i64,
    pub nanos: u32,
}

impl Timestamp {
    /// Whether this is an instant that a `chrono::DateTime<Utc>` can hold.
    pub open spec fn wf(self) -> bool {
        &&& EARLIEST_SECS <= self.secs <= LATEST_SECS
        &&& self.nanos < 2 * NANOS_PER_SEC
        &&& self.nanos >= NANOS_PER_SEC ==> self.secs % 60 == 59
    }

    /// Seconds since midnight.
    pub open spec fn second_of_day(self) -> int {
        self.secs as int % 86_400
    }

    /// Whether the instant lies in a leap second.
    pub open spec fn in_leap_second(self) -> bool {
        self.nanos >= NANOS_PER_SEC
    }

    /// Whether this is an instant that a `chrono::DateTime<Utc>` can hold.
    pub fn is_valid(self) -> (r: bool)
        ensures
            r == self.wf(),
    {
        EARLIEST_SECS <= self.secs && self.secs <= LATEST_SECS && self.nanos < 2 * NANOS_PER_SEC && (
        self.nanos < NANOS_PER_SEC || (self.secs - EARLIEST_SECS) % 60 == 59)
    }
}

/// Nanoseconds from `start` to `end`. Where the time of day of the one in a leap second is the
/// earlier of the two, that second counts on top of what the clock shows.
pub open spec fn nanos_between(start: Timestamp, end: Timestamp) -> int {
    let clock = (end.secs - start.secs) * NANOS_PER_SEC + (end.nanos - start.nanos);
    if end.second_of_day() > start.second_of_day() && start.in_leap_second() {
        clock + NANOS_PER_SEC
    } else if end.second_of_day() < start.second_of_day() && end.in_leap_second() {
        clock - NANOS_PER_SEC
    } else {
        clock
    }
}

/// The whole minutes in a span of nanoseconds, rounded towards zero.
pub open spec fn whole_minutes(nanos: int) -> int {
    if nanos >= 0 {
        nanos / (60 * NANOS_PER_SEC)
    } else {
        -((-nanos) / (60 * NANOS_PER_SEC))
    }
}

/// A number below a hundred in two digits.
pub open spec fn two_digits(n: int) -> Seq<char> {
    seq![digit(n / 10), digit(n % 10)]
}

/// The time of day as `HH:MM:SS`. A leap second shows as second 60.
pub open spec fn clock_text(t: Timestamp) -> Seq<char> {
    let day = t.second_of_day();
    let leap: int = if t.in_leap_second() {
        1
    } else {
        0
    };
    two_digits(day / 3600) + seq![':'] + two_digits(day / 60 % 60) + seq![':'] + two_digits(
        day % 60 + leap,
    )
}

/// The instant that a text in the format of RFC 3339 stands for, if it is in that format.
pub uninterp spec fn rfc3339_instant(text: Seq<char>) -> Option<Timestamp>;

/// The instant that a text stands for when it is read by a `strftime`-like format and taken as
/// UTC, if the text fits the format.
pub uninterp spec fn formatted_instant(text: Seq<char>, format: Seq<char>) -> Option<Timestamp>;

/// `chrono::DateTime::parse_from_rfc3339`, brought to UTC: claims that the result depends on the
/// text alone and is an instant that chrono can hold.
#[verifier::external_body]
pub(crate) fn parse_rfc3339(text: &str) -> (r: Option<Timestamp>)
    ensures
        r == rfc3339_instant(text@),
        r matches Some(t) ==> t.wf(),
{
    let parsed = chrono::DateTime::parse_from_rfc3339(text).ok()?.with_timezone(&chrono::Utc);
    Some(Timestamp { secs: parsed.timestamp(), nanos: parsed.timestamp_subsec_nanos() })
}

/// Whether a format is one of date and time of day, with or without seconds.
pub open spec fn date_and_time(format: Seq<char>) -> bool {
    ||| format == "%Y-%m-%d %H:%M:%SZ"@
    ||| format == "%Y-%m-%d %H:%MZ"@
    ||| format == "%Y-%m-%d %H:%M"@
}

/// `chrono::NaiveDateTime::parse_from_str`, taken as UTC: claims that the result depends on the
/// text and the format alone and is an instant that chrono can hold.
#[verifier::external_body]
pub(crate) fn parse_formatted(text: &str, format: &str) -> (r: Option<Timestamp>)
    requires
        date_and_time(format@),
    ensures
        r == formatted_instant(text@, format@),
        r matches Some(t) ==> t.wf(),
{
    let naive = chrono::NaiveDateTime::parse_from_str(text, format).ok()?;
    let parsed = chrono::DateTime::<chrono::Utc>::from_naive_utc_and_offset(naive, chrono::Utc);
    Some(Timestamp { secs: parsed.timestamp(), nanos: parsed.timestamp_subsec_nanos() })
}

/// The difference of two `chrono::DateTime<Utc>` and `TimeDelta::num_minutes` of it: claims that
/// it is the whole minutes from `start` to `end`, rounded towards zero.
#[verifier::external_body]
pub(crate) fn minutes_between(start: Timestamp, end: Timestamp) -> (r: i64)
    requires
        start.wf(),
        end.wf(),
    ensures
        r == whole_minutes(nanos_between(start, end)),
{
    let from = chrono::DateTime::<chrono::Utc>::from_timestamp(start.secs, start.nanos).unwrap();
    let to = chrono::DateTime::<chrono::Utc>::from_timestamp(end.secs, end.nanos).unwrap();
    (to - from).num_minutes()
}

/// `chrono::DateTime::format` with `%H:%M:%S`: claims that it writes the time of day in two
/// digits each.
#[verifier::external_body]
pub(crate) fn format_clock(t: Timestamp) -> (r: String)
    requires
        t.wf(),
    ensures
        r@ == clock_text(t),
{
    let at = chrono::DateTime::<chrono::Utc>::from_timestamp(t.secs, t.nanos).unwrap();
    at.format("%H:%M:%S").to_string()
}

} // verus!
