//! Texts, numbers in decimal, and spans of time.
use crate::text::{ascii_lower, ascii_upper, before, decimal, digits, trimmed, trimmed_end, white_space};
use crate::time::{clock_text, nanos_between, whole_minutes, Timestamp, NANOS_PER_SEC};
use vstd::prelude::*;

verus! {

/// The number that a text of decimal digits stands for.
pub open spec fn reading(text: Seq<char>) -> int
    decreases text.len(),
{
    if text.len() == 0 {
        0
    } else {
        reading(text.drop_last()) * 10 + (text.last() as int - '0' as int)
    }
}

/// A number in decimal reads back as itself, is made of digits, and has no zero in front.
pub proof fn law_decimal_reads_back(n: int)
    requires
        n >= 0,
    ensures
        reading(decimal(n)) == n,
        decimal(n).len() > 0,
        forall|i: int| 0 <= i < decimal(n).len() ==> '0' <= #[trigger] decimal(n)[i] <= '9',
        n > 0 ==> decimal(n)[0] != '0',
        n == 0 ==> decimal(n).len() == 1,
    decreases n,
{
    assert(digits(n) == decimal(n));
    if n < 10 {
        let s = decimal(n);
        assert(s.drop_last() =~= Seq::empty());
        assert(reading(s.drop_last()) == 0);
    } else {
        law_decimal_reads_back(n / 10);
        assert(decimal(n / 10) == digits(n / 10));
        assert(digits(n).drop_last() =~= digits(n / 10));
    }
}

/// A negative number in decimal is a minus sign and its opposite.
pub proof fn law_negative_decimal_has_a_sign(n: int)
    requires
        n < 0,
    ensures
        decimal(n).len() == decimal(-n).len() + 1,
        decimal(n)[0] == '-',
        forall|i: int|
            0 <= i < decimal(-n).len() ==> decimal(n)[i + 1] == #[trigger] decimal(-n)[i],
{
}

/// Two texts are ordered by the first place where they differ, and a text comes before its
/// continuations.
pub proof fn law_first_difference_decides(
    common: Seq<char>,
    x: char,
    y: char,
    after_x: Seq<char>,
    after_y: Seq<char>,
)
    ensures
        x != y ==> before(common + seq![x] + after_x, common + seq![y] + after_y) == (x < y),
        before(common, common + seq![x] + after_x),
        !before(common + seq![x] + after_x, common),
        !before(common, common),
    decreases common.len(),
{
    let a = common + seq![x] + after_x;
    let b = common + seq![y] + after_y;
    if common.len() > 0 {
        let rest = common.drop_first();
        law_first_difference_decides(rest, x, y, after_x, after_y);
        assert(a.drop_first() =~= rest + seq![x] + after_x);
        assert(b.drop_first() =~= rest + seq![y] + after_y);
    } else {
        assert(a[0] == x && b[0] == y);
    }
}

/// Upper and lower case of ASCII letters are 32 places apart; other characters have no case.
pub proof fn law_ascii_case(c: char)
    ensures
        'A' <= c <= 'Z' ==> ascii_lower(c) as int == c as int + 32 && ascii_upper(c) == c,
        'a' <= c <= 'z' ==> ascii_upper(c) as int == c as int - 32 && ascii_lower(c) == c,
        !('A' <= c <= 'Z' || 'a' <= c <= 'z') ==> ascii_lower(c) == c && ascii_upper(c) == c,
{
}

/// Trimming takes away white space at the two ends and nothing else, and all of it.
pub proof fn law_trimming(s: Seq<char>) -> (ends: (int, int))
    ensures
        0 <= ends.0 <= ends.1 <= s.len(),
        trimmed(s) == s.subrange(ends.0, ends.1),
        forall|i: int| 0 <= i < ends.0 ==> white_space(#[trigger] s[i]),
        forall|i: int| ends.1 <= i < s.len() ==> white_space(#[trigger] s[i]),
        ends.0 < ends.1 ==> !white_space(s[ends.0]) && !white_space(s[ends.1 - 1]),
    decreases s.len(),
{
    if s.len() == 0 {
        assert(s.subrange(0, 0) =~= s);
        (0int, 0int)
    } else if white_space(s.first()) {
        let t = s.drop_first();
        let inner = law_trimming(t);
        assert(t.subrange(inner.0, inner.1) =~= s.subrange(inner.0 + 1, inner.1 + 1));
        assert forall|i: int| 0 <= i < inner.0 + 1 implies white_space(#[trigger] s[i]) by {
            if i > 0 {
                assert(t[i - 1] == s[i]);
            }
        }
        assert forall|i: int| inner.1 + 1 <= i < s.len() implies white_space(#[trigger] s[i]) by {
            assert(t[i - 1] == s[i]);
        }
        (inner.0 + 1, inner.1 + 1)
    } else if white_space(s.last()) {
        let t = s.drop_last();
        let inner = law_trimming(t);
        assert(t.subrange(inner.0, inner.1) =~= s.subrange(inner.0, inner.1));
        assert forall|i: int| 0 <= i < inner.0 implies white_space(#[trigger] s[i]) by {
            assert(t[i] == s[i]);
        }
        assert forall|i: int| inner.1 <= i < s.len() implies white_space(#[trigger] s[i]) by {
            if i < t.len() {
                assert(t[i] == s[i]);
            }
        }
        (inner.0, inner.1)
    } else {
        assert(s.subrange(0, s.len() as int) =~= s);
        (0int, s.len() as int)
    }
}

/// Trimming a character at the end takes away the run of it there and nothing else.
pub proof fn law_trimming_the_end(s: Seq<char>, c: char)
    ensures
        trimmed_end(s, c).len() <= s.len(),
        trimmed_end(s, c) == s.take(trimmed_end(s, c).len() as int),
        forall|i: int| trimmed_end(s, c).len() <= i < s.len() ==> #[trigger] s[i] == c,
        trimmed_end(s, c).len() > 0 ==> trimmed_end(s, c).last() != c,
    decreases s.len(),
{
    if s.len() > 0 && s.last() == c {
        let t = s.drop_last();
        law_trimming_the_end(t, c);
        let k = trimmed_end(t, c).len() as int;
        assert(t.take(k) =~= s.take(k));
        assert forall|i: int| k <= i < s.len() implies #[trigger] s[i] == c by {
            if i < t.len() {
                assert(t[i] == s[i]);
            }
        }
    } else {
        assert(s.take(s.len() as int) =~= s);
    }
}

/// The whole minutes of a span are as many as fit into it, with its sign.
pub proof fn law_whole_minutes_fit(nanos: int)
    ensures
        nanos >= 0 ==> 0 <= whole_minutes(nanos) * 60_000_000_000 <= nanos,
        nanos >= 0 ==> nanos < (whole_minutes(nanos) + 1) * 60_000_000_000,
        nanos <= 0 ==> nanos <= whole_minutes(nanos) * 60_000_000_000 <= 0,
        nanos <= 0 ==> (whole_minutes(nanos) - 1) * 60_000_000_000 < nanos,
{
    let minute = 60 * NANOS_PER_SEC;
    assert(minute == 60_000_000_000);
    if nanos >= 0 {
        assert(whole_minutes(nanos) == nanos / 60_000_000_000);
    } else {
        assert(whole_minutes(nanos) == -((-nanos) / 60_000_000_000));
    }
}

/// Outside of leap seconds a span is what the clocks show, and it is so from any start to any end.
pub proof fn law_span_without_leap_seconds(start: Timestamp, end: Timestamp)
    requires
        start.nanos < 1_000_000_000,
        end.nanos < 1_000_000_000,
    ensures
        start.secs * 1_000_000_000 + start.nanos + nanos_between(start, end) == end.secs
            * 1_000_000_000 + end.nanos,
{
}

/// The clock shows hours, minutes and seconds in two digits each, which give the second of the day.
pub proof fn law_clock_shows_the_time_of_day(t: Timestamp)
    requires
        t.nanos < 1_000_000_000,
    ensures
        clock_text(t).len() == 8,
        clock_text(t)[2] == ':',
        clock_text(t)[5] == ':',
        ({
            let d = |i: int| clock_text(t)[i] as int - '0' as int;
            let hours = d(0) * 10 + d(1);
            let minutes = d(3) * 10 + d(4);
            let seconds = d(6) * 10 + d(7);
            &&& 0 <= minutes < 60
            &&& 0 <= seconds < 60
            &&& 0 <= hours < 24
            &&& (t.secs - (hours * 3600 + minutes * 60 + seconds)) % 86_400 == 0
        }),
{
}

} // verus!
