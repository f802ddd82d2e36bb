//! The calendar and the fixed-width texts of points in time.
use crate::filter::date::{Calendar, UtcTime, on_calendar};
use crate::text::{digit_char, lemma_text_less_total, text_less};
use vstd::prelude::*;

verus! {

pub open spec fn is_leap_year(year: int) -> bool {
    year % 4 == 0 && (year % 100 != 0 || year % 400 == 0)
}

pub open spec fn leap_days(year: int) -> int {
    if is_leap_year(year) {
        1
    } else {
        0
    }
}

/// The days from 1970-01-01 to the first day of a year.
pub open spec fn days_before_year(year: int) -> int {
    365 * (year - 1) + (year - 1) / 4 - (year - 1) / 100 + (year - 1) / 400 - 719_162
}

/// The days of a year before a month of it; those of the whole year for the month
/// behind the last.
pub open spec fn days_before_month(month: int, leap: int) -> int {
    if month <= 1 {
        0
    } else if month == 2 {
        31
    } else if month == 3 {
        59 + leap
    } else if month == 4 {
        90 + leap
    } else if month == 5 {
        120 + leap
    } else if month == 6 {
        151 + leap
    } else if month == 7 {
        181 + leap
    } else if month == 8 {
        212 + leap
    } else if month == 9 {
        243 + leap
    } else if month == 10 {
        273 + leap
    } else if month == 11 {
        304 + leap
    } else if month == 12 {
        334 + leap
    } else {
        365 + leap
    }
}

/// The days from 1970-01-01 to the day of calendar parts.
pub open spec fn days_to(c: Calendar) -> int {
    days_before_year(c.year as int) + c.day_of_year - 1
}

/// Whether the parts are a day of the Gregorian calendar and a second of the day.
pub open spec fn is_date(c: Calendar) -> bool {
    let leap = leap_days(c.year as int);
    &&& 1 <= c.month <= 12
    &&& 1 <= c.day <= days_before_month(c.month + 1, leap) - days_before_month(
        c.month as int,
        leap,
    )
    &&& c.day_of_year == days_before_month(c.month as int, leap) + c.day
    &&& c.hour < 24
    &&& c.minute < 60
    &&& c.second < 60
}

/// Whether the parts are those of a point in time. The week is left open.
pub open spec fn is_dated(t: UtcTime, c: Calendar) -> bool {
    &&& is_date(c)
    &&& t.secs == days_to(c) * 86_400 + c.hour * 3_600 + c.minute * 60 + c.second
    &&& c.day_of_week == (t.secs as int / 86_400 + 4) % 7
}

/// A number in decimal digits, padded to `width`.
pub open spec fn padded(n: int, width: nat) -> Seq<char>
    decreases width,
{
    if width == 0 {
        seq![]
    } else {
        padded(n / 10, (width - 1) as nat).push(digit_char(n % 10))
    }
}

pub open spec fn text_part(mark: Seq<char>, n: int, width: nat, rest: Seq<char>) -> Seq<char> {
    mark + padded(n, width) + rest
}

/// The text `YYYY-MM-DDTHH:MM:SS.sssZ`. A leap second has the number 60.
pub open spec fn iso_form(c: Calendar, nanos: u32) -> Seq<char> {
    let second = c.second + nanos / 1_000_000_000;
    let millis = nanos / 1_000_000 % 1_000;
    let clock = text_part(
        "T"@,
        c.hour as int,
        2,
        text_part(
            ":"@,
            c.minute as int,
            2,
            text_part(":"@, second as int, 2, text_part("."@, millis as int, 3, "Z"@)),
        ),
    );
    text_part(
        seq![],
        c.year as int,
        4,
        text_part("-"@, c.month as int, 2, text_part("-"@, c.day as int, 2, clock)),
    )
}

/// The first second of the year 0.
pub const FIRST_ISO_SECOND: i64 = -62_167_219_200;

/// The last second of the year 9999.
pub const LAST_ISO_SECOND: i64 = 253_402_300_799;

/// Whether the year of a point in time has four digits.
pub open spec fn has_short_year(t: UtcTime) -> bool {
    FIRST_ISO_SECOND <= t.secs <= LAST_ISO_SECOND
}

/// Whether a text is the one of a point in time, in `YYYY-MM-DDTHH:MM:SS.sssZ`.
pub open spec fn is_iso_text(t: UtcTime, text: Seq<char>) -> bool {
    exists|c: Calendar| is_dated(t, c) && text == #[trigger] iso_form(c, t.nanos)
}

// ---------------------------------------------------------------------------
// Laws
// ---------------------------------------------------------------------------

spec fn ends_cycle(year: int, years: int) -> int {
    if year % years == 0 {
        1
    } else {
        0
    }
}

proof fn lemma_cycles(year: int)
    ensures
        year / 4 == (year - 1) / 4 + ends_cycle(year, 4),
        year / 100 == (year - 1) / 100 + ends_cycle(year, 100),
        year / 400 == (year - 1) / 400 + ends_cycle(year, 400),
{
}

proof fn lemma_next_year(year: int)
    ensures
        days_before_year(year + 1) == days_before_year(year) + 365 + leap_days(year),
{
    lemma_cycles(year);
    assert(year % 400 == 0 ==> year % 100 == 0);
    assert(year % 100 == 0 ==> year % 4 == 0);
    assert(ends_cycle(year, 4) - ends_cycle(year, 100) + ends_cycle(year, 400) == leap_days(year));
}

proof fn lemma_later_year(a: int, b: int)
    requires
        a < b,
    ensures
        days_before_year(a) + 365 + leap_days(a) <= days_before_year(b),
    decreases b - a,
{
    lemma_next_year(b - 1);
    if a < b - 1 {
        lemma_later_year(a, b - 1);
    }
}

proof fn lemma_later_month(a: int, b: int, leap: int)
    requires
        1 <= a <= b <= 13,
        0 <= leap <= 1,
    ensures
        days_before_month(a, leap) <= days_before_month(b, leap) <= 365 + leap,
{
}

/// A later day has the greater year, or the greater month of the same year, or the
/// greater day of the same month.
proof fn lemma_days_in_order(c: Calendar, d: Calendar)
    requires
        is_date(c),
        is_date(d),
        days_to(c) <= days_to(d),
    ensures
        c.year <= d.year,
        c.year == d.year ==> c.month <= d.month,
        c.year == d.year && c.month == d.month ==> c.day <= d.day,
        c.year == d.year && c.month == d.month && c.day == d.day ==> days_to(c) == days_to(d),
        days_to(c) == days_to(d) ==> c.year == d.year && c.month == d.month && c.day == d.day,
{
    let leap = leap_days(d.year as int);
    lemma_later_month(d.month + 1, 13, leap);
    lemma_later_month(c.month + 1, 13, leap_days(c.year as int));
    lemma_later_month(1, c.month as int, leap_days(c.year as int));
    lemma_later_month(1, d.month as int, leap);
    if c.year > d.year {
        lemma_later_year(d.year as int, c.year as int);
    } else if c.year < d.year {
        lemma_later_year(c.year as int, d.year as int);
    } else if c.month > d.month {
        lemma_later_month(d.month + 1, c.month as int, leap);
    } else if c.month < d.month {
        lemma_later_month(c.month + 1, d.month as int, leap);
    }
}

spec fn clock_of(c: Calendar) -> int {
    c.hour * 3_600 + c.minute * 60 + c.second
}

proof fn lemma_clocks_in_order(c: Calendar, d: Calendar)
    requires
        is_date(c),
        is_date(d),
        clock_of(c) <= clock_of(d),
    ensures
        c.hour <= d.hour,
        c.hour == d.hour ==> c.minute <= d.minute,
        c.hour == d.hour && c.minute == d.minute ==> c.second <= d.second,
        clock_of(c) == clock_of(d) ==> c.hour == d.hour && c.minute == d.minute && c.second
            == d.second,
{
}

proof fn lemma_less_extended(x: Seq<char>, y: Seq<char>, u: Seq<char>, v: Seq<char>)
    requires
        x.len() == y.len(),
        text_less(x, y),
    ensures
        text_less(x + u, y + v),
    decreases x.len(),
{
    let (a, b) = (x + u, y + v);
    assert(a[0] == x[0] && b[0] == y[0]);
    if x[0] == y[0] {
        lemma_less_extended(x.drop_first(), y.drop_first(), u, v);
        assert(a.drop_first() =~= x.drop_first() + u);
        assert(b.drop_first() =~= y.drop_first() + v);
    }
}

proof fn lemma_less_prefixed(x: Seq<char>, u: Seq<char>, v: Seq<char>)
    requires
        text_less(u, v),
    ensures
        text_less(x + u, x + v),
    decreases x.len(),
{
    let (a, b) = (x + u, x + v);
    if x.len() == 0 {
        assert(a =~= u);
        assert(b =~= v);
    } else {
        lemma_less_prefixed(x.drop_first(), u, v);
        assert(a[0] == x[0] && b[0] == x[0]);
        assert(a.drop_first() =~= x.drop_first() + u);
        assert(b.drop_first() =~= x.drop_first() + v);
    }
}

spec fn fits(n: int, width: nat) -> bool
    decreases width,
{
    if width == 0 {
        n == 0
    } else {
        n >= 0 && fits(n / 10, (width - 1) as nat)
    }
}

proof fn lemma_padded_len(n: int, width: nat)
    ensures
        padded(n, width).len() == width,
    decreases width,
{
    if width > 0 {
        lemma_padded_len(n / 10, (width - 1) as nat);
    }
}

proof fn lemma_padded_in_order(n: int, m: int, width: nat)
    requires
        n < m,
        fits(n, width),
        fits(m, width),
    ensures
        text_less(padded(n, width), padded(m, width)),
    decreases width,
{
    let w = (width - 1) as nat;
    let (x, y) = (padded(n / 10, w), padded(m / 10, w));
    let (u, v) = (seq![digit_char(n % 10)], seq![digit_char(m % 10)]);
    lemma_padded_len(n / 10, w);
    lemma_padded_len(m / 10, w);
    assert(padded(n, width) =~= x + u);
    assert(padded(m, width) =~= y + v);
    if n / 10 < m / 10 {
        lemma_padded_in_order(n / 10, m / 10, w);
        lemma_less_extended(x, y, u, v);
    } else {
        assert(n % 10 < m % 10);
        assert(text_less(u, v));
        lemma_less_prefixed(x, u, v);
    }
}

/// The lesser number comes first, and equal numbers leave the order to the rest.
proof fn lemma_part_in_order(
    mark: Seq<char>,
    n: int,
    m: int,
    width: nat,
    rest: Seq<char>,
    other: Seq<char>,
)
    requires
        fits(n, width),
        fits(m, width),
        n < m || n == m && text_less(rest, other),
    ensures
        text_less(text_part(mark, n, width, rest), text_part(mark, m, width, other)),
{
    let (x, y) = (padded(n, width), padded(m, width));
    lemma_padded_len(n, width);
    lemma_padded_len(m, width);
    if n < m {
        lemma_padded_in_order(n, m, width);
        lemma_less_extended(x, y, rest, other);
    } else {
        lemma_less_prefixed(x, rest, other);
    }
    lemma_less_prefixed(mark, x + rest, y + other);
    assert(text_part(mark, n, width, rest) =~= mark + (x + rest));
    assert(text_part(mark, m, width, other) =~= mark + (y + other));
}

/// Whether one point in time is before another, to the millisecond.
pub open spec fn is_earlier(t: UtcTime, u: UtcTime) -> bool {
    t.secs < u.secs || t.secs == u.secs && t.nanos / 1_000_000 < u.nanos / 1_000_000
}

proof fn lemma_fits()
    ensures
        forall|n: int| 0 <= n < 100 ==> #[trigger] fits(n, 2),
        forall|n: int| 0 <= n < 1_000 ==> #[trigger] fits(n, 3),
        forall|n: int| 0 <= n < 10_000 ==> #[trigger] fits(n, 4),
{
    reveal_with_fuel(fits, 5);
}

proof fn lemma_short_year(t: UtcTime, c: Calendar)
    requires
        has_short_year(t),
        is_dated(t, c),
    ensures
        0 <= c.year <= 9_999,
{
    let leap = leap_days(c.year as int);
    lemma_later_month(c.month + 1, 13, leap);
    lemma_later_month(1, c.month as int, leap);
    assert(0 <= clock_of(c) < 86_400);
    assert(-719_528 <= days_to(c) <= 2_932_896);
    if c.year < 0 {
        lemma_later_year(c.year as int, 0);
    } else if c.year > 9_999 {
        if c.year > 10_000 {
            lemma_later_year(10_000, c.year as int);
        }
    }
}

proof fn lemma_forms_in_order(t: UtcTime, c: Calendar, u: UtcTime, d: Calendar)
    requires
        on_calendar(t),
        on_calendar(u),
        has_short_year(t),
        has_short_year(u),
        is_dated(t, c),
        is_dated(u, d),
        is_earlier(t, u),
    ensures
        text_less(iso_form(c, t.nanos), iso_form(d, u.nanos)),
{
    lemma_fits();
    lemma_short_year(t, c);
    lemma_short_year(u, d);
    assert(0 <= clock_of(c) < 86_400 && 0 <= clock_of(d) < 86_400);
    assert(days_to(c) <= days_to(d));
    lemma_days_in_order(c, d);
    assert(t.secs as int % 60 == c.second && u.secs as int % 60 == d.second);
    let (s, e) = (c.second + t.nanos / 1_000_000_000, d.second + u.nanos / 1_000_000_000);
    let (m, n) = (
        (t.nanos / 1_000_000 % 1_000) as int,
        (u.nanos / 1_000_000 % 1_000) as int,
    );
    let (c4, d4) = (text_part("."@, m, 3, "Z"@), text_part("."@, n, 3, "Z"@));
    let (c3, d3) = (text_part(":"@, s as int, 2, c4), text_part(":"@, e as int, 2, d4));
    let (c2, d2) = (
        text_part(":"@, c.minute as int, 2, c3),
        text_part(":"@, d.minute as int, 2, d3),
    );
    let (c1, d1) = (text_part("T"@, c.hour as int, 2, c2), text_part("T"@, d.hour as int, 2, d2));
    let (c0, d0) = (text_part("-"@, c.day as int, 2, c1), text_part("-"@, d.day as int, 2, d1));
    let (cm, dm) = (
        text_part("-"@, c.month as int, 2, c0),
        text_part("-"@, d.month as int, 2, d0),
    );
    if days_to(c) == days_to(d) {
        lemma_clocks_in_order(c, d);
        if c.hour == d.hour && c.minute == d.minute {
            if s == e {
                lemma_part_in_order("."@, m, n, 3, "Z"@, "Z"@);
            }
            lemma_part_in_order(":"@, s as int, e as int, 2, c4, d4);
        }
        if c.hour == d.hour {
            lemma_part_in_order(":"@, c.minute as int, d.minute as int, 2, c3, d3);
        }
        lemma_part_in_order("T"@, c.hour as int, d.hour as int, 2, c2, d2);
    }
    if c.year == d.year {
        if c.month == d.month {
            lemma_part_in_order("-"@, c.day as int, d.day as int, 2, c1, d1);
        }
        lemma_part_in_order("-"@, c.month as int, d.month as int, 2, c0, d0);
    }
    lemma_part_in_order(seq![], c.year as int, d.year as int, 4, cm, dm);
}

/// The order of the texts of points in time is the order of these: of years with
/// four digits the earlier one, to the millisecond, has the lesser text, and a
/// lesser text is no later one.
pub proof fn law_iso_texts_are_in_order(t: UtcTime, a: Seq<char>, u: UtcTime, b: Seq<char>)
    requires
        on_calendar(t),
        on_calendar(u),
        has_short_year(t),
        has_short_year(u),
        is_iso_text(t, a),
        is_iso_text(u, b),
    ensures
        is_earlier(t, u) ==> text_less(a, b),
        text_less(a, b) ==> !is_earlier(u, t),
{
    let c = choose|c: Calendar| is_dated(t, c) && a == #[trigger] iso_form(c, t.nanos);
    let d = choose|d: Calendar| is_dated(u, d) && b == #[trigger] iso_form(d, u.nanos);
    lemma_text_less_total(a, b);
    if is_earlier(t, u) {
        lemma_forms_in_order(t, c, u, d);
    }
    if is_earlier(u, t) {
        lemma_forms_in_order(u, d, t, c);
    }
}

} // verus!
