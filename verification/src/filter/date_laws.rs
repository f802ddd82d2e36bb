//! What dates in filters mean.
use crate::filter::date::{
    Calendar, DateExprV, DateOperandV, DatePart, DateRefV, DateUnit, UtcTime, calendar_of,
    field_time, first_time, is_calendar_unit, is_leap, iso_text, nanos_between, on_calendar,
    part_of, shifted, toward_zero, unit_seconds, units_between, written_time,
};
use crate::filter::eval::{flattened, rank_op, satisfies, text_op};
use crate::filter::expr::{FilterExprV, FilterOp, FilterValueV};
use crate::filter::laws::{holds, law_plain_path};
use crate::json::{JsonV, integer_rank};
use crate::text_laws::lacks;
use vstd::prelude::*;

verus! {

/// Whether a field holds a text that writes a point in time, and it alone.
pub open spec fn holds_time(
    fields: Seq<(Seq<char>, JsonV)>,
    field: Seq<char>,
    s: Seq<char>,
    t: UtcTime,
) -> bool {
    lacks(field, '/') && holds(fields, field, JsonV::String(s)) && written_time(s) == Some(t)
}

proof fn lemma_field_time(
    fields: Seq<(Seq<char>, JsonV)>,
    field: Seq<char>,
    s: Seq<char>,
    t: UtcTime,
)
    requires
        holds_time(fields, field, s, t),
    ensures
        field_time(fields, field) == Some(t),
{
    law_plain_path(fields, field, JsonV::String(s));
    let found = seq![JsonV::String(s)];
    assert(found[0] == JsonV::String(s));
    assert(flattened(found) == found);
}

/// The number that a part of a date is.
pub open spec fn part_number(part: DatePart, c: Calendar) -> int {
    match part {
        DatePart::Year => c.year as int,
        DatePart::Quarter => if c.month <= 3 {
            1
        } else if c.month <= 6 {
            2
        } else if c.month <= 9 {
            3
        } else {
            4
        },
        DatePart::Month => c.month as int,
        DatePart::Week => c.week as int,
        DatePart::Day => c.day as int,
        DatePart::Hour => c.hour as int,
        DatePart::Minute => c.minute as int,
        DatePart::Second => c.second as int,
        DatePart::DayOfWeek => c.day_of_week as int,
        DatePart::DayOfYear => c.day_of_year as int,
    }
}

/// A comparison of a part of a date compares the number of that part.
pub proof fn law_date_part(
    fields: Seq<(Seq<char>, JsonV)>,
    field: Seq<char>,
    s: Seq<char>,
    t: UtcTime,
    c: Calendar,
    part: DatePart,
    op: FilterOp,
    n: u64,
)
    requires
        holds_time(fields, field, s, t),
        calendar_of(t) == Some(c),
        1 <= c.month <= 12,
    ensures
        satisfies(
            FilterExprV::DateCompare {
                left: DateOperandV::Expr(DateExprV::DatePart { part, field }),
                op,
                value: FilterValueV::Number(n),
            },
            fields,
        ) == rank_op(op, integer_rank(part_number(part, c)), n),
{
    lemma_field_time(fields, field, s, t);
    assert(part_of(part, c) == part_number(part, c));
}

/// A comparison of a moved date compares the text of the moved point in time, and one of
/// a date that of the date; without one nothing holds.
pub proof fn law_moved_date(
    fields: Seq<(Seq<char>, JsonV)>,
    field: Seq<char>,
    s: Seq<char>,
    t: UtcTime,
    unit: DateUnit,
    interval: i64,
    op: FilterOp,
    iso: Seq<char>,
)
    requires
        holds_time(fields, field, s, t),
    ensures
        satisfies(
            FilterExprV::DateCompare {
                left: DateOperandV::Expr(DateExprV::DateAdd { unit, interval, field }),
                op,
                value: FilterValueV::String(iso),
            },
            fields,
        ) == (match shifted(unit, interval, t) {
            Some(u) => match iso_text(u) {
                Some(text) => text_op(op, text, iso),
                None => false,
            },
            None => false,
        }),
        satisfies(
            FilterExprV::DateCompare {
                left: DateOperandV::Field(field),
                op,
                value: FilterValueV::String(iso),
            },
            fields,
        ) == (match iso_text(t) {
            Some(text) => text_op(op, text, iso),
            None => false,
        }),
{
    lemma_field_time(fields, field, s, t);
}

/// A comparison of the units between two dates compares how many there are.
pub proof fn law_date_difference(
    fields: Seq<(Seq<char>, JsonV)>,
    from: Seq<char>,
    s: Seq<char>,
    t: UtcTime,
    to: Seq<char>,
    r: Seq<char>,
    u: UtcTime,
    unit: DateUnit,
    op: FilterOp,
    n: u64,
)
    requires
        holds_time(fields, from, s, t),
        holds_time(fields, to, r, u),
    ensures
        satisfies(
            FilterExprV::DateCompare {
                left: DateOperandV::Expr(
                    DateExprV::DateDiff {
                        unit,
                        start: DateRefV::Field(from),
                        end: DateRefV::Field(to),
                    },
                ),
                op,
                value: FilterValueV::Number(n),
            },
            fields,
        ) == (match units_between(unit, t, u) {
            Some(k) => rank_op(op, integer_rank(k), n),
            None => false,
        }),
{
    lemma_field_time(fields, from, s, t);
    lemma_field_time(fields, to, r, u);
}

/// How many seconds a unit of the clock has.
pub open spec fn seconds_in(unit: DateUnit) -> int {
    match unit {
        DateUnit::Week => 604_800,
        DateUnit::Day => 86_400,
        DateUnit::Hour => 3_600,
        DateUnit::Minute => 60,
        _ => 1,
    }
}

/// Between two points in time there are as many units of the clock as fit between them,
/// whole ones; what is left is less than one. Leap seconds are left out.
pub proof fn law_whole_units(unit: DateUnit, start: UtcTime, end: UtcTime, n: int, rest: int)
    requires
        !is_calendar_unit(unit),
        on_calendar(start),
        on_calendar(end),
        !is_leap(start),
        !is_leap(end),
        start.nanos == end.nanos,
        end.secs - start.secs == n * seconds_in(unit) + rest,
        0 <= rest < seconds_in(unit),
        n >= 0,
    ensures
        units_between(unit, start, end) == Some(n),
{
    let secs = end.secs - start.secs;
    assert(n * seconds_in(unit) >= 0) by (nonlinear_arith)
        requires
            n >= 0,
            seconds_in(unit) >= 0,
    ;
    assert(nanos_between(start, end) == secs * 1_000_000_000);
    assert(toward_zero(nanos_between(start, end), 1_000_000_000) == secs);
    assert(unit_seconds(unit) == seconds_in(unit));
    let d = seconds_in(unit);
    assert(secs / d == n) by {
        vstd::arithmetic::div_mod::lemma_fundamental_div_mod_converse(secs, d, n, rest);
    }
}

/// Between two dates there are as many months as their years and months tell, whatever
/// the days; a quarter has three of them and a year twelve.
pub proof fn law_whole_months(start: UtcTime, end: UtcTime, s: Calendar, e: Calendar)
    requires
        calendar_of(start) == Some(s),
        calendar_of(end) == Some(e),
    ensures
        units_between(DateUnit::Month, start, end) == Some(
            (e.year as int * 12 + e.month) - (s.year as int * 12 + s.month),
        ),
        e.year as int * 12 + e.month >= s.year as int * 12 + s.month ==> units_between(
            DateUnit::Quarter,
            start,
            end,
        ) == Some(((e.year as int * 12 + e.month) - (s.year as int * 12 + s.month)) / 3)
            && units_between(DateUnit::Year, start, end) == Some(
            ((e.year as int * 12 + e.month) - (s.year as int * 12 + s.month)) / 12,
        ),
{
    assert((e.year - s.year) * 12 == e.year as int * 12 - s.year as int * 12);
}

/// A field's date is the first of its values that writes one.
pub proof fn law_first_date_counts(values: Seq<JsonV>, i: int, at: int, t: UtcTime)
    requires
        0 <= i <= at < values.len(),
        values[at] matches JsonV::String(s) && written_time(s) == Some(t),
        forall|k: int|
            i <= k < at ==> !(#[trigger] values[k] matches JsonV::String(s) && written_time(s)
                is Some),
    ensures
        first_time(values, i) == Some(t),
    decreases at - i,
{
    if i < at {
        let v = values[i];
        law_first_date_counts(values, i + 1, at, t);
    }
}

} // verus!
