//! Date functions of filters (`datepart`, `dateadd`, `datediff`,
//! `utcdatetime`).
use chrono::{Datelike, Timelike};
use crate::filter::eval::{flatten_values, flattened};
use crate::filter::expr::{FilterValue, FilterValueV, opt_filter_value};
use crate::filter::iso::{has_short_year, is_dated, is_iso_text};
use crate::json::{JsonMap, JsonV, integer_rank, ref_values, signed_rank};
use crate::storage::document::{path_values, resolve_field_path};
use crate::text::{opt_text, same_text, texts};
use vstd::prelude::*;

verus! {

/// A calendar part extracted by `datepart` (e.g. `datepart(year, published)`).
#[derive(Debug, Clone, Copy, PartialEq, Eq, Structural)]
pub enum DatePart {
    Year,
    Quarter,
    Month,
    Week,
    Day,
    Hour,
    Minute,
    Second,
    DayOfWeek,
    DayOfYear,
}

pub open spec fn date_part_named(name: Seq<char>) -> Option<DatePart> {
    if name == "year"@ {
        Some(DatePart::Year)
    } else if name == "quarter"@ {
        Some(DatePart::Quarter)
    } else if name == "month"@ {
        Some(DatePart::Month)
    } else if name == "week"@ {
        Some(DatePart::Week)
    } else if name == "day"@ {
        Some(DatePart::Day)
    } else if name == "hour"@ {
        Some(DatePart::Hour)
    } else if name == "minute"@ {
        Some(DatePart::Minute)
    } else if name == "second"@ {
        Some(DatePart::Second)
    } else if name == "dayofweek"@ {
        Some(DatePart::DayOfWeek)
    } else if name == "dayofyear"@ {
        Some(DatePart::DayOfYear)
    } else {
        None
    }
}

impl DatePart {
    pub fn parse(name: &str) -> (r: Option<DatePart>)
        ensures
            r == date_part_named(name@),
    {
        if same_text(name, "year") {
            Some(DatePart::Year)
        } else if same_text(name, "quarter") {
            Some(DatePart::Quarter)
        } else if same_text(name, "month") {
            Some(DatePart::Month)
        } else if same_text(name, "week") {
            Some(DatePart::Week)
        } else if same_text(name, "day") {
            Some(DatePart::Day)
        } else if same_text(name, "hour") {
            Some(DatePart::Hour)
        } else if same_text(name, "minute") {
            Some(DatePart::Minute)
        } else if same_text(name, "second") {
            Some(DatePart::Second)
        } else if same_text(name, "dayofweek") {
            Some(DatePart::DayOfWeek)
        } else if same_text(name, "dayofyear") {
            Some(DatePart::DayOfYear)
        } else {
            None
        }
    }
}

/// A date/time unit for `dateadd` and `datediff`.
#[derive(Debug, Clone, Copy, PartialEq, Eq, Structural)]
pub enum DateUnit {
    Year,
    Quarter,
    Month,
    Week,
    Day,
    Hour,
    Minute,
    Second,
}

pub open spec fn date_unit_named(name: Seq<char>) -> Option<DateUnit> {
    if name == "year"@ {
        Some(DateUnit::Year)
    } else if name == "quarter"@ {
        Some(DateUnit::Quarter)
    } else if name == "month"@ {
        Some(DateUnit::Month)
    } else if name == "week"@ {
        Some(DateUnit::Week)
    } else if name == "day"@ {
        Some(DateUnit::Day)
    } else if name == "hour"@ {
        Some(DateUnit::Hour)
    } else if name == "minute"@ {
        Some(DateUnit::Minute)
    } else if name == "second"@ {
        Some(DateUnit::Second)
    } else {
        None
    }
}

impl DateUnit {
    pub fn parse(name: &str) -> (r: Option<DateUnit>)
        ensures
            r == date_unit_named(name@),
    {
        if same_text(name, "year") {
            Some(DateUnit::Year)
        } else if same_text(name, "quarter") {
            Some(DateUnit::Quarter)
        } else if same_text(name, "month") {
            Some(DateUnit::Month)
        } else if same_text(name, "week") {
            Some(DateUnit::Week)
        } else if same_text(name, "day") {
            Some(DateUnit::Day)
        } else if same_text(name, "hour") {
            Some(DateUnit::Hour)
        } else if same_text(name, "minute") {
            Some(DateUnit::Minute)
        } else if same_text(name, "second") {
            Some(DateUnit::Second)
        } else {
            None
        }
    }
}

/// A date/time value reference for `datediff`: a field or a literal date.
#[derive(Debug, PartialEq)]
pub enum DateRef {
    /// A field holding a date/time string.
    Field(String),
    /// A literal date, normalized to fixed-width UTC ISO-8601 at parse time.
    Literal(String),
}

/// The mathematical value of a [`DateRef`].
pub enum DateRefV {
    Field(Seq<char>),
    Literal(Seq<char>),
}

impl View for DateRef {
    type V = DateRefV;

    open spec fn view(&self) -> DateRefV {
        match self {
            DateRef::Field(s) => DateRefV::Field(s@),
            DateRef::Literal(s) => DateRefV::Literal(s@),
        }
    }
}

/// A date/time value expression: the left side of a date comparison.
#[derive(Debug, PartialEq)]
pub enum DateExpr {
    /// `datepart(part, field)`: the calendar part as a number.
    DatePart { part: DatePart, field: String },
    /// `dateadd(unit, interval, field)`: the field's date shifted by
    /// `interval` units, as a normalized ISO-8601 string.
    DateAdd { unit: DateUnit, interval: i64, field: String },
    /// `datediff(unit, start, end)`: the whole units between two dates.
    DateDiff { unit: DateUnit, start: DateRef, end: DateRef },
    /// `utcdatetime('...')`: a literal date, normalized at parse time.
    UtcDateTime(String),
}

/// The mathematical value of a [`DateExpr`].
pub enum DateExprV {
    DatePart { part: DatePart, field: Seq<char> },
    DateAdd { unit: DateUnit, interval: i64, field: Seq<char> },
    DateDiff { unit: DateUnit, start: DateRefV, end: DateRefV },
    UtcDateTime(Seq<char>),
}

impl View for DateExpr {
    type V = DateExprV;

    open spec fn view(&self) -> DateExprV {
        match self {
            DateExpr::DatePart { part, field } => DateExprV::DatePart { part: *part, field: field@ },
            DateExpr::DateAdd { unit, interval, field } => DateExprV::DateAdd {
                unit: *unit,
                interval: *interval,
                field: field@,
            },
            DateExpr::DateDiff { unit, start, end } => DateExprV::DateDiff {
                unit: *unit,
                start: start@,
                end: end@,
            },
            DateExpr::UtcDateTime(s) => DateExprV::UtcDateTime(s@),
        }
    }
}

/// The left side of a date comparison: a field (compared as a normalized
/// date string) or a date expression.
#[derive(Debug, PartialEq)]
pub enum DateOperand {
    Field(String),
    Expr(DateExpr),
}

/// The mathematical value of a [`DateOperand`].
pub enum DateOperandV {
    Field(Seq<char>),
    Expr(DateExprV),
}

impl View for DateOperand {
    type V = DateOperandV;

    open spec fn view(&self) -> DateOperandV {
        match self {
            DateOperand::Field(s) => DateOperandV::Field(s@),
            DateOperand::Expr(e) => DateOperandV::Expr(e@),
        }
    }
}

impl DateRef {
    pub fn duplicate(&self) -> (r: DateRef)
        ensures
            r@ == self@,
    {
        match self {
            DateRef::Field(s) => DateRef::Field(s.clone()),
            DateRef::Literal(s) => DateRef::Literal(s.clone()),
        }
    }
}

impl DateOperand {
    pub fn duplicate(&self) -> (r: DateOperand)
        ensures
            r@ == self@,
    {
        match self {
            DateOperand::Field(s) => DateOperand::Field(s.clone()),
            DateOperand::Expr(DateExpr::DatePart { part, field }) => DateOperand::Expr(
                DateExpr::DatePart { part: *part, field: field.clone() },
            ),
            DateOperand::Expr(DateExpr::DateAdd { unit, interval, field }) => DateOperand::Expr(
                DateExpr::DateAdd { unit: *unit, interval: *interval, field: field.clone() },
            ),
            DateOperand::Expr(DateExpr::DateDiff { unit, start, end }) => DateOperand::Expr(
                DateExpr::DateDiff { unit: *unit, start: start.duplicate(), end: end.duplicate() },
            ),
            DateOperand::Expr(DateExpr::UtcDateTime(s)) => DateOperand::Expr(
                DateExpr::UtcDateTime(s.clone()),
            ),
        }
    }
}

// ---------------------------------------------------------------------------
// Points in time
// ---------------------------------------------------------------------------

/// A point in time in UTC: seconds since 1970-01-01T00:00:00Z and the
/// nanoseconds of the running second.
#[derive(Debug, Clone, Copy, PartialEq, Eq, Structural)]
pub struct UtcTime {
    pub secs: i64,
    pub nanos: u32,
}

/// The calendar parts of a point in time in UTC.
#[derive(Debug, Clone, Copy, PartialEq, Eq, Structural)]
pub struct Calendar {
    pub year: i32,
    /// The month, from 1.
    pub month: u32,
    pub day: u32,
    pub hour: u32,
    pub minute: u32,
    pub second: u32,
    /// The week by ISO-8601.
    pub week: u32,
    /// The day of the week, from Sunday, which is 0.
    pub day_of_week: u32,
    /// The day of the year, from 1.
    pub day_of_year: u32,
}

/// The point in time that a text writes by RFC 3339.
pub uninterp spec fn rfc3339_time(text: Seq<char>) -> Option<UtcTime>;

/// Midnight of the day that a text writes as `YYYY-MM-DD`.
pub uninterp spec fn day_time(text: Seq<char>) -> Option<UtcTime>;

/// The point in time that a text without time zone writes by a format.
pub uninterp spec fn plain_time(text: Seq<char>, format: Seq<char>) -> Option<UtcTime>;

/// The calendar parts of a point in time.
pub uninterp spec fn calendar_of(t: UtcTime) -> Option<Calendar>;

/// The point in time a number of months later, on the last day of the month
/// where the day does not exist in it.
pub uninterp spec fn months_later(t: UtcTime, months: u32) -> Option<UtcTime>;

/// The point in time a number of months earlier, on the last day of the month
/// where the day does not exist in it.
pub uninterp spec fn months_earlier(t: UtcTime, months: u32) -> Option<UtcTime>;

/// The first second of the calendar, that of the year -262143.
pub const FIRST_SECOND: i64 = -8_334_601_228_800;

/// The last second of the calendar, that of the year 262142.
pub const LAST_SECOND: i64 = 8_210_266_876_799;

/// Whether a point in time is within a leap second, which goes on from the last
/// second of a minute.
pub open spec fn is_leap(t: UtcTime) -> bool {
    t.nanos >= 1_000_000_000
}

/// Whether there is such a point in time.
pub open spec fn on_calendar(t: UtcTime) -> bool {
    FIRST_SECOND <= t.secs <= LAST_SECOND && (is_leap(t) ==> t.nanos < 2_000_000_000 && t.secs as int
        % 60 == 59)
}

/// A point in time, where it is on the calendar.
pub open spec fn time_at(secs: int, nanos: u32) -> Option<UtcTime> {
    if FIRST_SECOND <= secs <= LAST_SECOND {
        Some(UtcTime { secs: secs as i64, nanos })
    } else {
        None
    }
}

/// The point in time a number of seconds later. A leap second is left forwards
/// from the second before it, and backwards from the second behind it.
pub open spec fn seconds_later(t: UtcTime, seconds: i64) -> Option<UtcTime> {
    if !on_calendar(t) {
        None
    } else if !is_leap(t) || seconds == 0 {
        time_at(t.secs + seconds, t.nanos)
    } else if seconds > 0 {
        time_at(t.secs + seconds, (t.nanos - 1_000_000_000) as u32)
    } else {
        time_at(t.secs + 1 + seconds, (t.nanos - 1_000_000_000) as u32)
    }
}

/// The second of the day of a point in time.
pub open spec fn second_of_day(t: UtcTime) -> int {
    t.secs as int % 86_400
}

/// The seconds that a leap second adds between two points in time: it is counted
/// where the one that is earlier in the day is within it.
pub open spec fn leap_between(start: UtcTime, end: UtcTime) -> int {
    if second_of_day(end) > second_of_day(start) && is_leap(start) {
        1
    } else if second_of_day(end) < second_of_day(start) && is_leap(end) {
        -1
    } else {
        0
    }
}

/// The nanoseconds from one point in time to another.
pub open spec fn nanos_between(start: UtcTime, end: UtcTime) -> int {
    (end.secs - start.secs + leap_between(start, end)) * 1_000_000_000 + (end.nanos - start.nanos)
}

/// The whole seconds from one point in time to another, rounded toward zero.
pub open spec fn seconds_between(start: UtcTime, end: UtcTime) -> Option<i64> {
    if on_calendar(start) && on_calendar(end) {
        Some(toward_zero(nanos_between(start, end), 1_000_000_000) as i64)
    } else {
        None
    }
}

/// The text `YYYY-MM-DDTHH:MM:SS.sssZ` of a point in time.
pub uninterp spec fn iso_text(t: UtcTime) -> Option<Seq<char>>;

/// `chrono::DateTime::parse_from_rfc3339`, brought to UTC.
#[verifier::external_body]
fn parse_rfc3339(text: &str) -> (r: Option<UtcTime>)
    ensures
        r == rfc3339_time(text@),
{
    let dt = chrono::DateTime::parse_from_rfc3339(text).ok()?.to_utc();
    Some(UtcTime { secs: dt.timestamp(), nanos: dt.timestamp_subsec_nanos() })
}

/// `chrono::NaiveDate::parse_from_str` with the format `%Y-%m-%d`, at
/// midnight UTC.
#[verifier::external_body]
fn parse_day(text: &str) -> (r: Option<UtcTime>)
    ensures
        r == day_time(text@),
{
    let date = chrono::NaiveDate::parse_from_str(text, "%Y-%m-%d").ok()?;
    let dt = date.and_hms_opt(0, 0, 0)?.and_utc();
    Some(UtcTime { secs: dt.timestamp(), nanos: dt.timestamp_subsec_nanos() })
}

/// `chrono::NaiveDateTime::parse_from_str`, taken as UTC.
#[verifier::external_body]
fn parse_plain(text: &str, format: &str) -> (r: Option<UtcTime>)
    ensures
        r == plain_time(text@, format@),
{
    let dt = chrono::NaiveDateTime::parse_from_str(text, format).ok()?.and_utc();
    Some(UtcTime { secs: dt.timestamp(), nanos: dt.timestamp_subsec_nanos() })
}

/// The calendar getters of `chrono::DateTime<Utc>` (`Datelike` and
/// `Timelike`): none where `chrono::DateTime::from_timestamp` has no such
/// point in time. The parts are those of the Gregorian calendar; of the week
/// nothing is said beyond that it depends on the point in time alone.
#[verifier::external_body]
fn calendar(t: UtcTime) -> (r: Option<Calendar>)
    ensures
        r == calendar_of(t),
        r is Some == on_calendar(t),
        r matches Some(c) ==> is_dated(t, c),
{
    let dt = chrono::DateTime::from_timestamp(t.secs, t.nanos)?;
    Some(Calendar {
        year: dt.year(),
        month: dt.month(),
        day: dt.day(),
        hour: dt.hour(),
        minute: dt.minute(),
        second: dt.second(),
        week: dt.iso_week().week(),
        day_of_week: dt.weekday().num_days_from_sunday(),
        day_of_year: dt.ordinal(),
    })
}

/// `chrono::DateTime::checked_add_months` on the point in time that
/// `chrono::DateTime::from_timestamp` gives.
#[verifier::external_body]
fn add_months(t: UtcTime, months: u32) -> (r: Option<UtcTime>)
    ensures
        r == months_later(t, months),
{
    let dt = chrono::DateTime::from_timestamp(t.secs, t.nanos)?;
    let shifted = dt.checked_add_months(chrono::Months::new(months))?;
    Some(UtcTime { secs: shifted.timestamp(), nanos: shifted.timestamp_subsec_nanos() })
}

/// `chrono::DateTime::checked_sub_months` on the point in time that
/// `chrono::DateTime::from_timestamp` gives.
#[verifier::external_body]
fn sub_months(t: UtcTime, months: u32) -> (r: Option<UtcTime>)
    ensures
        r == months_earlier(t, months),
{
    let dt = chrono::DateTime::from_timestamp(t.secs, t.nanos)?;
    let shifted = dt.checked_sub_months(chrono::Months::new(months))?;
    Some(UtcTime { secs: shifted.timestamp(), nanos: shifted.timestamp_subsec_nanos() })
}

/// `chrono::DateTime::checked_add_signed` on the point in time that
/// `chrono::DateTime::from_timestamp` gives: it moves by the seconds, unless it
/// leaves the calendar; `chrono::TimeDelta::try_seconds` holds all seconds that
/// stay within it.
#[verifier::external_body]
fn add_seconds(t: UtcTime, seconds: i64) -> (r: Option<UtcTime>)
    ensures
        r == seconds_later(t, seconds),
{
    let dt = chrono::DateTime::from_timestamp(t.secs, t.nanos)?;
    let shifted = dt.checked_add_signed(chrono::TimeDelta::try_seconds(seconds)?)?;
    Some(UtcTime { secs: shifted.timestamp(), nanos: shifted.timestamp_subsec_nanos() })
}

/// `chrono::DateTime::signed_duration_since` and `num_seconds` of the
/// difference, which rounds toward zero.
#[verifier::external_body]
fn seconds_from(start: UtcTime, end: UtcTime) -> (r: Option<i64>)
    ensures
        r == seconds_between(start, end),
{
    let from = chrono::DateTime::from_timestamp(start.secs, start.nanos)?;
    let to = chrono::DateTime::from_timestamp(end.secs, end.nanos)?;
    Some(to.signed_duration_since(from).num_seconds())
}

/// `chrono::DateTime::format` with `%Y-%m-%dT%H:%M:%S%.3fZ`: each part padded with
/// zeros, the year to four digits where it is one of 0 to 9999. A year beyond these
/// has a sign, and more digits where it needs them, of which nothing is said.
#[verifier::external_body]
fn format_time(t: UtcTime) -> (r: Option<String>)
    ensures
        opt_text(r) == iso_text(t),
        r is Some == on_calendar(t),
        r matches Some(s) ==> (has_short_year(t) ==> is_iso_text(t, s@)),
{
    let dt = chrono::DateTime::from_timestamp(t.secs, t.nanos)?;
    Some(dt.format("%Y-%m-%dT%H:%M:%S%.3fZ").to_string())
}

// ---------------------------------------------------------------------------
// Reading dates
// ---------------------------------------------------------------------------

/// The point in time that a text writes: full RFC-3339
/// (`2024-01-15T10:30:00Z`, with offsets and fractional seconds), a date-only
/// value (`2024-01-15`, midnight UTC), or a datetime without time zone
/// (`2024-01-15T10:30:00` or with a space, taken as UTC).
pub open spec fn written_time(text: Seq<char>) -> Option<UtcTime> {
    if rfc3339_time(text) is Some {
        rfc3339_time(text)
    } else if day_time(text) is Some {
        day_time(text)
    } else if plain_time(text, "%Y-%m-%dT%H:%M:%S"@) is Some {
        plain_time(text, "%Y-%m-%dT%H:%M:%S"@)
    } else {
        plain_time(text, "%Y-%m-%d %H:%M:%S"@)
    }
}

/// Parses a document or literal date/time string into UTC.
pub fn parse_datetime(text: &str) -> (r: Option<UtcTime>)
    ensures
        r == written_time(text@),
{
    if let Some(t) = parse_rfc3339(text) {
        return Some(t);
    }
    if let Some(t) = parse_day(text) {
        return Some(t);
    }
    if let Some(t) = parse_plain(text, "%Y-%m-%dT%H:%M:%S") {
        return Some(t);
    }
    parse_plain(text, "%Y-%m-%d %H:%M:%S")
}

/// A written date in fixed-width UTC ISO-8601.
pub open spec fn normalized(text: Seq<char>) -> Option<Seq<char>> {
    match written_time(text) {
        Some(t) => iso_text(t),
        None => None,
    }
}

/// Normalizes a date/time string to fixed-width UTC ISO-8601
/// (`YYYY-MM-DDTHH:MM:SS.sssZ`). Fixed width keeps lexicographic string
/// comparison chronological (see [`law_iso_texts_are_in_order`]). Returns `None`
/// when unparseable.
///
/// [`law_iso_texts_are_in_order`]: crate::filter::iso::law_iso_texts_are_in_order
pub fn normalize_datetime(text: &str) -> (r: Option<String>)
    ensures
        opt_text(r) == normalized(text@),
        r is Some ==> on_calendar(written_time(text@)->Some_0),
        r matches Some(s) ==> (has_short_year(written_time(text@)->Some_0) ==> is_iso_text(
            written_time(text@)->Some_0,
            s@,
        )),
{
    match parse_datetime(text) {
        Some(t) => format_time(t),
        None => None,
    }
}

/// The first point in time that a text among the values writes.
pub open spec fn first_time(values: Seq<JsonV>, i: int) -> Option<UtcTime>
    decreases values.len() - i,
{
    if i >= values.len() {
        None
    } else {
        match values[i] {
            JsonV::String(s) => match written_time(s) {
                Some(t) => Some(t),
                None => first_time(values, i + 1),
            },
            _ => first_time(values, i + 1),
        }
    }
}

/// The first date/time that a field path leads to.
pub open spec fn field_time(fields: Seq<(Seq<char>, JsonV)>, field: Seq<char>) -> Option<UtcTime> {
    first_time(flattened(path_values(fields, field)), 0)
}

/// Resolves a field path to its first date/time value, parsed to UTC. Paths
/// through collections resolve to the first parseable element.
#[verifier::loop_isolation(false)]
fn resolve_datetime(fields: &JsonMap, field: &str) -> (r: Option<UtcTime>)
    ensures
        r == field_time(fields@, field@),
{
    let found = resolve_field_path(fields, field);
    let flat = flatten_values(&found);
    let mut i: usize = 0;
    while i < flat.len()
        invariant
            i <= flat@.len(),
            first_time(ref_values(flat@), 0) == first_time(ref_values(flat@), i as int),
        decreases flat@.len() - i,
    {
        assert(ref_values(flat@)[i as int] == flat@[i as int]@);
        if let Some(text) = flat[i].as_str() {
            if let Some(t) = parse_datetime(text) {
                return Some(t);
            }
        }
        i += 1;
    }
    None
}

pub open spec fn ref_time(d: DateRefV, fields: Seq<(Seq<char>, JsonV)>) -> Option<UtcTime> {
    match d {
        DateRefV::Field(field) => field_time(fields, field),
        DateRefV::Literal(iso) => written_time(iso),
    }
}

impl DateRef {
    /// Resolves a `datediff` endpoint to UTC.
    fn resolve(&self, fields: &JsonMap) -> (r: Option<UtcTime>)
        ensures
            r == ref_time(self@, fields@),
    {
        match self {
            DateRef::Field(field) => resolve_datetime(fields, field.as_str()),
            DateRef::Literal(iso) => parse_datetime(iso.as_str()),
        }
    }
}

// ---------------------------------------------------------------------------
// Date arithmetic
// ---------------------------------------------------------------------------

/// The number that a calendar part is.
pub open spec fn part_of(part: DatePart, c: Calendar) -> int {
    match part {
        DatePart::Year => c.year as int,
        DatePart::Quarter => (c.month - 1) / 3 + 1,
        DatePart::Month => c.month as int,
        DatePart::Week => c.week as int,
        DatePart::Day => c.day as int,
        DatePart::Hour => c.hour as int,
        DatePart::Minute => c.minute as int,
        DatePart::Second => c.second as int,
        DatePart::DayOfWeek => c.day_of_week as int,
        DatePart::DayOfYear => c.day_of_year as int,
    }
}

/// Extracts a `datepart` calendar component as a number.
pub fn datepart_value(part: DatePart, c: &Calendar) -> (r: i64)
    requires
        1 <= c.month <= 12,
    ensures
        r == part_of(part, *c),
{
    match part {
        DatePart::Year => c.year as i64,
        DatePart::Quarter => ((c.month - 1) / 3 + 1) as i64,
        DatePart::Month => c.month as i64,
        DatePart::Week => c.week as i64,
        DatePart::Day => c.day as i64,
        DatePart::Hour => c.hour as i64,
        DatePart::Minute => c.minute as i64,
        DatePart::Second => c.second as i64,
        DatePart::DayOfWeek => c.day_of_week as i64,
        DatePart::DayOfYear => c.day_of_year as i64,
    }
}

/// How many months a unit of the calendar has.
pub open spec fn unit_months(unit: DateUnit) -> int {
    match unit {
        DateUnit::Year => 12,
        DateUnit::Quarter => 3,
        _ => 1,
    }
}

/// How many seconds a unit of the clock has.
pub open spec fn unit_seconds(unit: DateUnit) -> int {
    match unit {
        DateUnit::Week => 604_800,
        DateUnit::Day => 86_400,
        DateUnit::Hour => 3_600,
        DateUnit::Minute => 60,
        _ => 1,
    }
}

pub open spec fn is_calendar_unit(unit: DateUnit) -> bool {
    unit is Year || unit is Quarter || unit is Month
}

/// A point in time shifted by a number of units: calendar units move the
/// month, clock units add seconds.
pub open spec fn shifted(unit: DateUnit, interval: i64, t: UtcTime) -> Option<UtcTime> {
    let n = interval as int;
    if is_calendar_unit(unit) {
        let months = n * unit_months(unit);
        if 0 <= months <= u32::MAX {
            months_later(t, months as u32)
        } else if -u32::MAX <= months < 0 {
            months_earlier(t, (-months) as u32)
        } else {
            None
        }
    } else {
        let seconds = n * unit_seconds(unit);
        if i64::MIN <= seconds <= i64::MAX {
            seconds_later(t, seconds as i64)
        } else {
            None
        }
    }
}

/// Shifts a date by `interval` `unit`s, returning the normalized ISO-8601
/// string. Returns `None` on overflow or out-of-range intervals.
pub fn dateadd_value(unit: DateUnit, interval: i64, t: UtcTime) -> (r: Option<String>)
    ensures
        opt_text(r) == (match shifted(unit, interval, t) {
            Some(s) => iso_text(s),
            None => None,
        }),
{
    let n: i128 = interval as i128;
    let moved = match unit {
        DateUnit::Year | DateUnit::Quarter | DateUnit::Month => {
            let months: i128 = match unit {
                DateUnit::Year => n * 12,
                DateUnit::Quarter => n * 3,
                _ => n,
            };
            if 0 <= months && months <= u32::MAX as i128 {
                add_months(t, months as u32)
            } else if -(u32::MAX as i128) <= months && months < 0 {
                sub_months(t, (-months) as u32)
            } else {
                None
            }
        },
        _ => {
            let seconds: i128 = match unit {
                DateUnit::Week => n * 604_800,
                DateUnit::Day => n * 86_400,
                DateUnit::Hour => n * 3_600,
                DateUnit::Minute => n * 60,
                _ => n,
            };
            if i64::MIN as i128 <= seconds && seconds <= i64::MAX as i128 {
                add_seconds(t, seconds as i64)
            } else {
                None
            }
        },
    };
    match moved {
        Some(s) => format_time(s),
        None => None,
    }
}

/// Division rounded toward zero.
pub open spec fn toward_zero(a: int, d: int) -> int {
    if a >= 0 {
        a / d
    } else {
        -((-a) / d)
    }
}

/// The whole units between two points in time, rounded toward zero: calendar units
/// by the difference of their months, clock units by the seconds between them.
pub open spec fn units_between(unit: DateUnit, start: UtcTime, end: UtcTime) -> Option<int> {
    if is_calendar_unit(unit) {
        match (calendar_of(start), calendar_of(end)) {
            (Some(s), Some(e)) => Some(
                toward_zero((e.year - s.year) * 12 + e.month - s.month, unit_months(unit)),
            ),
            _ => None,
        }
    } else {
        match seconds_between(start, end) {
            Some(seconds) => Some(toward_zero(seconds as int, unit_seconds(unit))),
            None => None,
        }
    }
}

fn trunc_div(a: i64, d: i64) -> (r: i64)
    requires
        1 <= d <= 604_800,
    ensures
        r == toward_zero(a as int, d as int),
{
    if a >= 0 {
        (a as u64 / d as u64) as i64
    } else {
        let m: u64 = (-(a as i128)) as u64;
        assert(m as int / d as int <= m) by (nonlinear_arith)
            requires
                1 <= d,
                m >= 0,
        ;
        (-((m / d as u64) as i128)) as i64
    }
}

/// Computes the whole `unit`s between `start` and `end`, truncated toward zero.
pub fn datediff_value(unit: DateUnit, start: UtcTime, end: UtcTime) -> (r: Option<i64>)
    ensures
        match r {
            Some(n) => units_between(unit, start, end) == Some(n as int),
            None => units_between(unit, start, end) is None,
        },
{
    match unit {
        DateUnit::Year | DateUnit::Quarter | DateUnit::Month => {
            let (s, e) = match (calendar(start), calendar(end)) {
                (Some(s), Some(e)) => (s, e),
                _ => {
                    return None;
                },
            };
            let months: i64 = (e.year as i64 - s.year as i64) * 12 + e.month as i64
                - s.month as i64;
            Some(
                match unit {
                    DateUnit::Year => trunc_div(months, 12),
                    DateUnit::Quarter => trunc_div(months, 3),
                    _ => months,
                },
            )
        },
        _ => match seconds_from(start, end) {
            Some(seconds) => Some(
                match unit {
                    DateUnit::Week => trunc_div(seconds, 604_800),
                    DateUnit::Day => trunc_div(seconds, 86_400),
                    DateUnit::Hour => trunc_div(seconds, 3_600),
                    DateUnit::Minute => trunc_div(seconds, 60),
                    _ => trunc_div(seconds, 1),
                },
            ),
            None => None,
        },
    }
}

// ---------------------------------------------------------------------------
// Evaluation
// ---------------------------------------------------------------------------

pub open spec fn date_expr_value(e: DateExprV, fields: Seq<(Seq<char>, JsonV)>) -> Option<
    FilterValueV,
> {
    match e {
        DateExprV::DatePart { part, field } => match field_time(fields, field) {
            Some(t) => match calendar_of(t) {
                Some(c) => Some(FilterValueV::Number(integer_rank(part_of(part, c)))),
                None => None,
            },
            None => None,
        },
        DateExprV::DateAdd { unit, interval, field } => match field_time(fields, field) {
            Some(t) => match shifted(unit, interval, t) {
                Some(s) => match iso_text(s) {
                    Some(text) => Some(FilterValueV::String(text)),
                    None => None,
                },
                None => None,
            },
            None => None,
        },
        DateExprV::DateDiff { unit, start, end } => match (
            ref_time(start, fields),
            ref_time(end, fields),
        ) {
            (Some(s), Some(e)) => match units_between(unit, s, e) {
                Some(n) => Some(FilterValueV::Number(integer_rank(n))),
                None => None,
            },
            _ => None,
        },
        DateExprV::UtcDateTime(iso) => Some(FilterValueV::String(iso)),
    }
}

impl DateExpr {
    /// Evaluates a date expression against a document: `datepart`/`datediff`
    /// produce a number, `dateadd`/`utcdatetime` a normalized ISO-8601
    /// string. Returns `None` when a referenced date is missing or
    /// unparseable, or the arithmetic overflows.
    pub fn evaluate(&self, fields: &JsonMap) -> (r: Option<FilterValue>)
        ensures
            opt_filter_value(r) == date_expr_value(self@, fields@),
    {
        match self {
            DateExpr::DatePart { part, field } => {
                let t = resolve_datetime(fields, field.as_str())?;
                let c = calendar(t)?;
                Some(FilterValue::Number(signed_rank(datepart_value(*part, &c))))
            },
            DateExpr::DateAdd { unit, interval, field } => {
                let t = resolve_datetime(fields, field.as_str())?;
                let text = dateadd_value(*unit, *interval, t)?;
                Some(FilterValue::String(text))
            },
            DateExpr::DateDiff { unit, start, end } => {
                let s = start.resolve(fields)?;
                let e = end.resolve(fields)?;
                let n = datediff_value(*unit, s, e)?;
                Some(FilterValue::Number(signed_rank(n)))
            },
            DateExpr::UtcDateTime(iso) => Some(FilterValue::String(iso.clone())),
        }
    }
}

pub open spec fn date_operand_value(d: DateOperandV, fields: Seq<(Seq<char>, JsonV)>) -> Option<
    FilterValueV,
> {
    match d {
        DateOperandV::Field(field) => match field_time(fields, field) {
            Some(t) => match iso_text(t) {
                Some(text) => Some(FilterValueV::String(text)),
                None => None,
            },
            None => None,
        },
        DateOperandV::Expr(e) => date_expr_value(e, fields),
    }
}

pub open spec fn ref_fields(d: DateRefV) -> Seq<Seq<char>> {
    match d {
        DateRefV::Field(field) => seq![field],
        DateRefV::Literal(_) => seq![],
    }
}

/// The field names that the left side of a date comparison names.
pub open spec fn operand_fields(d: DateOperandV) -> Seq<Seq<char>> {
    match d {
        DateOperandV::Field(field) => seq![field],
        DateOperandV::Expr(DateExprV::DatePart { part: _, field }) => seq![field],
        DateOperandV::Expr(DateExprV::DateAdd { unit: _, interval: _, field }) => seq![field],
        DateOperandV::Expr(DateExprV::DateDiff { unit: _, start, end }) => ref_fields(start)
            + ref_fields(end),
        DateOperandV::Expr(DateExprV::UtcDateTime(_)) => seq![],
    }
}

fn one_text(text: &String) -> (r: Vec<String>)
    ensures
        texts(r@) == seq![text@],
{
    let mut out: Vec<String> = Vec::new();
    out.push(text.clone());
    assert(texts(out@) =~= seq![text@]);
    out
}

impl DateOperand {
    /// Evaluates a date-comparison left side: a field normalizes to its
    /// ISO-8601 string, a date expression to its number or string.
    pub fn evaluate(&self, fields: &JsonMap) -> (r: Option<FilterValue>)
        ensures
            opt_filter_value(r) == date_operand_value(self@, fields@),
    {
        match self {
            DateOperand::Field(field) => {
                let t = resolve_datetime(fields, field.as_str())?;
                let text = format_time(t)?;
                Some(FilterValue::String(text))
            },
            DateOperand::Expr(expr) => expr.evaluate(fields),
        }
    }

    /// All field names referenced by a date-comparison left side.
    pub fn referenced_fields(&self) -> (r: Vec<String>)
        ensures
            texts(r@) == operand_fields(self@),
    {
        match self {
            DateOperand::Field(field) => one_text(field),
            DateOperand::Expr(DateExpr::DatePart { part: _, field }) => one_text(field),
            DateOperand::Expr(DateExpr::DateAdd { unit: _, interval: _, field }) => one_text(field),
            DateOperand::Expr(DateExpr::DateDiff { unit: _, start, end }) => {
                let mut out: Vec<String> = Vec::new();
                if let DateRef::Field(field) = start {
                    out.push(field.clone());
                }
                assert(texts(out@) =~= ref_fields(start@));
                if let DateRef::Field(field) = end {
                    out.push(field.clone());
                }
                assert(texts(out@) =~= ref_fields(start@) + ref_fields(end@));
                out
            },
            DateOperand::Expr(DateExpr::UtcDateTime(_)) => {
                let out: Vec<String> = Vec::new();
                assert(texts(out@) =~= seq![]);
                out
            },
        }
    }
}

/// Whether units can be counted between two points in time.
pub open spec fn countable_times(unit: DateUnit, start: UtcTime, end: UtcTime) -> bool {
    if is_calendar_unit(unit) {
        calendar_of(start) is Some && calendar_of(end) is Some
    } else {
        on_calendar(start) && on_calendar(end)
    }
}

/// From a point in time to itself there are no whole units.
pub proof fn law_no_units_within_a_point_in_time(unit: DateUnit, t: UtcTime)
    requires
        countable_times(unit, t, t),
    ensures
        units_between(unit, t, t) == Some(0int),
{
}

/// Adding clock units (weeks to seconds) to a point in time outside a leap second
/// moves it by as many whole units, wherever the calendar goes on that far.
pub proof fn law_added_units_are_counted(unit: DateUnit, interval: i64, t: UtcTime)
    requires
        !is_calendar_unit(unit),
        !is_leap(t),
        shifted(unit, interval, t) is Some,
    ensures
        units_between(unit, t, shifted(unit, interval, t)->Some_0) == Some(interval as int),
{
    let n = interval as int;
    let later = shifted(unit, interval, t)->Some_0;
    let seconds = n * unit_seconds(unit);
    assert(later.secs - t.secs == seconds);
    assert(nanos_between(t, later) == seconds * 1_000_000_000);
    assert(toward_zero(nanos_between(t, later), 1_000_000_000) == seconds);
    match unit {
        DateUnit::Week => assert(toward_zero(n * 604_800, 604_800) == n),
        DateUnit::Day => assert(toward_zero(n * 86_400, 86_400) == n),
        DateUnit::Hour => assert(toward_zero(n * 3_600, 3_600) == n),
        DateUnit::Minute => assert(toward_zero(n * 60, 60) == n),
        _ => assert(toward_zero(n * 1, 1) == n),
    }
}

/// There are as many whole units back as forth between two points in time,
/// whatever the unit: swapping the ends only flips the sign.
pub proof fn law_units_count_both_ways(unit: DateUnit, start: UtcTime, end: UtcTime)
    requires
        countable_times(unit, start, end),
    ensures
        units_between(unit, start, end) is Some,
        units_between(unit, end, start) == Some(-units_between(unit, start, end)->Some_0),
{
    if is_calendar_unit(unit) {
        let s = calendar_of(start)->Some_0;
        let e = calendar_of(end)->Some_0;
        let months = (e.year - s.year) * 12 + e.month - s.month;
        assert((s.year - e.year) * 12 + s.month - e.month == -months);
    } else {
        assert(nanos_between(end, start) == -nanos_between(start, end));
    }
}

} // verus!
