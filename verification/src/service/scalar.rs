//! Scalar values of the `Edm.*` types.
use crate::encoding::{is_base64, is_base64_string};
use crate::json::{Json, JsonV, Number, group_json, member, member_array, values};
use crate::storage::field_type::{FieldType, FieldTypeV};
use crate::text::{
    all_digits, chars_of, contains_text, cut_once, digits_only, digits_value, has_part, is_digit,
    lemma_next_at, lemma_text_less_total, next_at, parse_unsigned, pieces, pieces_from, same_text,
    split_on, split_once, stands_at, text_between, text_less, texts,
};
use vstd::arithmetic::power::{lemma_pow_positive, pow};
use vstd::prelude::*;

verus! {

/// A part of a time of day: two digits that write a number up to `max`.
pub open spec fn clock_part(s: Seq<char>, max: nat) -> bool {
    s.len() == 2 && all_digits(s) && digits_value(s) <= max
}

/// The clock form `HH:MM:SS`.
pub open spec fn is_clock(s: Seq<char>) -> bool {
    let parts = pieces(s, ':');
    parts.len() == 3 && clock_part(parts[0], 23) && clock_part(parts[1], 59) && clock_part(
        parts[2],
        59,
    )
}

/// A fraction of a second: one to nine digits.
pub open spec fn is_fraction(s: Seq<char>) -> bool {
    1 <= s.len() <= 9 && all_digits(s)
}

/// A time of day: `HH:MM:SS`, with an optional fraction behind a point.
pub open spec fn is_time(s: Seq<char>) -> bool {
    match cut_once(s, '.') {
        Some((time, fraction)) => is_fraction(fraction) && is_clock(time),
        None => is_clock(s),
    }
}

fn digits_text(text: &str) -> (r: bool)
    ensures
        r == all_digits(text@),
{
    let s = chars_of(text);
    assert(s@.skip(0) =~= s@);
    digits_only(&s, 0)
}

fn clock_part_ok(text: &str, max: u64) -> (r: bool)
    ensures
        r == clock_part(text@, max as nat),
{
    if chars_of(text).len() != 2 || !digits_text(text) {
        return false;
    }
    match parse_unsigned(text, u64::MAX) {
        Some(n) => n <= max,
        None => false,
    }
}

fn clock_ok(text: &str) -> (r: bool)
    ensures
        r == is_clock(text@),
{
    let parts = split_on(text, ':');
    let ghost all = texts(parts@);
    if parts.len() != 3 {
        return false;
    }
    assert(all[0] == parts@[0]@ && all[1] == parts@[1]@ && all[2] == parts@[2]@);
    clock_part_ok(parts[0].as_str(), 23) && clock_part_ok(parts[1].as_str(), 59) && clock_part_ok(
        parts[2].as_str(),
        59,
    )
}

/// Whether a string is a time of day in `"HH:MM:SS"` form with an optional
/// fractional-seconds suffix (`"10:30:45"`, `"10:30:45.123"`). Hours are
/// 00–23, minutes and seconds 00–59. Zero-padded fixed width keeps
/// lexicographic comparison chronological (see [`law_time_texts_are_in_order`]).
pub fn is_time_string(text: &str) -> (r: bool)
    ensures
        r == is_time(text@),
{
    match split_once(text, '.') {
        Some((time, fraction)) => {
            let n: usize = chars_of(fraction.as_str()).len();
            1 <= n && n <= 9 && digits_text(fraction.as_str()) && clock_ok(time.as_str())
        },
        None => clock_ok(text),
    }
}

/// The seconds since midnight of a clock text `HH:MM:SS`.
pub open spec fn clock_seconds(s: Seq<char>) -> nat {
    let parts = pieces(s, ':');
    digits_value(parts[0]) * 3600 + digits_value(parts[1]) * 60 + digits_value(parts[2])
}

/// The fraction that digits write behind a point, in units of its place `n`.
pub open spec fn fraction_value(s: Seq<char>, n: nat) -> nat
    decreases s.len(),
{
    if s.len() == 0 || n == 0 {
        0
    } else {
        digits_value(s.take(1)) * pow(10, (n - 1) as nat) as nat + fraction_value(
            s.drop_first(),
            (n - 1) as nat,
        )
    }
}

/// The nanoseconds since midnight of a time of day.
pub open spec fn time_nanos(s: Seq<char>) -> nat {
    match cut_once(s, '.') {
        Some((time, fraction)) => clock_seconds(time) * 1_000_000_000 + fraction_value(
            fraction,
            9,
        ),
        None => clock_seconds(s) * 1_000_000_000,
    }
}

spec fn digit_at(s: Seq<char>, i: int) -> int {
    s[i] as u32 - '0' as u32
}

proof fn lemma_one_digit(s: Seq<char>)
    requires
        s.len() >= 1,
        is_digit(s[0]),
    ensures
        digits_value(s.take(1)) == digit_at(s, 0),
        digits_value(s.take(1)) <= 9,
{
    let one = s.take(1);
    assert(one.last() == s[0]);
    assert(one.drop_last().len() == 0);
    reveal_with_fuel(digits_value, 2);
}

proof fn lemma_two_digits(s: Seq<char>)
    requires
        s.len() == 2,
        all_digits(s),
    ensures
        digits_value(s) == 10 * digit_at(s, 0) + digit_at(s, 1),
        0 <= digit_at(s, 0) <= 9,
        0 <= digit_at(s, 1) <= 9,
{
    lemma_one_digit(s);
    assert(s.drop_last() =~= s.take(1));
    assert(is_digit(s[0]) && is_digit(s[1]));
}

proof fn lemma_clock_places(s: Seq<char>)
    requires
        is_clock(s),
    ensures
        s.len() == 8,
        s[2] == ':' && s[5] == ':',
        is_digit(s[0]) && is_digit(s[1]) && is_digit(s[3]),
        is_digit(s[4]) && is_digit(s[6]) && is_digit(s[7]),
        clock_seconds(s) == 36000 * digit_at(s, 0) + 3600 * digit_at(s, 1) + 600 * digit_at(s, 3)
            + 60 * digit_at(s, 4) + 10 * digit_at(s, 6) + digit_at(s, 7),
        0 <= digit_at(s, 0) <= 9,
        0 <= digit_at(s, 1) <= 9,
        10 * digit_at(s, 0) + digit_at(s, 1) <= 23,
        0 <= digit_at(s, 3) <= 5,
        0 <= digit_at(s, 4) <= 9,
        0 <= digit_at(s, 6) <= 5,
        0 <= digit_at(s, 7) <= 9,
{
    let parts = pieces(s, ':');
    reveal_with_fuel(pieces_from, 4);
    let a = next_at(s, ':', 0);
    let b = next_at(s, ':', a + 1);
    lemma_next_at(s, ':', 0);
    assert(a < s.len());
    assert(parts[0] =~= s.subrange(0, a));
    assert(a == 2);
    lemma_next_at(s, ':', 3);
    assert(b < s.len());
    assert(parts[1] =~= s.subrange(3, b));
    assert(b == 5);
    lemma_next_at(s, ':', 6);
    assert(parts[2] =~= s.skip(6));
    lemma_two_digits(parts[0]);
    lemma_two_digits(parts[1]);
    lemma_two_digits(parts[2]);
    assert(is_digit(parts[0][0]) && is_digit(parts[0][1]) && is_digit(parts[1][0]));
    assert(is_digit(parts[1][1]) && is_digit(parts[2][0]) && is_digit(parts[2][1]));
    assert(parts[0][0] == s[0] && parts[0][1] == s[1]);
    assert(parts[1][0] == s[3] && parts[1][1] == s[4]);
    assert(parts[2][0] == s[6] && parts[2][1] == s[7]);
}

proof fn lemma_fraction_below(s: Seq<char>, n: nat)
    requires
        all_digits(s),
    ensures
        fraction_value(s, n) < pow(10, n),
    decreases s.len(),
{
    lemma_pow_positive(10, n);
    if s.len() > 0 && n > 0 {
        let rest = s.drop_first();
        assert forall|k: int| 0 <= k < rest.len() implies is_digit(#[trigger] rest[k]) by {
            assert(rest[k] == s[k + 1]);
        }
        lemma_fraction_below(rest, (n - 1) as nat);
        assert(is_digit(s[0]));
        lemma_one_digit(s);
        let d = digits_value(s.take(1)) as int;
        let unit = pow(10, (n - 1) as nat);
        lemma_pow_positive(10, (n - 1) as nat);
        assert(pow(10, n) == 10 * unit) by {
            reveal(pow);
        }
        assert(d * unit <= 9 * unit) by (nonlinear_arith)
            requires
                d <= 9,
                unit > 0,
        ;
    }
}

proof fn lemma_fractions_in_order(a: Seq<char>, b: Seq<char>, n: nat)
    requires
        all_digits(a),
        all_digits(b),
        fraction_value(a, n) < fraction_value(b, n),
    ensures
        text_less(a, b),
    decreases a.len(),
{
    lemma_fraction_below(a, n);
    if a.len() > 0 && b.len() > 0 {
        assert(n > 0);
        let m = (n - 1) as nat;
        let (x, y) = (a.drop_first(), b.drop_first());
        assert forall|k: int| 0 <= k < x.len() implies is_digit(#[trigger] x[k]) by {
            assert(x[k] == a[k + 1]);
        }
        assert forall|k: int| 0 <= k < y.len() implies is_digit(#[trigger] y[k]) by {
            assert(y[k] == b[k + 1]);
        }
        assert(is_digit(a[0]) && is_digit(b[0]));
        lemma_one_digit(a);
        lemma_one_digit(b);
        let unit = pow(10, m);
        lemma_pow_positive(10, m);
        lemma_fraction_below(y, m);
        let (d, e) = (digits_value(a.take(1)) as int, digits_value(b.take(1)) as int);
        assert(d * unit >= 0 && e * unit >= 0) by (nonlinear_arith)
            requires
                d >= 0,
                e >= 0,
                unit > 0,
        ;
        if d > e {
            assert(d * unit >= e * unit + unit) by (nonlinear_arith)
                requires
                    d >= e + 1,
                    unit > 0,
            ;
        } else if d == e {
            assert(a[0] == b[0]);
            lemma_fractions_in_order(x, y, m);
        }
    }
}

/// A common start decides nothing.
proof fn lemma_less_behind(a: Seq<char>, b: Seq<char>, p: int)
    requires
        0 <= p <= a.len(),
        p <= b.len(),
        forall|i: int| 0 <= i < p ==> a[i] == b[i],
    ensures
        text_less(a, b) == text_less(a.skip(p), b.skip(p)),
    decreases p,
{
    if p == 0 {
        assert(a.skip(0) =~= a);
        assert(b.skip(0) =~= b);
    } else {
        let (x, y) = (a.drop_first(), b.drop_first());
        assert forall|i: int| 0 <= i < p - 1 implies x[i] == y[i] by {
            assert(a[i + 1] == b[i + 1]);
        }
        lemma_less_behind(x, y, p - 1);
        assert(x.skip(p - 1) =~= a.skip(p));
        assert(y.skip(p - 1) =~= b.skip(p));
        assert(a[0] == b[0]);
    }
}

proof fn lemma_less_at(a: Seq<char>, b: Seq<char>, p: int)
    requires
        0 <= p < a.len(),
        p < b.len(),
        forall|i: int| 0 <= i < p ==> a[i] == b[i],
        a[p] < b[p],
    ensures
        text_less(a, b),
{
    lemma_less_behind(a, b, p);
    assert(a.skip(p)[0] == a[p]);
    assert(b.skip(p)[0] == b[p]);
}

spec fn fraction_of(s: Seq<char>) -> Seq<char> {
    match cut_once(s, '.') {
        Some((_, fraction)) => fraction,
        None => seq![],
    }
}

proof fn lemma_time_places(s: Seq<char>)
    requires
        is_time(s),
    ensures
        s.len() >= 8,
        is_clock(s.take(8)),
        s.len() == 8 ==> fraction_of(s).len() == 0,
        s.len() > 8 ==> s[8] == '.' && fraction_of(s) == s.skip(9),
        all_digits(fraction_of(s)),
        time_nanos(s) == clock_seconds(s.take(8)) * 1_000_000_000 + fraction_value(
            fraction_of(s),
            9,
        ),
{
    lemma_next_at(s, '.', 0);
    match cut_once(s, '.') {
        Some((time, _)) => {
            lemma_clock_places(time);
        },
        None => {
            lemma_clock_places(s);
            assert(s.take(8) =~= s);
        },
    }
}

proof fn lemma_first_place_decides(
    x: (int, int, int, int, int, int),
    y: (int, int, int, int, int, int),
)
    requires
        0 <= x.1 <= 9 && 0 <= x.2 <= 5 && 0 <= x.3 <= 9 && 0 <= x.4 <= 5 && 0 <= x.5 <= 9,
        0 <= y.1 <= 9 && 0 <= y.2 <= 5 && 0 <= y.3 <= 9 && 0 <= y.4 <= 5 && 0 <= y.5 <= 9,
        36000 * x.0 + 3600 * x.1 + 600 * x.2 + 60 * x.3 + 10 * x.4 + x.5 <= 36000 * y.0 + 3600 * y.1
            + 600 * y.2 + 60 * y.3 + 10 * y.4 + y.5,
    ensures
        x.0 <= y.0,
        x.0 == y.0 ==> x.1 <= y.1,
        x.0 == y.0 && x.1 == y.1 ==> x.2 <= y.2,
        x.0 == y.0 && x.1 == y.1 && x.2 == y.2 ==> x.3 <= y.3,
        x.0 == y.0 && x.1 == y.1 && x.2 == y.2 && x.3 == y.3 ==> x.4 <= y.4,
        x.0 == y.0 && x.1 == y.1 && x.2 == y.2 && x.3 == y.3 && x.4 == y.4 ==> x.5 <= y.5,
{
}

spec fn clock_digits(s: Seq<char>) -> (int, int, int, int, int, int) {
    (
        digit_at(s, 0),
        digit_at(s, 1),
        digit_at(s, 3),
        digit_at(s, 4),
        digit_at(s, 6),
        digit_at(s, 7),
    )
}

proof fn lemma_digits_compare(x: Seq<char>, y: Seq<char>, i: int)
    requires
        is_digit(x[i]),
        is_digit(y[i]),
    ensures
        (x[i] == y[i]) == (digit_at(x, i) == digit_at(y, i)),
        (x[i] < y[i]) == (digit_at(x, i) < digit_at(y, i)),
{
}

/// The place at which two clock texts differ first.
proof fn lemma_clocks_in_order(x: Seq<char>, y: Seq<char>) -> (p: int)
    requires
        is_clock(x),
        is_clock(y),
        clock_seconds(x) <= clock_seconds(y),
        x != y,
    ensures
        0 <= p < 8,
        x.len() == 8,
        y.len() == 8,
        forall|i: int| 0 <= i < p ==> x[i] == y[i],
        x[p] < y[p],
{
    lemma_clock_places(x);
    lemma_clock_places(y);
    lemma_first_place_decides(clock_digits(x), clock_digits(y));
    lemma_digits_compare(x, y, 0);
    lemma_digits_compare(x, y, 1);
    lemma_digits_compare(x, y, 3);
    lemma_digits_compare(x, y, 4);
    lemma_digits_compare(x, y, 6);
    lemma_digits_compare(x, y, 7);
    if x[0] != y[0] {
        0
    } else if x[1] != y[1] {
        1
    } else if x[3] != y[3] {
        3
    } else if x[4] != y[4] {
        4
    } else if x[6] != y[6] {
        6
    } else {
        assert(x[7] != y[7]) by {
            if x[7] == y[7] {
                assert(x =~= y);
            }
        }
        7
    }
}

proof fn lemma_earlier_is_less(a: Seq<char>, b: Seq<char>)
    requires
        is_time(a),
        is_time(b),
        time_nanos(a) < time_nanos(b),
    ensures
        text_less(a, b),
{
    lemma_time_places(a);
    lemma_time_places(b);
    let (x, y) = (a.take(8), b.take(8));
    let (f, g) = (fraction_of(a), fraction_of(b));
    lemma_fraction_below(f, 9);
    lemma_fraction_below(g, 9);
    lemma_billion();
    if x != y {
        let p = lemma_clocks_in_order(x, y);
        assert forall|i: int| 0 <= i <= p implies a[i] == x[i] && b[i] == y[i] by {}
        lemma_less_at(a, b, p);
    } else {
        assert forall|i: int| 0 <= i < 8 implies a[i] == b[i] by {
            assert(a[i] == x[i] && b[i] == y[i]);
        }
        lemma_less_behind(a, b, 8);
        if a.len() > 8 && b.len() > 8 {
            lemma_less_behind(a, b, 9);
            lemma_fractions_in_order(f, g, 9);
        }
    }
}

proof fn lemma_billion()
    ensures
        pow(10, 9) == 1_000_000_000,
{
    reveal(pow);
    reveal_with_fuel(pow, 10);
}

/// The order of the texts of times of day is the order of the times: an earlier
/// time has the lesser text, and a lesser text is no later time.
pub proof fn law_time_texts_are_in_order(a: Seq<char>, b: Seq<char>)
    requires
        is_time(a),
        is_time(b),
    ensures
        time_nanos(a) < time_nanos(b) ==> text_less(a, b),
        text_less(a, b) ==> time_nanos(a) <= time_nanos(b),
{
    lemma_text_less_total(a, b);
    if time_nanos(a) < time_nanos(b) {
        lemma_earlier_is_less(a, b);
    }
    if time_nanos(b) < time_nanos(a) {
        lemma_earlier_is_less(b, a);
    }
}

/// The seconds of a duration: digits with an optional fractional part.
pub open spec fn is_seconds(s: Seq<char>) -> bool {
    match cut_once(s, '.') {
        Some((whole, fraction)) => whole.len() > 0 && fraction.len() > 0 && all_digits(whole)
            && all_digits(fraction),
        None => s.len() > 0 && all_digits(s),
    }
}

/// Whether a duration seconds component is valid: digits with an optional
/// single fractional part (`"6"`, `"0.5"`).
pub fn is_duration_seconds(number: &str) -> (r: bool)
    ensures
        r == is_seconds(number@),
{
    match split_once(number, '.') {
        Some((whole, fraction)) => !whole.as_str().is_empty() && !fraction.as_str().is_empty()
            && digits_text(whole.as_str()) && digits_text(fraction.as_str()),
        None => !number.is_empty() && digits_text(number),
    }
}

/// What is left of a run of components `<number><marker>`, whose markers stand
/// in order, each at most once, from marker `i` on; with whether there was a
/// component. None where a number is bad.
pub open spec fn components_from(
    current: Seq<char>,
    markers: Seq<char>,
    i: int,
    found: bool,
) -> Option<(Seq<char>, bool)>
    decreases markers.len() - i,
{
    if i >= markers.len() {
        Some((current, found))
    } else {
        match cut_once(current, markers[i]) {
            None => components_from(current, markers, i + 1, found),
            Some((number, after)) => {
                let ok = if markers[i] == 'S' {
                    is_seconds(number)
                } else {
                    number.len() > 0 && all_digits(number)
                };
                if ok {
                    components_from(after, markers, i + 1, true)
                } else {
                    None
                }
            },
        }
    }
}

/// Whether a part of a duration holds nothing but components; with whether
/// there is one.
pub open spec fn only_components(part: Seq<char>, markers: Seq<char>) -> Option<bool> {
    match components_from(part, markers, 0, false) {
        Some((left, found)) => if left.len() == 0 {
            Some(found)
        } else {
            None
        },
        None => None,
    }
}

pub open spec fn date_markers() -> Seq<char> {
    seq!['Y', 'M', 'W', 'D']
}

pub open spec fn time_markers() -> Seq<char> {
    seq!['H', 'M', 'S']
}

/// The components of a duration with a date part and a time part. Weeks cannot
/// stand with other components.
pub open spec fn duration_parts(date: Seq<char>, time: Option<Seq<char>>) -> bool {
    let time_text = match time {
        Some(t) => t,
        None => seq![],
    };
    match (only_components(date, date_markers()), only_components(time_text, time_markers())) {
        (Some(a), Some(b)) => if has_part(date, seq!['W']) {
            let digits = date.take(date.len() - 1);
            date.last() == 'W' && digits.len() > 0 && all_digits(digits) && time is None && (a
                || b)
        } else {
            a || b
        },
        _ => false,
    }
}

/// An ISO 8601 duration: `P` with date and time components, the time
/// components behind a `T`.
pub open spec fn is_duration(s: Seq<char>) -> bool {
    s.len() > 1 && s[0] == 'P' && {
        let rest = s.skip(1);
        match cut_once(rest, 'T') {
            Some((date, time)) => time.len() > 0 && !has_part(time, seq!['T'])
                && duration_parts(date, Some(time)),
            None => duration_parts(rest, None),
        }
    }
}

fn read_components(part: &str, markers: &Vec<char>) -> (r: Option<bool>)
    ensures
        r == only_components(part@, markers@),
{
    let mut current = part.to_owned();
    let mut found = false;
    let mut i: usize = 0;
    while i < markers.len()
        invariant
            i <= markers@.len(),
            components_from(part@, markers@, 0, false) == components_from(
                current@,
                markers@,
                i as int,
                found,
            ),
        decreases markers@.len() - i,
    {
        if let Some((number, after)) = split_once(current.as_str(), markers[i]) {
            let ok = if markers[i] == 'S' {
                is_duration_seconds(number.as_str())
            } else {
                !number.as_str().is_empty() && digits_text(number.as_str())
            };
            if !ok {
                return None;
            }
            found = true;
            current = after;
        }
        i += 1;
    }
    if current.as_str().is_empty() {
        Some(found)
    } else {
        None
    }
}

fn contains_char(text: &str, c: char) -> (r: bool)
    ensures
        r == has_part(text@, seq![c]),
{
    let mut one = String::new();
    one.push(c);
    assert(one@ =~= seq![c]);
    contains_text(text, one.as_str())
}

fn duration_parts_ok(date: &str, time: Option<&str>) -> (r: bool)
    ensures
        r == duration_parts(
            date@,
            match time {
                Some(t) => Some(t@),
                None => None,
            },
        ),
{
    let dates: Vec<char> = vec!['Y', 'M', 'W', 'D'];
    let times: Vec<char> = vec!['H', 'M', 'S'];
    assert(dates@ =~= date_markers());
    assert(times@ =~= time_markers());
    let time_text = match time {
        Some(t) => t.to_owned(),
        None => {
            let t = String::new();
            assert(t@ =~= seq![]);
            t
        },
    };
    let a = match read_components(date, &dates) {
        Some(a) => a,
        None => {
            return false;
        },
    };
    let b = match read_components(time_text.as_str(), &times) {
        Some(b) => b,
        None => {
            return false;
        },
    };
    if contains_char(date, 'W') {
        let s = chars_of(date);
        proof {
            let i = choose|i: int| stands_at(date@, seq!['W'], i);
            assert(stands_at(date@, seq!['W'], i));
            assert(date@.len() > 0);
        }
        let n: usize = s.len();
        if s[n - 1] != 'W' {
            return false;
        }
        let digits = text_between(&s, 0, n - 1);
        return !digits.as_str().is_empty() && digits_text(digits.as_str()) && time.is_none() && (a
            || b);
    }
    a || b
}

/// Whether a string is an ISO 8601 duration (`"P1Y2M3DT4H5M6S"`,
/// `"PT30S"`, `"P1W"`): a leading `P` with date and/or time components. At
/// least one component is required; time components follow a `T` separator.
pub fn is_duration_string(text: &str) -> (r: bool)
    ensures
        r == is_duration(text@),
{
    let s = chars_of(text);
    if s.len() <= 1 || s[0] != 'P' {
        return false;
    }
    let rest = text_between(&s, 1, s.len());
    assert(rest@ =~= text@.skip(1));
    match split_once(rest.as_str(), 'T') {
        Some((date, time)) => !time.as_str().is_empty() && !contains_char(time.as_str(), 'T')
            && duration_parts_ok(date.as_str(), Some(time.as_str())),
        None => duration_parts_ok(rest.as_str(), None),
    }
}

/// Whether a value is an integer in an inclusive range.
pub open spec fn integer_within(v: JsonV, min: int, max: int) -> bool {
    match v {
        JsonV::Number(n) => match n.int_spec() {
            Some(i) => min <= i <= max,
            None => false,
        },
        _ => false,
    }
}

/// Whether a JSON value is an integer in the inclusive range `[min, max]`.
fn int_in_range(value: &Json, min: i64, max: i64) -> (r: bool)
    requires
        max <= i64::MAX,
    ensures
        r == integer_within(value@, min as int, max as int),
{
    match value {
        Json::Number(Number::PosInt(n)) => {
            let wide: i128 = *n as i128;
            min as i128 <= wide && wide <= max as i128
        },
        Json::Number(Number::NegInt(n)) => min <= *n && *n <= max,
        _ => false,
    }
}

/// Whether a value is a geography point: a GeoJSON point with two or three
/// numbers as coordinates, or a string.
pub open spec fn geography_point(v: JsonV) -> bool {
    match v {
        JsonV::String(_) => true,
        JsonV::Object(m) => member(m, "type"@) == Some(JsonV::String("Point"@)) && match member(
            m,
            "coordinates"@,
        ) {
            Some(JsonV::Array(coords)) => 2 <= coords.len() <= 3 && forall|i: int|
                0 <= i < coords.len() ==> #[trigger] coords[i] is Number,
            _ => false,
        },
        _ => false,
    }
}

/// Whether a value is an acceptable `Edm.GeographyPoint`: the `GeoJSON` point
/// object the SDKs send (an object with `type` set to "Point" and a two- or
/// three-element numeric `coordinates` array) or a plain string.
pub fn is_geography_point(value: &Json) -> (r: bool)
    ensures
        r == geography_point(value@),
{
    broadcast use group_json;

    let obj = match value {
        Json::String(_) => {
            return true;
        },
        Json::Object(obj) => obj,
        _ => {
            return false;
        },
    };
    let point = match obj.get("type") {
        Some(Json::String(kind)) => same_text(kind.as_str(), "Point"),
        _ => false,
    };
    if !point {
        return false;
    }
    let coords = match member_array(obj.get("coordinates")) {
        Some(coords) => coords,
        None => {
            return false;
        },
    };
    if coords.len() != 2 && coords.len() != 3 {
        return false;
    }
    let ghost all = values(coords@);
    let mut i: usize = 0;
    while i < coords.len()
        invariant
            all == values(coords@),
            2 <= all.len() <= 3,
            i <= coords@.len(),
            geography_point(value@) == (forall|k: int|
                0 <= k < all.len() ==> #[trigger] all[k] is Number),
            forall|k: int| 0 <= k < i ==> #[trigger] all[k] is Number,
        decreases coords@.len() - i,
    {
        assert(all[i as int] == coords@[i as int]@);
        if !matches!(&coords[i], Json::Number(_)) {
            return false;
        }
        i += 1;
    }
    true
}

/// Whether a value is compatible with a scalar type.
pub open spec fn scalar_fits(t: FieldTypeV, v: JsonV) -> bool {
    match t {
        FieldTypeV::String => v is String,
        FieldTypeV::DateTimeOffset => v is String,
        FieldTypeV::Guid => v is String,
        FieldTypeV::GeographyPoint => geography_point(v),
        FieldTypeV::Int32 => v is Number && v->Number_0.int_spec() is Some,
        FieldTypeV::Int64 => v is Number && v->Number_0.int_spec() is Some,
        FieldTypeV::Int8 => integer_within(v, -128, 127),
        FieldTypeV::Int16 => integer_within(v, -32_768, 32_767),
        FieldTypeV::Time => v is String && is_time(v->String_0),
        FieldTypeV::Duration => v is String && is_duration(v->String_0),
        FieldTypeV::Binary => v is String && is_base64(v->String_0),
        FieldTypeV::Single => v is Number,
        FieldTypeV::Double => v is Number,
        FieldTypeV::Boolean => v is Bool,
        _ => true,
    }
}

/// Whether a value is compatible with a scalar `Edm.*` type, including the
/// range and format rules for the narrow integer, time, duration, and binary
/// types: `Edm.Int8` accepts integers in -128–127, `Edm.Int16` in
/// -32768–32767, `Edm.Time` accepts zero-padded `"HH:MM:SS"` strings
/// (optional fractional seconds), `Edm.Duration` accepts ISO 8601 duration
/// strings, and `Edm.Binary` accepts base64-encoded strings.
pub fn scalar_type_ok(inner: &FieldType, value: &Json) -> (r: bool)
    ensures
        r == scalar_fits(inner@, value@),
{
    match inner {
        FieldType::String | FieldType::DateTimeOffset | FieldType::Guid => matches!(
            value,
            Json::String(_)
        ),
        FieldType::GeographyPoint => is_geography_point(value),
        FieldType::Int32 | FieldType::Int64 => matches!(
            value,
            Json::Number(Number::PosInt(_)) | Json::Number(Number::NegInt(_))
        ),
        FieldType::Int8 => int_in_range(value, -128, 127),
        FieldType::Int16 => int_in_range(value, -32_768, 32_767),
        FieldType::Time => match value.as_str() {
            Some(text) => is_time_string(text),
            None => false,
        },
        FieldType::Duration => match value.as_str() {
            Some(text) => is_duration_string(text),
            None => false,
        },
        FieldType::Binary => match value.as_str() {
            Some(text) => is_base64_string(text),
            None => false,
        },
        FieldType::Single | FieldType::Double => matches!(value, Json::Number(_)),
        FieldType::Boolean => matches!(value, Json::Bool(_)),
        _ => true,
    }
}

} // verus!
