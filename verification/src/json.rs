//! JSON values as plain data.
use crate::text::{
    cat3, debug_text, decimal, decimal_text, lemma_text_less_irreflexive, lemma_text_less_total,
    lemma_text_less_transitive, quoted, same_text, text_before, text_less,
};
use vstd::prelude::*;

verus! {

// ---------------------------------------------------------------------------
// Numbers
// ---------------------------------------------------------------------------

/// A JSON number: an unsigned integer, a negative integer, or a binary64
/// floating-point number, which is held by its rank.
///
/// The rank of a binary64 number is its bit pattern with the sign bit flipped
/// when it is positive, and with all bits flipped when it is negative: the
/// ranks are ordered as the numbers are.
#[derive(Debug, Clone, Copy, PartialEq, Eq, Structural)]
pub enum Number {
    PosInt(u64),
    NegInt(i64),
    Float(u64),
}

/// The rank of the binary64 number nearest to an integer.
pub uninterp spec fn integer_rank(n: int) -> u64;

/// How JSON writes the binary64 number of a rank.
pub uninterp spec fn json_float_text(rank: u64) -> Seq<char>;

/// How JSON writes a text: quoted and escaped.
pub uninterp spec fn json_string_text(s: Seq<char>) -> Seq<char>;

/// `serde_json::Number::as_f64` on an unsigned integer, by its rank.
#[verifier::external_body]
pub(crate) fn unsigned_rank(n: u64) -> (r: u64)
    ensures
        r == integer_rank(n as int),
{
    tantivy::f64_to_u64(serde_json::Number::from(n).as_f64().unwrap_or_default())
}

/// `serde_json::Number::as_f64` on a signed integer, by its rank.
#[verifier::external_body]
pub(crate) fn signed_rank(n: i64) -> (r: u64)
    ensures
        r == integer_rank(n as int),
{
    tantivy::f64_to_u64(serde_json::Number::from(n).as_f64().unwrap_or_default())
}

/// `serde_json::Number::from_f64` and the number's `Display` form; a number
/// that is not finite has the empty text.
#[verifier::external_body]
fn float_text(rank: u64) -> (r: String)
    ensures
        r@ == json_float_text(rank),
{
    match serde_json::Number::from_f64(tantivy::u64_to_f64(rank)) {
        Some(n) => n.to_string(),
        None => String::new(),
    }
}

/// The `Display` form of a `serde_json::Value` that holds a string.
#[verifier::external_body]
fn string_text(text: &str) -> (r: String)
    ensures
        r@ == json_string_text(text@),
{
    serde_json::Value::from(text).to_string()
}

/// The rank of one.
pub const ONE_RANK: u64 = 0xBFF0_0000_0000_0000;

/// The rank of zero.
pub const ZERO_RANK: u64 = 0x8000_0000_0000_0000;

/// The ranks of the two zeros.
pub open spec fn is_zero_rank(r: u64) -> bool {
    r == 0x8000_0000_0000_0000 || r == 0x7FFF_FFFF_FFFF_FFFF
}

/// The ranks of what is not a number.
pub open spec fn is_nan_rank(r: u64) -> bool {
    r > 0xFFF0_0000_0000_0000 || r < 0x000F_FFFF_FFFF_FFFF
}

/// Whether two binary64 numbers are equal.
pub open spec fn rank_eq(a: u64, b: u64) -> bool {
    !is_nan_rank(a) && !is_nan_rank(b) && (a == b || is_zero_rank(a) && is_zero_rank(b))
}

/// Whether one binary64 number is less than another.
pub open spec fn rank_lt(a: u64, b: u64) -> bool {
    !is_nan_rank(a) && !is_nan_rank(b) && a < b && !(is_zero_rank(a) && is_zero_rank(b))
}

pub(crate) fn ranks_equal(a: u64, b: u64) -> (r: bool)
    ensures
        r == rank_eq(a, b),
{
    !nan_rank(a) && !nan_rank(b) && (a == b || (zero_rank(a) && zero_rank(b)))
}

pub(crate) fn ranks_less(a: u64, b: u64) -> (r: bool)
    ensures
        r == rank_lt(a, b),
{
    !nan_rank(a) && !nan_rank(b) && a < b && !(zero_rank(a) && zero_rank(b))
}

fn zero_rank(r: u64) -> (b: bool)
    ensures
        b == is_zero_rank(r),
{
    r == 0x8000_0000_0000_0000 || r == 0x7FFF_FFFF_FFFF_FFFF
}

pub(crate) fn nan_rank(r: u64) -> (b: bool)
    ensures
        b == is_nan_rank(r),
{
    r > 0xFFF0_0000_0000_0000 || r < 0x000F_FFFF_FFFF_FFFF
}

/// Two to the power of `n`.
pub open spec fn two_to(n: nat) -> nat
    decreases n,
{
    if n == 0 {
        1
    } else {
        2 * two_to((n - 1) as nat)
    }
}

/// The bit pattern of a rank's number without its sign.
pub open spec fn magnitude_bits(rank: u64) -> int {
    if rank >= 0x8000_0000_0000_0000 {
        rank - 0x8000_0000_0000_0000
    } else {
        0x7FFF_FFFF_FFFF_FFFF - rank
    }
}

/// The magnitude of a binary64 number, where it is an integer: its significand
/// scaled by a power of two.
pub open spec fn integer_magnitude(mag: int) -> Option<int> {
    let exponent = mag / 0x10_0000_0000_0000;
    let fraction = mag % 0x10_0000_0000_0000;
    let significand = fraction + 0x10_0000_0000_0000;
    if exponent == 2047 {
        None
    } else if exponent == 0 {
        if fraction == 0 {
            Some(0)
        } else {
            None
        }
    } else if exponent >= 1075 {
        Some(significand * two_to((exponent - 1075) as nat))
    } else if 1075 - exponent <= 52 && significand % two_to((1075 - exponent) as nat) as int == 0 {
        Some(significand / two_to((1075 - exponent) as nat) as int)
    } else {
        None
    }
}

/// The integer that the binary64 number of a rank is, where it is one.
pub open spec fn integer_of_rank(rank: u64) -> Option<int> {
    match integer_magnitude(magnitude_bits(rank)) {
        Some(m) => Some(
            if rank >= 0x8000_0000_0000_0000 {
                m
            } else {
                -m
            },
        ),
        None => None,
    }
}

/// The integer that a binary64 number is, or why there is none.
#[derive(Debug, Clone, Copy, PartialEq, Eq, Structural)]
pub enum IntegerOf {
    /// The number has a fractional part, or is not finite.
    NoInteger,
    /// The integer does not fit.
    OutOfRange,
    Value(i64),
}

proof fn lemma_two_to_grows(a: nat, b: nat)
    requires
        a <= b,
    ensures
        1 <= two_to(a) <= two_to(b),
    decreases b,
{
    if a < b {
        lemma_two_to_grows(a, (b - 1) as nat);
    } else if a > 0 {
        lemma_two_to_grows((a - 1) as nat, (a - 1) as nat);
    }
}

proof fn lemma_two_to_12()
    ensures
        two_to(12) == 4096,
{
    assert(two_to(12) == 4096) by {
        reveal_with_fuel(two_to, 13);
    }
}

proof fn lemma_two_to_52()
    ensures
        two_to(52) == 0x10_0000_0000_0000,
{
    assert(two_to(52) == 0x10_0000_0000_0000) by {
        reveal_with_fuel(two_to, 53);
    }
}

fn power_of_two(n: u64) -> (r: u64)
    requires
        n <= 52,
    ensures
        r == two_to(n as nat),
        1 <= r <= 0x10_0000_0000_0000,
    decreases n,
{
    proof {
        lemma_two_to_grows(n as nat, 52);
        lemma_two_to_52();
    }
    if n == 0 {
        1
    } else {
        let half: u64 = power_of_two(n - 1);
        2 * half
    }
}

/// The integer that the binary64 number of a rank is.
pub fn rank_integer(rank: u64) -> (r: IntegerOf)
    ensures
        match r {
            IntegerOf::NoInteger => integer_of_rank(rank) is None,
            IntegerOf::OutOfRange => integer_of_rank(rank) is Some && !(i64::MIN
                <= integer_of_rank(rank)->Some_0 <= i64::MAX),
            IntegerOf::Value(n) => integer_of_rank(rank) == Some(n as int),
        },
{
    let positive = rank >= 0x8000_0000_0000_0000;
    let mag: u64 = if positive {
        rank - 0x8000_0000_0000_0000
    } else {
        0x7FFF_FFFF_FFFF_FFFF - rank
    };
    let exponent: u64 = mag / 0x10_0000_0000_0000;
    let fraction: u64 = mag % 0x10_0000_0000_0000;
    let significand: u64 = fraction + 0x10_0000_0000_0000;
    if exponent == 2047 {
        return IntegerOf::NoInteger;
    }
    let value: u128 = if exponent == 0 {
        if fraction != 0 {
            return IntegerOf::NoInteger;
        }
        0
    } else if exponent >= 1075 {
        let shift: u64 = exponent - 1075;
        if shift >= 12 {
            proof {
                lemma_two_to_grows(12, shift as nat);
                lemma_two_to_12();
                assert(significand * two_to(shift as nat) >= 0x10_0000_0000_0000 * 4096)
                    by (nonlinear_arith)
                    requires
                        significand >= 0x10_0000_0000_0000,
                        two_to(shift as nat) >= 4096,
                ;
            }
            return IntegerOf::OutOfRange;
        }
        let power = power_of_two(shift);
        proof {
            lemma_two_to_grows(shift as nat, 12);
            lemma_two_to_12();
            assert(significand * power <= 0x20_0000_0000_0000 * 4096) by (nonlinear_arith)
                requires
                    significand <= 0x20_0000_0000_0000,
                    power <= 4096,
            ;
        }
        significand as u128 * power as u128
    } else {
        let shift: u64 = 1075 - exponent;
        if shift > 52 {
            return IntegerOf::NoInteger;
        }
        let power = power_of_two(shift);
        if significand % power != 0 {
            return IntegerOf::NoInteger;
        }
        (significand / power) as u128
    };
    assert(integer_magnitude(mag as int) == Some(value as int));
    if positive {
        if value > i64::MAX as u128 {
            IntegerOf::OutOfRange
        } else {
            IntegerOf::Value(value as i64)
        }
    } else if value > 0x8000_0000_0000_0000 {
        IntegerOf::OutOfRange
    } else {
        IntegerOf::Value((-(value as i128)) as i64)
    }
}

impl Number {
    /// The rank of the number as a binary64 number.
    pub open spec fn rank_spec(self) -> u64 {
        match self {
            Number::PosInt(n) => integer_rank(n as int),
            Number::NegInt(n) => integer_rank(n as int),
            Number::Float(r) => r,
        }
    }

    /// The integer that the number is, where it is one that fits.
    pub open spec fn int_spec(self) -> Option<int> {
        match self {
            Number::PosInt(n) => Some(n as int),
            Number::NegInt(n) => Some(n as int),
            Number::Float(_) => None,
        }
    }

    /// How JSON writes the number.
    pub open spec fn text_spec(self) -> Seq<char> {
        match self {
            Number::PosInt(n) => decimal(n as nat),
            Number::NegInt(n) => if n < 0 {
                seq!['-'] + decimal(-(n as int) as nat)
            } else {
                decimal(n as nat)
            },
            Number::Float(r) => json_float_text(r),
        }
    }

    pub fn rank(self) -> (r: u64)
        ensures
            r == self.rank_spec(),
    {
        match self {
            Number::PosInt(n) => unsigned_rank(n),
            Number::NegInt(n) => signed_rank(n),
            Number::Float(r) => r,
        }
    }

    pub fn text(self) -> (r: String)
        ensures
            r@ == self.text_spec(),
    {
        match self {
            Number::PosInt(n) => decimal_text(n),
            Number::NegInt(n) => {
                if n < 0 {
                    let m: u64 = (-(n as i128)) as u64;
                    let mut out = String::new();
                    out.push('-');
                    assert(out@ =~= seq!['-']);
                    let digits = decimal_text(m);
                    out.append(digits.as_str());
                    out
                } else {
                    decimal_text(n as u64)
                }
            },
            Number::Float(r) => float_text(r),
        }
    }
}

// ---------------------------------------------------------------------------
// Values
// ---------------------------------------------------------------------------

/// A JSON value.
#[derive(Debug, PartialEq)]
pub enum Json {
    Null,
    Bool(bool),
    Number(Number),
    String(String),
    Array(Vec<Json>),
    Object(JsonMap),
}

/// The members of a JSON object, in the order of their keys.
#[derive(Debug, PartialEq)]
pub struct JsonMap {
    pub entries: Vec<(String, Json)>,
}

/// The mathematical value of a [`Json`].
pub enum JsonV {
    Null,
    Bool(bool),
    Number(Number),
    String(Seq<char>),
    Array(Seq<JsonV>),
    Object(Seq<(Seq<char>, JsonV)>),
}

/// The value that a [`Json`] holds.
pub open spec fn json_view(j: Json) -> JsonV
    decreases j,
{
    match j {
        Json::Null => JsonV::Null,
        Json::Bool(b) => JsonV::Bool(b),
        Json::Number(n) => JsonV::Number(n),
        Json::String(s) => JsonV::String(s@),
        Json::Array(v) => JsonV::Array(
            Seq::new(
                v@.len(),
                |i: int|
                    if 0 <= i < v@.len() {
                        json_view(v@[i])
                    } else {
                        JsonV::Null
                    },
            ),
        ),
        Json::Object(m) => JsonV::Object(
            Seq::new(
                m.entries@.len(),
                |i: int|
                    if 0 <= i < m.entries@.len() {
                        (m.entries@[i].0@, json_view(m.entries@[i].1))
                    } else {
                        (seq![], JsonV::Null)
                    },
            ),
        ),
    }
}

impl View for Json {
    type V = JsonV;

    open spec fn view(&self) -> JsonV {
        json_view(*self)
    }
}

impl View for JsonMap {
    type V = Seq<(Seq<char>, JsonV)>;

    open spec fn view(&self) -> Seq<(Seq<char>, JsonV)> {
        members(self.entries@)
    }
}

/// The values of a list.
pub open spec fn values(v: Seq<Json>) -> Seq<JsonV> {
    v.map_values(|j: Json| j@)
}

/// The values that a list of references points at.
pub open spec fn ref_values(v: Seq<&Json>) -> Seq<JsonV> {
    v.map_values(|j: &Json| j@)
}

pub open spec fn members(v: Seq<(String, Json)>) -> Seq<(Seq<char>, JsonV)> {
    v.map_values(|e: (String, Json)| (e.0@, e.1@))
}

pub open spec fn opt_value(o: Option<&Json>) -> Option<JsonV> {
    match o {
        Some(j) => Some(j@),
        None => None,
    }
}

pub open spec fn opt_owned(o: Option<Json>) -> Option<JsonV> {
    match o {
        Some(j) => Some(j@),
        None => None,
    }
}

pub broadcast proof fn lemma_array_view(j: Json)
    ensures
        j is Array ==> #[trigger] j@ == JsonV::Array(values(j->Array_0@)),
{
    if j is Array {
        let v = j->Array_0@;
        assert forall|i: int| 0 <= i < v.len() implies j@->Array_0[i] == #[trigger] values(v)[i] by {
            assert(values(v)[i] == v[i]@);
        }
        assert(j@->Array_0 =~= values(v));
    }
}

pub broadcast proof fn lemma_object_view(j: Json)
    ensures
        j is Object ==> #[trigger] j@ == JsonV::Object(j->Object_0@),
{
    if j is Object {
        let v = j->Object_0.entries@;
        assert forall|i: int| 0 <= i < v.len() implies j@->Object_0[i] == #[trigger] members(v)[i] by {
            assert(members(v)[i] == (v[i].0@, v[i].1@));
        }
        assert(j@->Object_0 =~= members(v));
    }
}

pub broadcast proof fn lemma_values_push(v: Seq<Json>, j: Json)
    ensures
        #[trigger] values(v.push(j)) == values(v).push(j@),
{
    assert(values(v.push(j)) =~= values(v).push(j@));
}

pub broadcast proof fn lemma_ref_values_push(v: Seq<&Json>, j: &Json)
    ensures
        #[trigger] ref_values(v.push(j)) == ref_values(v).push(j@),
{
    assert(ref_values(v.push(j)) =~= ref_values(v).push(j@));
}

pub broadcast proof fn lemma_members_push(v: Seq<(String, Json)>, e: (String, Json))
    ensures
        #[trigger] members(v.push(e)) == members(v).push((e.0@, e.1@)),
{
    assert(members(v.push(e)) =~= members(v).push((e.0@, e.1@)));
}

pub broadcast group group_json {
    lemma_array_view,
    lemma_object_view,
    lemma_values_push,
    lemma_ref_values_push,
    lemma_members_push,
}

/// The member of an object with a key.
pub open spec fn member(m: Seq<(Seq<char>, JsonV)>, key: Seq<char>) -> Option<JsonV>
    decreases m.len(),
{
    if m.len() == 0 {
        None
    } else if m[0].0 == key {
        Some(m[0].1)
    } else {
        member(m.drop_first(), key)
    }
}

/// The member with the first key, or with the second where there is none.
pub open spec fn member_or(m: Seq<(Seq<char>, JsonV)>, first: Seq<char>, second: Seq<char>) -> Option<
    JsonV,
> {
    match member(m, first) {
        Some(v) => Some(v),
        None => member(m, second),
    }
}

/// The object with one member put in, in the order of the keys; a member with
/// the same key is replaced.
pub open spec fn with_member(m: Seq<(Seq<char>, JsonV)>, key: Seq<char>, value: JsonV) -> Seq<
    (Seq<char>, JsonV),
>
    decreases m.len(),
{
    if m.len() == 0 {
        seq![(key, value)]
    } else if m[0].0 == key {
        seq![(key, value)] + m.drop_first()
    } else if text_less(m[0].0, key) {
        seq![m[0]] + with_member(m.drop_first(), key, value)
    } else {
        seq![(key, value)] + m
    }
}

/// Whether the keys of an object stand in order, each once.
pub open spec fn keys_sorted(m: Seq<(Seq<char>, JsonV)>) -> bool {
    forall|i: int, j: int| 0 <= i < j < m.len() ==> text_less(#[trigger] m[i].0, #[trigger] m[j].0)
}

pub open spec fn str_of(v: JsonV) -> Option<Seq<char>> {
    match v {
        JsonV::String(s) => Some(s),
        _ => None,
    }
}

/// The text of a string that is not empty.
pub open spec fn nonempty_str_of(v: Option<JsonV>) -> Option<Seq<char>> {
    match v {
        Some(JsonV::String(s)) => if s.len() > 0 {
            Some(s)
        } else {
            None
        },
        _ => None,
    }
}

pub open spec fn bool_of(v: Option<JsonV>) -> Option<bool> {
    match v {
        Some(JsonV::Bool(b)) => Some(b),
        _ => None,
    }
}

pub open spec fn array_of(v: Option<JsonV>) -> Option<Seq<JsonV>> {
    match v {
        Some(JsonV::Array(a)) => Some(a),
        _ => None,
    }
}

pub open spec fn u64_of(v: JsonV) -> Option<u64> {
    match v {
        JsonV::Number(Number::PosInt(n)) => Some(n),
        _ => None,
    }
}

pub open spec fn rank_of(v: JsonV) -> Option<u64> {
    match v {
        JsonV::Number(n) => Some(n.rank_spec()),
        _ => None,
    }
}

impl JsonMap {
    pub fn new() -> (r: JsonMap)
        ensures
            r@ == Seq::<(Seq<char>, JsonV)>::empty(),
    {
        let r = JsonMap { entries: Vec::new() };
        assert(r@ =~= Seq::<(Seq<char>, JsonV)>::empty());
        r
    }

    pub fn len(&self) -> (r: usize)
        ensures
            r == self@.len(),
    {
        self.entries.len()
    }

    pub fn get(&self, key: &str) -> (r: Option<&Json>)
        ensures
            opt_value(r) == member(self@, key@),
    {
        let mut i: usize = 0;
        assert(self@.skip(0) =~= self@);
        while i < self.entries.len()
            invariant
                i <= self.entries@.len(),
                member(self@, key@) == member(self@.skip(i as int), key@),
            decreases self.entries@.len() - i,
        {
            let ghost rest = self@.skip(i as int);
            assert(rest[0] == (self.entries@[i as int].0@, self.entries@[i as int].1@));
            assert(rest.drop_first() =~= self@.skip(i + 1));
            if same_text(self.entries[i].0.as_str(), key) {
                return Some(&self.entries[i].1);
            }
            i += 1;
        }
        None
    }

    pub fn contains_key(&self, key: &str) -> (r: bool)
        ensures
            r == member(self@, key@) is Some,
    {
        self.get(key).is_some()
    }

    /// The member with the first key, or with the second where there is none.
    pub fn get_or(&self, first: &str, second: &str) -> (r: Option<&Json>)
        ensures
            opt_value(r) == member_or(self@, first@, second@),
    {
        match self.get(first) {
            Some(v) => Some(v),
            None => self.get(second),
        }
    }

    /// Puts a member in, replacing one with the same key.
    pub fn insert(&mut self, key: String, value: Json)
        ensures
            final(self)@ == with_member(old(self)@, key@, value@),
    {
        let ghost m = self@;
        let ghost k = key@;
        let ghost v = value@;
        let mut i: usize = 0;
        assert(m.skip(0) =~= m);
        assert(m.take(0) + with_member(m, k, v) =~= with_member(m, k, v));
        while i < self.entries.len() && text_before(self.entries[i].0.as_str(), key.as_str())
            invariant
                self@ == m,
                key@ == k,
                i <= self.entries@.len(),
                with_member(m, k, v) == m.take(i as int) + with_member(m.skip(i as int), k, v),
            decreases self.entries@.len() - i,
        {
            proof {
                let rest = m.skip(i as int);
                assert(rest[0] == (self.entries@[i as int].0@, self.entries@[i as int].1@));
                assert(rest.drop_first() =~= m.skip(i + 1));
                lemma_text_less_irreflexive(k);
                assert(m.take(i as int) + (seq![rest[0]] + with_member(m.skip(i + 1), k, v))
                    =~= m.take(i + 1) + with_member(m.skip(i + 1), k, v));
            }
            i += 1;
        }
        let ghost rest = m.skip(i as int);
        if i < self.entries.len() {
            assert(rest[0] == (self.entries@[i as int].0@, self.entries@[i as int].1@));
            if same_text(self.entries[i].0.as_str(), key.as_str()) {
                let ghost before = self.entries@;
                self.entries.set(i, (key, value));
                assert(self@ =~= m.take(i as int) + (seq![(k, v)] + rest.drop_first()));
                return;
            }
        }
        self.entries.insert(i, (key, value));
        assert(self@ =~= m.take(i as int) + (seq![(k, v)] + rest));
        proof {
            if rest.len() == 0 {
                assert(seq![(k, v)] + rest =~= seq![(k, v)]);
            }
        }
    }

    pub fn duplicate(&self) -> (r: JsonMap)
        ensures
            r@ == self@,
        decreases self, 0int,
    {
        broadcast use group_json;

        let mut out: Vec<(String, Json)> = Vec::new();
        let mut i: usize = 0;
        while i < self.entries.len()
            invariant
                i <= self.entries@.len(),
                members(out@) == self@.take(i as int),
            decreases self.entries@.len() - i,
        {
            let ghost old_out = out@;
            let item = (self.entries[i].0.clone(), self.entries[i].1.duplicate());
            out.push(item);
            assert(members(out@) == members(old_out).push((item.0@, item.1@)));
            i += 1;
            assert(members(out@) =~= self@.take(i as int));
        }
        assert(self@.take(self@.len() as int) =~= self@);
        JsonMap { entries: out }
    }
}

impl Json {
    pub fn duplicate(&self) -> (r: Json)
        ensures
            r@ == self@,
        decreases self, 1int,
    {
        broadcast use group_json;

        match self {
            Json::Null => Json::Null,
            Json::Bool(b) => Json::Bool(*b),
            Json::Number(n) => Json::Number(*n),
            Json::String(s) => Json::String(s.clone()),
            Json::Array(v) => {
                let mut out: Vec<Json> = Vec::new();
                let mut i: usize = 0;
                while i < v.len()
                    invariant
                        i <= v@.len(),
                        self is Array,
                        v == self->Array_0,
                        values(out@) == values(v@).take(i as int),
                    decreases v@.len() - i,
                {
                    let ghost old_out = out@;
                    let item = v[i].duplicate();
                    out.push(item);
                    assert(values(out@) == values(old_out).push(item@));
                    i += 1;
                    assert(values(out@) =~= values(v@).take(i as int));
                }
                assert(values(v@).take(v@.len() as int) =~= values(v@));
                Json::Array(out)
            },
            Json::Object(m) => Json::Object(m.duplicate()),
        }
    }

    pub fn is_null(&self) -> (r: bool)
        ensures
            r == (self@ == JsonV::Null),
    {
        matches!(self, Json::Null)
    }

    pub fn as_str(&self) -> (r: Option<&str>)
        ensures
            match r {
                Some(s) => str_of(self@) == Some(s@),
                None => str_of(self@) is None,
            },
    {
        match self {
            Json::String(s) => Some(s.as_str()),
            _ => None,
        }
    }

    pub fn as_bool(&self) -> (r: Option<bool>)
        ensures
            r == bool_of(Some(self@)),
    {
        match self {
            Json::Bool(b) => Some(*b),
            _ => None,
        }
    }

    pub fn as_u64(&self) -> (r: Option<u64>)
        ensures
            r == u64_of(self@),
    {
        match self {
            Json::Number(Number::PosInt(n)) => Some(*n),
            _ => None,
        }
    }

    /// The rank of the value as a binary64 number, where it is a number.
    pub fn as_rank(&self) -> (r: Option<u64>)
        ensures
            r == rank_of(self@),
    {
        match self {
            Json::Number(n) => Some(n.rank()),
            _ => None,
        }
    }

    pub fn as_array(&self) -> (r: Option<&Vec<Json>>)
        ensures
            match r {
                Some(v) => self@ == JsonV::Array(values(v@)),
                None => !(self@ is Array),
            },
    {
        broadcast use group_json;

        match self {
            Json::Array(v) => Some(v),
            _ => None,
        }
    }

    pub fn as_object(&self) -> (r: Option<&JsonMap>)
        ensures
            match r {
                Some(m) => self@ == JsonV::Object(m@),
                None => !(self@ is Object),
            },
    {
        broadcast use group_json;

        match self {
            Json::Object(m) => Some(m),
            _ => None,
        }
    }
}

/// The text of a member that is a string and not empty.
pub(crate) fn nonempty_str(v: Option<&Json>) -> (r: Option<&str>)
    ensures
        match r {
            Some(s) => nonempty_str_of(opt_value(v)) == Some(s@),
            None => nonempty_str_of(opt_value(v)) is None,
        },
{
    match v {
        Some(Json::String(s)) => {
            if s.as_str().is_empty() {
                None
            } else {
                Some(s.as_str())
            }
        },
        _ => None,
    }
}

pub(crate) fn member_bool(v: Option<&Json>) -> (r: Option<bool>)
    ensures
        r == bool_of(opt_value(v)),
{
    match v {
        Some(Json::Bool(b)) => Some(*b),
        _ => None,
    }
}

pub(crate) fn member_array(v: Option<&Json>) -> (r: Option<&Vec<Json>>)
    ensures
        match r {
            Some(a) => array_of(opt_value(v)) == Some(values(a@)),
            None => array_of(opt_value(v)) is None,
        },
{
    broadcast use group_json;

    match v {
        Some(Json::Array(a)) => Some(a),
        _ => None,
    }
}

// ---------------------------------------------------------------------------
// JSON text
// ---------------------------------------------------------------------------

/// The compact JSON text of a value.
pub open spec fn json_text(v: JsonV) -> Seq<char>
    decreases v,
{
    match v {
        JsonV::Null => "null"@,
        JsonV::Bool(b) => if b {
            "true"@
        } else {
            "false"@
        },
        JsonV::Number(n) => n.text_spec(),
        JsonV::String(s) => json_string_text(s),
        JsonV::Array(items) => seq!['['] + items_text(items) + seq![']'],
        JsonV::Object(m) => seq!['{'] + members_text(m) + seq!['}'],
    }
}

pub open spec fn items_text(items: Seq<JsonV>) -> Seq<char>
    decreases items,
{
    if items.len() == 0 {
        seq![]
    } else if items.len() == 1 {
        json_text(items[0])
    } else {
        items_text(items.drop_last()) + seq![','] + json_text(items.last())
    }
}

pub open spec fn members_text(m: Seq<(Seq<char>, JsonV)>) -> Seq<char>
    decreases m,
{
    if m.len() == 0 {
        seq![]
    } else if m.len() == 1 {
        json_string_text(m[0].0) + seq![':'] + json_text(m[0].1)
    } else {
        members_text(m.drop_last()) + seq![','] + json_string_text(m.last().0) + seq![':']
            + json_text(m.last().1)
    }
}

impl Json {
    /// The compact JSON text of the value.
    pub fn to_text(&self) -> (r: String)
        ensures
            r@ == json_text(self@),
        decreases self,
    {
        broadcast use group_json;

        match self {
            Json::Null => "null".to_owned(),
            Json::Bool(b) => if *b {
                "true".to_owned()
            } else {
                "false".to_owned()
            },
            Json::Number(n) => n.text(),
            Json::String(s) => string_text(s.as_str()),
            Json::Array(v) => {
                let mut out = String::new();
                out.push('[');
                let ghost open = out@;
                assert(open =~= seq!['[']);
                let mut i: usize = 0;
                assert(values(v@).take(0) =~= seq![]);
                assert(out@ =~= open + items_text(values(v@).take(0)));
                while i < v.len()
                    invariant
                        i <= v@.len(),
                        self is Array,
                        v == self->Array_0,
                        open == seq!['['],
                        out@ == open + items_text(values(v@).take(i as int)),
                    decreases v@.len() - i,
                {
                    proof {
                        let t = values(v@).take(i + 1);
                        assert(t.drop_last() =~= values(v@).take(i as int));
                        assert(t.last() == v@[i as int]@);
                    }
                    let before = out.clone();
                    if i > 0 {
                        out.push(',');
                    }
                    let item = v[i].to_text();
                    out.append(item.as_str());
                    assert(out@ =~= open + items_text(values(v@).take(i + 1)));
                    i += 1;
                }
                assert(values(v@).take(v@.len() as int) =~= values(v@));
                out.push(']');
                assert(out@ =~= open + items_text(values(v@)) + seq![']']);
                out
            },
            Json::Object(m) => {
                let mut out = String::new();
                out.push('{');
                let ghost open = out@;
                assert(open =~= seq!['{']);
                let mut i: usize = 0;
                assert(m@.take(0) =~= seq![]);
                assert(out@ =~= open + members_text(m@.take(0)));
                while i < m.entries.len()
                    invariant
                        i <= m.entries@.len(),
                        self is Object,
                        m == self->Object_0,
                        open == seq!['{'],
                        out@ == open + members_text(m@.take(i as int)),
                    decreases m.entries@.len() - i,
                {
                    proof {
                        let t = m@.take(i + 1);
                        assert(t.drop_last() =~= m@.take(i as int));
                        assert(t.last() == (m.entries@[i as int].0@, m.entries@[i as int].1@));
                    }
                    if i > 0 {
                        out.push(',');
                    }
                    let key = string_text(m.entries[i].0.as_str());
                    out.append(key.as_str());
                    out.push(':');
                    let item = m.entries[i].1.to_text();
                    out.append(item.as_str());
                    assert(out@ =~= open + members_text(m@.take(i + 1)));
                    i += 1;
                }
                assert(m@.take(m@.len() as int) =~= m@);
                out.push('}');
                assert(out@ =~= open + members_text(m@) + seq!['}']);
                out
            },
        }
    }
}

// ---------------------------------------------------------------------------
// Debug text
// ---------------------------------------------------------------------------

/// How a value is shown for diagnosis: with the name of its kind.
pub open spec fn shown(v: JsonV) -> Seq<char>
    decreases v,
{
    match v {
        JsonV::Null => "Null"@,
        JsonV::Bool(b) => if b {
            "Bool(true)"@
        } else {
            "Bool(false)"@
        },
        JsonV::Number(n) => "Number("@ + n.text_spec() + ")"@,
        JsonV::String(s) => "String("@ + debug_text(s) + ")"@,
        JsonV::Array(items) => "Array ["@ + shown_items(items) + "]"@,
        JsonV::Object(m) => "Object {"@ + shown_members(m) + "}"@,
    }
}

pub open spec fn shown_items(items: Seq<JsonV>) -> Seq<char>
    decreases items,
{
    if items.len() == 0 {
        seq![]
    } else if items.len() == 1 {
        shown(items[0])
    } else {
        shown_items(items.drop_last()) + ", "@ + shown(items.last())
    }
}

pub open spec fn shown_members(m: Seq<(Seq<char>, JsonV)>) -> Seq<char>
    decreases m,
{
    if m.len() == 0 {
        seq![]
    } else if m.len() == 1 {
        debug_text(m[0].0) + ": "@ + shown(m[0].1)
    } else {
        shown_members(m.drop_last()) + ", "@ + debug_text(m.last().0) + ": "@ + shown(m.last().1)
    }
}

impl Json {
    /// The value as it is shown for diagnosis.
    pub fn show(&self) -> (r: String)
        ensures
            r@ == shown(self@),
        decreases self,
    {
        broadcast use group_json;

        match self {
            Json::Null => "Null".to_owned(),
            Json::Bool(b) => if *b {
                "Bool(true)".to_owned()
            } else {
                "Bool(false)".to_owned()
            },
            Json::Number(n) => cat3("Number(", n.text().as_str(), ")"),
            Json::String(s) => cat3("String(", quoted(s.as_str()).as_str(), ")"),
            Json::Array(v) => {
                let mut out = "Array [".to_owned();
                let ghost open = out@;
                let mut i: usize = 0;
                assert(values(v@).take(0) =~= seq![]);
                assert(out@ =~= open + shown_items(values(v@).take(0)));
                while i < v.len()
                    invariant
                        i <= v@.len(),
                        self is Array,
                        v == self->Array_0,
                        out@ == open + shown_items(values(v@).take(i as int)),
                    decreases v@.len() - i,
                {
                    proof {
                        let t = values(v@).take(i + 1);
                        assert(t.drop_last() =~= values(v@).take(i as int));
                        assert(t.last() == v@[i as int]@);
                    }
                    if i > 0 {
                        out.append(", ");
                    }
                    let item = v[i].show();
                    out.append(item.as_str());
                    assert(out@ =~= open + shown_items(values(v@).take(i + 1)));
                    i += 1;
                }
                assert(values(v@).take(v@.len() as int) =~= values(v@));
                out.append("]");
                out
            },
            Json::Object(m) => {
                let mut out = "Object {".to_owned();
                let ghost open = out@;
                let mut i: usize = 0;
                assert(m@.take(0) =~= seq![]);
                assert(out@ =~= open + shown_members(m@.take(0)));
                while i < m.entries.len()
                    invariant
                        i <= m.entries@.len(),
                        self is Object,
                        m == self->Object_0,
                        out@ == open + shown_members(m@.take(i as int)),
                    decreases m.entries@.len() - i,
                {
                    proof {
                        let t = m@.take(i + 1);
                        assert(t.drop_last() =~= m@.take(i as int));
                        assert(t.last() == (m.entries@[i as int].0@, m.entries@[i as int].1@));
                    }
                    if i > 0 {
                        out.append(", ");
                    }
                    let key = quoted(m.entries[i].0.as_str());
                    out.append(key.as_str());
                    out.append(": ");
                    let item = m.entries[i].1.show();
                    out.append(item.as_str());
                    assert(out@ =~= open + shown_members(m@.take(i + 1)));
                    i += 1;
                }
                assert(m@.take(m@.len() as int) =~= m@);
                out.append("}");
                out
            },
        }
    }
}

// ---------------------------------------------------------------------------
// Laws
// ---------------------------------------------------------------------------

/// A member that was put in is found under its key.
pub proof fn law_inserted_member_is_found(m: Seq<(Seq<char>, JsonV)>, key: Seq<char>, value: JsonV)
    ensures
        member(with_member(m, key, value), key) == Some(value),
    decreases m.len(),
{
    if m.len() > 0 && m[0].0 != key && text_less(m[0].0, key) {
        law_inserted_member_is_found(m.drop_first(), key, value);
        let r = with_member(m.drop_first(), key, value);
        assert((seq![m[0]] + r).drop_first() =~= r);
    }
}

/// Putting a member in leaves the members with other keys as they were.
pub proof fn law_insert_keeps_other_members(
    m: Seq<(Seq<char>, JsonV)>,
    key: Seq<char>,
    value: JsonV,
    other: Seq<char>,
)
    requires
        other != key,
    ensures
        member(with_member(m, key, value), other) == member(m, other),
    decreases m.len(),
{
    if m.len() == 0 {
        assert(seq![(key, value)].drop_first() =~= Seq::<(Seq<char>, JsonV)>::empty());
    } else if m[0].0 == key {
        assert((seq![(key, value)] + m.drop_first()).drop_first() =~= m.drop_first());
    } else if text_less(m[0].0, key) {
        law_insert_keeps_other_members(m.drop_first(), key, value, other);
        let r = with_member(m.drop_first(), key, value);
        assert((seq![m[0]] + r).drop_first() =~= r);
    } else {
        assert((seq![(key, value)] + m).drop_first() =~= m);
    }
}

proof fn lemma_with_member_keys(m: Seq<(Seq<char>, JsonV)>, key: Seq<char>, value: JsonV, i: int)
    requires
        0 <= i < with_member(m, key, value).len(),
    ensures
        with_member(m, key, value)[i].0 == key || exists|j: int|
            0 <= j < m.len() && m[j].0 == with_member(m, key, value)[i].0,
    decreases m.len(),
{
    if m.len() > 0 {
        if m[0].0 != key && text_less(m[0].0, key) {
            if i > 0 {
                lemma_with_member_keys(m.drop_first(), key, value, i - 1);
                if with_member(m, key, value)[i].0 != key {
                    let j = choose|j: int|
                        0 <= j < m.drop_first().len() && m.drop_first()[j].0 == with_member(
                            m.drop_first(),
                            key,
                            value,
                        )[i - 1].0;
                    assert(m[j + 1].0 == with_member(m, key, value)[i].0);
                }
            } else {
                assert(m[0].0 == with_member(m, key, value)[0].0);
            }
        } else if m[0].0 == key {
            if i > 0 {
                assert(m[i].0 == with_member(m, key, value)[i].0);
            }
        } else if i > 0 {
            assert(m[i - 1].0 == with_member(m, key, value)[i].0);
        }
    }
}

/// Putting a member into an object whose keys stand in order keeps them in
/// order.
pub proof fn law_insert_keeps_keys_sorted(m: Seq<(Seq<char>, JsonV)>, key: Seq<char>, value: JsonV)
    requires
        keys_sorted(m),
    ensures
        keys_sorted(with_member(m, key, value)),
    decreases m.len(),
{
    if m.len() > 0 {
        let rest = m.drop_first();
        assert(keys_sorted(rest)) by {
            assert forall|i: int, j: int| 0 <= i < j < rest.len() implies text_less(
                #[trigger] rest[i].0,
                #[trigger] rest[j].0,
            ) by {
                assert(rest[i] == m[i + 1] && rest[j] == m[j + 1]);
            }
        }
        let w = with_member(m, key, value);
        if m[0].0 == key {
            assert forall|i: int, j: int| 0 <= i < j < w.len() implies text_less(
                #[trigger] w[i].0,
                #[trigger] w[j].0,
            ) by {
                assert(w[i].0 == m[i].0 && w[j].0 == m[j].0);
            }
        } else if text_less(m[0].0, key) {
            law_insert_keeps_keys_sorted(rest, key, value);
            let r = with_member(rest, key, value);
            assert forall|i: int, j: int| 0 <= i < j < w.len() implies text_less(
                #[trigger] w[i].0,
                #[trigger] w[j].0,
            ) by {
                assert(w[j] == r[j - 1]);
                if i == 0 {
                    lemma_with_member_keys(rest, key, value, j - 1);
                    if r[j - 1].0 != key {
                        let k = choose|k: int| 0 <= k < rest.len() && rest[k].0 == r[j - 1].0;
                        assert(m[k + 1].0 == w[j].0);
                    }
                } else {
                    assert(w[i] == r[i - 1]);
                }
            }
        } else {
            lemma_text_less_total(m[0].0, key);
            assert forall|i: int, j: int| 0 <= i < j < w.len() implies text_less(
                #[trigger] w[i].0,
                #[trigger] w[j].0,
            ) by {
                assert(w[j] == m[j - 1]);
                if i == 0 {
                    if j > 1 {
                        assert(text_less(m[0].0, m[j - 1].0));
                        lemma_text_less_transitive(key, m[0].0, m[j - 1].0);
                    }
                } else {
                    assert(w[i] == m[i - 1]);
                }
            }
        }
    }
}

/// JSON writes a list in brackets and an object in braces, with a comma between any two
/// items or members and a colon behind each name.
pub proof fn law_json_text(items: Seq<JsonV>, x: JsonV, m: Seq<(Seq<char>, JsonV)>, key: Seq<char>)
    ensures
        json_text(JsonV::Array(seq![])) == seq!['[', ']'],
        json_text(JsonV::Object(seq![])) == seq!['{', '}'],
        json_text(JsonV::Array(seq![x])) == seq!['['] + json_text(x) + seq![']'],
        items.len() > 0 ==> json_text(JsonV::Array(items.push(x))) == json_text(
            JsonV::Array(items),
        ).drop_last() + seq![','] + json_text(x) + seq![']'],
        json_text(JsonV::Object(seq![(key, x)])) == seq!['{'] + json_string_text(key) + seq![':']
            + json_text(x) + seq!['}'],
        m.len() > 0 ==> json_text(JsonV::Object(m.push((key, x)))) == json_text(
            JsonV::Object(m),
        ).drop_last() + seq![','] + json_string_text(key) + seq![':'] + json_text(x) + seq!['}'],
{
    let all = items.push(x);
    let more = m.push((key, x));
    assert(all.drop_last() =~= items);
    assert(more.drop_last() =~= m);
    assert(JsonV::Array(all)->Array_0 == all);
    assert(json_text(JsonV::Array(seq![])) =~= seq!['[', ']']);
    assert(json_text(JsonV::Object(seq![])) =~= seq!['{', '}']);
    let one = seq![x];
    assert(one[0] == x);
    assert(items_text(one) == json_text(x));
    let own = seq![(key, x)];
    assert(own[0] == (key, x));
    assert(json_text(JsonV::Object(own)) =~= seq!['{'] + json_string_text(key) + seq![':']
        + json_text(x) + seq!['}']);
    if items.len() > 0 {
        assert(json_text(JsonV::Array(items)).drop_last() =~= seq!['['] + items_text(items));
        assert(json_text(JsonV::Array(all)) =~= seq!['['] + items_text(items) + seq![',']
            + json_text(x) + seq![']']);
    }
    if m.len() > 0 {
        assert(json_text(JsonV::Object(m)).drop_last() =~= seq!['{'] + members_text(m));
        assert(json_text(JsonV::Object(more)) =~= seq!['{'] + members_text(m) + seq![',']
            + json_string_text(key) + seq![':'] + json_text(x) + seq!['}']);
    }
}

} // verus!
