//! Text: sequences of characters, and the operations on them that the rest of
//! the library is written with.
//!
//! The model of every string is the sequence of its characters.
use vstd::prelude::*;
use vstd::utf8::*;

verus! {

/// How Rust's `Debug` formatting shows a string (`{:?}`): quoted and escaped.
pub uninterp spec fn debug_text(s: Seq<char>) -> Seq<char>;

/// How Rust's `Debug` formatting shows a character.
pub uninterp spec fn debug_char(c: char) -> Seq<char>;

/// The Unicode lowercase form of a text.
pub uninterp spec fn lowercase(s: Seq<char>) -> Seq<char>;

/// `format!("{:?}", text)`: the result is the `Debug` form of the text.
#[verifier::external_body]
pub(crate) fn quoted(text: &str) -> (r: String)
    ensures
        r@ == debug_text(text@),
{
    format!("{:?}", text)
}

/// `format!("{:?}", c)`: the result is the `Debug` form of the character.
#[verifier::external_body]
pub(crate) fn quoted_char(c: char) -> (r: String)
    ensures
        r@ == debug_char(c),
{
    format!("{:?}", c)
}

/// `str::to_lowercase`: the result is the lowercase form of the text.
#[verifier::external_body]
pub(crate) fn to_lowercase(text: &str) -> (r: String)
    ensures
        r@ == lowercase(text@),
{
    text.to_lowercase()
}

/// `str == str`: two strings are equal when they hold the same characters.
#[verifier::external_body]
pub(crate) fn same_text(a: &str, b: &str) -> (r: bool)
    ensures
        r == (a@ == b@),
{
    a == b
}

/// `String::push` puts one character at the end.
pub assume_specification[ std::string::String::push ](s: &mut std::string::String, c: char)
    ensures
        final(s)@ == old(s)@.push(c),
;

// ---------------------------------------------------------------------------
// Lists of texts
// ---------------------------------------------------------------------------

/// The texts that a list of strings holds.
pub open spec fn texts(v: Seq<String>) -> Seq<Seq<char>> {
    v.map_values(|t: String| t@)
}

/// The text that an optional string holds.
pub open spec fn opt_text(o: Option<String>) -> Option<Seq<char>> {
    match o {
        Some(s) => Some(s@),
        None => None,
    }
}

pub broadcast proof fn lemma_texts_push(v: Seq<String>, t: String)
    ensures
        #[trigger] texts(v.push(t)) == texts(v).push(t@),
{
    assert(texts(v.push(t)) =~= texts(v).push(t@));
}

/// The texts of a list, each after the separator but the first.
pub open spec fn joined(parts: Seq<Seq<char>>, sep: Seq<char>) -> Seq<char>
    decreases parts.len(),
{
    if parts.len() == 0 {
        seq![]
    } else if parts.len() == 1 {
        parts[0]
    } else {
        joined(parts.drop_last(), sep) + sep + parts.last()
    }
}

/// Puts texts behind those of a list.
pub(crate) fn extend_texts(out: &mut Vec<String>, more: Vec<String>)
    ensures
        texts(final(out)@) == texts(old(out)@) + texts(more@),
{
    let ghost a = out@;
    let ghost b = more@;
    let mut rest = more;
    out.append(&mut rest);
    assert(texts(out@) =~= texts(a) + texts(b));
}

pub(crate) fn clone_texts(v: &Vec<String>) -> (r: Vec<String>)
    ensures
        texts(r@) == texts(v@),
{
    let mut out: Vec<String> = Vec::new();
    let mut i: usize = 0;
    while i < v.len()
        invariant
            i <= v@.len(),
            out@.len() == i,
            forall|k: int| 0 <= k < i ==> (#[trigger] out@[k])@ == v@[k]@,
        decreases v@.len() - i,
    {
        out.push(v[i].clone());
        i += 1;
    }
    assert(texts(out@) =~= texts(v@));
    out
}

pub(crate) fn clone_opt_text(v: &Option<String>) -> (r: Option<String>)
    ensures
        opt_text(r) == opt_text(*v),
{
    match v {
        Some(s) => Some(s.clone()),
        None => None,
    }
}

pub(crate) fn join_texts(parts: &Vec<String>, sep: &str) -> (r: String)
    ensures
        r@ == joined(texts(parts@), sep@),
{
    let mut out = String::new();
    let mut i: usize = 0;
    while i < parts.len()
        invariant
            i <= parts@.len(),
            out@ == joined(texts(parts@).take(i as int), sep@),
        decreases parts@.len() - i,
    {
        proof {
            let t = texts(parts@).take(i + 1);
            assert(t.drop_last() =~= texts(parts@).take(i as int));
            assert(t.last() == parts@[i as int]@);
        }
        if i > 0 {
            out.append(sep);
        } else {
            assert(texts(parts@).take(0) =~= seq![]);
            assert(out@ + parts@[0]@ =~= parts@[0]@);
        }
        out.append(parts[i].as_str());
        i += 1;
    }
    assert(texts(parts@).take(parts@.len() as int) =~= texts(parts@));
    out
}

/// Whether a list of strings holds a text.
pub(crate) fn holds_text(v: &Vec<String>, t: &str) -> (r: bool)
    ensures
        r == texts(v@).contains(t@),
{
    let mut i: usize = 0;
    while i < v.len()
        invariant
            i <= v@.len(),
            forall|k: int| 0 <= k < i ==> (#[trigger] v@[k])@ != t@,
        decreases v@.len() - i,
    {
        if same_text(v[i].as_str(), t) {
            assert(texts(v@)[i as int] == t@);
            return true;
        }
        i += 1;
    }
    assert forall|k: int| 0 <= k < texts(v@).len() implies texts(v@)[k] != t@ by {
        assert(v@[k]@ != t@);
    }
    false
}

// ---------------------------------------------------------------------------
// Joining a few texts
// ---------------------------------------------------------------------------

pub(crate) fn cat2(a: &str, b: &str) -> (r: String)
    ensures
        r@ == a@ + b@,
{
    let mut out = a.to_owned();
    out.append(b);
    out
}

pub(crate) fn cat3(a: &str, b: &str, c: &str) -> (r: String)
    ensures
        r@ == a@ + b@ + c@,
{
    let mut out = cat2(a, b);
    out.append(c);
    out
}

pub(crate) fn cat4(a: &str, b: &str, c: &str, d: &str) -> (r: String)
    ensures
        r@ == a@ + b@ + c@ + d@,
{
    let mut out = cat3(a, b, c);
    out.append(d);
    out
}

pub(crate) fn cat5(a: &str, b: &str, c: &str, d: &str, e: &str) -> (r: String)
    ensures
        r@ == a@ + b@ + c@ + d@ + e@,
{
    let mut out = cat4(a, b, c, d);
    out.append(e);
    out
}

pub(crate) fn cat6(a: &str, b: &str, c: &str, d: &str, e: &str, f: &str) -> (r: String)
    ensures
        r@ == a@ + b@ + c@ + d@ + e@ + f@,
{
    let mut out = cat5(a, b, c, d, e);
    out.append(f);
    out
}

pub(crate) fn cat7(a: &str, b: &str, c: &str, d: &str, e: &str, f: &str, g: &str) -> (r: String)
    ensures
        r@ == a@ + b@ + c@ + d@ + e@ + f@ + g@,
{
    let mut out = cat6(a, b, c, d, e, f);
    out.append(g);
    out
}

// ---------------------------------------------------------------------------
// Characters
// ---------------------------------------------------------------------------

/// The Unicode `White_Space` property.
pub open spec fn is_space(c: char) -> bool {
    let u = c as u32;
    9 <= u <= 13 || u == 0x20 || u == 0x85 || u == 0xA0 || u == 0x1680 || 0x2000 <= u <= 0x200A || u
        == 0x2028 || u == 0x2029 || u == 0x202F || u == 0x205F || u == 0x3000
}

pub open spec fn is_digit(c: char) -> bool {
    '0' <= c <= '9'
}

pub open spec fn is_ascii_letter(c: char) -> bool {
    'a' <= c <= 'z' || 'A' <= c <= 'Z'
}

pub(crate) fn space(c: char) -> (r: bool)
    ensures
        r == is_space(c),
{
    let u: u32 = c as u32;
    (9 <= u && u <= 13) || u == 0x20 || u == 0x85 || u == 0xA0 || u == 0x1680 || (0x2000 <= u && u
        <= 0x200A) || u == 0x2028 || u == 0x2029 || u == 0x202F || u == 0x205F || u == 0x3000
}

pub(crate) fn digit(c: char) -> (r: bool)
    ensures
        r == is_digit(c),
{
    '0' <= c && c <= '9'
}

pub(crate) fn ascii_letter(c: char) -> (r: bool)
    ensures
        r == is_ascii_letter(c),
{
    ('a' <= c && c <= 'z') || ('A' <= c && c <= 'Z')
}

/// The characters of a text, in order.
pub(crate) fn chars_of(text: &str) -> (r: Vec<char>)
    ensures
        r@ == text@,
{
    let mut out: Vec<char> = Vec::new();
    for c in it: text.chars()
        invariant
            it.seq() == text@,
            out@ == text@.take(it.index@),
    {
        out.push(c);
    }
    assert(text@.take(text@.len() as int) =~= text@);
    out
}

/// The text of the characters from `start` up to `end`.
pub(crate) fn text_between(chars: &Vec<char>, start: usize, end: usize) -> (r: String)
    requires
        start <= end <= chars@.len(),
    ensures
        r@ == chars@.subrange(start as int, end as int),
{
    let mut out = String::new();
    let mut i: usize = start;
    while i < end
        invariant
            start <= i <= end <= chars@.len(),
            out@ == chars@.subrange(start as int, i as int),
        decreases end - i,
    {
        out.push(chars[i]);
        i += 1;
        assert(chars@.subrange(start as int, i as int) =~= chars@.subrange(
            start as int,
            i - 1,
        ).push(chars@[i - 1]));
    }
    out
}

// ---------------------------------------------------------------------------
// Bytes
// ---------------------------------------------------------------------------

/// How many bytes a character takes in UTF-8.
pub open spec fn utf8_width(c: char) -> nat {
    let u = c as u32;
    if u <= 0x7F {
        1
    } else if u <= 0x7FF {
        2
    } else if u <= 0xFFFF {
        3
    } else {
        4
    }
}

/// How many bytes a text takes in UTF-8.
pub open spec fn utf8_len(s: Seq<char>) -> nat
    decreases s.len(),
{
    if s.len() == 0 {
        0
    } else {
        utf8_len(s.drop_last()) + utf8_width(s.last())
    }
}

pub proof fn lemma_utf8_len_concat(a: Seq<char>, b: Seq<char>)
    ensures
        utf8_len(a + b) == utf8_len(a) + utf8_len(b),
    decreases b.len(),
{
    if b.len() == 0 {
        assert(a + b =~= a);
    } else {
        assert((a + b).drop_last() =~= a + b.drop_last());
        lemma_utf8_len_concat(a, b.drop_last());
    }
}

/// A text has at least as many bytes as characters, and no bytes only when it
/// is empty.
pub proof fn lemma_utf8_len_bounds(s: Seq<char>)
    ensures
        s.len() <= utf8_len(s) <= 4 * s.len(),
    decreases s.len(),
{
    if s.len() > 0 {
        lemma_utf8_len_bounds(s.drop_last());
    }
}

pub proof fn lemma_utf8_len_split(s: Seq<char>, i: int)
    requires
        0 <= i <= s.len(),
    ensures
        utf8_len(s) == utf8_len(s.take(i)) + utf8_len(s.skip(i)),
{
    assert(s =~= s.take(i) + s.skip(i));
    lemma_utf8_len_concat(s.take(i), s.skip(i));
}

pub proof fn lemma_utf8_len_step(s: Seq<char>, i: int)
    requires
        0 <= i < s.len(),
    ensures
        utf8_len(s.take(i + 1)) == utf8_len(s.take(i)) + utf8_width(s[i]),
        utf8_len(s.take(i + 1)) <= utf8_len(s),
{
    assert(s.take(i + 1).drop_last() =~= s.take(i));
    lemma_utf8_len_split(s, i + 1);
}

pub proof fn lemma_utf8_len_mono(s: Seq<char>, i: int, j: int)
    requires
        0 <= i <= j <= s.len(),
    ensures
        utf8_len(s.take(i)) + (j - i) <= utf8_len(s.take(j)) <= utf8_len(s),
        utf8_len(s.take(j)) == utf8_len(s.take(i)) + utf8_len(s.subrange(i, j)),
{
    lemma_utf8_len_split(s, j);
    lemma_utf8_len_split(s.take(j), i);
    assert(s.take(j).take(i) =~= s.take(i));
    assert(s.take(j).skip(i) =~= s.subrange(i, j));
    lemma_utf8_len_bounds(s.subrange(i, j));
}

proof fn lemma_encode_len(s: Seq<char>)
    ensures
        encode_utf8(s).len() == utf8_len(s),
    decreases s.len(),
{
    if s.len() > 0 {
        lemma_encode_len(s.drop_first());
        assert(s =~= s.take(1) + s.drop_first());
        lemma_utf8_len_concat(s.take(1), s.drop_first());
        assert(s.take(1).drop_last() =~= seq![]);
        assert(utf8_len(s.take(1)) == utf8_len(seq![]) + utf8_width(s[0]));
        char_is_scalar(s[0]);
    }
}

/// The length of a text in bytes.
pub(crate) fn byte_len(text: &str) -> (r: usize)
    ensures
        r == utf8_len(text@),
{
    let bytes = text.as_bytes();
    proof {
        lemma_encode_len(text@);
    }
    bytes.len()
}

pub(crate) fn char_width(c: char) -> (r: usize)
    ensures
        r == utf8_width(c),
        1 <= r <= 4,
{
    let u: u32 = c as u32;
    if u <= 0x7F {
        1
    } else if u <= 0x7FF {
        2
    } else if u <= 0xFFFF {
        3
    } else {
        4
    }
}

// ---------------------------------------------------------------------------
// Order
// ---------------------------------------------------------------------------

/// Whether `a` comes before `b` in the order of strings: at the first
/// difference the smaller code point decides, and a prefix comes first.
pub open spec fn text_less(a: Seq<char>, b: Seq<char>) -> bool
    decreases a.len(),
{
    if b.len() == 0 {
        false
    } else if a.len() == 0 {
        true
    } else if a[0] == b[0] {
        text_less(a.drop_first(), b.drop_first())
    } else {
        a[0] < b[0]
    }
}

pub proof fn lemma_text_less_irreflexive(a: Seq<char>)
    ensures
        !text_less(a, a),
    decreases a.len(),
{
    if a.len() > 0 {
        lemma_text_less_irreflexive(a.drop_first());
    }
}

pub proof fn lemma_text_less_transitive(a: Seq<char>, b: Seq<char>, c: Seq<char>)
    requires
        text_less(a, b),
        text_less(b, c),
    ensures
        text_less(a, c),
    decreases a.len(),
{
    if a.len() > 0 && a[0] == b[0] && b[0] == c[0] {
        lemma_text_less_transitive(a.drop_first(), b.drop_first(), c.drop_first());
    }
}

/// Of two different texts exactly one comes first.
pub proof fn lemma_text_less_total(a: Seq<char>, b: Seq<char>)
    ensures
        a != b ==> text_less(a, b) || text_less(b, a),
        !(text_less(a, b) && text_less(b, a)),
    decreases a.len(),
{
    if a.len() == 0 && b.len() == 0 {
        assert(a =~= b);
    } else if a.len() > 0 && b.len() > 0 && a[0] == b[0] {
        lemma_text_less_total(a.drop_first(), b.drop_first());
        if a.drop_first() == b.drop_first() {
            assert(a =~= seq![a[0]] + a.drop_first());
            assert(b =~= seq![b[0]] + b.drop_first());
        }
    }
}

pub(crate) fn text_before(a: &str, b: &str) -> (r: bool)
    ensures
        r == text_less(a@, b@),
{
    let x = chars_of(a);
    let y = chars_of(b);
    let mut i: usize = 0;
    assert(a@.skip(0) =~= a@);
    assert(b@.skip(0) =~= b@);
    while i < x.len() && i < y.len()
        invariant
            x@ == a@,
            y@ == b@,
            i <= x@.len(),
            i <= y@.len(),
            text_less(a@, b@) == text_less(a@.skip(i as int), b@.skip(i as int)),
        decreases x@.len() - i,
    {
        assert(a@.skip(i as int).drop_first() =~= a@.skip(i + 1));
        assert(b@.skip(i as int).drop_first() =~= b@.skip(i + 1));
        if x[i] != y[i] {
            return x[i] < y[i];
        }
        i += 1;
    }
    i < y.len()
}

// ---------------------------------------------------------------------------
// Searching
// ---------------------------------------------------------------------------

/// The first place at or after `i` that holds `c`, or the length.
pub open spec fn next_at(s: Seq<char>, c: char, i: int) -> int
    decreases s.len() - i,
{
    if i >= s.len() {
        s.len() as int
    } else if s[i] == c {
        i
    } else {
        next_at(s, c, i + 1)
    }
}

pub(crate) proof fn lemma_next_at(s: Seq<char>, c: char, i: int)
    requires
        0 <= i <= s.len(),
    ensures
        i <= next_at(s, c, i) <= s.len(),
        next_at(s, c, i) < s.len() ==> s[next_at(s, c, i)] == c,
        forall|k: int| i <= k < next_at(s, c, i) ==> s[k] != c,
    decreases s.len() - i,
{
    if i < s.len() && s[i] != c {
        lemma_next_at(s, c, i + 1);
    }
}

/// The first place at or after `i` that holds a whitespace character, or the
/// length.
pub open spec fn next_space(s: Seq<char>, i: int) -> int
    decreases s.len() - i,
{
    if i >= s.len() {
        s.len() as int
    } else if is_space(s[i]) {
        i
    } else {
        next_space(s, i + 1)
    }
}

/// The first place at or after `i` that holds no whitespace character, or the
/// length.
pub open spec fn next_word(s: Seq<char>, i: int) -> int
    decreases s.len() - i,
{
    if i >= s.len() {
        s.len() as int
    } else if !is_space(s[i]) {
        i
    } else {
        next_word(s, i + 1)
    }
}

pub(crate) fn find_at(s: &Vec<char>, c: char, i: usize) -> (r: usize)
    requires
        i <= s@.len(),
    ensures
        r == next_at(s@, c, i as int),
        i <= r <= s@.len(),
        r < s@.len() ==> s@[r as int] == c,
        forall|k: int| i <= k < r ==> s@[k] != c,
{
    let mut j: usize = i;
    while j < s.len() && s[j] != c
        invariant
            i <= j <= s@.len(),
            next_at(s@, c, i as int) == next_at(s@, c, j as int),
            forall|k: int| i <= k < j ==> s@[k] != c,
        decreases s@.len() - j,
    {
        j += 1;
    }
    j
}

pub(crate) fn find_space(s: &Vec<char>, i: usize) -> (r: usize)
    requires
        i <= s@.len(),
    ensures
        r == next_space(s@, i as int),
        i <= r <= s@.len(),
        r < s@.len() ==> is_space(s@[r as int]),
        forall|k: int| i <= k < r ==> !is_space(s@[k]),
{
    let mut j: usize = i;
    while j < s.len() && !space(s[j])
        invariant
            i <= j <= s@.len(),
            next_space(s@, i as int) == next_space(s@, j as int),
            forall|k: int| i <= k < j ==> !is_space(s@[k]),
        decreases s@.len() - j,
    {
        j += 1;
    }
    j
}

pub(crate) fn find_word(s: &Vec<char>, i: usize) -> (r: usize)
    requires
        i <= s@.len(),
    ensures
        r == next_word(s@, i as int),
        i <= r <= s@.len(),
        r < s@.len() ==> !is_space(s@[r as int]),
        forall|k: int| i <= k < r ==> is_space(s@[k]),
{
    let mut j: usize = i;
    while j < s.len() && space(s[j])
        invariant
            i <= j <= s@.len(),
            next_word(s@, i as int) == next_word(s@, j as int),
            forall|k: int| i <= k < j ==> is_space(s@[k]),
        decreases s@.len() - j,
    {
        j += 1;
    }
    j
}

/// Whether `part` stands in `s` at place `i`.
pub open spec fn stands_at(s: Seq<char>, part: Seq<char>, i: int) -> bool {
    0 <= i && i + part.len() <= s.len() && s.subrange(i, i + part.len()) == part
}

/// Whether `part` stands anywhere in `s`.
pub open spec fn has_part(s: Seq<char>, part: Seq<char>) -> bool {
    exists|i: int| #[trigger] stands_at(s, part, i)
}

pub(crate) fn part_at(s: &Vec<char>, part: &Vec<char>, i: usize) -> (r: bool)
    ensures
        r == stands_at(s@, part@, i as int),
{
    if i > s.len() || part.len() > s.len() - i {
        return false;
    }
    let n: usize = s.len();
    let mut k: usize = 0;
    while k < part.len()
        invariant
            n == s@.len(),
            k <= part@.len(),
            i + part@.len() <= n,
            forall|m: int| 0 <= m < k ==> s@[i + m] == part@[m],
        decreases part@.len() - k,
    {
        if s[i + k] != part[k] {
            assert(s@.subrange(i as int, i + part@.len())[k as int] != part@[k as int]);
            return false;
        }
        k += 1;
    }
    assert(s@.subrange(i as int, i + part@.len()) =~= part@);
    true
}

pub(crate) fn contains_text(text: &str, part: &str) -> (r: bool)
    ensures
        r == has_part(text@, part@),
{
    let s = chars_of(text);
    let p = chars_of(part);
    if p.len() > s.len() {
        return false;
    }
    let last: usize = s.len() - p.len();
    let mut i: usize = 0;
    while i <= last
        invariant
            s@ == text@,
            p@ == part@,
            last == s@.len() - p@.len(),
            i <= last + 1,
            forall|k: int| 0 <= k < i ==> !stands_at(s@, p@, k),
        decreases last + 1 - i,
    {
        if part_at(&s, &p, i) {
            return true;
        }
        if i == last {
            assert forall|k: int| !stands_at(s@, p@, k) by {}
            return false;
        }
        i += 1;
    }
    false
}

pub(crate) fn starts_with(text: &str, part: &str) -> (r: bool)
    ensures
        r == part@.is_prefix_of(text@),
{
    let s = chars_of(text);
    let p = chars_of(part);
    part_at(&s, &p, 0)
}

pub(crate) fn ends_with(text: &str, part: &str) -> (r: bool)
    ensures
        r == part@.is_suffix_of(text@),
{
    let s = chars_of(text);
    let p = chars_of(part);
    if p.len() > s.len() {
        return false;
    }
    let r = part_at(&s, &p, s.len() - p.len());
    r
}

/// What follows `part` in a text that starts with it.
pub open spec fn after_prefix(s: Seq<char>, part: Seq<char>) -> Option<Seq<char>> {
    if part.is_prefix_of(s) {
        Some(s.skip(part.len() as int))
    } else {
        None
    }
}

/// What precedes `part` in a text that ends with it.
pub open spec fn before_suffix(s: Seq<char>, part: Seq<char>) -> Option<Seq<char>> {
    if part.is_suffix_of(s) {
        Some(s.take(s.len() - part.len()))
    } else {
        None
    }
}

pub(crate) fn strip_prefix(text: &str, part: &str) -> (r: Option<String>)
    ensures
        opt_text(r) == after_prefix(text@, part@),
{
    if starts_with(text, part) {
        let s = chars_of(text);
        let n: usize = chars_of(part).len();
        Some(text_between(&s, n, s.len()))
    } else {
        None
    }
}

pub(crate) fn strip_suffix(text: &str, part: &str) -> (r: Option<String>)
    ensures
        opt_text(r) == before_suffix(text@, part@),
{
    if ends_with(text, part) {
        let s = chars_of(text);
        let n: usize = chars_of(part).len();
        Some(text_between(&s, 0, s.len() - n))
    } else {
        None
    }
}

/// The text before the first `c` and the text after it.
pub open spec fn cut_once(s: Seq<char>, c: char) -> Option<(Seq<char>, Seq<char>)> {
    let i = next_at(s, c, 0);
    if i < s.len() {
        Some((s.take(i), s.skip(i + 1)))
    } else {
        None
    }
}

pub open spec fn opt_pair(o: Option<(String, String)>) -> Option<(Seq<char>, Seq<char>)> {
    match o {
        Some((a, b)) => Some((a@, b@)),
        None => None,
    }
}

pub(crate) fn split_once(text: &str, c: char) -> (r: Option<(String, String)>)
    ensures
        opt_pair(r) == cut_once(text@, c),
{
    let s = chars_of(text);
    let i = find_at(&s, c, 0);
    if i < s.len() {
        Some((text_between(&s, 0, i), text_between(&s, i + 1, s.len())))
    } else {
        None
    }
}

// ---------------------------------------------------------------------------
// Splitting and trimming
// ---------------------------------------------------------------------------

/// The pieces of `s` from place `i` on, between occurrences of `sep`.
pub open spec fn pieces_from(s: Seq<char>, sep: char, i: int) -> Seq<Seq<char>>
    decreases s.len() - i,
{
    let j = next_at(s, sep, i);
    if i <= j < s.len() {
        seq![s.subrange(i, j)] + pieces_from(s, sep, j + 1)
    } else {
        seq![s.skip(i)]
    }
}

/// The pieces of a text between occurrences of `sep`.
pub open spec fn pieces(s: Seq<char>, sep: char) -> Seq<Seq<char>> {
    pieces_from(s, sep, 0)
}

pub(crate) fn split_on(text: &str, sep: char) -> (r: Vec<String>)
    ensures
        texts(r@) == pieces(text@, sep),
        r@.len() >= 1,
{
    broadcast use lemma_texts_push;

    let s = chars_of(text);
    let mut out: Vec<String> = Vec::new();
    let mut start: usize = 0;
    loop
        invariant
            s@ == text@,
            start <= s@.len(),
            pieces(s@, sep) == texts(out@) + pieces_from(s@, sep, start as int),
        decreases s@.len() - start,
    {
        let j = find_at(&s, sep, start);
        let ghost before = texts(out@);
        if j >= s.len() {
            let piece = text_between(&s, start, s.len());
            out.push(piece);
            assert(s@.skip(start as int) =~= s@.subrange(start as int, s@.len() as int));
            assert(before + seq![s@.skip(start as int)] =~= before.push(s@.skip(start as int)));
            return out;
        }
        let piece = text_between(&s, start, j);
        out.push(piece);
        assert(before + (seq![s@.subrange(start as int, j as int)] + pieces_from(s@, sep, j + 1))
            =~= before.push(s@.subrange(start as int, j as int)) + pieces_from(s@, sep, j + 1));
        start = j + 1;
    }
}

/// The words of `s` from place `i` on: the runs between whitespace.
pub open spec fn words_from(s: Seq<char>, i: int) -> Seq<Seq<char>>
    decreases s.len() - i,
{
    let a = next_word(s, i);
    let b = next_space(s, a);
    if i <= a < b <= s.len() {
        seq![s.subrange(a, b)] + words_from(s, b)
    } else {
        seq![]
    }
}

/// The words of a text: the runs between whitespace.
pub open spec fn words(s: Seq<char>) -> Seq<Seq<char>> {
    words_from(s, 0)
}

pub(crate) fn split_words(text: &str) -> (r: Vec<String>)
    ensures
        texts(r@) == words(text@),
{
    broadcast use lemma_texts_push;

    let s = chars_of(text);
    let mut out: Vec<String> = Vec::new();
    let mut start: usize = 0;
    assert(texts(out@) + words_from(s@, 0) =~= words(s@));
    loop
        invariant
            s@ == text@,
            start <= s@.len(),
            words(s@) == texts(out@) + words_from(s@, start as int),
        decreases s@.len() - start,
    {
        let a = find_word(&s, start);
        let ghost before = texts(out@);
        if a >= s.len() {
            assert(before + words_from(s@, start as int) =~= before);
            return out;
        }
        let b = find_space(&s, a);
        let word = text_between(&s, a, b);
        out.push(word);
        assert(before + (seq![s@.subrange(a as int, b as int)] + words_from(s@, b as int))
            =~= before.push(s@.subrange(a as int, b as int)) + words_from(s@, b as int));
        start = b;
    }
}

/// The end of the last character before `n` that is no whitespace.
pub open spec fn last_word_end(s: Seq<char>, n: int) -> int
    decreases n,
{
    if n <= 0 {
        0
    } else if is_space(s[n - 1]) {
        last_word_end(s, n - 1)
    } else {
        n
    }
}

pub open spec fn trim_start(s: Seq<char>) -> Seq<char> {
    s.skip(next_word(s, 0))
}

pub open spec fn trim_end(s: Seq<char>) -> Seq<char> {
    s.take(last_word_end(s, s.len() as int))
}

/// A text without the whitespace at its two ends.
pub open spec fn trim(s: Seq<char>) -> Seq<char> {
    let a = next_word(s, 0);
    let b = last_word_end(s, s.len() as int);
    if a < b {
        s.subrange(a, b)
    } else {
        seq![]
    }
}

pub(crate) fn find_word_end(s: &Vec<char>) -> (r: usize)
    ensures
        r == last_word_end(s@, s@.len() as int),
        r <= s@.len(),
        r > 0 ==> !is_space(s@[r - 1]),
        forall|k: int| r <= k < s@.len() ==> is_space(s@[k]),
{
    let mut n: usize = s.len();
    while n > 0 && space(s[n - 1])
        invariant
            n <= s@.len(),
            last_word_end(s@, n as int) == last_word_end(s@, s@.len() as int),
            forall|k: int| n <= k < s@.len() ==> is_space(s@[k]),
        decreases n,
    {
        n -= 1;
    }
    n
}

pub(crate) fn trimmed(text: &str) -> (r: String)
    ensures
        r@ == trim(text@),
{
    let s = chars_of(text);
    let a = find_word(&s, 0);
    let b = find_word_end(&s);
    if a < b {
        text_between(&s, a, b)
    } else {
        let r = String::new();
        assert(r@ =~= seq![]);
        r
    }
}

pub(crate) fn trimmed_start(text: &str) -> (r: String)
    ensures
        r@ == trim_start(text@),
{
    let s = chars_of(text);
    let a = find_word(&s, 0);
    text_between(&s, a, s.len())
}

pub(crate) fn trimmed_end(text: &str) -> (r: String)
    ensures
        r@ == trim_end(text@),
{
    let s = chars_of(text);
    let b = find_word_end(&s);
    text_between(&s, 0, b)
}

/// The pieces of a text between occurrences of `sep`, trimmed, without the
/// empty ones.
pub open spec fn items(s: Seq<char>, sep: char) -> Seq<Seq<char>> {
    trimmed_items(pieces(s, sep))
}

pub open spec fn trimmed_items(parts: Seq<Seq<char>>) -> Seq<Seq<char>>
    decreases parts.len(),
{
    if parts.len() == 0 {
        seq![]
    } else {
        let rest = trimmed_items(parts.drop_last());
        let t = trim(parts.last());
        if t.len() == 0 {
            rest
        } else {
            rest.push(t)
        }
    }
}

pub(crate) fn split_items(text: &str, sep: char) -> (r: Vec<String>)
    ensures
        texts(r@) == items(text@, sep),
{
    broadcast use lemma_texts_push;

    let parts = split_on(text, sep);
    let mut out: Vec<String> = Vec::new();
    let mut i: usize = 0;
    assert(texts(out@) =~= seq![]);
    while i < parts.len()
        invariant
            i <= parts@.len(),
            texts(out@) == trimmed_items(texts(parts@).take(i as int)),
        decreases parts@.len() - i,
    {
        let t = trimmed(parts[i].as_str());
        proof {
            let p = texts(parts@).take(i + 1);
            assert(p.drop_last() =~= texts(parts@).take(i as int));
            assert(p.last() == parts@[i as int]@);
        }
        if !t.as_str().is_empty() {
            out.push(t);
        }
        i += 1;
    }
    assert(texts(parts@).take(parts@.len() as int) =~= texts(parts@));
    out
}

// ---------------------------------------------------------------------------
// Numbers in text
// ---------------------------------------------------------------------------

pub open spec fn digit_char(d: int) -> char {
    if d == 0 {
        '0'
    } else if d == 1 {
        '1'
    } else if d == 2 {
        '2'
    } else if d == 3 {
        '3'
    } else if d == 4 {
        '4'
    } else if d == 5 {
        '5'
    } else if d == 6 {
        '6'
    } else if d == 7 {
        '7'
    } else if d == 8 {
        '8'
    } else {
        '9'
    }
}

/// The decimal digits of a number.
pub open spec fn decimal(n: nat) -> Seq<char>
    decreases n,
{
    if n < 10 {
        seq![digit_char(n as int)]
    } else {
        decimal(n / 10).push(digit_char((n % 10) as int))
    }
}

pub(crate) fn decimal_text(n: u64) -> (r: String)
    ensures
        r@ == decimal(n as nat),
    decreases n,
{
    let d: u64 = n % 10;
    let c = if d == 0 {
        '0'
    } else if d == 1 {
        '1'
    } else if d == 2 {
        '2'
    } else if d == 3 {
        '3'
    } else if d == 4 {
        '4'
    } else if d == 5 {
        '5'
    } else if d == 6 {
        '6'
    } else if d == 7 {
        '7'
    } else if d == 8 {
        '8'
    } else {
        '9'
    };
    if n < 10 {
        let mut out = String::new();
        out.push(c);
        assert(out@ =~= seq![c]);
        out
    } else {
        let mut out = decimal_text(n / 10);
        out.push(c);
        out
    }
}

pub open spec fn all_digits(s: Seq<char>) -> bool {
    forall|k: int| 0 <= k < s.len() ==> is_digit(#[trigger] s[k])
}

/// The number that decimal digits write.
pub open spec fn digits_value(s: Seq<char>) -> nat
    decreases s.len(),
{
    if s.len() == 0 {
        0
    } else {
        digits_value(s.drop_last()) * 10 + (s.last() as u32 - '0' as u32) as nat
    }
}

/// The unsigned number up to `max` that a text writes: decimal digits, after an
/// optional plus sign.
pub open spec fn unsigned_value(s: Seq<char>, max: nat) -> Option<nat> {
    let d = if s.len() > 1 && s[0] == '+' {
        s.skip(1)
    } else {
        s
    };
    if d.len() > 0 && all_digits(d) && digits_value(d) <= max {
        Some(digits_value(d))
    } else {
        None
    }
}

proof fn lemma_digits_value_grows(s: Seq<char>, i: int)
    requires
        0 <= i <= s.len(),
    ensures
        digits_value(s.take(i)) <= digits_value(s),
    decreases s.len(),
{
    if i < s.len() {
        lemma_digits_value_grows(s.drop_last(), i);
        assert(s.drop_last().take(i) =~= s.take(i));
    } else {
        assert(s.take(i) =~= s);
    }
}

pub(crate) fn digits_only(s: &Vec<char>, start: usize) -> (r: bool)
    requires
        start <= s@.len(),
    ensures
        r == all_digits(s@.skip(start as int)),
{
    let mut i: usize = start;
    while i < s.len()
        invariant
            start <= i <= s@.len(),
            forall|k: int| start <= k < i ==> is_digit(#[trigger] s@[k]),
        decreases s@.len() - i,
    {
        if !digit(s[i]) {
            assert(!is_digit(s@.skip(start as int)[i - start]));
            return false;
        }
        i += 1;
    }
    true
}

pub(crate) fn parse_unsigned(text: &str, max: u64) -> (r: Option<u64>)
    ensures
        match r {
            Some(n) => unsigned_value(text@, max as nat) == Some(n as nat),
            None => unsigned_value(text@, max as nat) is None,
        },
{
    let s = chars_of(text);
    let start: usize = if s.len() > 1 && s[0] == '+' {
        1
    } else {
        0
    };
    let ghost d = s@.skip(start as int);
    assert(start == 0 ==> d =~= s@);
    if start >= s.len() || !digits_only(&s, start) {
        return None;
    }
    let mut n: u64 = 0;
    let mut i: usize = start;
    assert(d.take(0) =~= seq![]);
    while i < s.len()
        invariant
            start <= i <= s@.len(),
            d == s@.skip(start as int),
            all_digits(d),
            n == digits_value(d.take(i - start)),
            n <= max,
            unsigned_value(text@, max as nat) == (if digits_value(d) <= max {
                Some(digits_value(d))
            } else {
                None
            }),
        decreases s@.len() - i,
    {
        let c = s[i];
        assert(c == d[i - start]);
        assert(is_digit(c));
        let v: u64 = (c as u32 - '0' as u32) as u64;
        proof {
            let p = d.take(i - start + 1);
            assert(p.drop_last() =~= d.take(i - start));
            assert(p.last() == c);
            lemma_digits_value_grows(d, i - start + 1);
        }
        let m: u128 = n as u128 * 10 + v as u128;
        if m > max as u128 {
            return None;
        }
        n = m as u64;
        i += 1;
    }
    assert(d.take(s@.len() - start) =~= d);
    Some(n)
}

/// A text with the ASCII capitals made small.
pub open spec fn ascii_lower(c: char) -> char {
    if 'A' <= c <= 'Z' {
        ((c as u32 + 32) as u32) as char
    } else {
        c
    }
}

pub open spec fn ascii_lowercase(s: Seq<char>) -> Seq<char> {
    s.map_values(|c: char| ascii_lower(c))
}

pub(crate) fn to_ascii_lowercase(text: &str) -> (r: String)
    ensures
        r@ == ascii_lowercase(text@),
{
    let s = chars_of(text);
    let mut out = String::new();
    let mut i: usize = 0;
    while i < s.len()
        invariant
            s@ == text@,
            i <= s@.len(),
            out@ == ascii_lowercase(text@).take(i as int),
        decreases s@.len() - i,
    {
        let c = s[i];
        if 'A' <= c && c <= 'Z' {
            let u: u8 = (c as u32 + 32) as u8;
            assert(u as char == ascii_lower(c));
            out.push(u as char);
        } else {
            out.push(c);
        }
        assert(out@ =~= ascii_lowercase(text@).take(i + 1));
        i += 1;
    }
    assert(ascii_lowercase(text@).take(text@.len() as int) =~= ascii_lowercase(text@));
    out
}

} // verus!
