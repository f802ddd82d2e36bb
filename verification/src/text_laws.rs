//! What holds of the ways in which texts are read: their words, pieces, and parts,
//! their order, and the numbers that they write.
use crate::text::{
    all_digits, ascii_lowercase, cut_once, decimal, digit_char, digits_value, has_part, is_digit,
    is_space, items, joined, last_word_end, lemma_next_at, next_at, next_space, next_word, pieces,
    pieces_from, stands_at, text_less, trim, trim_end, trim_start, trimmed_items, unsigned_value,
    utf8_len, words, words_from,
};
use vstd::prelude::*;

verus! {

/// Whether a text is whitespace alone.
pub open spec fn is_blank(s: Seq<char>) -> bool {
    forall|i: int| 0 <= i < s.len() ==> is_space(#[trigger] s[i])
}

/// Whether a text is one word: not empty, and without whitespace.
pub open spec fn one_word(s: Seq<char>) -> bool {
    s.len() > 0 && forall|i: int| 0 <= i < s.len() ==> !is_space(#[trigger] s[i])
}

/// Whether a text starts and ends with what is no whitespace; it may be empty.
pub open spec fn is_trimmed(s: Seq<char>) -> bool {
    s.len() > 0 ==> !is_space(s[0]) && !is_space(s[s.len() - 1])
}

/// Whether a character does not occur in a text.
pub open spec fn lacks(s: Seq<char>, c: char) -> bool {
    forall|i: int| 0 <= i < s.len() ==> #[trigger] s[i] != c
}

/// Whether one text comes before another: at the first place where they differ it has
/// the smaller character, or it ends there.
pub open spec fn precedes(a: Seq<char>, b: Seq<char>) -> bool {
    exists|p: int|
        0 <= p <= a.len() && p < b.len() && a.take(p) == #[trigger] b.take(p) && (p == a.len()
            || a[p] < b[p])
}

// ---------------------------------------------------------------------------
// Places
// ---------------------------------------------------------------------------

pub(crate) proof fn lemma_next_at_is(s: Seq<char>, c: char, i: int, j: int)
    requires
        0 <= i <= j <= s.len(),
        forall|k: int| i <= k < j ==> s[k] != c,
        j < s.len() ==> s[j] == c,
    ensures
        next_at(s, c, i) == j,
    decreases j - i,
{
    if i < j {
        lemma_next_at_is(s, c, i + 1, j);
    }
}

pub(crate) proof fn lemma_pieces_shift(x: Seq<char>, t: Seq<char>, sep: char, k: int)
    requires
        0 <= k <= t.len(),
    ensures
        pieces_from(x + t, sep, x.len() + k) == pieces_from(t, sep, k),
    decreases t.len() - k,
{
    let w = x + t;
    let i = x.len() + k;
    lemma_next_at(t, sep, k);
    let j = next_at(t, sep, k);
    lemma_next_at_is(w, sep, i, x.len() + j);
    if j < t.len() {
        lemma_pieces_shift(x, t, sep, j + 1);
        assert(w.subrange(i, x.len() + j) =~= t.subrange(k, j));
    } else {
        assert(w.skip(i) =~= t.skip(k));
    }
}

pub(crate) proof fn lemma_pieces_concat(s: Seq<char>, t: Seq<char>, sep: char, i: int)
    requires
        0 <= i <= s.len(),
    ensures
        pieces_from(s + seq![sep] + t, sep, i) == pieces_from(s, sep, i) + pieces_from(t, sep, 0),
    decreases s.len() - i,
{
    let w = s + seq![sep] + t;
    lemma_next_at(s, sep, i);
    let j = next_at(s, sep, i);
    if j < s.len() {
        lemma_next_at_is(w, sep, i, j);
        lemma_pieces_concat(s, t, sep, j + 1);
        assert(w.subrange(i, j) =~= s.subrange(i, j));
        assert((seq![s.subrange(i, j)] + pieces_from(s, sep, j + 1)) + pieces_from(t, sep, 0)
            =~= seq![s.subrange(i, j)] + (pieces_from(s, sep, j + 1) + pieces_from(t, sep, 0)));
    } else {
        lemma_next_at_is(w, sep, i, s.len() as int);
        lemma_pieces_shift(s + seq![sep], t, sep, 0);
        assert(w.subrange(i, s.len() as int) =~= s.skip(i));
        assert(seq![s.skip(i)] + pieces_from(t, sep, 0) =~= pieces_from(s, sep, i) + pieces_from(
            t,
            sep,
            0,
        ));
    }
}

pub(crate) proof fn lemma_space_bounds(s: Seq<char>, p: int)
    requires
        0 <= p <= s.len(),
    ensures
        p <= next_space(s, p) <= s.len(),
        p < s.len() && !is_space(s[p]) ==> p < next_space(s, p),
        forall|k: int| p <= k < next_space(s, p) ==> !is_space(#[trigger] s[k]),
        next_space(s, p) < s.len() ==> is_space(s[next_space(s, p)]),
    decreases s.len() - p,
{
    if p < s.len() && !is_space(s[p]) {
        lemma_space_bounds(s, p + 1);
    }
}

pub(crate) proof fn lemma_trimmed_parts(text: Seq<char>)
    ensures
        exists|a: Seq<char>, b: Seq<char>|
            is_blank(a) && is_blank(b) && text == #[trigger] (a + trim(text) + b),
{
    let n = text.len() as int;
    lemma_next_word_blank(text, 0);
    lemma_word_end_blank(text, n);
    let i = next_word(text, 0);
    let j = last_word_end(text, n);
    if i < j {
        let (a, b) = (text.take(i), text.skip(j));
        assert(text =~= a + text.subrange(i, j) + b);
        assert forall|k: int| 0 <= k < a.len() implies is_space(#[trigger] a[k]) by {
            assert(is_space(text[k]));
        }
        assert forall|k: int| 0 <= k < b.len() implies is_space(#[trigger] b[k]) by {
            assert(is_space(text[j + k]));
        }
        assert(text == a + trim(text) + b);
    } else {
        assert forall|k: int| 0 <= k < text.len() implies is_space(#[trigger] text[k]) by {
            if k < i {
                assert(is_space(text[k]));
            } else {
                assert(k >= j);
            }
        }
        assert(text =~= text + trim(text) + seq![]);
        assert(is_blank(Seq::<char>::empty()));
    }
}

pub(crate) proof fn lemma_next_word_blank(s: Seq<char>, i: int)
    requires
        0 <= i <= s.len(),
    ensures
        i <= next_word(s, i) <= s.len(),
        forall|k: int| i <= k < next_word(s, i) ==> is_space(#[trigger] s[k]),
    decreases s.len() - i,
{
    if i < s.len() && is_space(s[i]) {
        lemma_next_word_blank(s, i + 1);
    }
}

pub(crate) proof fn lemma_word_end_blank(s: Seq<char>, n: int)
    requires
        0 <= n <= s.len(),
    ensures
        0 <= last_word_end(s, n) <= n,
        forall|k: int| last_word_end(s, n) <= k < n ==> is_space(#[trigger] s[k]),
    decreases n,
{
    if n > 0 && is_space(s[n - 1]) {
        lemma_word_end_blank(s, n - 1);
    }
}

// ---------------------------------------------------------------------------
// Laws
// ---------------------------------------------------------------------------

/// The blank and the control characters that set off lines and tabs are whitespace, as
/// are the no-break and the ideographic space; letters, digits, and the punctuation of
/// ASCII are not.
pub proof fn law_whitespace(c: char)
    ensures
        c == ' ' || c == '\t' || c == '\n' || c == '\r' || c == '\u{a0}' || c == '\u{3000}'
            ==> is_space(c),
        '!' <= c <= '~' ==> !is_space(c),
        '\u{a1}' <= c <= '\u{167f}' ==> !is_space(c),
        c > '\u{3000}' ==> !is_space(c),
{
}

/// The order of texts is that of a dictionary, by the numbers of the characters.
pub proof fn law_text_order_is_lexicographic(a: Seq<char>, b: Seq<char>)
    ensures
        text_less(a, b) <==> precedes(a, b),
    decreases a.len(),
{
    if b.len() == 0 {
    } else if a.len() == 0 {
        assert(a.take(0) =~= b.take(0));
    } else if a[0] == b[0] {
        let (x, y) = (a.drop_first(), b.drop_first());
        law_text_order_is_lexicographic(x, y);
        if precedes(x, y) {
            let p = choose|p: int|
                0 <= p <= x.len() && p < y.len() && x.take(p) == #[trigger] y.take(p) && (p
                    == x.len() || x[p] < y[p]);
            assert(a.take(p + 1) =~= seq![a[0]] + x.take(p));
            assert(b.take(p + 1) =~= seq![b[0]] + y.take(p));
            assert(a.take(p + 1) == b.take(p + 1));
        }
        if precedes(a, b) {
            let p = choose|p: int|
                0 <= p <= a.len() && p < b.len() && a.take(p) == #[trigger] b.take(p) && (p
                    == a.len() || a[p] < b[p]);
            assert(p > 0);
            assert(x.take(p - 1) =~= a.take(p).skip(1));
            assert(y.take(p - 1) =~= b.take(p).skip(1));
            assert(x.take(p - 1) == y.take(p - 1));
        }
    } else {
        assert(a.take(0) =~= b.take(0));
        if precedes(a, b) {
            let p = choose|p: int|
                0 <= p <= a.len() && p < b.len() && a.take(p) == #[trigger] b.take(p) && (p
                    == a.len() || a[p] < b[p]);
            if p > 0 {
                assert(a.take(p)[0] == a[0]);
                assert(b.take(p)[0] == b[0]);
            }
        }
    }
}

/// Trimming takes away the whitespace at both ends, and nothing else.
pub proof fn law_trimming(a: Seq<char>, core: Seq<char>, b: Seq<char>)
    requires
        is_blank(a),
        is_blank(b),
        is_trimmed(core),
    ensures
        trim(a + core + b) == core,
        core.len() > 0 || b.len() == 0 ==> trim_start(a + core + b) == core + b,
        core.len() > 0 || a.len() == 0 ==> trim_end(a + core + b) == a + core,
{
    let s = a + core + b;
    let n = s.len() as int;
    lemma_next_word_blank(s, 0);
    lemma_word_end_blank(s, n);
    lemma_ends_found(s, 0);
    lemma_starts_found(s, n);
    let i = next_word(s, 0);
    let j = last_word_end(s, n);
    let m = a.len() + core.len();
    assert forall|k: int| 0 <= k < a.len() implies is_space(#[trigger] s[k]) by {
        assert(s[k] == a[k]);
    }
    assert forall|k: int| m <= k < n implies is_space(#[trigger] s[k]) by {
        assert(s[k] == b[k - m]);
    }
    if core.len() > 0 {
        assert(s[a.len() as int] == core[0]);
        assert(s[m - 1] == core[core.len() - 1]);
        assert(i == a.len()) by {
            if i < a.len() {
                assert(is_space(s[i]));
            } else if i > a.len() {
                assert(is_space(s[a.len() as int]));
            }
        }
        assert(j == m) by {
            if j > m {
                assert(is_space(s[j - 1]));
            } else if j < m {
                assert(is_space(s[m - 1]));
            }
        }
        assert(s.subrange(i, j) =~= core);
        assert(s.skip(i) =~= core + b);
        assert(s.take(j) =~= a + core);
    } else {
        assert(i == n) by {
            if i < n {
                assert(!is_space(s[i]));
                assert(is_space(s[i]));
            }
        }
        assert(core =~= seq![]);
        assert(s.skip(i) =~= seq![]);
        if a.len() == 0 {
            assert(j == 0) by {
                if j > 0 {
                    assert(is_space(s[j - 1]));
                }
            }
            assert(s.take(j) =~= seq![]);
        }
        if b.len() == 0 {
            assert(core + b =~= seq![]);
        }
        assert(a.len() == 0 ==> a + core =~= seq![]);
    }
}

proof fn lemma_ends_found(s: Seq<char>, i: int)
    requires
        0 <= i <= s.len(),
    ensures
        next_word(s, i) < s.len() ==> !is_space(s[next_word(s, i)]),
    decreases s.len() - i,
{
    if i < s.len() && is_space(s[i]) {
        lemma_ends_found(s, i + 1);
    }
}

proof fn lemma_starts_found(s: Seq<char>, n: int)
    requires
        0 <= n <= s.len(),
    ensures
        last_word_end(s, n) > 0 ==> !is_space(s[last_word_end(s, n) - 1]),
    decreases n,
{
    if n > 0 && is_space(s[n - 1]) {
        lemma_starts_found(s, n - 1);
    }
}

/// The pieces of a text without the separator are the text; those of two texts with a
/// separator between them are those of the one and then those of the other.
pub proof fn law_pieces(a: Seq<char>, sep: char, b: Seq<char>)
    ensures
        lacks(a, sep) ==> pieces(a, sep) == seq![a],
        pieces(a + seq![sep] + b, sep) == pieces(a, sep) + pieces(b, sep),
{
    if lacks(a, sep) {
        lemma_next_at_is(a, sep, 0, a.len() as int);
        assert(a.skip(0) =~= a);
    }
    lemma_pieces_concat(a, b, sep, 0);
}

/// Where a text is cut in two: at the first of the characters, if there is one.
pub proof fn law_cut(a: Seq<char>, c: char, b: Seq<char>)
    requires
        lacks(a, c),
    ensures
        cut_once(a, c) is None,
        cut_once(a + seq![c] + b, c) == Some((a, b)),
{
    lemma_next_at_is(a, c, 0, a.len() as int);
    let s = a + seq![c] + b;
    assert(s[a.len() as int] == c);
    assert forall|k: int| 0 <= k < a.len() implies s[k] != c by {
        assert(s[k] == a[k]);
    }
    lemma_next_at_is(s, c, 0, a.len() as int);
    assert(s.take(a.len() as int) =~= a);
    assert(s.skip(a.len() as int + 1) =~= b);
}

/// A text holds another as a part where it has something, perhaps nothing, before it and
/// behind it.
pub proof fn law_parts(a: Seq<char>, part: Seq<char>, b: Seq<char>, s: Seq<char>)
    ensures
        has_part(a + part + b, part),
        has_part(s, part) ==> exists|x: Seq<char>, y: Seq<char>|
            s == #[trigger] (x + part + y),
        stands_at(a + part + b, part, a.len() as int),
{
    let t = a + part + b;
    assert(t.subrange(a.len() as int, a.len() as int + part.len()) =~= part);
    assert(stands_at(t, part, a.len() as int));
    if has_part(s, part) {
        let i = choose|i: int| #[trigger] stands_at(s, part, i);
        let (x, y) = (s.take(i), s.skip(i + part.len()));
        assert(s =~= x + s.subrange(i, i + part.len()) + y);
    }
}

proof fn lemma_words_bounds(s: Seq<char>, i: int)
    requires
        0 <= i <= s.len(),
    ensures
        i <= next_word(s, i) <= s.len(),
        next_word(s, i) <= next_space(s, next_word(s, i)) <= s.len(),
        next_word(s, i) < s.len() ==> next_word(s, i) < next_space(s, next_word(s, i)),
{
    lemma_next_word_blank(s, i);
    lemma_ends_found(s, i);
    lemma_space_bounds(s, next_word(s, i));
}

proof fn lemma_word_shifted(x: Seq<char>, t: Seq<char>, i: int)
    requires
        0 <= i <= t.len(),
    ensures
        next_word(x + t, x.len() + i) == x.len() + next_word(t, i),
        next_space(x + t, x.len() + i) == x.len() + next_space(t, i),
    decreases t.len() - i,
{
    if i < t.len() {
        assert((x + t)[x.len() + i] == t[i]);
        lemma_word_shifted(x, t, i + 1);
    }
}

proof fn lemma_words_shifted(x: Seq<char>, t: Seq<char>, i: int)
    requires
        0 <= i <= t.len(),
    ensures
        words_from(x + t, x.len() + i) == words_from(t, i),
    decreases t.len() - i,
{
    lemma_word_shifted(x, t, i);
    lemma_words_bounds(t, i);
    let a = next_word(t, i);
    lemma_word_shifted(x, t, a);
    let b = next_space(t, a);
    if a < b {
        assert((x + t).subrange(x.len() + a, x.len() + b) =~= t.subrange(a, b));
        lemma_words_shifted(x, t, b);
    }
}

proof fn lemma_word_within(s: Seq<char>, t: Seq<char>, i: int)
    requires
        0 <= i <= s.len(),
        t.len() > 0 ==> is_space(t[0]),
    ensures
        next_word(s, i) < s.len() ==> next_word(s + t, i) == next_word(s, i),
        next_word(s, i) >= s.len() ==> next_word(s + t, i) == next_word(s + t, s.len() as int),
        next_space(s + t, i) == next_space(s, i),
    decreases s.len() - i,
{
    if i < s.len() {
        assert((s + t)[i] == s[i]);
        lemma_word_within(s, t, i + 1);
    } else if t.len() > 0 {
        assert((s + t)[i] == t[0]);
    }
}

proof fn lemma_words_within(s: Seq<char>, t: Seq<char>, i: int)
    requires
        0 <= i <= s.len(),
        t.len() > 0 ==> is_space(t[0]),
    ensures
        words_from(s + t, i) == words_from(s, i) + words_from(s + t, s.len() as int),
    decreases s.len() - i,
{
    let w = s + t;
    lemma_words_bounds(s, i);
    lemma_words_bounds(w, i);
    lemma_word_within(s, t, i);
    let a = next_word(s, i);
    if a < s.len() {
        let b = next_space(s, a);
        lemma_word_within(s, t, a);
        lemma_words_within(s, t, b);
        assert(w.subrange(a, b) =~= s.subrange(a, b));
        assert((seq![s.subrange(a, b)] + words_from(s, b)) + words_from(w, s.len() as int)
            =~= seq![s.subrange(a, b)] + (words_from(s, b) + words_from(w, s.len() as int)));
    } else {
        lemma_space_bounds(s, a);
        assert(words_from(s, i) =~= seq![]);
        assert(words_from(s, i) + words_from(w, s.len() as int) =~= words_from(
            w,
            s.len() as int,
        ));
        lemma_words_bounds(w, s.len() as int);
    }
}

/// Blank text has no words; a text without whitespace is its one word; the words of two
/// texts with whitespace between them are those of the one and then those of the other.
pub proof fn law_words(a: Seq<char>, gap: Seq<char>, b: Seq<char>)
    requires
        is_blank(gap),
    ensures
        words(gap) == Seq::<Seq<char>>::empty(),
        one_word(a) ==> words(a) == seq![a],
        gap.len() > 0 ==> words(a + gap + b) == words(a) + words(b),
{
    lemma_no_words(gap, 0);
    if one_word(a) {
        lemma_words_bounds(a, 0);
        assert(next_word(a, 0) == 0);
        assert(next_space(a, 0) == a.len()) by {
            lemma_space_bounds(a, 0);
            if next_space(a, 0) < a.len() {
                assert(is_space(a[next_space(a, 0)]));
            }
        }
        assert(a.subrange(0, a.len() as int) =~= a);
        lemma_words_bounds(a, a.len() as int);
        assert(words_from(a, a.len() as int) =~= seq![]);
        assert(seq![a] + Seq::<Seq<char>>::empty() =~= seq![a]);
    }
    if gap.len() > 0 {
        let t = gap + b;
        assert(t[0] == gap[0]);
        assert(a + gap + b =~= a + t);
        lemma_words_within(a, t, 0);
        lemma_words_shifted(a, t, 0);
        lemma_words_after_gap(gap, b, 0);
        lemma_words_shifted(gap, b, 0);
    }
}

proof fn lemma_no_words(s: Seq<char>, i: int)
    requires
        0 <= i <= s.len(),
        is_blank(s),
    ensures
        words_from(s, i) == Seq::<Seq<char>>::empty(),
{
    lemma_words_bounds(s, i);
    lemma_ends_found(s, i);
    if next_word(s, i) < s.len() {
        assert(is_space(s[next_word(s, i)]));
    }
    lemma_space_bounds(s, next_word(s, i));
    assert(words_from(s, i) =~= seq![]);
}

proof fn lemma_words_after_gap(gap: Seq<char>, b: Seq<char>, i: int)
    requires
        0 <= i <= gap.len(),
        is_blank(gap),
    ensures
        words_from(gap + b, i) == words_from(gap + b, gap.len() as int),
    decreases gap.len() - i,
{
    let s = gap + b;
    if i < gap.len() {
        assert(s[i] == gap[i]);
        lemma_words_after_gap(gap, b, i + 1);
        assert(next_word(s, i) == next_word(s, i + 1));
        lemma_words_bounds(s, i);
        lemma_words_bounds(s, i + 1);
    }
}

/// Every word of a text is among its words: each run of characters without whitespace
/// that whitespace or an end of the text bounds.
pub proof fn law_every_run_is_a_word(s: Seq<char>, a: int, b: int)
    requires
        0 <= a < b <= s.len(),
        one_word(s.subrange(a, b)),
        a > 0 ==> is_space(s[a - 1]),
        b < s.len() ==> is_space(s[b]),
    ensures
        words(s).contains(s.subrange(a, b)),
{
    let w = s.subrange(a, b);
    let head = s.take(a);
    let tail = s.skip(b);
    law_words(w, seq![], seq![]);
    // The words behind the run.
    let rest = w + tail;
    if b < s.len() {
        let (gap, after) = (seq![s[b]], s.skip(b + 1));
        assert forall|k: int| 0 <= k < gap.len() implies is_space(#[trigger] gap[k]) by {}
        law_words(w, gap, after);
        assert(rest =~= w + gap + after);
        assert((seq![w] + words(after))[0] == w);
    } else {
        assert(rest =~= w);
        assert(words(rest)[0] == w);
    }
    assert(words(rest).len() > 0 && words(rest)[0] == w);
    if a > 0 {
        let (gap, before) = (seq![s[a - 1]], s.take(a - 1));
        assert forall|k: int| 0 <= k < gap.len() implies is_space(#[trigger] gap[k]) by {}
        law_words(before, gap, rest);
        assert(s =~= before + gap + rest);
        assert((words(before) + words(rest))[words(before).len() as int] == w);
    } else {
        assert(s =~= rest);
    }
}

proof fn lemma_trimmed_items_joined(a: Seq<Seq<char>>, b: Seq<Seq<char>>)
    ensures
        trimmed_items(a + b) == trimmed_items(a) + trimmed_items(b),
    decreases b.len(),
{
    if b.len() == 0 {
        assert(a + b =~= a);
        assert(trimmed_items(a) + trimmed_items(b) =~= trimmed_items(a));
    } else {
        lemma_trimmed_items_joined(a, b.drop_last());
        assert((a + b).drop_last() =~= a + b.drop_last());
        assert((a + b).last() == b.last());
        assert(trimmed_items(a + b) =~= trimmed_items(a) + trimmed_items(b));
    }
}

/// The items of a list in a text: those of two lists with a separator between them are
/// those of the one and then those of the other; what has no separator is one item
/// without the whitespace around it, and blank text is none.
pub proof fn law_items(a: Seq<char>, sep: char, b: Seq<char>, pad: Seq<char>, end: Seq<char>)
    requires
        is_blank(pad),
        is_blank(end),
        !is_space(sep),
    ensures
        items(a + seq![sep] + b, sep) == items(a, sep) + items(b, sep),
        items(pad, sep) == Seq::<Seq<char>>::empty(),
        is_trimmed(a) && a.len() > 0 && lacks(a, sep) ==> items(pad + a + end, sep) == seq![a],
{
    law_pieces(a, sep, b);
    lemma_trimmed_items_joined(pieces(a, sep), pieces(b, sep));
    assert(lacks(pad, sep)) by {
        assert forall|i: int| 0 <= i < pad.len() implies #[trigger] pad[i] != sep by {
            assert(is_space(pad[i]));
        }
    }
    law_pieces(pad, sep, b);
    let none = Seq::<char>::empty();
    assert(is_blank(none));
    law_trimming(pad, none, none);
    assert(pad + none + none =~= pad);
    assert(seq![pad].drop_last() =~= Seq::<Seq<char>>::empty());
    assert(seq![pad].last() == pad);
    assert(trimmed_items(Seq::<Seq<char>>::empty()) =~= Seq::<Seq<char>>::empty());
    if is_trimmed(a) && a.len() > 0 && lacks(a, sep) {
        let s = pad + a + end;
        assert forall|i: int| 0 <= i < s.len() implies #[trigger] s[i] != sep by {
            if i < pad.len() {
                assert(s[i] == pad[i]);
            } else if i < pad.len() + a.len() {
                assert(s[i] == a[i - pad.len()]);
            } else {
                assert(is_space(end[i - pad.len() - a.len()]));
            }
        }
        law_pieces(s, sep, b);
        law_trimming(pad, a, end);
        assert(seq![s].drop_last() =~= Seq::<Seq<char>>::empty());
        assert(seq![s].last() == s);
        assert(Seq::<Seq<char>>::empty().push(a) =~= seq![a]);
    }
}

/// Joined texts stand one behind the other with the separator between them.
pub proof fn law_joining(a: Seq<Seq<char>>, b: Seq<Seq<char>>, x: Seq<char>, sep: Seq<char>)
    ensures
        joined(seq![], sep) == Seq::<char>::empty(),
        joined(seq![x], sep) == x,
        a.len() > 0 && b.len() > 0 ==> joined(a + b, sep) == joined(a, sep) + sep + joined(b, sep),
    decreases b.len(),
{
    if a.len() > 0 && b.len() > 0 {
        let all = a + b;
        assert(all.last() == b.last());
        if b.len() == 1 {
            assert(all.drop_last() =~= a);
            assert(b.last() == b[0]);
        } else {
            law_joining(a, b.drop_last(), x, sep);
            assert(all.drop_last() =~= a + b.drop_last());
            assert(joined(all, sep) =~= joined(a, sep) + sep + joined(b, sep));
        }
    }
}

/// A number is written without leading zeros in digits that read back as it.
pub proof fn law_decimal_reads_back(n: nat)
    ensures
        digits_value(decimal(n)) == n,
        all_digits(decimal(n)),
        decimal(n).len() > 0,
        decimal(n).len() > 1 ==> decimal(n)[0] != '0',
        forall|max: nat| n <= max ==> #[trigger] unsigned_value(decimal(n), max) == Some(n),
        forall|max: nat| n > max ==> #[trigger] unsigned_value(decimal(n), max) is None,
    decreases n,
{
    if n < 10 {
        let c = digit_char(n as int);
        let one = seq![c];
        assert(one.last() == c);
        assert(one.drop_last() =~= seq![]);
        assert(digits_value(one.drop_last()) == 0);
        assert(is_digit(c));
        assert(c as u32 - '0' as u32 == n);
        assert(digits_value(one) == n);
    } else {
        law_decimal_reads_back(n / 10);
        let rest = decimal(n / 10);
        let c = digit_char((n % 10) as int);
        let all = rest.push(c);
        assert(all.drop_last() =~= rest);
        assert(all.last() == c);
        assert(is_digit(c));
        assert(c as u32 - '0' as u32 == n % 10);
        assert forall|k: int| 0 <= k < all.len() implies is_digit(#[trigger] all[k]) by {
            if k < rest.len() {
                assert(all[k] == rest[k]);
            }
        }
        assert(all[0] == rest[0]);
        if rest.len() == 1 {
            assert(rest.last() == rest[0]);
            assert(rest.drop_last() =~= seq![]);
            assert(digits_value(rest.drop_last()) == 0);
            assert(digits_value(rest) == (rest[0] as u32 - '0' as u32) as nat);
            assert(n / 10 > 0);
        }
    }
    assert(is_digit(decimal(n)[0]));
}

/// Making ASCII capitals small keeps each character but these, which become the letter
/// that stands as far behind the small `a` as they do behind the capital one.
pub proof fn law_ascii_lowercase(s: Seq<char>, i: int)
    requires
        0 <= i < s.len(),
    ensures
        ascii_lowercase(s).len() == s.len(),
        'A' <= s[i] <= 'Z' ==> ascii_lowercase(s)[i] as u32 - 'a' as u32 == s[i] as u32
            - 'A' as u32,
        !('A' <= s[i] <= 'Z') ==> ascii_lowercase(s)[i] == s[i],
{
}

/// The bytes of a text: one for each character of ASCII, two up to U+07FF, three up to
/// U+FFFF, and four beyond.
pub proof fn law_text_size(a: Seq<char>, c: char)
    ensures
        utf8_len(seq![]) == 0,
        (c as u32) <= 0x7f ==> utf8_len(a.push(c)) == utf8_len(a) + 1,
        0x80 <= (c as u32) <= 0x7ff ==> utf8_len(a.push(c)) == utf8_len(a) + 2,
        0x800 <= (c as u32) <= 0xffff ==> utf8_len(a.push(c)) == utf8_len(a) + 3,
        (c as u32) > 0xffff ==> utf8_len(a.push(c)) == utf8_len(a) + 4,
{
    assert(a.push(c).drop_last() =~= a);
}

} // verus!
