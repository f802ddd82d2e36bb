//! What search texts mean: how the clauses of a text follow from its words.
use crate::filter::token::{left, past};
use crate::query::simple::{
    ClauseV, clause_at, clauses_from, last_at, law_blank_text_matches_all, phrase_text,
    search_clauses, term_clause,
};
use crate::text::{all_digits, is_digit, is_space, next_space, trim};
use crate::text_laws::{
    is_blank, lemma_next_word_blank, lemma_space_bounds, lemma_trimmed_parts,
    lemma_word_end_blank, one_word,
};
use vstd::prelude::*;

verus! {

/// Whether a word starts with what is no sign and no quote.
pub open spec fn is_bare(w: Seq<char>) -> bool {
    one_word(w) && w[0] != '+' && w[0] != '-' && w[0] != '"'
}

/// Whether a word is a plain term: it starts with no sign or quote, and has no tilde.
pub open spec fn is_plain(w: Seq<char>) -> bool {
    is_bare(w) && forall|i: int| 0 <= i < w.len() ==> #[trigger] w[i] != '~'
}

/// Whether a text is the one that stands for everything.
pub open spec fn is_star(text: Seq<char>) -> bool {
    exists|a: Seq<char>, b: Seq<char>|
        is_blank(a) && is_blank(b) && text == #[trigger] (a + seq!['*'] + b)
}

/// The clauses of one text behind those of another.
pub open spec fn both_clauses(
    a: (Seq<ClauseV>, Seq<ClauseV>),
    b: (Seq<ClauseV>, Seq<ClauseV>),
) -> (Seq<ClauseV>, Seq<ClauseV>) {
    (a.0 + b.0, a.1 + b.1)
}

// ---------------------------------------------------------------------------
// Reading within a longer text
// ---------------------------------------------------------------------------

proof fn lemma_phrase_bounds(s: Seq<char>, i: int, text: Seq<char>)
    requires
        0 <= i,
    ensures
        phrase_text(s, i, text) matches Some((t, q)) ==> i < q <= s.len(),
    decreases s.len() - i,
{
    if i < s.len() {
        if s[i] == '"' {
            if i + 1 < s.len() && s[i + 1] == '"' {
                lemma_phrase_bounds(s, i + 2, text.push('"'));
            }
        } else {
            lemma_phrase_bounds(s, i + 1, text.push(s[i]));
        }
    }
}

proof fn lemma_space_shifted(x: Seq<char>, b: Seq<char>, p: int)
    requires
        0 <= p,
    ensures
        p <= b.len() ==> next_space(x + b, x.len() + p) == x.len() + next_space(b, p),
    decreases b.len() - p,
{
    if p < b.len() {
        assert((x + b)[x.len() + p] == b[p]);
        lemma_space_shifted(x, b, p + 1);
    }
}

proof fn lemma_phrase_shifted(x: Seq<char>, b: Seq<char>, i: int, text: Seq<char>)
    requires
        0 <= i,
    ensures
        match phrase_text(b, i, text) {
            Some((t, q)) => phrase_text(x + b, x.len() + i, text) == Some((t, x.len() + q)),
            None => phrase_text(x + b, x.len() + i, text) is None,
        },
    decreases b.len() - i,
{
    let s = x + b;
    if i < b.len() {
        assert(s[x.len() + i] == b[i]);
        if b[i] == '"' {
            if i + 1 < b.len() {
                assert(s[x.len() + i + 1] == b[i + 1]);
            }
            if i + 1 < b.len() && b[i + 1] == '"' {
                lemma_phrase_shifted(x, b, i + 2, text.push('"'));
            }
        } else {
            lemma_phrase_shifted(x, b, i + 1, text.push(b[i]));
        }
    }
}

proof fn lemma_shifted(
    x: Seq<char>,
    b: Seq<char>,
    p: int,
    required: Seq<ClauseV>,
    excluded: Seq<ClauseV>,
)
    requires
        0 <= p,
    ensures
        clauses_from(x + b, x.len() + p, required, excluded) == clauses_from(
            b,
            p,
            required,
            excluded,
        ),
    decreases left(b.len(), p),
{
    let s = x + b;
    if p < b.len() {
        assert(s[x.len() + p] == b[p]);
        if is_space(b[p]) {
            lemma_shifted(x, b, p + 1, required, excluded);
        } else {
            let signed = b[p] == '+' || b[p] == '-';
            let start = if signed {
                p + 1
            } else {
                p
            };
            if start < b.len() {
                assert(s[x.len() + start] == b[start]);
                lemma_phrase_shifted(x, b, start + 1, seq![]);
                lemma_space_shifted(x, b, start);
                lemma_space_bounds(b, start);
                let q = next_space(b, start);
                assert(s.subrange(x.len() + start, x.len() + q) =~= b.subrange(start, q));
                if !(signed && is_space(b[start])) {
                    if let Ok((clause, q)) = clause_at(b, start) {
                        assert(clause_at(s, x.len() + start) == Ok::<(ClauseV, int), Seq<char>>(
                            (clause, x.len() + q),
                        ));
                        lemma_shifted(x, b, past(p, q), required.push(clause), excluded);
                        lemma_shifted(x, b, past(p, q), required, excluded.push(clause));
                    }
                }
            }
        }
    }
}

proof fn lemma_space_within(a: Seq<char>, t: Seq<char>, p: int)
    requires
        0 <= p <= a.len(),
        t.len() == 0 || is_space(t[0]),
    ensures
        next_space(a + t, p) == next_space(a, p),
    decreases a.len() - p,
{
    if p < a.len() {
        assert((a + t)[p] == a[p]);
        lemma_space_within(a, t, p + 1);
    } else if t.len() > 0 {
        assert((a + t)[p] == t[0]);
    }
}

proof fn lemma_phrase_within(a: Seq<char>, t: Seq<char>, i: int, text: Seq<char>)
    requires
        0 <= i,
        t.len() == 0 || is_space(t[0]),
    ensures
        phrase_text(a, i, text) is Some ==> phrase_text(a + t, i, text) == phrase_text(a, i, text),
        is_blank(t) && i <= a.len() && phrase_text(a, i, text) is None ==> phrase_text(
            a + t,
            i,
            text,
        ) is None,
    decreases a.len() - i,
{
    let s = a + t;
    if i < a.len() {
        assert(s[i] == a[i]);
        if a[i] == '"' {
            if i + 1 < a.len() {
                assert(s[i + 1] == a[i + 1]);
            } else if t.len() > 0 {
                assert(s[i + 1] == t[0]);
            }
            if i + 1 < a.len() && a[i + 1] == '"' {
                lemma_phrase_within(a, t, i + 2, text.push('"'));
            }
        } else {
            lemma_phrase_within(a, t, i + 1, text.push(a[i]));
        }
    } else if is_blank(t) && i <= a.len() {
        lemma_no_quote(s, i, text);
    }
}

proof fn lemma_no_quote(s: Seq<char>, i: int, text: Seq<char>)
    requires
        0 <= i,
        forall|k: int| i <= k < s.len() ==> #[trigger] s[k] != '"',
    ensures
        phrase_text(s, i, text) is None,
    decreases s.len() - i,
{
    if i < s.len() {
        lemma_no_quote(s, i + 1, text.push(s[i]));
    }
}

proof fn lemma_blank_has_no_clause(
    s: Seq<char>,
    p: int,
    required: Seq<ClauseV>,
    excluded: Seq<ClauseV>,
)
    requires
        0 <= p,
        forall|k: int| p <= k < s.len() ==> is_space(#[trigger] s[k]),
    ensures
        clauses_from(s, p, required, excluded) == Ok::<_, Seq<char>>((required, excluded)),
    decreases left(s.len(), p),
{
    if p < s.len() {
        lemma_blank_has_no_clause(s, p + 1, required, excluded);
    }
}

/// Reading a text goes on behind it where whitespace follows, and blank text adds
/// nothing.
proof fn lemma_within(
    a: Seq<char>,
    t: Seq<char>,
    p: int,
    required: Seq<ClauseV>,
    excluded: Seq<ClauseV>,
)
    requires
        0 <= p <= a.len(),
        t.len() == 0 || is_space(t[0]),
    ensures
        clauses_from(a, p, required, excluded) matches Ok((r, e)) ==> clauses_from(
            a + t,
            p,
            required,
            excluded,
        ) == clauses_from(a + t, a.len() as int, r, e),
        is_blank(t) ==> clauses_from(a + t, p, required, excluded) == clauses_from(
            a,
            p,
            required,
            excluded,
        ),
    decreases left(a.len(), p),
{
    let s = a + t;
    if p >= a.len() {
        if is_blank(t) {
            assert forall|k: int| p <= k < s.len() implies is_space(#[trigger] s[k]) by {
                assert(s[k] == t[k - a.len()]);
            }
            lemma_blank_has_no_clause(s, p, required, excluded);
        }
    } else {
        assert(s[p] == a[p]);
        if is_space(a[p]) {
            lemma_within(a, t, p + 1, required, excluded);
        } else {
            let signed = a[p] == '+' || a[p] == '-';
            let start = if signed {
                p + 1
            } else {
                p
            };
            if start < a.len() {
                assert(s[start] == a[start]);
                lemma_phrase_within(a, t, start + 1, seq![]);
                lemma_phrase_bounds(a, start + 1, seq![]);
                lemma_space_within(a, t, start);
                lemma_space_bounds(a, start);
                let q = next_space(a, start);
                assert(s.subrange(start, q) =~= a.subrange(start, q));
                if !(signed && is_space(a[start])) {
                    if let Ok((clause, q)) = clause_at(a, start) {
                        lemma_within(a, t, past(p, q), required.push(clause), excluded);
                        lemma_within(a, t, past(p, q), required, excluded.push(clause));
                    }
                }
            } else if t.len() > 0 {
                assert(s[start] == t[0]);
            }
        }
    }
}

/// What was read before stands in front.
proof fn lemma_read_before(
    s: Seq<char>,
    p: int,
    required: Seq<ClauseV>,
    excluded: Seq<ClauseV>,
)
    requires
        0 <= p,
    ensures
        clauses_from(s, p, required, excluded) == (match clauses_from(s, p, seq![], seq![]) {
            Ok(c) => Ok(both_clauses((required, excluded), c)),
            Err(m) => Err(m),
        }),
    decreases left(s.len(), p),
{
    if p >= s.len() {
        assert(required + Seq::<ClauseV>::empty() =~= required);
        assert(excluded + Seq::<ClauseV>::empty() =~= excluded);
    } else if is_space(s[p]) {
        lemma_read_before(s, p + 1, required, excluded);
    } else {
        let signed = s[p] == '+' || s[p] == '-';
        let start = if signed {
            p + 1
        } else {
            p
        };
        if !(signed && (start >= s.len() || is_space(s[start]))) {
            if let Ok((clause, q)) = clause_at(s, start) {
                let next = past(p, q);
                let one = seq![clause];
                assert(Seq::<ClauseV>::empty().push(clause) =~= one);
                if s[p] == '-' {
                    lemma_read_before(s, next, required, excluded.push(clause));
                    lemma_read_before(s, next, seq![], one);
                    if let Ok(c) = clauses_from(s, next, seq![], seq![]) {
                        assert(excluded.push(clause) + c.1 =~= excluded + (one + c.1));
                        assert(required + c.0 =~= required + (Seq::<ClauseV>::empty() + c.0));
                    }
                } else {
                    lemma_read_before(s, next, required.push(clause), excluded);
                    lemma_read_before(s, next, one, seq![]);
                    if let Ok(c) = clauses_from(s, next, seq![], seq![]) {
                        assert(required.push(clause) + c.0 =~= required + (one + c.0));
                        assert(excluded + c.1 =~= excluded + (Seq::<ClauseV>::empty() + c.1));
                    }
                }
            }
        }
    }
}

/// The clauses of a text are those that are read from its start.
proof fn lemma_untrimmed(text: Seq<char>)
    ensures
        !is_star(text) ==> search_clauses(text) == clauses_from(text, 0, seq![], seq![]),
{
    lemma_trimmed_parts(text);
    let core = trim(text);
    let (a, b) = choose|a: Seq<char>, b: Seq<char>|
        is_blank(a) && is_blank(b) && text == #[trigger] (a + core + b);
    lemma_trim_ends(text);
    if core == "*"@ {
        reveal_strlit("*");
        assert(core =~= seq!['*']);
        assert(text == a + seq!['*'] + b);
    } else {
        let rest = core + b;
        assert(text =~= a + rest);
        lemma_blank_prefix(a, rest, 0, seq![], seq![]);
        lemma_shifted(a, rest, 0, seq![], seq![]);
        assert(b.len() == 0 || is_space(b[0]));
        lemma_within(core, b, 0, seq![], seq![]);
        if core.len() == 0 {
            assert(clauses_from(core, 0, seq![], seq![]) == Ok::<
                (Seq<ClauseV>, Seq<ClauseV>),
                Seq<char>,
            >((seq![], seq![])));
        }
    }
}

proof fn lemma_trim_ends(text: Seq<char>)
    ensures
        trim(text).len() <= text.len(),
{
    lemma_next_word_blank(text, 0);
    lemma_word_end_blank(text, text.len() as int);
}

// ---------------------------------------------------------------------------
// Laws
// ---------------------------------------------------------------------------

/// No part of a search text is lost or changed by what stands next to it: the clauses
/// of two texts with whitespace between them are those of the one and then those of the
/// other. What is wrong with the second is wrong with both. The texts that stand for
/// everything are left out.
pub proof fn law_joined_texts(a: Seq<char>, gap: Seq<char>, b: Seq<char>)
    requires
        is_blank(gap),
        gap.len() > 0,
        !is_star(a),
        !is_star(b),
        search_clauses(a) is Ok,
    ensures
        match search_clauses(b) {
            Ok(c) => search_clauses(a + gap + b) == Ok::<_, Seq<char>>(
                both_clauses(search_clauses(a)->Ok_0, c),
            ),
            Err(m) => search_clauses(a + gap + b) == Err::<(Seq<ClauseV>, Seq<ClauseV>), _>(m),
        },
{
    let s = a + gap + b;
    lemma_untrimmed(a);
    lemma_untrimmed(b);
    let (r, e) = search_clauses(a)->Ok_0;
    let t = gap + b;
    assert(s =~= a + t);
    assert(t[0] == gap[0]);
    lemma_within(a, t, 0, seq![], seq![]);
    lemma_shifted(a, t, 0, r, e);
    lemma_blank_prefix(gap, b, 0, r, e);
    lemma_shifted(gap, b, 0, r, e);
    lemma_read_before(b, 0, r, e);
    lemma_no_star(a, gap, b);
    lemma_untrimmed(s);
}

proof fn lemma_blank_prefix(
    a: Seq<char>,
    rest: Seq<char>,
    p: int,
    required: Seq<ClauseV>,
    excluded: Seq<ClauseV>,
)
    requires
        is_blank(a),
        0 <= p <= a.len(),
    ensures
        clauses_from(a + rest, p, required, excluded) == clauses_from(
            a + rest,
            a.len() as int,
            required,
            excluded,
        ),
    decreases a.len() - p,
{
    if p < a.len() {
        assert((a + rest)[p] == a[p]);
        lemma_blank_prefix(a, rest, p + 1, required, excluded);
    }
}

proof fn lemma_no_star(a: Seq<char>, gap: Seq<char>, b: Seq<char>)
    requires
        is_blank(gap),
        !is_star(a),
        !is_star(b),
    ensures
        !is_star(a + gap + b),
{
    let s = a + gap + b;
    if is_star(s) {
        let (x, y) = choose|x: Seq<char>, y: Seq<char>|
            is_blank(x) && is_blank(y) && s == #[trigger] (x + seq!['*'] + y);
        let at = x.len() as int;
        assert(s[at] == '*');
        assert(!is_space('*'));
        assert forall|k: int| 0 <= k < s.len() && k != at implies is_space(#[trigger] s[k]) by {
            if k < at {
                assert(s[k] == x[k]);
            } else {
                assert(s[k] == y[k - at - 1]);
            }
        }
        if at < a.len() {
            let (u, v) = (a.take(at), a.skip(at + 1));
            assert forall|k: int| 0 <= k < u.len() implies is_space(#[trigger] u[k]) by {
                assert(u[k] == s[k]);
            }
            assert forall|k: int| 0 <= k < v.len() implies is_space(#[trigger] v[k]) by {
                assert(v[k] == s[at + 1 + k]);
            }
            assert(a[at] == s[at]);
            assert(a =~= u + seq!['*'] + v);
        } else if at < a.len() + gap.len() {
            assert(s[at] == gap[at - a.len()]);
        } else {
            let n = a.len() + gap.len();
            let c = at - n;
            let (u, v) = (b.take(c), b.skip(c + 1));
            assert forall|k: int| 0 <= k < u.len() implies is_space(#[trigger] u[k]) by {
                assert(u[k] == s[n + k]);
            }
            assert forall|k: int| 0 <= k < v.len() implies is_space(#[trigger] v[k]) by {
                assert(v[k] == s[at + 1 + k]);
            }
            assert(b[c] == s[at]);
            assert(b =~= u + seq!['*'] + v);
        }
    }
}

proof fn lemma_word_is_star(w: Seq<char>)
    requires
        one_word(w),
        is_star(w),
    ensures
        w == seq!['*'],
{
    let (a, b) = choose|a: Seq<char>, b: Seq<char>|
        is_blank(a) && is_blank(b) && w == #[trigger] (a + seq!['*'] + b);
    if a.len() > 0 {
        assert(w[0] == a[0]);
    }
    if b.len() > 0 {
        assert(w[a.len() as int + 1] == b[0]);
    }
    assert(w =~= seq!['*']);
}

proof fn lemma_last_tilde(s: Seq<char>, n: int)
    requires
        0 <= n <= s.len(),
    ensures
        -1 <= last_at(s, '~', n) < n || n == 0,
        last_at(s, '~', n) < 0 <==> forall|k: int| 0 <= k < n ==> #[trigger] s[k] != '~',
    decreases n,
{
    if n > 0 {
        lemma_last_tilde(s, n - 1);
        if s[n - 1] == '~' {
            assert(!(forall|k: int| 0 <= k < n ==> #[trigger] s[k] != '~'));
        } else if last_at(s, '~', n - 1) >= 0 {
            let k = choose|k: int| 0 <= k < n - 1 && #[trigger] s[k] == '~';
            assert(s[k] == '~');
        }
    }
}

proof fn lemma_word_to_end(w: Seq<char>, p: int)
    requires
        0 <= p <= w.len(),
        forall|i: int| p <= i < w.len() ==> !is_space(#[trigger] w[i]),
    ensures
        next_space(w, p) == w.len(),
    decreases w.len() - p,
{
    if p < w.len() {
        lemma_word_to_end(w, p + 1);
    }
}

/// The clause of a text that is one word, after a sign or without.
proof fn lemma_one_word(w: Seq<char>, sign: Seq<char>)
    requires
        is_bare(w),
        sign.len() == 0 || sign == seq!['+'] || sign == seq!['-'],
    ensures
        clauses_from(sign + w, 0, seq![], seq![]) == (match term_clause(w) {
            Ok(c) => if sign == seq!['-'] {
                Ok((Seq::<ClauseV>::empty(), seq![c]))
            } else {
                Ok((seq![c], Seq::<ClauseV>::empty()))
            },
            Err(m) => Err(m),
        }),
{
    let s = sign + w;
    let p = sign.len() as int;
    assert(s[p] == w[0]);
    assert forall|i: int| p <= i < s.len() implies !is_space(#[trigger] s[i]) by {
        assert(s[i] == w[i - p]);
    }
    lemma_word_to_end(s, p);
    assert(s.subrange(p, s.len() as int) =~= w);
    if p == 1 {
        assert(s[0] == sign[0]);
        assert(!is_space('+') && !is_space('-'));
    }
    if let Ok(c) = term_clause(w) {
        assert(clause_at(s, p) == Ok::<(ClauseV, int), Seq<char>>((c, s.len() as int)));
        assert(past(0, s.len() as int) == s.len());
        assert(Seq::<ClauseV>::empty().push(c) =~= seq![c]);
        assert(sign.len() == 0 ==> s[0] == w[0]);
        assert(sign.len() == 0 ==> sign != seq!['-']) by {
            if sign.len() == 0 && sign == seq!['-'] {
                assert(seq!['-'].len() == 1);
            }
        }
        let one = seq![c];
        let none = Seq::<ClauseV>::empty();
        let end = s.len() as int;
        assert(clauses_from(s, end, one, none) == Ok::<_, Seq<char>>((one, none)));
        assert(clauses_from(s, end, none, one) == Ok::<_, Seq<char>>((none, one)));
        assert(seq!['+'][0] == '+' && seq!['-'][0] == '-');
        if sign == seq!['-'] {
            assert(s[0] == '-');
            assert(clauses_from(s, 0, none, none) == clauses_from(s, end, none, one));
        } else {
            assert(s[0] != '-');
            assert(clauses_from(s, 0, none, none) == clauses_from(s, end, one, none));
        }
    }
}

proof fn lemma_signed_is_no_star(w: Seq<char>, sign: char)
    requires
        sign == '+' || sign == '-' || sign == '"',
    ensures
        !is_star(seq![sign] + w),
{
    let s = seq![sign] + w;
    if is_star(s) {
        let (a, b) = choose|a: Seq<char>, b: Seq<char>|
            is_blank(a) && is_blank(b) && s == #[trigger] (a + seq!['*'] + b);
        assert(s[0] == sign);
        assert(!is_space('+') && !is_space('-') && !is_space('"'));
        if a.len() > 0 {
            assert(s[0] == a[0]);
        } else {
            assert(s[0] == '*');
        }
    }
}

/// A plain word is a required term, with a plus sign or without; with a minus sign it
/// is an excluded one. The word that stands for everything is left out.
pub proof fn law_plain_word_is_a_term(w: Seq<char>)
    requires
        is_plain(w),
    ensures
        w != seq!['*'] ==> search_clauses(w) == Ok::<_, Seq<char>>(
            (seq![ClauseV::Term(w)], Seq::<ClauseV>::empty()),
        ),
        search_clauses(seq!['+'] + w) == Ok::<_, Seq<char>>(
            (seq![ClauseV::Term(w)], Seq::<ClauseV>::empty()),
        ),
        search_clauses(seq!['-'] + w) == Ok::<_, Seq<char>>(
            (Seq::<ClauseV>::empty(), seq![ClauseV::Term(w)]),
        ),
{
    lemma_last_tilde(w, w.len() as int);
    lemma_one_word(w, seq![]);
    lemma_one_word(w, seq!['+']);
    lemma_one_word(w, seq!['-']);
    assert(seq!['+'][0] != seq!['-'][0]);
    assert(Seq::<char>::empty() + w =~= w);
    assert(Seq::<char>::empty().len() != seq!['-'].len());
    if is_star(w) {
        lemma_word_is_star(w);
    }
    lemma_untrimmed(w);
    lemma_signed_is_no_star(w, '+');
    lemma_signed_is_no_star(w, '-');
    lemma_untrimmed(seq!['+'] + w);
    lemma_untrimmed(seq!['-'] + w);
}

/// The distance that a mark behind a fuzzy term gives.
pub open spec fn mark_distance(mark: Seq<char>) -> Option<u8> {
    if mark == seq!['~'] || mark == seq!['~', '2'] {
        Some(2)
    } else if mark == seq!['~', '1'] {
        Some(1)
    } else if mark == seq!['~', '0'] {
        Some(0)
    } else {
        None
    }
}

/// A word with a tilde behind it is a fuzzy term within two edits, or within as many
/// as a digit behind the tilde says; within none it is the term itself. With a minus
/// sign it is excluded.
pub proof fn law_marked_word_is_fuzzy(w: Seq<char>, mark: Seq<char>)
    requires
        is_bare(w),
        mark_distance(mark) is Some,
    ensures
        ({
            let n = mark_distance(mark)->Some_0;
            let c = if n == 0 {
                ClauseV::Term(w)
            } else {
                ClauseV::FuzzyTerm { term: w, distance: n }
            };
            &&& search_clauses(w + mark) == Ok::<_, Seq<char>>(
                (seq![c], Seq::<ClauseV>::empty()),
            )
            &&& search_clauses(seq!['+'] + (w + mark)) == Ok::<_, Seq<char>>(
                (seq![c], Seq::<ClauseV>::empty()),
            )
            &&& search_clauses(seq!['-'] + (w + mark)) == Ok::<_, Seq<char>>(
                (Seq::<ClauseV>::empty(), seq![c]),
            )
        }),
{
    let raw = w + mark;
    let n = w.len() as int;
    assert(raw[n] == '~') by {
        assert(mark[0] == '~');
    }
    assert(!is_space('~') && !is_space('0') && !is_space('1') && !is_space('2'));
    assert forall|i: int| 0 <= i < raw.len() implies !is_space(#[trigger] raw[i]) by {
        if i < n {
            assert(raw[i] == w[i]);
        } else {
            assert(raw[i] == mark[i - n]);
        }
    }
    assert(raw[0] == w[0]);
    reveal_strlit("");
    reveal_strlit("0");
    reveal_strlit("1");
    reveal_strlit("2");
    if mark.len() == 2 {
        assert(raw[n + 1] == mark[1]);
        assert(mark[1] != '~');
        assert(last_at(raw, '~', n + 2) == last_at(raw, '~', n + 1));
    }
    assert(last_at(raw, '~', raw.len() as int) == n);
    assert(raw.take(n) =~= w);
    let suffix = raw.skip(n + 1);
    assert(suffix =~= mark.skip(1));
    if mark.len() == 1 {
        assert(suffix =~= ""@);
    } else {
        assert(suffix.len() == 1 && suffix[0] == mark[1]);
        if mark == seq!['~', '0'] {
            assert(suffix =~= "0"@);
        } else if mark == seq!['~', '1'] {
            assert(suffix =~= "1"@);
        } else {
            assert(suffix =~= "2"@);
        }
    }
    assert("0"@[0] != "1"@[0] && "0"@[0] != "2"@[0] && "1"@[0] != "2"@[0]);
    assert(""@.len() == 0 && "0"@.len() == 1 && "1"@.len() == 1 && "2"@.len() == 1);
    lemma_one_word(raw, seq![]);
    lemma_one_word(raw, seq!['+']);
    lemma_one_word(raw, seq!['-']);
    assert(seq!['+'][0] != seq!['-'][0]);
    assert(Seq::<char>::empty() + raw =~= raw);
    assert(Seq::<char>::empty().len() != seq!['-'].len());
    if is_star(raw) {
        lemma_word_is_star(raw);
        assert(raw.len() >= 2);
    }
    lemma_untrimmed(raw);
    lemma_signed_is_no_star(raw, '+');
    lemma_signed_is_no_star(raw, '-');
    lemma_untrimmed(seq!['+'] + raw);
    lemma_untrimmed(seq!['-'] + raw);
}

/// A text with its double quotes doubled.
pub open spec fn quotes_doubled(text: Seq<char>) -> Seq<char>
    decreases text.len(),
{
    if text.len() == 0 {
        seq![]
    } else if text.last() == '"' {
        quotes_doubled(text.drop_last()) + seq!['"', '"']
    } else {
        quotes_doubled(text.drop_last()).push(text.last())
    }
}

/// A text in double quotes.
pub open spec fn quoted_phrase(text: Seq<char>) -> Seq<char> {
    seq!['"'] + quotes_doubled(text) + seq!['"']
}

proof fn lemma_doubled_part(text: Seq<char>, n: int)
    requires
        0 <= n <= text.len(),
    ensures
        quotes_doubled(text.take(n)).len() <= quotes_doubled(text).len(),
        quotes_doubled(text.take(n)) == quotes_doubled(text).take(
            quotes_doubled(text.take(n)).len() as int,
        ),
    decreases text.len(),
{
    if n == text.len() {
        assert(text.take(n) =~= text);
        assert(quotes_doubled(text).take(quotes_doubled(text).len() as int) =~= quotes_doubled(
            text,
        ));
    } else {
        lemma_doubled_part(text.drop_last(), n);
        assert(text.drop_last().take(n) =~= text.take(n));
        let part = quotes_doubled(text.take(n));
        assert(quotes_doubled(text).take(part.len() as int) =~= quotes_doubled(
            text.drop_last(),
        ).take(part.len() as int));
    }
}

proof fn lemma_phrase_read(text: Seq<char>, n: int, head: Seq<char>, tail: Seq<char>)
    requires
        0 <= n <= text.len(),
    ensures
        ({
            let s = head + quotes_doubled(text) + tail;
            let at = head.len() + quotes_doubled(text.take(n)).len();
            phrase_text(s, head.len() as int, seq![]) == phrase_text(s, at as int, text.take(n))
        }),
    decreases n,
{
    let s = head + quotes_doubled(text) + tail;
    if n == 0 {
        assert(text.take(0) =~= seq![]);
    } else {
        lemma_phrase_read(text, n - 1, head, tail);
        lemma_doubled_part(text, n);
        lemma_doubled_part(text, n - 1);
        let shorter = text.take(n - 1);
        let longer = text.take(n);
        let whole = quotes_doubled(text);
        assert(longer.drop_last() =~= shorter);
        let c = text[n - 1];
        let k = quotes_doubled(shorter).len() as int;
        let at = head.len() + k;
        assert(longer =~= shorter.push(c));
        assert(quotes_doubled(longer) == whole.take(quotes_doubled(longer).len() as int));
        assert(quotes_doubled(longer)[k] == c);
        assert(s[at] == whole[k]);
        if c == '"' {
            assert(quotes_doubled(longer)[k + 1] == '"');
            assert(s[at + 1] == whole[k + 1]);
        }
    }
}

proof fn lemma_one_phrase(text: Seq<char>, sign: Seq<char>)
    requires
        sign.len() == 0 || sign == seq!['+'] || sign == seq!['-'],
    ensures
        clauses_from(sign + quoted_phrase(text), 0, seq![], seq![]) == Ok::<_, Seq<char>>(
            if sign == seq!['-'] {
                (Seq::<ClauseV>::empty(), seq![ClauseV::Phrase(text)])
            } else {
                (seq![ClauseV::Phrase(text)], Seq::<ClauseV>::empty())
            },
        ),
{
    let w = quoted_phrase(text);
    let s = sign + w;
    let p = sign.len() as int;
    let head = sign.push('"');
    assert(s =~= head + quotes_doubled(text) + seq!['"']);
    lemma_phrase_read(text, text.len() as int, head, seq!['"']);
    assert(text.take(text.len() as int) =~= text);
    let end = p + 1 + quotes_doubled(text).len();
    assert(s[end] == '"');
    assert(s.len() == end + 1);
    assert(phrase_text(s, end, text) == Some((text, end + 1)));
    assert(s[p] == '"');
    assert(!is_space('"') && !is_space('+') && !is_space('-'));
    let c = ClauseV::Phrase(text);
    assert(clause_at(s, p) == Ok::<(ClauseV, int), Seq<char>>((c, end + 1)));
    assert(Seq::<ClauseV>::empty().push(c) =~= seq![c]);
    if p == 1 {
        assert(s[0] == sign[0]);
    }
    assert(seq!['+'][0] == '+' && seq!['-'][0] == '-' && seq!['-'].len() == 1);
    let one = seq![c];
    let none = Seq::<ClauseV>::empty();
    assert(clauses_from(s, end + 1, one, none) == Ok::<_, Seq<char>>((one, none)));
    assert(clauses_from(s, end + 1, none, one) == Ok::<_, Seq<char>>((none, one)));
    if sign == seq!['-'] {
        assert(s[0] == '-');
        assert(clauses_from(s, 0, none, none) == clauses_from(s, end + 1, none, one));
    } else {
        assert(s[0] != '-');
        assert(clauses_from(s, 0, none, none) == clauses_from(s, end + 1, one, none));
    }
}

/// A text in double quotes, its own doubled, is a required phrase of exactly the text;
/// with a minus sign it is an excluded one.
pub proof fn law_quoted_text_is_a_phrase(text: Seq<char>)
    ensures
        search_clauses(quoted_phrase(text)) == Ok::<_, Seq<char>>(
            (seq![ClauseV::Phrase(text)], Seq::<ClauseV>::empty()),
        ),
        search_clauses(seq!['+'] + quoted_phrase(text)) == Ok::<_, Seq<char>>(
            (seq![ClauseV::Phrase(text)], Seq::<ClauseV>::empty()),
        ),
        search_clauses(seq!['-'] + quoted_phrase(text)) == Ok::<_, Seq<char>>(
            (Seq::<ClauseV>::empty(), seq![ClauseV::Phrase(text)]),
        ),
{
    let w = quoted_phrase(text);
    lemma_one_phrase(text, seq![]);
    lemma_one_phrase(text, seq!['+']);
    lemma_one_phrase(text, seq!['-']);
    assert(seq!['+'][0] != seq!['-'][0]);
    assert(Seq::<char>::empty() + w =~= w);
    assert(Seq::<char>::empty().len() != seq!['-'].len());
    assert(w =~= seq!['"'] + (quotes_doubled(text) + seq!['"']));
    lemma_signed_is_no_star(quotes_doubled(text) + seq!['"'], '"');
    lemma_signed_is_no_star(w, '+');
    lemma_signed_is_no_star(w, '-');
    lemma_untrimmed(w);
    lemma_untrimmed(seq!['+'] + w);
    lemma_untrimmed(seq!['-'] + w);
}

/// Words with whitespace before, between, and behind them.
pub open spec fn spaced_words(gaps: Seq<Seq<char>>, words: Seq<Seq<char>>) -> Seq<char>
    decreases words.len(),
{
    if words.len() == 0 {
        gaps[0]
    } else {
        spaced_words(gaps.drop_last(), words.drop_last()) + words.last() + gaps.last()
    }
}

/// Whether there is whitespace to stand between and around words.
pub open spec fn are_gaps(gaps: Seq<Seq<char>>, n: nat) -> bool {
    &&& gaps.len() == n + 1
    &&& forall|i: int| 0 <= i < gaps.len() ==> is_blank(#[trigger] gaps[i])
    &&& forall|i: int| 0 < i < gaps.len() - 1 ==> (#[trigger] gaps[i]).len() > 0
}

/// The terms of words.
pub open spec fn word_terms(words: Seq<Seq<char>>) -> Seq<ClauseV> {
    words.map_values(|w: Seq<char>| ClauseV::Term(w))
}

/// No word of a search text is lost: a text of plain words with whitespace between them
/// has each word as a required term, in order, and excludes nothing. The word that
/// stands for everything is left out.
pub proof fn law_every_word_is_a_term(gaps: Seq<Seq<char>>, words: Seq<Seq<char>>)
    requires
        are_gaps(gaps, words.len()),
        forall|i: int|
            0 <= i < words.len() ==> is_plain(#[trigger] words[i]) && words[i] != seq!['*'],
    ensures
        search_clauses(spaced_words(gaps, words)) == Ok::<_, Seq<char>>(
            (word_terms(words), Seq::<ClauseV>::empty()),
        ),
        !is_star(spaced_words(gaps, words)),
    decreases words.len(),
{
    if words.len() == 0 {
        assert(is_blank(gaps[0]));
        law_blank_text_matches_all(gaps[0]);
        assert(word_terms(words) =~= seq![]);
        lemma_blank_is_no_star(gaps[0]);
    } else {
        let (g, ws) = (gaps.drop_last(), words.drop_last());
        let n = words.len() as int;
        let w = words.last();
        assert(words[n - 1] == w);
        assert forall|i: int| 0 <= i < ws.len() implies is_plain(#[trigger] ws[i]) && ws[i]
            != seq!['*'] by {
            assert(ws[i] == words[i]);
        }
        assert forall|i: int| 0 <= i < g.len() implies is_blank(#[trigger] g[i]) by {
            assert(g[i] == gaps[i]);
        }
        assert forall|i: int| 0 < i < g.len() - 1 implies (#[trigger] g[i]).len() > 0 by {
            assert(g[i] == gaps[i]);
        }
        law_every_word_is_a_term(g, ws);
        let before = spaced_words(g, ws);
        law_plain_word_is_a_term(w);
        if is_star(w) {
            lemma_word_is_star(w);
        }
        let tail = gaps.last();
        assert(gaps[n] == tail);
        assert(is_blank(tail));
        let terms = word_terms(words);
        assert(terms =~= word_terms(ws) + seq![ClauseV::Term(w)]);
        assert(Seq::<ClauseV>::empty() + Seq::<ClauseV>::empty() =~= Seq::<ClauseV>::empty());
        if n == 1 {
            // The first word stands behind the first gap alone.
            assert(before == gaps[0]);
            lemma_padded(gaps[0], w, tail);
            assert(terms =~= seq![ClauseV::Term(w)]);
        } else {
            let gap = g.last();
            assert(gap == gaps[n - 1]);
            let (h, vs) = (g.drop_last(), ws.drop_last());
            let inner = spaced_words(h, vs) + ws.last();
            assert(before == inner + gap);
            // The text before the last gap has the same clauses as with it.
            lemma_ends_padded(inner, gap);
            law_joined_texts(inner, gap, w);
            lemma_no_star(inner, gap, w);
            lemma_padded(seq![], inner + gap + w, tail);
            assert(Seq::<char>::empty() + (inner + gap + w) + tail =~= spaced_words(gaps, words));
        }
    }
}

proof fn lemma_blank_is_no_star(s: Seq<char>)
    requires
        is_blank(s),
    ensures
        !is_star(s),
{
    if is_star(s) {
        let (a, b) = choose|a: Seq<char>, b: Seq<char>|
            is_blank(a) && is_blank(b) && s == #[trigger] (a + seq!['*'] + b);
        assert(s[a.len() as int] == '*');
        assert(!is_space('*'));
    }
}

/// Whitespace around a text changes nothing.
proof fn lemma_padded(a: Seq<char>, s: Seq<char>, b: Seq<char>)
    requires
        is_blank(a),
        is_blank(b),
        !is_star(s),
    ensures
        search_clauses(a + s + b) == search_clauses(s),
        !is_star(a + s + b),
{
    let rest = s + b;
    assert(a + s + b =~= a + rest);
    lemma_blank_is_no_star(a);
    lemma_blank_is_no_star(b);
    let none = Seq::<char>::empty();
    assert(is_blank(none));
    lemma_blank_is_no_star(none);
    lemma_no_star(s, none, b);
    assert(s + none + b =~= rest);
    lemma_no_star(a, none, rest);
    assert(a + none + rest =~= a + rest);
    lemma_untrimmed(s);
    lemma_untrimmed(a + rest);
    lemma_blank_prefix(a, rest, 0, seq![], seq![]);
    lemma_shifted(a, rest, 0, seq![], seq![]);
    if b.len() > 0 {
        assert(is_space(b[0]));
    }
    lemma_within(s, b, 0, seq![], seq![]);
}

/// Whitespace around a search text changes nothing. The texts that stand for
/// everything do so with whitespace around them too.
pub proof fn law_padding_changes_nothing(a: Seq<char>, s: Seq<char>, b: Seq<char>)
    requires
        is_blank(a),
        is_blank(b),
        !is_star(s),
    ensures
        search_clauses(a + s + b) == search_clauses(s),
{
    lemma_padded(a, s, b);
}

proof fn lemma_ends_padded(s: Seq<char>, b: Seq<char>)
    requires
        is_blank(b),
        !is_star(s + b),
    ensures
        search_clauses(s + b) == search_clauses(s),
        !is_star(s),
{
    let none = Seq::<char>::empty();
    assert(is_blank(none));
    if is_star(s) {
        let (x, y) = choose|x: Seq<char>, y: Seq<char>|
            is_blank(x) && is_blank(y) && s == #[trigger] (x + seq!['*'] + y);
        let z = y + b;
        assert forall|k: int| 0 <= k < z.len() implies is_space(#[trigger] z[k]) by {
            if k < y.len() {
                assert(z[k] == y[k]);
            } else {
                assert(z[k] == b[k - y.len()]);
            }
        }
        assert(s + b =~= x + seq!['*'] + z);
    }
    lemma_padded(none, s, b);
    assert(none + s + b =~= s + b);
}

/// A sign without a term, a quote that is not closed, and a fuzzy mark without a term or
/// with another number than 0 to 2 are refused.
pub proof fn law_malformed_texts_are_refused(w: Seq<char>, text: Seq<char>, digits: Seq<char>)
    requires
        is_bare(w),
        forall|i: int| 0 <= i < text.len() ==> #[trigger] text[i] != '"',
        digits.len() > 1 || digits.len() == 1 && digits[0] != '0' && digits[0] != '1' && digits[0]
            != '2',
        forall|i: int| 0 <= i < digits.len() ==> '0' <= #[trigger] digits[i] <= '9',
    ensures
        search_clauses(seq!['+']) is Err,
        search_clauses(seq!['-']) is Err,
        search_clauses(seq!['"'] + text) is Err,
        search_clauses(seq!['~']) is Err,
        search_clauses(w + seq!['~'] + digits) is Err,
{
    let none = Seq::<char>::empty();
    assert(!is_space('+') && !is_space('-') && !is_space('"') && !is_space('~'));
    lemma_signed_is_no_star(none, '+');
    lemma_signed_is_no_star(none, '-');
    assert(seq!['+'] + none =~= seq!['+']);
    assert(seq!['-'] + none =~= seq!['-']);
    lemma_untrimmed(seq!['+']);
    lemma_untrimmed(seq!['-']);
    assert(seq!['+'][0] == '+' && seq!['-'][0] == '-');
    let open = seq!['"'] + text;
    lemma_signed_is_no_star(text, '"');
    lemma_untrimmed(open);
    assert(open[0] == '"');
    assert forall|k: int| 1 <= k < open.len() implies #[trigger] open[k] != '"' by {
        assert(open[k] == text[k - 1]);
    }
    lemma_no_quote(open, 1, seq![]);
    let mark = seq!['~'];
    reveal_strlit("");
    reveal_strlit("0");
    reveal_strlit("1");
    reveal_strlit("2");
    assert(mark[0] == '~');
    assert(is_bare(mark));
    if is_star(mark) {
        lemma_word_is_star(mark);
    }
    lemma_untrimmed(mark);
    lemma_one_word(mark, none);
    assert(none + mark =~= mark);
    assert(last_at(mark, '~', 1) == 0);
    assert(mark.skip(1) =~= ""@);
    assert(mark.take(0).len() == 0);
    let raw = w + mark + digits;
    let n = w.len() as int;
    assert forall|i: int| 0 <= i < raw.len() implies !is_space(#[trigger] raw[i]) by {
        if i < n {
            assert(raw[i] == w[i]);
        } else if i > n {
            assert(raw[i] == digits[i - n - 1]);
            lemma_digits_are_no_space(digits[i - n - 1]);
        }
    }
    assert(raw[0] == w[0]);
    lemma_tilde_before_digits(raw, n, raw.len() as int, digits);
    assert(raw.skip(n + 1) =~= digits);
    assert(digits != ""@ && digits != "0"@ && digits != "1"@ && digits != "2"@) by {
        assert(""@.len() == 0);
        assert("0"@[0] == '0' && "1"@[0] == '1' && "2"@[0] == '2');
        assert("0"@.len() == 1 && "1"@.len() == 1 && "2"@.len() == 1);
    }
    assert(all_digits(digits)) by {
        assert forall|k: int| 0 <= k < digits.len() implies is_digit(#[trigger] digits[k]) by {}
    }
    if is_star(raw) {
        lemma_word_is_star(raw);
        assert(raw.len() > 1);
    }
    lemma_untrimmed(raw);
    lemma_one_word(raw, none);
    assert(none + raw =~= raw);
}

proof fn lemma_digits_are_no_space(c: char)
    requires
        '0' <= c <= '9',
    ensures
        !is_space(c),
{
}

proof fn lemma_tilde_before_digits(raw: Seq<char>, n: int, m: int, digits: Seq<char>)
    requires
        0 <= n < m <= raw.len(),
        raw[n] == '~',
        raw.len() == n + 1 + digits.len(),
        forall|i: int| 0 <= i < digits.len() ==> '0' <= #[trigger] digits[i] <= '9',
        forall|i: int| 0 <= i < digits.len() ==> raw[n + 1 + i] == #[trigger] digits[i],
    ensures
        last_at(raw, '~', m) == n,
    decreases m,
{
    if m > n + 1 {
        assert(raw[n + 1 + (m - n - 2)] == digits[m - n - 2]);
        lemma_tilde_before_digits(raw, n, m - 1, digits);
    }
}

} // verus!
