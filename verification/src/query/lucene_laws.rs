//! What full query texts are made into.
use crate::query::engine::{field_boosts, lucene_setup};
use crate::query::fulltext::TextIndex;
use crate::query::lucene::{
    QueryErrorV, affixes, alphanumeric, alternatives, bare_term, brackets_end, brackets_start,
    ends_term, expanded_parts, expanded_query, expanded_segment, expanded_token, expanded_tokens,
    is_bracket, is_no_term, is_operator_word, is_sign, next_separator, parser_text, prefix_parts,
    prefix_regex, quote_count, regex_text, separates_terms, signs_end, term_end, terms_from,
    wildcard_prefix,
};
use crate::query::nesting::{
    Reading, groups_within, is_bounded, negation_run, negations_from, nests_shallowly, reads,
    runs_within,
};
use crate::query::plan::SearchableV;
use crate::query::simple::{FullTextQueryV, SearchField, SearchFieldV};
use crate::storage::keyed::keyed_find;
use crate::text::{
    has_part, is_space, joined, last_word_end, next_word, pieces, stands_at, trim, words,
};
use crate::text_laws::{is_trimmed, lacks, law_cut, law_parts, law_pieces, law_trimming};
use vstd::prelude::*;

verus! {

// ---------------------------------------------------------------------------
// Terms
// ---------------------------------------------------------------------------

/// Whether no character of a text separates terms.
pub open spec fn unseparated(s: Seq<char>) -> bool {
    forall|i: int| 0 <= i < s.len() ==> !is_space(#[trigger] s[i]) && s[i] != '"'
}

proof fn lemma_separator(s: Seq<char>, i: int, e: int)
    requires
        0 <= i <= e <= s.len(),
        forall|k: int| i <= k < e ==> !separates_terms(#[trigger] s[k]),
        e < s.len() ==> separates_terms(s[e]),
    ensures
        next_separator(s, i) == e,
    decreases e - i,
{
    if i < e {
        assert(!separates_terms(s[i]));
        lemma_separator(s, i + 1, e);
    }
}

proof fn lemma_separator_bounds(s: Seq<char>, i: int)
    requires
        0 <= i <= s.len(),
    ensures
        i <= next_separator(s, i) <= s.len(),
        i < s.len() && !separates_terms(s[i]) ==> i < next_separator(s, i),
        forall|k: int| i <= k < next_separator(s, i) ==> !separates_terms(#[trigger] s[k]),
        next_separator(s, i) < s.len() ==> separates_terms(s[next_separator(s, i)]),
    decreases s.len() - i,
{
    if i < s.len() && !separates_terms(s[i]) {
        lemma_separator_bounds(s, i + 1);
    }
}

proof fn lemma_terms_behind(x: Seq<char>, t: Seq<char>, i: int, done: Seq<Seq<char>>)
    requires
        0 <= i <= t.len(),
    ensures
        terms_from(x + t, x.len() + i, done) == done + terms_from(t, i, seq![]),
    decreases t.len() - i,
{
    let s = x + t;
    let n = x.len() as int;
    let none = Seq::<Seq<char>>::empty();
    if i >= t.len() {
        assert(done + none =~= done);
    } else {
        assert(s[n + i] == t[i]);
        if separates_terms(t[i]) {
            lemma_terms_behind(x, t, i + 1, done);
        } else {
            lemma_separator_bounds(t, i);
            let j = next_separator(t, i);
            assert forall|k: int| n + i <= k < n + j implies !separates_terms(#[trigger] s[k]) by {
                assert(s[k] == t[k - n]);
            }
            if j < t.len() {
                assert(s[n + j] == t[j]);
            }
            lemma_separator(s, n + i, n + j);
            assert(s.subrange(n + i, n + j) =~= t.subrange(i, j));
            let term = bare_term(t.subrange(i, j));
            if term.len() == 0 || is_no_term(term) {
                lemma_terms_behind(x, t, j, done);
            } else {
                lemma_terms_behind(x, t, j, done.push(term));
                lemma_terms_behind(Seq::<char>::empty(), t, j, none.push(term));
                assert(Seq::<char>::empty() + t =~= t);
                let rest = terms_from(t, j, none);
                assert(done.push(term) + rest =~= done + (none.push(term) + rest));
            }
        }
    }
}

proof fn lemma_terms_before(a: Seq<char>, b: Seq<char>, i: int, done: Seq<Seq<char>>)
    requires
        0 <= i <= a.len(),
        b.len() > 0,
        separates_terms(b[0]),
    ensures
        terms_from(a + b, i, done) == terms_from(
            a + b,
            a.len() as int,
            terms_from(a, i, done),
        ),
    decreases a.len() - i,
{
    let s = a + b;
    if i < a.len() {
        assert(s[i] == a[i]);
        if separates_terms(a[i]) {
            lemma_terms_before(a, b, i + 1, done);
        } else {
            lemma_separator_bounds(a, i);
            let j = next_separator(a, i);
            assert forall|k: int| i <= k < j implies !separates_terms(#[trigger] s[k]) by {
                assert(s[k] == a[k]);
            }
            assert(s[j] == if j < a.len() {
                a[j]
            } else {
                b[0]
            });
            lemma_separator(s, i, j);
            assert(s.subrange(i, j) =~= a.subrange(i, j));
            let term = bare_term(a.subrange(i, j));
            if term.len() == 0 || is_no_term(term) {
                lemma_terms_before(a, b, j, done);
            } else {
                lemma_terms_before(a, b, j, done.push(term));
            }
        }
    }
}

/// The terms of two texts with whitespace or a quote between them are those of the one
/// and then those of the other; a text without either is one term, unless nothing is
/// left of it or it is an operator.
pub proof fn law_every_term_is_found(a: Seq<char>, c: char, b: Seq<char>)
    requires
        is_space(c) || c == '"',
    ensures
        terms_from(a + seq![c] + b, 0, seq![]) == terms_from(a, 0, seq![]) + terms_from(
            b,
            0,
            seq![],
        ),
        unseparated(a) && a.len() > 0 ==> terms_from(a, 0, seq![]) == (if bare_term(a).len() == 0
            || is_no_term(bare_term(a)) {
            Seq::<Seq<char>>::empty()
        } else {
            seq![bare_term(a)]
        }),
        terms_from(seq![], 0, seq![]) == Seq::<Seq<char>>::empty(),
{
    let none = Seq::<Seq<char>>::empty();
    let tail = seq![c] + b;
    assert(a + seq![c] + b =~= a + tail);
    assert(tail[0] == c);
    lemma_terms_before(a, tail, 0, none);
    let first = terms_from(a, 0, none);
    lemma_terms_behind(a, tail, 0, first);
    lemma_terms_behind(seq![c], b, 0, none);
    assert(terms_from(tail, 0, none) == terms_from(tail, 1, none));
    assert(none + terms_from(b, 0, none) =~= terms_from(b, 0, none));
    if unseparated(a) && a.len() > 0 {
        lemma_separator(a, 0, a.len() as int);
        assert(a.subrange(0, a.len() as int) =~= a);
        let n = a.len() as int;
        let one = none.push(bare_term(a));
        assert(terms_from(a, n, none) == none);
        assert(terms_from(a, n, one) == one);
        assert(one =~= seq![bare_term(a)]);
    }
}

/// Whether a text has none of the characters that mean something in a query.
pub open spec fn is_literal(s: Seq<char>) -> bool {
    s.len() > 0 && forall|i: int|
        0 <= i < s.len() ==> !(#[trigger] s[i] == ':' || s[i] == '+' || s[i] == '-' || s[i] == '^'
            || s[i] == '~' || s[i] == '*' || s[i] == '[' || s[i] == ']' || s[i] == '{' || s[i]
            == '}' || s[i] == '(' || s[i] == ')' || s[i] == '/' || s[i] == '"')
}

proof fn lemma_bare(signs: Seq<char>, w: Seq<char>, rest: Seq<char>)
    requires
        forall|i: int| 0 <= i < signs.len() ==> #[trigger] signs[i] == '+' || signs[i] == '-',
        is_literal(w),
        rest.len() > 0 ==> rest[0] == '^' || rest[0] == '~' || rest[0] == '*',
    ensures
        ({
            let s = signs + w + rest;
            let a = signs_end(s, 0);
            let b = term_end(s, a);
            let c = brackets_end(s, a, b);
            let d = brackets_start(s, c, b);
            s.subrange(c, d) == w
        }),
{
    let s = signs + w + rest;
    let n = signs.len() as int;
    let e = n + w.len();
    lemma_signs(s, 0, n);
    assert forall|k: int| n <= k < e implies s[k] == w[k - n] by {}
    assert(s[n] == w[0]);
    lemma_term_end(s, n, e);
    assert(s[e - 1] == w[w.len() - 1]);
    assert(!is_bracket(s[n]) && !is_bracket(s[e - 1]));
    assert(s.subrange(n, e) =~= w);
}

proof fn lemma_signs(s: Seq<char>, i: int, n: int)
    requires
        0 <= i <= n < s.len(),
        forall|k: int| i <= k < n ==> is_sign(#[trigger] s[k]),
        !is_sign(s[n]),
    ensures
        signs_end(s, i) == n,
    decreases n - i,
{
    if i < n {
        assert(is_sign(s[i]));
        lemma_signs(s, i + 1, n);
    }
}

proof fn lemma_term_end(s: Seq<char>, i: int, e: int)
    requires
        0 <= i <= e <= s.len(),
        forall|k: int| i <= k < e ==> !ends_term(#[trigger] s[k]),
        e < s.len() ==> ends_term(s[e]),
    ensures
        term_end(s, i) == e,
    decreases e - i,
{
    if i < e {
        assert(!ends_term(s[i]));
        lemma_term_end(s, i + 1, e);
    }
}

/// A term is what is left of a token without its field, its signs, and the boost, the
/// distance or the wildcard behind it.
pub proof fn law_bare_term(field: Seq<char>, signs: Seq<char>, w: Seq<char>, rest: Seq<char>)
    requires
        forall|i: int| 0 <= i < signs.len() ==> #[trigger] signs[i] == '+' || signs[i] == '-',
        is_literal(w),
        rest.len() > 0 ==> rest[0] == '^' || rest[0] == '~' || rest[0] == '*',
        lacks(rest, ':'),
        lacks(field, ':'),
        field.len() > 0,
    ensures
        bare_term(signs + w + rest) == w,
        bare_term(field + seq![':'] + (signs + w + rest)) == w,
{
    let s = signs + w + rest;
    assert(lacks(s, ':')) by {
        assert forall|i: int| 0 <= i < s.len() implies #[trigger] s[i] != ':' by {
            if i < signs.len() {
                assert(s[i] == signs[i]);
            } else if i < signs.len() + w.len() {
                assert(s[i] == w[i - signs.len()]);
            } else {
                assert(s[i] == rest[i - signs.len() - w.len()]);
            }
        }
    }
    law_cut(s, ':', seq![]);
    law_cut(field, ':', s);
    lemma_bare(signs, w, rest);
}

// ---------------------------------------------------------------------------
// Wildcards
// ---------------------------------------------------------------------------

proof fn lemma_regex(p: Seq<char>, n: int)
    requires
        0 <= n <= p.len(),
        forall|i: int| 0 <= i < p.len() ==> alphanumeric(#[trigger] p[i]) || p[i] == '_',
    ensures
        regex_text(p, n) == p.take(n),
    decreases n,
{
    if n > 0 {
        lemma_regex(p, n - 1);
        assert(alphanumeric(p[n - 1]) || p[n - 1] == '_');
        assert(p.take(n) =~= p.take(n - 1) + seq![p[n - 1]]);
    } else {
        assert(p.take(0) =~= seq![]);
    }
}

proof fn lemma_no_part(s: Seq<char>, c: char)
    requires
        lacks(s, c),
    ensures
        !has_part(s, seq![c]),
{
    let one = seq![c];
    if has_part(s, one) {
        law_parts(seq![], one, seq![], s);
        let (x, y) = choose|x: Seq<char>, y: Seq<char>| s == #[trigger] (x + one + y);
        assert((x + one + y)[x.len() as int] == one[0]);
        assert(s[x.len() as int] == c);
    }
}

proof fn lemma_affixes(core: Seq<char>)
    requires
        core.len() > 0,
        !(core[0] == '+' || core[0] == '-' || core[0] == '('),
        core.last() != ')',
    ensures
        affixes(core) == (Seq::<char>::empty(), core, Seq::<char>::empty()),
{
    let n = core.len() as int;
    assert(core.take(0) =~= seq![]);
    assert(core.subrange(0, n) =~= core);
    assert(core.skip(n) =~= seq![]);
}

/// A word with `*` behind it asks for what starts with the word, in any case, in each of
/// the fields; with a field before it, in that field.
pub proof fn law_wildcard_is_written_out(
    p: Seq<char>,
    field: Seq<char>,
    names: Seq<Seq<char>>,
    list: Seq<Seq<char>>,
)
    requires
        is_literal(p),
        forall|i: int| 0 <= i < p.len() ==> alphanumeric(#[trigger] p[i]) || p[i] == '_',
        !is_operator_word(p),
        p != "TO"@,
        p != "to"@,
        is_literal(field),
        names.len() > 0,
        list.len() == names.len(),
        forall|i: int|
            0 <= i < list.len() ==> #[trigger] list[i] == names[i] + ":/(?i)"@ + p + ".*/"@,
    ensures
        expanded_token(p.push('*'), names) == "("@ + joined(list, " OR "@) + ")"@,
        expanded_token(field + seq![':'] + p.push('*'), names) == field + ":/(?i)"@ + p + ".*/"@,
{
    reveal_strlit(":");
    reveal_strlit("/");
    reveal_strlit(".*");
    reveal_strlit("/(?i)");
    reveal_strlit(":/(?i)");
    reveal_strlit(".*/");
    let none = Seq::<char>::empty();
    let regex = "/(?i)"@ + prefix_regex(p) + "/"@;
    lemma_regex(p, p.len() as int);
    assert(p.take(p.len() as int) =~= p);
    assert(prefix_regex(p) == p + ".*"@);
    lemma_literal_lacks(p);
    lemma_literal_lacks(field);
    lemma_no_part(p, '*');
    lemma_no_part(p, ':');
    lemma_no_part(p, '/');
    lemma_no_part(p, '"');
    law_cut(p, ':', none);
    let bare = p.push('*');
    assert(bare[0] == p[0] && bare.last() == '*');
    lemma_affixes(bare);
    assert(bare.drop_last() =~= p);
    assert(wildcard_prefix(bare) == Some(p));
    assert(alternatives(names, regex) =~= list) by {
        assert forall|i: int| 0 <= i < list.len() implies alternatives(names, regex)[i]
            == list[i] by {
            assert(list[i] == names[i] + ":/(?i)"@ + p + ".*/"@);
            assert(names[i] + ":"@ + regex =~= names[i] + ":/(?i)"@ + p + ".*/"@);
        }
    }
    assert(none + "("@ + joined(list, " OR "@) + ")"@ + none =~= "("@ + joined(list, " OR "@)
        + ")"@);
    // With a field.
    let prefix = field + seq![':'] + p;
    let core = field + seq![':'] + bare;
    assert(core =~= prefix.push('*'));
    assert(core[0] == field[0] && core.last() == '*');
    lemma_affixes(core);
    assert(core.drop_last() =~= prefix);
    law_cut(field, ':', p);
    assert(lacks(prefix, '*')) by {
        assert forall|i: int| 0 <= i < prefix.len() implies #[trigger] prefix[i] != '*' by {
            if i < field.len() {
                assert(prefix[i] == field[i]);
            } else if i > field.len() {
                assert(prefix[i] == p[i - field.len() - 1]);
            }
        }
    }
    lemma_no_part(prefix, '*');
    assert(prefix[field.len() as int] == ':');
    lemma_operators_lack_colon(prefix, field.len() as int);
    assert(prefix[0] == field[0]);
    assert(wildcard_prefix(core) == Some(prefix));
    assert(prefix_parts(prefix) == (Some(field), p));
    assert(none + field + ":"@ + regex + none =~= field + ":/(?i)"@ + p + ".*/"@);
}

proof fn lemma_literal_lacks(s: Seq<char>)
    requires
        is_literal(s),
    ensures
        lacks(s, '*'),
        lacks(s, ':'),
        lacks(s, '/'),
        lacks(s, '"'),
        s[0] != '/' && s[0] != '+' && s[0] != '-' && s[0] != '(',
{
    assert(s[0] == s[0]);
    assert forall|i: int| 0 <= i < s.len() implies #[trigger] s[i] != '*' by {}
    assert forall|i: int| 0 <= i < s.len() implies #[trigger] s[i] != ':' by {}
    assert forall|i: int| 0 <= i < s.len() implies #[trigger] s[i] != '/' by {}
    assert forall|i: int| 0 <= i < s.len() implies #[trigger] s[i] != '"' by {}
}

proof fn lemma_operators_lack_colon(s: Seq<char>, i: int)
    requires
        0 <= i < s.len(),
        s[i] == ':',
    ensures
        !is_operator_word(s),
        s != "TO"@,
        s != "to"@,
{
    reveal_strlit("AND");
    reveal_strlit("OR");
    reveal_strlit("NOT");
    reveal_strlit("and");
    reveal_strlit("or");
    reveal_strlit("not");
    reveal_strlit("TO");
    reveal_strlit("to");
}

proof fn lemma_expanded_behind(
    x: Seq<Seq<char>>,
    y: Seq<Seq<char>>,
    n: int,
    names: Seq<Seq<char>>,
)
    requires
        0 <= n <= y.len(),
        x.len() % 2 == 0,
    ensures
        expanded_parts(x + y, x.len() + n, names) == expanded_parts(
            x + y,
            x.len() as int,
            names,
        ) + expanded_parts(y, n, names),
    decreases n,
{
    let all = x + y;
    if n > 0 {
        lemma_expanded_behind(x, y, n - 1, names);
        let k = x.len() as int + n - 1;
        assert(all[k] == y[n - 1]);
        assert(k % 2 == (n - 1) % 2);
        assert(expanded_parts(all, k + 1, names) =~= expanded_parts(all, x.len() as int, names)
            + expanded_parts(y, n, names));
    } else {
        assert(expanded_parts(y, 0, names) =~= seq![]);
        assert(expanded_parts(all, x.len() as int, names) + Seq::<char>::empty()
            =~= expanded_parts(all, x.len() as int, names));
    }
}

/// What stands in quotes is left as it is; wildcards are written out before it and
/// behind it.
pub proof fn law_quoted_parts_are_kept(
    a: Seq<char>,
    quoted_part: Seq<char>,
    rest: Seq<char>,
    names: Seq<Seq<char>>,
)
    requires
        lacks(a, '"'),
        lacks(quoted_part, '"'),
    ensures
        expanded_query(a, names) == expanded_segment(a, names),
        expanded_query(a + seq!['"'] + (quoted_part + seq!['"'] + rest), names)
            == expanded_segment(a, names) + seq!['"'] + quoted_part + seq!['"'] + expanded_query(
            rest,
            names,
        ),
{
    reveal_strlit("\"");
    assert("\""@ =~= seq!['"']);
    let none = Seq::<char>::empty();
    let tail = quoted_part + seq!['"'] + rest;
    law_pieces(a, '"', tail);
    law_pieces(quoted_part, '"', rest);
    let one = seq![a];
    assert(expanded_parts(one, 0, names) == none);
    assert(one[0] == a);
    assert(none + expanded_segment(a, names) =~= expanded_segment(a, names));
    assert(expanded_parts(one, 1, names) == expanded_segment(a, names));
    let x = seq![a, quoted_part];
    let y = pieces(rest, '"');
    let all = x + y;
    assert(seq![a] + (seq![quoted_part] + y) =~= all);
    lemma_expanded_behind(x, y, y.len() as int, names);
    assert(all[0] == a && all[1] == quoted_part);
    assert(expanded_parts(all, 0, names) == none);
    assert(expanded_parts(all, 1, names) == expanded_segment(a, names));
    assert(expanded_parts(all, 2, names) == expanded_segment(a, names) + ("\""@ + quoted_part
        + "\""@));
    let r = expanded_parts(y, y.len() as int, names);
    assert(expanded_segment(a, names) + ("\""@ + quoted_part + "\""@) + r =~= expanded_segment(
        a,
        names,
    ) + seq!['"'] + quoted_part + seq!['"'] + r);
}

/// The words outside of quotes are taken each by itself, in order, a blank apart.
pub proof fn law_every_word_is_expanded(
    s: Seq<char>,
    names: Seq<Seq<char>>,
    list: Seq<Seq<char>>,
)
    requires
        is_trimmed(s),
        s.len() > 0,
        list.len() == words(s).len(),
        forall|i: int|
            0 <= i < list.len() ==> #[trigger] list[i] == expanded_token(words(s)[i], names),
    ensures
        expanded_segment(s, names) == joined(list, " "@),
{
    let none = Seq::<char>::empty();
    law_trimming(none, s, none);
    assert(none + s + none =~= s);
    let n = s.len() as int;
    assert(next_word(s, 0) == 0);
    assert(last_word_end(s, n) == n);
    assert(s.subrange(0, n) =~= s);
    assert(s.take(0) =~= none);
    assert(s.skip(n) =~= none);
    assert(expanded_tokens(words(s), names) =~= list);
    assert(none + joined(list, " "@) + none =~= joined(list, " "@));
}

// ---------------------------------------------------------------------------
// Quotes
// ---------------------------------------------------------------------------

/// How many quotes a text has from a place on.
pub open spec fn quotes_in(s: Seq<char>, i: int) -> nat
    decreases s.len() - i,
{
    if i >= s.len() {
        0
    } else {
        quotes_in(s, i + 1) + if i >= 0 && s[i] == '"' {
            1nat
        } else {
            0nat
        }
    }
}

proof fn lemma_quotes(s: Seq<char>, i: int)
    requires
        0 <= i,
    ensures
        quote_count(s, i) % 2 == quotes_in(s, i) % 2,
    decreases s.len() - i,
{
    if i < s.len() {
        if s[i] == '"' && i + 1 < s.len() && s[i + 1] == '"' {
            lemma_quotes(s, i + 2);
            assert(quotes_in(s, i) == quotes_in(s, i + 1) + 1);
            assert(quotes_in(s, i + 1) == quotes_in(s, i + 2) + 1);
        } else {
            lemma_quotes(s, i + 1);
        }
    }
}

/// A text whose quotes do not come in pairs is refused, and no other is; blank text and
/// `*` ask for everything.
pub proof fn law_quotes_come_in_pairs(text: Seq<char>, names: Seq<Seq<char>>)
    ensures
        trim(text).len() == 0 ==> parser_text(text, names) == Ok::<
            Option<Seq<char>>,
            QueryErrorV,
        >(None),
        trim(text) == seq!['*'] ==> parser_text(text, names) == Ok::<
            Option<Seq<char>>,
            QueryErrorV,
        >(None),
        parser_text(text, names) is Err <==> quotes_in(trim(text), 0) % 2 == 1,
        parser_text(text, names) is Ok && trim(text).len() > 0 && trim(text) != seq!['*']
            ==> parser_text(text, names)->Ok_0 == Some(expanded_query(trim(text), names)),
{
    reveal_strlit("*");
    assert("*"@ =~= seq!['*']);
    let s = trim(text);
    lemma_quotes(s, 0);
    if s == seq!['*'] {
        assert(quotes_in(s, 1) == 0);
        assert(s[0] == '*');
        assert(quotes_in(s, 0) == 0);
    }
}

// ---------------------------------------------------------------------------
// Nesting and fields
// ---------------------------------------------------------------------------

proof fn lemma_flat(s: Seq<char>, i: int, how: Reading, depth: int)
    requires
        lacks(s, '('),
        0 <= i <= s.len(),
        reads(s, i, how, depth),
    ensures
        depth == 0,
    decreases i,
{
    if i > 0 {
        assert(s[i - 1] != '(');
        let j = i - 1;
        if reads(s, j, Reading::Plain, depth) {
            lemma_flat(s, j, Reading::Plain, depth);
        }
        if reads(s, j, Reading::Plain, depth + 1) {
            lemma_flat(s, j, Reading::Plain, depth + 1);
        }
        if reads(s, j, Reading::Escaped, depth) {
            lemma_flat(s, j, Reading::Escaped, depth);
        }
        if reads(s, j, Reading::Double, depth) {
            lemma_flat(s, j, Reading::Double, depth);
        }
        if reads(s, j, Reading::DoubleEscaped, depth) {
            lemma_flat(s, j, Reading::DoubleEscaped, depth);
        }
        if reads(s, j, Reading::Single, depth) {
            lemma_flat(s, j, Reading::Single, depth);
        }
        if reads(s, j, Reading::SingleEscaped, depth) {
            lemma_flat(s, j, Reading::SingleEscaped, depth);
        }
        if reads(s, j, Reading::Regex, depth) {
            lemma_flat(s, j, Reading::Regex, depth);
        }
    }
}

proof fn lemma_no_negations(s: Seq<char>, i: int)
    requires
        !has_part(s, "NOT"@),
        0 <= i,
    ensures
        negations_from(s, i) == 0,
    decreases s.len() - i,
{
    if i < s.len() {
        lemma_no_negations(s, i + 1);
        assert(!stands_at(s, "NOT"@, i));
    }
}

/// A text without opening parentheses and negations is never too deep.
pub proof fn law_flat_texts_are_accepted(s: Seq<char>)
    requires
        lacks(s, '('),
        !has_part(s, "NOT"@),
    ensures
        nests_shallowly(s),
{
    assert(groups_within(s, 0)) by {
        assert forall|i: int, depth: int|
            0 <= i <= s.len() && #[trigger] reads(s, i, Reading::Plain, depth) implies depth
            <= 0 by {
            lemma_flat(s, i, Reading::Plain, depth);
        }
    }
    assert(runs_within(s, 0)) by {
        assert forall|i: int| 0 <= i < s.len() implies #[trigger] negation_run(s, i) <= 0 by {
            assert(!stands_at(s, "NOT"@, i));
        }
    }
    lemma_no_negations(s, 0);
    assert(is_bounded(0, 0, 0));
}

/// A full query is put to each of the fields, in order, with the weights of those that
/// have one; in the mode all, all its terms are needed.
pub proof fn law_full_query_setup(
    index: TextIndex,
    fields: Seq<SearchableV>,
    query: FullTextQueryV,
    i: int,
    b: (u32, u64),
)
    ensures
        ({
            let setup = lucene_setup(index, fields, query);
            &&& setup.fields.len() == fields.len()
            &&& 0 <= i < fields.len() ==> setup.fields[i] == fields[i].field
            &&& setup.all <==> query.mode is All
            &&& setup.boosts.contains(b) <==> exists|k: int|
                0 <= k < fields.len() && weighs(query.boosts, #[trigger] fields[k], b)
        }),
{
    lemma_field_boosts(fields, query.boosts, b);
}

/// Whether a field has a weight.
pub open spec fn weighs(boosts: Seq<SearchFieldV>, s: SearchableV, b: (u32, u64)) -> bool {
    s.field == b.0 && (keyed_find::<SearchField>(boosts, s.name) matches Some(f) && f.boost == b.1)
}

proof fn lemma_field_boosts(fields: Seq<SearchableV>, boosts: Seq<SearchFieldV>, b: (u32, u64))
    ensures
        field_boosts(fields, boosts).contains(b) <==> exists|k: int|
            0 <= k < fields.len() && weighs(boosts, #[trigger] fields[k], b),
    decreases fields.len(),
{
    if fields.len() > 0 {
        let few = fields.drop_last();
        let rest = field_boosts(few, boosts);
        let all = field_boosts(fields, boosts);
        let last = fields.last();
        lemma_field_boosts(few, boosts, b);
        assert(fields[fields.len() - 1] == last);
        if rest.contains(b) {
            let j = choose|j: int| 0 <= j < rest.len() && rest[j] == b;
            assert(all[j] == b);
            let k = choose|k: int| 0 <= k < few.len() && weighs(boosts, #[trigger] few[k], b);
            assert(fields[k] == few[k]);
        }
        if weighs(boosts, last, b) {
            assert(all[rest.len() as int] == b);
        }
        if all.contains(b) {
            let j = choose|j: int| 0 <= j < all.len() && all[j] == b;
            if j < rest.len() {
                assert(rest[j] == b);
            } else {
                assert(weighs(boosts, last, b));
            }
        }
        if exists|k: int| 0 <= k < fields.len() && weighs(boosts, #[trigger] fields[k], b) {
            let k = choose|k: int|
                0 <= k < fields.len() && weighs(boosts, #[trigger] fields[k], b);
            if k < few.len() {
                assert(few[k] == fields[k]);
            }
        }
    }
}

} // verus!
