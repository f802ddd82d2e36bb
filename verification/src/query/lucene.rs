//! Lucene (`queryType=full`) query rewriting and term extraction.
use crate::filter::token::{left, past};
use crate::text::{
    cat3, cat5, chars_of, contains_text, cut_once, find_word, find_word_end, has_part, is_space,
    join_texts, joined, last_word_end, lemma_texts_push, next_word, opt_text, pieces, same_text,
    space, split_on, split_once, split_words, text_between, texts, trim, trimmed, words,
};
use vstd::prelude::*;

verus! {

/// Whether a character is a letter or a number by Unicode.
pub uninterp spec fn alphanumeric(c: char) -> bool;

/// `char::is_alphanumeric`.
#[verifier::external_body]
pub(crate) fn is_alphanumeric(c: char) -> (r: bool)
    ensures
        r == alphanumeric(c),
{
    c.is_alphanumeric()
}

/// An engine failure.
#[derive(Debug, PartialEq, Eq)]
pub enum QueryError {
    IndexNotFound(String),
    InvalidQuery(String),
    Engine(String),
}

/// The mathematical value of a [`QueryError`].
pub enum QueryErrorV {
    IndexNotFound(Seq<char>),
    InvalidQuery(Seq<char>),
    Engine(Seq<char>),
}

impl View for QueryError {
    type V = QueryErrorV;

    open spec fn view(&self) -> QueryErrorV {
        match self {
            QueryError::IndexNotFound(m) => QueryErrorV::IndexNotFound(m@),
            QueryError::InvalidQuery(m) => QueryErrorV::InvalidQuery(m@),
            QueryError::Engine(m) => QueryErrorV::Engine(m@),
        }
    }
}

// ---------------------------------------------------------------------------
// Quotes
// ---------------------------------------------------------------------------

/// How many quotes from place `i` on open or close a phrase: a doubled quote
/// does neither.
pub open spec fn quote_count(s: Seq<char>, i: int) -> nat
    decreases s.len() - i,
{
    if i >= s.len() {
        0
    } else if s[i] == '"' {
        if i + 1 < s.len() && s[i + 1] == '"' {
            quote_count(s, i + 2)
        } else {
            1 + quote_count(s, i + 1)
        }
    } else {
        quote_count(s, i + 1)
    }
}

/// Whether the Lucene query text has balanced quotes (`""` counts as an
/// escaped literal quote, not two delimiters).
pub fn quotes_balanced(text: &str) -> (r: bool)
    ensures
        r == (quote_count(text@, 0) % 2 == 0),
{
    let s = chars_of(text);
    let n: usize = s.len();
    let mut even = true;
    let mut i: usize = 0;
    while i < n
        invariant
            s@ == text@,
            n == s@.len(),
            i <= n,
            (quote_count(s@, 0) % 2 == 0) == (if even {
                quote_count(s@, i as int) % 2 == 0
            } else {
                quote_count(s@, i as int) % 2 == 1
            }),
        decreases n - i,
    {
        if s[i] == '"' {
            if i + 1 < n && s[i + 1] == '"' {
                i += 2;
            } else {
                even = !even;
                i += 1;
            }
        } else {
            i += 1;
        }
    }
    even
}

// ---------------------------------------------------------------------------
// Trailing wildcards
// ---------------------------------------------------------------------------

/// A character as a regular expression that matches it.
pub open spec fn regex_char(c: char) -> Seq<char> {
    if alphanumeric(c) || c == '_' {
        seq![c]
    } else {
        seq!['\\', c]
    }
}

/// The first `n` characters of a text as a regular expression.
pub open spec fn regex_text(s: Seq<char>, n: int) -> Seq<char>
    decreases n,
{
    if n <= 0 {
        seq![]
    } else {
        regex_text(s, n - 1) + regex_char(s[n - 1])
    }
}

/// The regular expression that a prefix starts.
pub open spec fn prefix_regex(s: Seq<char>) -> Seq<char> {
    regex_text(s, s.len() as int) + ".*"@
}

/// Escapes a wildcard prefix for embedding in a `/.../` regex, appending `.*`
/// so the prefix matches literally (case-insensitively via the caller's `(?i)`
/// flag).
pub fn regex_escaped_prefix(prefix: &str) -> (r: String)
    ensures
        r@ == prefix_regex(prefix@),
{
    let s = chars_of(prefix);
    let mut out = String::new();
    let mut i: usize = 0;
    assert(out@ =~= seq![]);
    while i < s.len()
        invariant
            s@ == prefix@,
            i <= s@.len(),
            out@ == regex_text(s@, i as int),
        decreases s@.len() - i,
    {
        let c = s[i];
        let ghost before = out@;
        if !(is_alphanumeric(c) || c == '_') {
            out.push('\\');
            out.push(c);
            assert(out@ =~= before + seq!['\\', c]);
        } else {
            out.push(c);
            assert(out@ =~= before + seq![c]);
        }
        i += 1;
    }
    out.append(".*");
    out
}

/// The end of the modifiers and opening parentheses that a token starts with.
pub open spec fn lead_end(s: Seq<char>, i: int) -> int
    decreases s.len() - i,
{
    if i < s.len() && (s[i] == '+' || s[i] == '-' || s[i] == '(') {
        lead_end(s, i + 1)
    } else {
        i
    }
}

/// The start of the closing parentheses that end the first `n` characters.
pub open spec fn trail_start(s: Seq<char>, n: int) -> int
    decreases n,
{
    if n > 0 && s[n - 1] == ')' {
        trail_start(s, n - 1)
    } else {
        n
    }
}

/// A token's leading modifiers and parentheses, its core, and its trailing
/// parentheses.
pub open spec fn affixes(s: Seq<char>) -> (Seq<char>, Seq<char>, Seq<char>) {
    let a = lead_end(s, 0);
    let b = trail_start(s, s.len() as int);
    if a >= b {
        (s, seq![], seq![])
    } else {
        (s.take(a), s.subrange(a, b), s.skip(b))
    }
}

/// Splits a token into leading modifiers/parens, the core, and trailing
/// parens.
pub fn split_token_affixes(token: &str) -> (r: (String, String, String))
    ensures
        (r.0@, r.1@, r.2@) == affixes(token@),
{
    let s = chars_of(token);
    let n: usize = s.len();
    let mut a: usize = 0;
    while a < n && (s[a] == '+' || s[a] == '-' || s[a] == '(')
        invariant
            s@ == token@,
            n == s@.len(),
            a <= n,
            lead_end(s@, 0) == lead_end(s@, a as int),
        decreases n - a,
    {
        a += 1;
    }
    let mut b: usize = n;
    while b > 0 && s[b - 1] == ')'
        invariant
            s@ == token@,
            n == s@.len(),
            b <= n,
            trail_start(s@, n as int) == trail_start(s@, b as int),
        decreases b,
    {
        b -= 1;
    }
    if a >= b {
        let x = String::new();
        let y = String::new();
        assert(x@ =~= seq![]);
        assert(y@ =~= seq![]);
        return (token.to_owned(), x, y);
    }
    (text_between(&s, 0, a), text_between(&s, a, b), text_between(&s, b, n))
}

pub open spec fn is_operator_word(s: Seq<char>) -> bool {
    s == "AND"@ || s == "OR"@ || s == "NOT"@ || s == "and"@ || s == "or"@ || s == "not"@
}

/// The prefix of a token core that is a trailing wildcard: without a further
/// wildcard, and neither a regular expression nor an operator.
pub open spec fn wildcard_prefix(core: Seq<char>) -> Option<Seq<char>> {
    if core.len() > 1 && core.last() == '*' {
        let prefix = core.drop_last();
        if has_part(prefix, seq!['*']) || prefix[0] == '/' || is_operator_word(prefix) || prefix
            == "TO"@ || prefix == "to"@ {
            None
        } else {
            Some(prefix)
        }
    } else {
        None
    }
}

/// The field and the term of a wildcard prefix.
pub open spec fn prefix_parts(prefix: Seq<char>) -> (Option<Seq<char>>, Seq<char>) {
    match cut_once(prefix, ':') {
        Some((f, t)) => if f.len() > 0 && t.len() > 0 {
            (Some(f), t)
        } else {
            (None, prefix)
        },
        None => (None, prefix),
    }
}

/// One alternative for each field name.
pub open spec fn alternatives(names: Seq<Seq<char>>, regex: Seq<char>) -> Seq<Seq<char>> {
    names.map_values(|name: Seq<char>| name + ":"@ + regex)
}

/// A token with its trailing wildcard written out: `field:prefix*` becomes
/// `field:/(?i)prefix.*/`, and `prefix*` the same for any of the fields.
pub open spec fn expanded_token(token: Seq<char>, names: Seq<Seq<char>>) -> Seq<char> {
    let (lead, core, trail) = affixes(token);
    match wildcard_prefix(core) {
        None => token,
        Some(prefix) => {
            let (field, term) = prefix_parts(prefix);
            let regex = "/(?i)"@ + prefix_regex(term) + "/"@;
            if has_part(term, seq![':']) || has_part(term, seq!['/']) || has_part(
                term,
                seq!['"'],
            ) {
                token
            } else {
                match field {
                    Some(f) => lead + f + ":"@ + regex + trail,
                    None => if names.len() == 0 {
                        token
                    } else {
                        lead + "("@ + joined(alternatives(names, regex), " OR "@) + ")"@ + trail
                    },
                }
            }
        },
    }
}

fn holds_char(text: &str, c: char) -> (r: bool)
    ensures
        r == has_part(text@, seq![c]),
{
    let mut one = String::new();
    one.push(c);
    assert(one@ =~= seq![c]);
    contains_text(text, one.as_str())
}

fn read_wildcard_prefix(core: &str) -> (r: Option<String>)
    ensures
        opt_text(r) == wildcard_prefix(core@),
{
    let s = chars_of(core);
    let n: usize = s.len();
    if n <= 1 || s[n - 1] != '*' {
        return None;
    }
    let prefix = text_between(&s, 0, n - 1);
    assert(prefix@ =~= core@.drop_last());
    let p = prefix.as_str();
    if holds_char(p, '*') || s[0] == '/' || same_text(p, "AND") || same_text(p, "OR") || same_text(
        p,
        "NOT",
    ) || same_text(p, "and") || same_text(p, "or") || same_text(p, "not") || same_text(p, "TO")
        || same_text(p, "to") {
        return None;
    }
    Some(prefix)
}

/// Expands a single unquoted token's trailing wildcard, if present. Returns
/// the token unchanged when it has no trailing `*`, is a bare `*`, an
/// operator, or regex syntax.
pub fn expand_token_wildcard(token: &str, field_names: &Vec<String>) -> (r: String)
    ensures
        r@ == expanded_token(token@, texts(field_names@)),
{
    broadcast use lemma_texts_push;

    let (lead, core, trail) = split_token_affixes(token);
    let prefix = match read_wildcard_prefix(core.as_str()) {
        Some(prefix) => prefix,
        None => {
            return token.to_owned();
        },
    };
    let (field, term) = match split_once(prefix.as_str(), ':') {
        Some((f, t)) => {
            if !f.as_str().is_empty() && !t.as_str().is_empty() {
                (Some(f), t)
            } else {
                (None, prefix.clone())
            }
        },
        None => (None, prefix.clone()),
    };
    if holds_char(term.as_str(), ':') || holds_char(term.as_str(), '/') || holds_char(
        term.as_str(),
        '"',
    ) {
        return token.to_owned();
    }
    let regex = cat3("/(?i)", regex_escaped_prefix(term.as_str()).as_str(), "/");
    match field {
        Some(f) => cat5(lead.as_str(), f.as_str(), ":", regex.as_str(), trail.as_str()),
        None => {
            if field_names.len() == 0 {
                return token.to_owned();
            }
            let ghost all = alternatives(texts(field_names@), regex@);
            let mut parts: Vec<String> = Vec::new();
            let mut i: usize = 0;
            assert(texts(parts@) =~= all.take(0));
            while i < field_names.len()
                invariant
                    all == alternatives(texts(field_names@), regex@),
                    i <= field_names@.len(),
                    texts(parts@) == all.take(i as int),
                decreases field_names@.len() - i,
            {
                let ghost before = texts(parts@);
                let part = cat3(field_names[i].as_str(), ":", regex.as_str());
                parts.push(part);
                assert(texts(parts@) == before.push(part@));
                assert(all[i as int] == part@);
                i += 1;
                assert(texts(parts@) =~= all.take(i as int));
            }
            assert(all.take(all.len() as int) =~= all);
            cat5(lead.as_str(), "(", join_texts(&parts, " OR ").as_str(), ")", trail.as_str())
        },
    }
}

/// The tokens of a list with their wildcards written out.
pub open spec fn expanded_tokens(tokens: Seq<Seq<char>>, names: Seq<Seq<char>>) -> Seq<Seq<char>> {
    tokens.map_values(|t: Seq<char>| expanded_token(t, names))
}

/// An unquoted part of a query with its wildcards written out: the tokens stand
/// one blank apart, and the whitespace at the two ends stays.
pub open spec fn expanded_segment(s: Seq<char>, names: Seq<Seq<char>>) -> Seq<char> {
    let a = next_word(s, 0);
    let b = last_word_end(s, s.len() as int);
    if a >= b {
        s
    } else {
        s.take(a) + joined(expanded_tokens(words(s.subrange(a, b)), names), " "@) + s.skip(b)
    }
}

/// Expands trailing-wildcard tokens in an unquoted query segment, preserving
/// leading and trailing whitespace.
pub fn expand_unquoted_wildcards(segment: &str, field_names: &Vec<String>) -> (r: String)
    ensures
        r@ == expanded_segment(segment@, texts(field_names@)),
{
    broadcast use lemma_texts_push;

    let s = chars_of(segment);
    let a = find_word(&s, 0);
    let b = find_word_end(&s);
    if a >= b {
        return segment.to_owned();
    }
    let core = text_between(&s, a, b);
    let tokens = split_words(core.as_str());
    let ghost names = texts(field_names@);
    let ghost all = expanded_tokens(texts(tokens@), names);
    let mut parts: Vec<String> = Vec::new();
    let mut i: usize = 0;
    assert(texts(parts@) =~= all.take(0));
    while i < tokens.len()
        invariant
            names == texts(field_names@),
            all == expanded_tokens(texts(tokens@), names),
            i <= tokens@.len(),
            texts(parts@) == all.take(i as int),
        decreases tokens@.len() - i,
    {
        let ghost before = texts(parts@);
        let part = expand_token_wildcard(tokens[i].as_str(), field_names);
        parts.push(part);
        assert(texts(parts@) == before.push(part@));
        assert(all[i as int] == part@);
        i += 1;
        assert(texts(parts@) =~= all.take(i as int));
    }
    assert(all.take(all.len() as int) =~= all);
    cat3(
        text_between(&s, 0, a).as_str(),
        join_texts(&parts, " ").as_str(),
        text_between(&s, b, s.len()).as_str(),
    )
}

/// The first `n` parts of a query between quotes, those outside of quotes with
/// their wildcards written out, the others in their quotes.
pub open spec fn expanded_parts(parts: Seq<Seq<char>>, n: int, names: Seq<Seq<char>>) -> Seq<char>
    decreases n,
{
    if n <= 0 {
        seq![]
    } else {
        expanded_parts(parts, n - 1, names) + (if (n - 1) % 2 == 0 {
            expanded_segment(parts[n - 1], names)
        } else {
            "\""@ + parts[n - 1] + "\""@
        })
    }
}

/// A Lucene query with its trailing wildcards written out.
pub open spec fn expanded_query(text: Seq<char>, names: Seq<Seq<char>>) -> Seq<char> {
    let parts = pieces(text, '"');
    expanded_parts(parts, parts.len() as int, names)
}

/// Expands trailing-wildcard terms (`prefix*`) into explicit case-insensitive
/// regex queries: the engine's parser strips a trailing `*`, while a full
/// (Lucene) query treats `prefix*` as a prefix wildcard. A field-scoped
/// `field:prefix*` becomes `field:/(?i)prefix.*/`; a bare `prefix*` becomes a
/// disjunction over all in-scope fields. Quoted phrases are left untouched (a
/// `*` inside quotes is literal).
pub fn expand_trailing_wildcards(text: &str, field_names: &Vec<String>) -> (r: String)
    ensures
        r@ == expanded_query(text@, texts(field_names@)),
{
    let parts = split_on(text, '"');
    let ghost all = texts(parts@);
    let ghost names = texts(field_names@);
    let mut out = String::new();
    let mut i: usize = 0;
    assert(out@ =~= seq![]);
    while i < parts.len()
        invariant
            all == texts(parts@),
            names == texts(field_names@),
            i <= parts@.len(),
            out@ == expanded_parts(all, i as int, names),
        decreases parts@.len() - i,
    {
        assert(all[i as int] == parts@[i as int]@);
        let part = if i % 2 == 0 {
            expand_unquoted_wildcards(parts[i].as_str(), field_names)
        } else {
            cat3("\"", parts[i].as_str(), "\"")
        };
        out.append(part.as_str());
        i += 1;
    }
    out
}

/// What the engine's parser is handed for a Lucene query: nothing for a query
/// that matches everything.
pub open spec fn parser_text(text: Seq<char>, names: Seq<Seq<char>>) -> Result<
    Option<Seq<char>>,
    QueryErrorV,
> {
    let s = trim(text);
    if s.len() == 0 || s == "*"@ {
        Ok(None)
    } else if quote_count(s, 0) % 2 != 0 {
        Err(QueryErrorV::InvalidQuery("Unterminated quoted phrase in search text."@))
    } else {
        Ok(Some(expanded_query(s, names)))
    }
}

/// Prepares a `queryType=full` (Lucene) search text for the engine's parser. An
/// empty text or `*` matches all documents, and needs no parsing. The parser
/// auto-closes an unterminated quote, so one is refused here.
pub fn lucene_parser_text(text: &str, field_names: &Vec<String>) -> (r: Result<
    Option<String>,
    QueryError,
>)
    ensures
        match r {
            Ok(o) => parser_text(text@, texts(field_names@)) == Ok::<_, QueryErrorV>(opt_text(o)),
            Err(e) => parser_text(text@, texts(field_names@)) == Err::<Option<Seq<char>>, _>(e@),
        },
{
    let t = trimmed(text);
    if t.as_str().is_empty() || same_text(t.as_str(), "*") {
        return Ok(None);
    }
    if !quotes_balanced(t.as_str()) {
        return Err(
            QueryError::InvalidQuery("Unterminated quoted phrase in search text.".to_owned()),
        );
    }
    Ok(Some(expand_trailing_wildcards(t.as_str(), field_names)))
}

// ---------------------------------------------------------------------------
// Query terms
// ---------------------------------------------------------------------------

pub open spec fn separates_terms(c: char) -> bool {
    is_space(c) || c == '"'
}

/// The first place at or after `i` that separates terms, or the length.
pub open spec fn next_separator(s: Seq<char>, i: int) -> int
    decreases s.len() - i,
{
    if i >= s.len() {
        s.len() as int
    } else if separates_terms(s[i]) {
        i
    } else {
        next_separator(s, i + 1)
    }
}

pub open spec fn is_sign(c: char) -> bool {
    c == '+' || c == '-'
}

pub open spec fn is_bracket(c: char) -> bool {
    c == '[' || c == ']' || c == '{' || c == '}'
}

pub open spec fn ends_term(c: char) -> bool {
    c == '^' || c == '~' || c == '*'
}

/// The place behind the signs that a text starts with.
pub open spec fn signs_end(s: Seq<char>, i: int) -> int
    decreases s.len() - i,
{
    if i < s.len() && is_sign(s[i]) {
        signs_end(s, i + 1)
    } else {
        i
    }
}

/// The first place at or after `i` of a boost, fuzzy suffix or wildcard, or the
/// length.
pub open spec fn term_end(s: Seq<char>, i: int) -> int
    decreases s.len() - i,
{
    if i >= s.len() || ends_term(s[i]) {
        i
    } else {
        term_end(s, i + 1)
    }
}

/// The place behind the brackets from `i` on, before `n`.
pub open spec fn brackets_end(s: Seq<char>, i: int, n: int) -> int
    decreases n - i,
{
    if i < n && is_bracket(s[i]) {
        brackets_end(s, i + 1, n)
    } else {
        i
    }
}

/// The place where the brackets start that end at `n`, behind `a`.
pub open spec fn brackets_start(s: Seq<char>, a: int, n: int) -> int
    decreases n - a,
{
    if n > a && is_bracket(s[n - 1]) {
        brackets_start(s, a, n - 1)
    } else {
        n
    }
}

/// The candidate term of a token: without a field prefix, signs, a boost, a
/// fuzzy suffix, a wildcard, and range brackets.
pub open spec fn bare_term(token: Seq<char>) -> Seq<char> {
    let s = match cut_once(token, ':') {
        Some((field, rest)) => if field.len() > 0 {
            rest
        } else {
            token
        },
        None => token,
    };
    let a = signs_end(s, 0);
    let b = term_end(s, a);
    let c = brackets_end(s, a, b);
    let d = brackets_start(s, c, b);
    s.subrange(c, d)
}

/// Whether a word is no term: a boolean operator, or what separates the bounds of
/// a range.
pub open spec fn is_no_term(s: Seq<char>) -> bool {
    is_operator_word(s) || s == "TO"@
}

/// The candidate terms from a place on, behind those in `done`.
pub open spec fn terms_from(s: Seq<char>, i: int, done: Seq<Seq<char>>) -> Seq<Seq<char>>
    decreases left(s.len(), i),
{
    if i >= s.len() {
        done
    } else if separates_terms(s[i]) {
        terms_from(s, i + 1, done)
    } else {
        let j = past(i, next_separator(s, i));
        let term = bare_term(s.subrange(i, j));
        if term.len() == 0 || is_no_term(term) {
            terms_from(s, j, done)
        } else {
            terms_from(s, j, done.push(term))
        }
    }
}

fn read_bare_term(token: &str) -> (r: String)
    ensures
        r@ == bare_term(token@),
{
    let rest = match split_once(token, ':') {
        Some((field, rest)) => {
            if !field.as_str().is_empty() {
                rest
            } else {
                token.to_owned()
            }
        },
        None => token.to_owned(),
    };
    let s = chars_of(rest.as_str());
    let n: usize = s.len();
    let mut a: usize = 0;
    while a < n && (s[a] == '+' || s[a] == '-')
        invariant
            n == s@.len(),
            a <= n,
            signs_end(s@, 0) == signs_end(s@, a as int),
        decreases n - a,
    {
        a += 1;
    }
    let mut b: usize = a;
    while b < n && s[b] != '^' && s[b] != '~' && s[b] != '*'
        invariant
            n == s@.len(),
            a <= b <= n,
            term_end(s@, a as int) == term_end(s@, b as int),
        decreases n - b,
    {
        b += 1;
    }
    let mut c: usize = a;
    while c < b && (s[c] == '[' || s[c] == ']' || s[c] == '{' || s[c] == '}')
        invariant
            n == s@.len(),
            a <= c <= b <= n,
            brackets_end(s@, a as int, b as int) == brackets_end(s@, c as int, b as int),
        decreases b - c,
    {
        c += 1;
    }
    let mut d: usize = b;
    while d > c && (s[d - 1] == '[' || s[d - 1] == ']' || s[d - 1] == '{' || s[d - 1] == '}')
        invariant
            n == s@.len(),
            c <= d <= b <= n,
            brackets_start(s@, c as int, b as int) == brackets_start(s@, c as int, d as int),
        decreases d,
    {
        d -= 1;
    }
    text_between(&s, c, d)
}

/// Extracts the candidate search terms from a Lucene query text, for
/// highlight matching: whitespace- and quote-separated tokens with field
/// prefixes (`field:`), boolean operators, boosts (`^N`), fuzzy suffixes
/// (`~N`), wildcards, and range brackets stripped. The terms are analyzed
/// per field at highlight time, so this is an approximation (e.g. range
/// bounds and wildcard stems are kept).
pub fn lucene_query_terms(text: &str) -> (r: Vec<String>)
    ensures
        texts(r@) == terms_from(text@, 0, seq![]),
{
    broadcast use lemma_texts_push;

    let s = chars_of(text);
    let n: usize = s.len();
    let mut out: Vec<String> = Vec::new();
    let mut i: usize = 0;
    assert(texts(out@) =~= seq![]);
    while i < n
        invariant
            s@ == text@,
            n == s@.len(),
            i <= n,
            terms_from(text@, 0, seq![]) == terms_from(s@, i as int, texts(out@)),
        decreases n - i,
    {
        if space(s[i]) || s[i] == '"' {
            i += 1;
            continue ;
        }
        let mut j: usize = i;
        while j < n && !space(s[j]) && s[j] != '"'
            invariant
                n == s@.len(),
                i <= j <= n,
                next_separator(s@, i as int) == next_separator(s@, j as int),
                j == i ==> i < n && !separates_terms(s@[i as int]),
            decreases n - j,
        {
            j += 1;
        }
        let token = text_between(&s, i, j);
        let term = read_bare_term(token.as_str());
        let t = term.as_str();
        if !(t.is_empty() || same_text(t, "AND") || same_text(t, "OR") || same_text(t, "NOT")
            || same_text(t, "and") || same_text(t, "or") || same_text(t, "not") || same_text(
            t,
            "TO",
        )) {
            let ghost before = texts(out@);
            out.push(term);
            assert(texts(out@) == before.push(term@));
        }
        i = j;
    }
    out
}

/// No candidate term is empty, an operator, or the `TO` of a range.
pub proof fn law_terms_are_no_operators(s: Seq<char>, i: int, done: Seq<Seq<char>>, k: int)
    requires
        0 <= k < terms_from(s, i, done).len(),
        forall|j: int|
            0 <= j < done.len() ==> (#[trigger] done[j]).len() > 0 && !is_no_term(done[j]),
    ensures
        terms_from(s, i, done)[k].len() > 0,
        !is_no_term(terms_from(s, i, done)[k]),
    decreases left(s.len(), i),
{
    if i < s.len() {
        if separates_terms(s[i]) {
            law_terms_are_no_operators(s, i + 1, done, k);
        } else {
            let j = past(i, next_separator(s, i));
            let term = bare_term(s.subrange(i, j));
            if term.len() == 0 || is_no_term(term) {
                law_terms_are_no_operators(s, j, done, k);
            } else {
                law_terms_are_no_operators(s, j, done.push(term), k);
            }
        }
    }
}

/// A token without a wildcard is left as it is.
pub proof fn law_plain_token_is_kept(token: Seq<char>, names: Seq<Seq<char>>)
    requires
        forall|i: int| 0 <= i < token.len() ==> #[trigger] token[i] != '*',
    ensures
        expanded_token(token, names) == token,
{
    let (lead, core, trail) = affixes(token);
    lemma_lead_end(token, 0);
    lemma_trail_start(token, token.len() as int);
    if core.len() > 1 {
        let a = lead_end(token, 0);
        let b = trail_start(token, token.len() as int);
        assert(core.last() == token[b - 1]);
    }
}

proof fn lemma_lead_end(s: Seq<char>, i: int)
    requires
        0 <= i <= s.len(),
    ensures
        i <= lead_end(s, i) <= s.len(),
    decreases s.len() - i,
{
    if i < s.len() {
        lemma_lead_end(s, i + 1);
    }
}

proof fn lemma_trail_start(s: Seq<char>, n: int)
    requires
        0 <= n <= s.len(),
    ensures
        0 <= trail_start(s, n) <= n,
    decreases n,
{
    if n > 0 {
        lemma_trail_start(s, n - 1);
    }
}

} // verus!
