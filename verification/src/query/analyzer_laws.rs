//! What analyzers make of texts.
use crate::filter::token::{left, past};
use crate::query::analyzers::{
    AnalyzeTokenV, analysis, at_punctuation, bigrams, cjk_from, cjk_run_end, is_cjk, language_of,
    lowered, lowered_list, lowered_tokens, other_run_end, pipeline_of, run_end, run_token,
    split_from, split_text, stem, stemmed_list, stemmed_tokens, stopword, terms_of,
    tokenizer_name,
};
use crate::query::lucene::alphanumeric;
use crate::text::{is_space, utf8_len};
use vstd::prelude::*;

verus! {

// ---------------------------------------------------------------------------
// Words
// ---------------------------------------------------------------------------

/// Whether a part of a text stands between two places: no character that the text is
/// split at is in it, and such a character or an end of the text is on both its sides.
pub open spec fn is_part(s: Seq<char>, splits: spec_fn(char) -> bool, a: int, b: int) -> bool {
    &&& 0 <= a < b <= s.len()
    &&& forall|k: int| a <= k < b ==> !splits(#[trigger] s[k])
    &&& a > 0 ==> splits(s[a - 1])
    &&& b < s.len() ==> splits(s[b])
}

proof fn lemma_part_end(s: Seq<char>, splits: spec_fn(char) -> bool, i: int)
    requires
        0 <= i <= s.len(),
    ensures
        i <= run_end(s, splits, i) <= s.len(),
        i < s.len() && !splits(s[i]) ==> i < run_end(s, splits, i),
        forall|k: int| i <= k < run_end(s, splits, i) ==> !splits(#[trigger] s[k]),
        run_end(s, splits, i) < s.len() ==> splits(s[run_end(s, splits, i)]),
    decreases s.len() - i,
{
    if i < s.len() && !splits(s[i]) {
        lemma_part_end(s, splits, i + 1);
    }
}

proof fn lemma_split_keeps(
    s: Seq<char>,
    splits: spec_fn(char) -> bool,
    i: int,
    done: Seq<AnalyzeTokenV>,
    k: int,
)
    requires
        0 <= i,
        0 <= k < done.len(),
    ensures
        k < split_from(s, splits, i, done).len(),
        split_from(s, splits, i, done)[k] == done[k],
    decreases left(s.len(), i),
{
    if i < s.len() {
        if splits(s[i]) {
            lemma_split_keeps(s, splits, i + 1, done, k);
        } else {
            let j = past(i, run_end(s, splits, i));
            lemma_split_keeps(
                s,
                splits,
                j,
                done.push(run_token(s, i, j, done.len() as int)),
                k,
            );
        }
    }
}

proof fn lemma_every_part(
    s: Seq<char>,
    splits: spec_fn(char) -> bool,
    i: int,
    done: Seq<AnalyzeTokenV>,
    a: int,
    b: int,
) -> (k: int)
    requires
        0 <= i <= a,
        is_part(s, splits, a, b),
    ensures
        0 <= k < split_from(s, splits, i, done).len(),
        split_from(s, splits, i, done)[k] == run_token(s, a, b, k),
    decreases left(s.len(), i),
{
    if splits(s[i]) {
        assert(i != a);
        lemma_every_part(s, splits, i + 1, done, a, b)
    } else {
        lemma_part_end(s, splits, i);
        let j = run_end(s, splits, i);
        let token = run_token(s, i, j, done.len() as int);
        if i == a {
            if b < j {
                assert(!splits(s[b]));
            }
            if j < b {
                assert(splits(s[j]));
            }
            assert(j == b);
            lemma_split_keeps(s, splits, j, done.push(token), done.len() as int);
            done.len() as int
        } else {
            if a < j {
                assert(!splits(s[a - 1]));
            }
            lemma_every_part(s, splits, j, done.push(token), a, b)
        }
    }
}

/// Whether each token is a part of a text, by its place.
pub open spec fn are_parts(
    tokens: Seq<AnalyzeTokenV>,
    s: Seq<char>,
    splits: spec_fn(char) -> bool,
) -> bool {
    forall|k: int| 0 <= k < tokens.len() ==> one_part(#[trigger] tokens[k], s, splits, k)
}

/// Whether a token at a position is a part of a text.
pub open spec fn one_part(
    t: AnalyzeTokenV,
    s: Seq<char>,
    splits: spec_fn(char) -> bool,
    k: int,
) -> bool {
    exists|a: int, b: int| #[trigger] is_part(s, splits, a, b) && t == run_token(s, a, b, k)
}

proof fn lemma_only_parts(
    s: Seq<char>,
    splits: spec_fn(char) -> bool,
    i: int,
    done: Seq<AnalyzeTokenV>,
)
    requires
        0 <= i,
        i == 0 || i >= s.len() || splits(s[i - 1]) || splits(s[i]),
        are_parts(done, s, splits),
    ensures
        are_parts(split_from(s, splits, i, done), s, splits),
    decreases left(s.len(), i),
{
    if i < s.len() {
        if splits(s[i]) {
            lemma_only_parts(s, splits, i + 1, done);
        } else {
            lemma_part_end(s, splits, i);
            let j = run_end(s, splits, i);
            let token = run_token(s, i, j, done.len() as int);
            assert(is_part(s, splits, i, j));
            assert(one_part(token, s, splits, done.len() as int));
            lemma_only_parts(s, splits, j, done.push(token));
        }
    }
}

/// A text is split into its parts: each of them is a token, and each token is one.
pub proof fn law_every_part_is_a_token(
    s: Seq<char>,
    splits: spec_fn(char) -> bool,
    a: int,
    b: int,
    k: int,
)
    ensures
        is_part(s, splits, a, b) ==> exists|m: int|
            0 <= m < split_text(s, splits).len() && #[trigger] split_text(s, splits)[m]
                == run_token(s, a, b, m),
        0 <= k < split_text(s, splits).len() ==> one_part(split_text(s, splits)[k], s, splits, k),
{
    if is_part(s, splits, a, b) {
        let m = lemma_every_part(s, splits, 0, seq![], a, b);
        assert(split_text(s, splits)[m] == run_token(s, a, b, m));
    }
    lemma_only_parts(s, splits, 0, seq![]);
}

// ---------------------------------------------------------------------------
// Filters
// ---------------------------------------------------------------------------

/// One more token is one more token in lowercase, at its place, if it has fewer than
/// `limit` bytes; otherwise it is left out.
pub proof fn law_lowered_tokens(tokens: Seq<AnalyzeTokenV>, t: AnalyzeTokenV, limit: usize)
    ensures
        lowered_tokens(seq![], limit) == Seq::<AnalyzeTokenV>::empty(),
        lowered_tokens(tokens.push(t), limit) == (if utf8_len(t.token) < limit {
            lowered_tokens(tokens, limit).push(
                AnalyzeTokenV {
                    token: lowered(t.token),
                    start_offset: t.start_offset,
                    end_offset: t.end_offset,
                    position: t.position,
                },
            )
        } else {
            lowered_tokens(tokens, limit)
        }),
{
    lemma_lowered_prefix(tokens, tokens.push(t), tokens.len() as int, limit);
}

proof fn lemma_lowered_prefix(
    a: Seq<AnalyzeTokenV>,
    b: Seq<AnalyzeTokenV>,
    n: int,
    limit: usize,
)
    requires
        n <= a.len(),
        n <= b.len(),
        forall|i: int| 0 <= i < n ==> #[trigger] a[i] == b[i],
    ensures
        lowered_list(a, n, limit) == lowered_list(b, n, limit),
    decreases n,
{
    if n > 0 {
        assert(a[n - 1] == b[n - 1]);
        lemma_lowered_prefix(a, b, n - 1, limit);
    }
}

/// One more token is one more stem, at its place, unless it is a stopword of the
/// language; then it is left out.
pub proof fn law_stemmed_tokens(
    tokens: Seq<AnalyzeTokenV>,
    t: AnalyzeTokenV,
    language: Seq<char>,
)
    ensures
        stemmed_tokens(seq![], language) == Seq::<AnalyzeTokenV>::empty(),
        stemmed_tokens(tokens.push(t), language) == (if stopword(t.token, language) == Some(true) {
            stemmed_tokens(tokens, language)
        } else {
            stemmed_tokens(tokens, language).push(
                AnalyzeTokenV {
                    token: stem(t.token, language),
                    start_offset: t.start_offset,
                    end_offset: t.end_offset,
                    position: t.position,
                },
            )
        }),
{
    lemma_stemmed_prefix(tokens, tokens.push(t), tokens.len() as int, language);
}

proof fn lemma_stemmed_prefix(
    a: Seq<AnalyzeTokenV>,
    b: Seq<AnalyzeTokenV>,
    n: int,
    language: Seq<char>,
)
    requires
        n <= a.len(),
        n <= b.len(),
        forall|i: int| 0 <= i < n ==> #[trigger] a[i] == b[i],
    ensures
        stemmed_list(a, n, language) == stemmed_list(b, n, language),
    decreases n,
{
    if n > 0 {
        assert(a[n - 1] == b[n - 1]);
        lemma_stemmed_prefix(a, b, n - 1, language);
    }
}

/// Whether a term is the text of one of some tokens.
pub open spec fn has_text(tokens: Seq<AnalyzeTokenV>, term: Seq<char>) -> bool {
    exists|k: int| 0 <= k < tokens.len() && (#[trigger] tokens[k]).token == term
}

/// Whether a term is a token of fewer than `limit` bytes in lowercase.
pub open spec fn has_lowered(tokens: Seq<AnalyzeTokenV>, term: Seq<char>, limit: usize) -> bool {
    exists|k: int|
        0 <= k < tokens.len() && utf8_len((#[trigger] tokens[k]).token) < limit && lowered(
            tokens[k].token,
        ) == term
}

proof fn lemma_pushed(tokens: Seq<AnalyzeTokenV>, t: AnalyzeTokenV, term: Seq<char>)
    ensures
        has_text(tokens.push(t), term) == (has_text(tokens, term) || t.token == term),
{
    let all = tokens.push(t);
    assert(all[tokens.len() as int] == t);
    if has_text(tokens, term) {
        let k = choose|k: int| 0 <= k < tokens.len() && (#[trigger] tokens[k]).token == term;
        assert(all[k].token == term);
    }
    if has_text(all, term) {
        let k = choose|k: int| 0 <= k < all.len() && (#[trigger] all[k]).token == term;
        if k < tokens.len() {
            assert(tokens[k].token == term);
        }
    }
}

proof fn lemma_lowered_texts(tokens: Seq<AnalyzeTokenV>, limit: usize, term: Seq<char>)
    ensures
        has_text(lowered_tokens(tokens, limit), term) == has_lowered(tokens, term, limit),
    decreases tokens.len(),
{
    if tokens.len() > 0 {
        let rest = tokens.drop_last();
        let t = tokens.last();
        assert(rest.push(t) =~= tokens);
        law_lowered_tokens(rest, t, limit);
        lemma_lowered_texts(rest, limit, term);
        let own = AnalyzeTokenV { token: lowered(t.token), ..t };
        lemma_pushed(lowered_tokens(rest, limit), own, term);
        assert(tokens[tokens.len() - 1] == t);
        if has_lowered(rest, term, limit) {
            let k = choose|k: int|
                0 <= k < rest.len() && utf8_len((#[trigger] rest[k]).token) < limit && lowered(
                    rest[k].token,
                ) == term;
            assert(tokens[k] == rest[k]);
        }
        if has_lowered(tokens, term, limit) {
            let k = choose|k: int|
                0 <= k < tokens.len() && utf8_len((#[trigger] tokens[k]).token) < limit
                    && lowered(tokens[k].token) == term;
            if k < rest.len() {
                assert(rest[k] == tokens[k]);
            }
        }
    }
}

/// Whether a term is the stem of a token that is no stopword.
pub open spec fn has_stem(tokens: Seq<AnalyzeTokenV>, term: Seq<char>, language: Seq<char>) -> bool {
    exists|k: int|
        0 <= k < tokens.len() && stopword((#[trigger] tokens[k]).token, language) != Some(true)
            && stem(tokens[k].token, language) == term
}

proof fn lemma_stemmed_texts(tokens: Seq<AnalyzeTokenV>, language: Seq<char>, term: Seq<char>)
    ensures
        has_text(stemmed_tokens(tokens, language), term) == has_stem(tokens, term, language),
    decreases tokens.len(),
{
    if tokens.len() > 0 {
        let rest = tokens.drop_last();
        let t = tokens.last();
        assert(rest.push(t) =~= tokens);
        law_stemmed_tokens(rest, t, language);
        lemma_stemmed_texts(rest, language, term);
        let own = AnalyzeTokenV { token: stem(t.token, language), ..t };
        lemma_pushed(stemmed_tokens(rest, language), own, term);
        assert(tokens[tokens.len() - 1] == t);
        if has_stem(rest, term, language) {
            let k = choose|k: int|
                0 <= k < rest.len() && stopword((#[trigger] rest[k]).token, language) != Some(true)
                    && stem(rest[k].token, language) == term;
            assert(tokens[k] == rest[k]);
        }
        if has_stem(tokens, term, language) {
            let k = choose|k: int|
                0 <= k < tokens.len() && stopword((#[trigger] tokens[k]).token, language) != Some(
                    true,
                ) && stem(tokens[k].token, language) == term;
            if k < rest.len() {
                assert(rest[k] == tokens[k]);
            }
        }
    }
}

// ---------------------------------------------------------------------------
// Analyzers
// ---------------------------------------------------------------------------

/// Whether a word stands in a text: a run of letters and numbers between what is
/// neither, or the ends of the text.
pub open spec fn is_word_at(s: Seq<char>, a: int, b: int) -> bool {
    &&& 0 <= a < b <= s.len()
    &&& forall|k: int| a <= k < b ==> alphanumeric(#[trigger] s[k])
    &&& a > 0 ==> !alphanumeric(s[a - 1])
    &&& b < s.len() ==> !alphanumeric(s[b])
}

proof fn lemma_words(s: Seq<char>, w: Seq<char>)
    ensures
        has_text(split_text(s, at_punctuation()), w) <==> exists|a: int, b: int| #[trigger]
            is_word_at(s, a, b) && s.subrange(a, b) == w,
{
    let splits = at_punctuation();
    let tokens = split_text(s, splits);
    if has_text(tokens, w) {
        let k = choose|k: int| 0 <= k < tokens.len() && (#[trigger] tokens[k]).token == w;
        law_every_part_is_a_token(s, splits, 0, 0, k);
        let (a, b) = choose|a: int, b: int| #[trigger]
            is_part(s, splits, a, b) && tokens[k] == run_token(s, a, b, k);
        assert(is_word_at(s, a, b));
    }
    if exists|a: int, b: int| #[trigger] is_word_at(s, a, b) && s.subrange(a, b) == w {
        let (a, b) = choose|a: int, b: int| #[trigger] is_word_at(s, a, b) && s.subrange(a, b) == w;
        assert(is_part(s, splits, a, b));
        law_every_part_is_a_token(s, splits, a, b, 0);
        let m = choose|m: int|
            0 <= m < split_text(s, splits).len() && #[trigger] split_text(s, splits)[m]
                == run_token(s, a, b, m);
        assert(tokens[m].token == w);
    }
}

proof fn lemma_terms(text: Seq<char>, analyzer: Option<Seq<char>>, term: Seq<char>)
    requires
        text.len() > 0,
    ensures
        terms_of(text, analyzer).contains(term) == has_text(analysis(text, analyzer), term),
{
    let tokens = analysis(text, analyzer);
    let list = terms_of(text, analyzer);
    if list.contains(term) {
        let k = choose|k: int| 0 <= k < list.len() && list[k] == term;
        assert(tokens[k].token == term);
    }
    if has_text(tokens, term) {
        let k = choose|k: int| 0 <= k < tokens.len() && (#[trigger] tokens[k]).token == term;
        assert(list[k] == term);
    }
}

proof fn lemma_lowered_words(text: Seq<char>, term: Seq<char>)
    ensures
        has_text(lowered_tokens(split_text(text, at_punctuation()), 40), term) <==> exists|
            a: int,
            b: int,
        | #[trigger]
            is_word_at(text, a, b) && utf8_len(text.subrange(a, b)) < 40 && lowered(
                text.subrange(a, b),
            ) == term,
{
    let tokens = split_text(text, at_punctuation());
    lemma_lowered_texts(tokens, 40, term);
    if has_lowered(tokens, term, 40) {
        let k = choose|k: int|
            0 <= k < tokens.len() && utf8_len((#[trigger] tokens[k]).token) < 40 && lowered(
                tokens[k].token,
            ) == term;
        let w = tokens[k].token;
        assert(has_text(tokens, w));
        lemma_words(text, w);
        let (a, b) = choose|a: int, b: int| #[trigger]
            is_word_at(text, a, b) && text.subrange(a, b) == w;
        assert(is_word_at(text, a, b));
    }
    if exists|a: int, b: int| #[trigger]
        is_word_at(text, a, b) && utf8_len(text.subrange(a, b)) < 40 && lowered(
            text.subrange(a, b),
        ) == term {
        let (a, b) = choose|a: int, b: int| #[trigger]
            is_word_at(text, a, b) && utf8_len(text.subrange(a, b)) < 40 && lowered(
                text.subrange(a, b),
            ) == term;
        let w = text.subrange(a, b);
        lemma_words(text, w);
        assert(has_text(tokens, w));
        let k = choose|k: int| 0 <= k < tokens.len() && (#[trigger] tokens[k]).token == w;
        assert(utf8_len(tokens[k].token) < 40);
    }
}

proof fn lemma_plain_names()
    ensures
        pipeline_of(tokenizer_name(Some("alphanum"@))) is Alphanum,
        pipeline_of(tokenizer_name(Some("latin"@))) is Lowered,
        pipeline_of(tokenizer_name(None)) is Language,
        language_of(tokenizer_name(None)) == "English"@,
{
    reveal_strlit("keyword");
    reveal_strlit("whitespace");
    reveal_strlit("alphanum");
    reveal_strlit("latin");
    reveal_strlit("aisearch_en");
    reveal_strlit("aisearch_keyword");
    reveal_strlit("aisearch_whitespace");
    reveal_strlit("aisearch_alphanum");
    reveal_strlit("aisearch_latin");
    reveal_strlit("aisearch_thai");
    reveal_strlit("aisearch_vietnamese");
    reveal_strlit("aisearch_ngram");
    reveal_strlit("aisearch_edge_ngram");
    reveal_strlit("aisearch_cjk");
    reveal_strlit("aisearch_ar");
    reveal_strlit("aisearch_da");
    reveal_strlit("aisearch_de");
    reveal_strlit("aisearch_el");
    reveal_strlit("aisearch_es");
    reveal_strlit("aisearch_fi");
    reveal_strlit("aisearch_fr");
    reveal_strlit("aisearch_hu");
    reveal_strlit("aisearch_it");
    reveal_strlit("aisearch_nl");
    reveal_strlit("aisearch_no");
    reveal_strlit("aisearch_pt");
    reveal_strlit("aisearch_ro");
    reveal_strlit("aisearch_ru");
    reveal_strlit("aisearch_sv");
    reveal_strlit("aisearch_tr");
    let en = "aisearch_en"@;
    assert(en[9] == 'e' && en[10] == 'n');
    assert("aisearch_el"@[10] == 'l' && "aisearch_es"@[10] == 's');
    assert("aisearch_ar"@[9] == 'a' && "aisearch_da"@[9] == 'd' && "aisearch_de"@[9] == 'd');
    assert("aisearch_fi"@[9] == 'f' && "aisearch_fr"@[9] == 'f' && "aisearch_hu"@[9] == 'h');
    assert("aisearch_it"@[9] == 'i' && "aisearch_nl"@[9] == 'n' && "aisearch_no"@[9] == 'n');
    assert("aisearch_pt"@[9] == 'p' && "aisearch_ro"@[9] == 'r' && "aisearch_ru"@[9] == 'r');
    assert("aisearch_sv"@[9] == 's' && "aisearch_tr"@[9] == 't');
    assert("alphanum"@.len() == 8 && "keyword"@.len() == 7 && "whitespace"@.len() == 10);
    assert("latin"@.len() == 5);
    assert("aisearch_keyword"@.len() == 16 && "aisearch_whitespace"@.len() == 19);
    assert("aisearch_alphanum"@.len() == 17 && "aisearch_latin"@.len() == 14);
    assert("aisearch_thai"@.len() == 13 && "aisearch_vietnamese"@.len() == 19);
    assert("aisearch_ngram"@.len() == 14 && "aisearch_edge_ngram"@.len() == 19);
    assert("aisearch_cjk"@.len() == 12 && "aisearch_en"@.len() == 11);
}

/// The terms of a text are those of its words, of each of them, and no others: the words
/// as they are, in lowercase, or, where no analyzer is named, the English stems of those
/// in lowercase that are no English stopwords. Words of 40 bytes or more are left out,
/// but where words stay as they are.
pub proof fn law_terms_are_those_of_words(text: Seq<char>, term: Seq<char>)
    requires
        text.len() > 0,
    ensures
        terms_of(text, Some("alphanum"@)).contains(term) <==> exists|a: int, b: int| #[trigger]
            is_word_at(text, a, b) && text.subrange(a, b) == term,
        terms_of(text, Some("latin"@)).contains(term) <==> exists|a: int, b: int| #[trigger]
            is_word_at(text, a, b) && utf8_len(text.subrange(a, b)) < 40 && lowered(
                text.subrange(a, b),
            ) == term,
        terms_of(text, None).contains(term) <==> exists|a: int, b: int| #[trigger]
            is_word_at(text, a, b) && utf8_len(text.subrange(a, b)) < 40 && stopword(
                lowered(text.subrange(a, b)),
                "English"@,
            ) != Some(true) && stem(lowered(text.subrange(a, b)), "English"@) == term,
{
    lemma_plain_names();
    lemma_terms(text, Some("alphanum"@), term);
    lemma_terms(text, Some("latin"@), term);
    lemma_terms(text, None, term);
    lemma_words(text, term);
    lemma_lowered_words(text, term);
    let english = "English"@;
    let tokens = lowered_tokens(split_text(text, at_punctuation()), 40);
    lemma_stemmed_texts(tokens, english, term);
    if has_stem(tokens, term, english) {
        let k = choose|k: int|
            0 <= k < tokens.len() && stopword((#[trigger] tokens[k]).token, english) != Some(true)
                && stem(tokens[k].token, english) == term;
        let w = tokens[k].token;
        assert(has_text(tokens, w));
        lemma_lowered_words(text, w);
        let (a, b) = choose|a: int, b: int| #[trigger]
            is_word_at(text, a, b) && utf8_len(text.subrange(a, b)) < 40 && lowered(
                text.subrange(a, b),
            ) == w;
        assert(is_word_at(text, a, b));
    }
    if exists|a: int, b: int| #[trigger]
        is_word_at(text, a, b) && utf8_len(text.subrange(a, b)) < 40 && stopword(
            lowered(text.subrange(a, b)),
            english,
        ) != Some(true) && stem(lowered(text.subrange(a, b)), english) == term {
        let (a, b) = choose|a: int, b: int| #[trigger]
            is_word_at(text, a, b) && utf8_len(text.subrange(a, b)) < 40 && stopword(
                lowered(text.subrange(a, b)),
                english,
            ) != Some(true) && stem(lowered(text.subrange(a, b)), english) == term;
        let w = lowered(text.subrange(a, b));
        lemma_lowered_words(text, w);
        assert(has_text(tokens, w));
        let k = choose|k: int| 0 <= k < tokens.len() && (#[trigger] tokens[k]).token == w;
        assert(stopword(tokens[k].token, english) != Some(true));
    }
}

// ---------------------------------------------------------------------------
// Languages
// ---------------------------------------------------------------------------

/// Whether an analyzer is named after a language.
pub open spec fn names_language(name: Seq<char>, language: Seq<char>) -> bool {
    ||| name == "ar.microsoft"@ && language == "Arabic"@
    ||| name == "da.microsoft"@ && language == "Danish"@
    ||| name == "de.microsoft"@ && language == "German"@
    ||| name == "el.microsoft"@ && language == "Greek"@
    ||| name == "es.microsoft"@ && language == "Spanish"@
    ||| name == "fi.microsoft"@ && language == "Finnish"@
    ||| name == "fr.microsoft"@ && language == "French"@
    ||| name == "hu.microsoft"@ && language == "Hungarian"@
    ||| name == "it.microsoft"@ && language == "Italian"@
    ||| name == "nl.microsoft"@ && language == "Dutch"@
    ||| name == "no.microsoft"@ && language == "Norwegian"@
    ||| name == "pt.microsoft"@ && language == "Portuguese"@
    ||| name == "ro.microsoft"@ && language == "Romanian"@
    ||| name == "ru.microsoft"@ && language == "Russian"@
    ||| name == "sv.microsoft"@ && language == "Swedish"@
    ||| name == "tr.microsoft"@ && language == "Turkish"@
}

proof fn lemma_language(name: Seq<char>, language: Seq<char>)
    requires
        names_language(name, language),
    ensures
        pipeline_of(tokenizer_name(Some(name))) is Language,
        language_of(tokenizer_name(Some(name))) == language,
{
    reveal_strlit("ar.microsoft");
    reveal_strlit("aisearch_ar");
    reveal_strlit("da.microsoft");
    reveal_strlit("aisearch_da");
    reveal_strlit("de.microsoft");
    reveal_strlit("aisearch_de");
    reveal_strlit("el.microsoft");
    reveal_strlit("aisearch_el");
    reveal_strlit("es.microsoft");
    reveal_strlit("aisearch_es");
    reveal_strlit("fi.microsoft");
    reveal_strlit("aisearch_fi");
    reveal_strlit("fr.microsoft");
    reveal_strlit("aisearch_fr");
    reveal_strlit("hu.microsoft");
    reveal_strlit("aisearch_hu");
    reveal_strlit("it.microsoft");
    reveal_strlit("aisearch_it");
    reveal_strlit("nl.microsoft");
    reveal_strlit("aisearch_nl");
    reveal_strlit("no.microsoft");
    reveal_strlit("aisearch_no");
    reveal_strlit("pt.microsoft");
    reveal_strlit("aisearch_pt");
    reveal_strlit("ro.microsoft");
    reveal_strlit("aisearch_ro");
    reveal_strlit("ru.microsoft");
    reveal_strlit("aisearch_ru");
    reveal_strlit("sv.microsoft");
    reveal_strlit("aisearch_sv");
    reveal_strlit("tr.microsoft");
    reveal_strlit("aisearch_tr");
    reveal_strlit("keyword");
    reveal_strlit("whitespace");
    reveal_strlit("alphanum");
    reveal_strlit("latin");
    reveal_strlit("ngram");
    reveal_strlit("ngram.microsoft");
    reveal_strlit("ngram.lucene");
    reveal_strlit("edgeNgram");
    reveal_strlit("edgeNgram.microsoft");
    reveal_strlit("edgeNgram.lucene");
    reveal_strlit("chinese");
    reveal_strlit("japanese");
    reveal_strlit("korean");
    reveal_strlit("thai");
    reveal_strlit("vietnamese");
    reveal_strlit("aisearch_keyword");
    reveal_strlit("aisearch_whitespace");
    reveal_strlit("aisearch_alphanum");
    reveal_strlit("aisearch_latin");
    reveal_strlit("aisearch_thai");
    reveal_strlit("aisearch_vietnamese");
    reveal_strlit("aisearch_ngram");
    reveal_strlit("aisearch_edge_ngram");
    reveal_strlit("aisearch_cjk");
    assert("ar.microsoft"@[0] == 'a' && "ar.microsoft"@[1] == 'r'
        && "da.microsoft"@[0] == 'd' && "da.microsoft"@[1] == 'a'
        && "de.microsoft"@[0] == 'd' && "de.microsoft"@[1] == 'e'
        && "el.microsoft"@[0] == 'e' && "el.microsoft"@[1] == 'l'
        && "es.microsoft"@[0] == 'e' && "es.microsoft"@[1] == 's'
        && "fi.microsoft"@[0] == 'f' && "fi.microsoft"@[1] == 'i'
        && "fr.microsoft"@[0] == 'f' && "fr.microsoft"@[1] == 'r'
        && "hu.microsoft"@[0] == 'h' && "hu.microsoft"@[1] == 'u'
        && "it.microsoft"@[0] == 'i' && "it.microsoft"@[1] == 't'
        && "nl.microsoft"@[0] == 'n' && "nl.microsoft"@[1] == 'l'
        && "no.microsoft"@[0] == 'n' && "no.microsoft"@[1] == 'o'
        && "pt.microsoft"@[0] == 'p' && "pt.microsoft"@[1] == 't'
        && "ro.microsoft"@[0] == 'r' && "ro.microsoft"@[1] == 'o'
        && "ru.microsoft"@[0] == 'r' && "ru.microsoft"@[1] == 'u'
        && "sv.microsoft"@[0] == 's' && "sv.microsoft"@[1] == 'v'
        && "tr.microsoft"@[0] == 't' && "tr.microsoft"@[1] == 'r');
    assert("aisearch_ar"@[9] == 'a' && "aisearch_ar"@[10] == 'r'
        && "aisearch_da"@[9] == 'd' && "aisearch_da"@[10] == 'a'
        && "aisearch_de"@[9] == 'd' && "aisearch_de"@[10] == 'e'
        && "aisearch_el"@[9] == 'e' && "aisearch_el"@[10] == 'l'
        && "aisearch_es"@[9] == 'e' && "aisearch_es"@[10] == 's'
        && "aisearch_fi"@[9] == 'f' && "aisearch_fi"@[10] == 'i'
        && "aisearch_fr"@[9] == 'f' && "aisearch_fr"@[10] == 'r'
        && "aisearch_hu"@[9] == 'h' && "aisearch_hu"@[10] == 'u'
        && "aisearch_it"@[9] == 'i' && "aisearch_it"@[10] == 't'
        && "aisearch_nl"@[9] == 'n' && "aisearch_nl"@[10] == 'l'
        && "aisearch_no"@[9] == 'n' && "aisearch_no"@[10] == 'o'
        && "aisearch_pt"@[9] == 'p' && "aisearch_pt"@[10] == 't'
        && "aisearch_ro"@[9] == 'r' && "aisearch_ro"@[10] == 'o'
        && "aisearch_ru"@[9] == 'r' && "aisearch_ru"@[10] == 'u'
        && "aisearch_sv"@[9] == 's' && "aisearch_sv"@[10] == 'v'
        && "aisearch_tr"@[9] == 't' && "aisearch_tr"@[10] == 'r');
    assert("ar.microsoft"@.len() == 12 && "aisearch_ar"@.len() == 11
        && "da.microsoft"@.len() == 12 && "aisearch_da"@.len() == 11
        && "de.microsoft"@.len() == 12 && "aisearch_de"@.len() == 11
        && "el.microsoft"@.len() == 12 && "aisearch_el"@.len() == 11
        && "es.microsoft"@.len() == 12 && "aisearch_es"@.len() == 11
        && "fi.microsoft"@.len() == 12 && "aisearch_fi"@.len() == 11
        && "fr.microsoft"@.len() == 12 && "aisearch_fr"@.len() == 11
        && "hu.microsoft"@.len() == 12 && "aisearch_hu"@.len() == 11
        && "it.microsoft"@.len() == 12 && "aisearch_it"@.len() == 11
        && "nl.microsoft"@.len() == 12 && "aisearch_nl"@.len() == 11
        && "no.microsoft"@.len() == 12 && "aisearch_no"@.len() == 11
        && "pt.microsoft"@.len() == 12 && "aisearch_pt"@.len() == 11
        && "ro.microsoft"@.len() == 12 && "aisearch_ro"@.len() == 11
        && "ru.microsoft"@.len() == 12 && "aisearch_ru"@.len() == 11
        && "sv.microsoft"@.len() == 12 && "aisearch_sv"@.len() == 11
        && "tr.microsoft"@.len() == 12 && "aisearch_tr"@.len() == 11);
    assert("keyword"@.len() == 7
        && "whitespace"@.len() == 10
        && "alphanum"@.len() == 8
        && "latin"@.len() == 5
        && "ngram"@.len() == 5
        && "ngram.microsoft"@.len() == 15
        && "ngram.lucene"@.len() == 12
        && "edgeNgram"@.len() == 9
        && "edgeNgram.microsoft"@.len() == 19
        && "edgeNgram.lucene"@.len() == 16
        && "chinese"@.len() == 7
        && "japanese"@.len() == 8
        && "korean"@.len() == 6
        && "thai"@.len() == 4
        && "vietnamese"@.len() == 10);
    assert("aisearch_keyword"@.len() == 16
        && "aisearch_whitespace"@.len() == 19
        && "aisearch_alphanum"@.len() == 17
        && "aisearch_latin"@.len() == 14
        && "aisearch_thai"@.len() == 13
        && "aisearch_vietnamese"@.len() == 19
        && "aisearch_ngram"@.len() == 14
        && "aisearch_edge_ngram"@.len() == 19
        && "aisearch_cjk"@.len() == 12);
    assert("ngram.lucene"@[0] == 'n' && "ngram.lucene"@[1] == 'g');
}

/// The terms of a text in a language are the stems in it of the words in lowercase that
/// are no stopwords of it, of each of them, and no others.
pub proof fn law_terms_in_a_language(
    text: Seq<char>,
    name: Seq<char>,
    language: Seq<char>,
    term: Seq<char>,
)
    requires
        text.len() > 0,
        names_language(name, language),
    ensures
        terms_of(text, Some(name)).contains(term) <==> exists|a: int, b: int| #[trigger]
            is_word_at(text, a, b) && utf8_len(text.subrange(a, b)) < 40 && stopword(
                lowered(text.subrange(a, b)),
                language,
            ) != Some(true) && stem(lowered(text.subrange(a, b)), language) == term,
{
    lemma_language(name, language);
    lemma_terms(text, Some(name), term);
    let tokens = lowered_tokens(split_text(text, at_punctuation()), 40);
    lemma_stemmed_texts(tokens, language, term);
    if has_stem(tokens, term, language) {
        let k = choose|k: int|
            0 <= k < tokens.len() && stopword((#[trigger] tokens[k]).token, language) != Some(true)
                && stem(tokens[k].token, language) == term;
        let w = tokens[k].token;
        assert(has_text(tokens, w));
        lemma_lowered_words(text, w);
        let (a, b) = choose|a: int, b: int| #[trigger]
            is_word_at(text, a, b) && utf8_len(text.subrange(a, b)) < 40 && lowered(
                text.subrange(a, b),
            ) == w;
        assert(is_word_at(text, a, b));
    }
    if exists|a: int, b: int| #[trigger]
        is_word_at(text, a, b) && utf8_len(text.subrange(a, b)) < 40 && stopword(
            lowered(text.subrange(a, b)),
            language,
        ) != Some(true) && stem(lowered(text.subrange(a, b)), language) == term {
        let (a, b) = choose|a: int, b: int| #[trigger]
            is_word_at(text, a, b) && utf8_len(text.subrange(a, b)) < 40 && stopword(
                lowered(text.subrange(a, b)),
                language,
            ) != Some(true) && stem(lowered(text.subrange(a, b)), language) == term;
        let w = lowered(text.subrange(a, b));
        lemma_lowered_words(text, w);
        assert(has_text(tokens, w));
        let k = choose|k: int| 0 <= k < tokens.len() && (#[trigger] tokens[k]).token == w;
        assert(stopword(tokens[k].token, language) != Some(true));
    }
}

// ---------------------------------------------------------------------------
// Characters of Chinese, Japanese and Korean
// ---------------------------------------------------------------------------

/// Whether the characters between two places are a token of mixed text: two neighbours
/// of those scripts, one of them alone, or a run of others.
pub open spec fn is_mixed_part(s: Seq<char>, a: int, b: int) -> bool {
    &&& 0 <= a < b <= s.len()
    &&& {
        ||| b == a + 2 && is_cjk(s[a]) && is_cjk(s[a + 1]) && !is_space(s[a])
        ||| b == a + 1 && is_cjk(s[a]) && !is_space(s[a]) && (a == 0 || !is_cjk(s[a - 1])) && (b
            == s.len() || !is_cjk(s[b]))
        ||| (forall|k: int| a <= k < b ==> !is_space(#[trigger] s[k]) && !is_cjk(s[k])) && (a == 0
            || is_space(s[a - 1]) || is_cjk(s[a - 1])) && (b == s.len() || is_space(s[b])
            || is_cjk(s[b]))
    }
}

proof fn lemma_cjk_run(s: Seq<char>, i: int)
    requires
        0 <= i <= s.len(),
    ensures
        i <= cjk_run_end(s, i) <= s.len(),
        i < s.len() && is_cjk(s[i]) ==> i < cjk_run_end(s, i),
        forall|k: int| i <= k < cjk_run_end(s, i) ==> is_cjk(#[trigger] s[k]),
        cjk_run_end(s, i) < s.len() ==> !is_cjk(s[cjk_run_end(s, i)]),
    decreases s.len() - i,
{
    if i < s.len() && is_cjk(s[i]) {
        lemma_cjk_run(s, i + 1);
    }
}

proof fn lemma_other_run(s: Seq<char>, i: int)
    requires
        0 <= i <= s.len(),
    ensures
        i <= other_run_end(s, i) <= s.len(),
        i < s.len() && !is_space(s[i]) && !is_cjk(s[i]) ==> i < other_run_end(s, i),
        forall|k: int|
            i <= k < other_run_end(s, i) ==> !is_space(#[trigger] s[k]) && !is_cjk(s[k]),
        other_run_end(s, i) < s.len() ==> is_space(s[other_run_end(s, i)]) || is_cjk(
            s[other_run_end(s, i)],
        ),
    decreases s.len() - i,
{
    if i < s.len() && !is_space(s[i]) && !is_cjk(s[i]) {
        lemma_other_run(s, i + 1);
    }
}

proof fn lemma_bigrams(s: Seq<char>, i: int, j: int, done: Seq<AnalyzeTokenV>)
    requires
        i < j,
    ensures
        bigrams(s, i, j, done).len() == done.len() + (j - i - 1),
        forall|k: int| 0 <= k < done.len() ==> #[trigger] bigrams(s, i, j, done)[k] == done[k],
        forall|a: int|
            i <= a < j - 1 ==> bigrams(s, i, j, done)[done.len() + a - i] == #[trigger] run_token(
                s,
                a,
                a + 2,
                done.len() + a - i,
            ),
    decreases j - i,
{
    if i + 1 < j {
        let token = run_token(s, i, i + 2, done.len() as int);
        let more = done.push(token);
        lemma_bigrams(s, i + 1, j, more);
        let r = bigrams(s, i, j, done);
        assert forall|k: int| 0 <= k < done.len() implies #[trigger] r[k] == done[k] by {
            assert(more[k] == done[k]);
        }
        assert forall|a: int| i <= a < j - 1 implies r[done.len() + a - i] == #[trigger] run_token(
            s,
            a,
            a + 2,
            done.len() + a - i,
        ) by {
            if a == i {
                assert(more[done.len() as int] == token);
            } else {
                assert(r[more.len() + a - (i + 1)] == run_token(
                    s,
                    a,
                    a + 2,
                    more.len() + a - (i + 1),
                ));
            }
        }
    }
}

proof fn lemma_mixed_keeps(s: Seq<char>, i: int, done: Seq<AnalyzeTokenV>, k: int)
    requires
        0 <= i,
        0 <= k < done.len(),
    ensures
        k < cjk_from(s, i, done).len(),
        cjk_from(s, i, done)[k] == done[k],
    decreases left(s.len(), i),
{
    if i < s.len() {
        if is_space(s[i]) {
            lemma_mixed_keeps(s, i + 1, done, k);
        } else if is_cjk(s[i]) {
            lemma_cjk_run(s, i);
            let j = cjk_run_end(s, i);
            if j == i + 1 {
                lemma_mixed_keeps(s, j, done.push(run_token(s, i, j, done.len() as int)), k);
            } else {
                lemma_bigrams(s, i, j, done);
                lemma_mixed_keeps(s, j, bigrams(s, i, j, done), k);
            }
        } else {
            lemma_other_run(s, i);
            let j = other_run_end(s, i);
            lemma_mixed_keeps(s, j, done.push(run_token(s, i, j, done.len() as int)), k);
        }
    }
}

proof fn lemma_every_mixed_part(
    s: Seq<char>,
    i: int,
    done: Seq<AnalyzeTokenV>,
    a: int,
    b: int,
) -> (k: int)
    requires
        0 <= i <= a,
        is_mixed_part(s, a, b),
        forall|c: char| is_cjk(c) ==> !#[trigger] is_space(c),
    ensures
        0 <= k < cjk_from(s, i, done).len(),
        cjk_from(s, i, done)[k] == run_token(s, a, b, k),
    decreases left(s.len(), i),
{
    if is_space(s[i]) {
        assert(i != a);
        lemma_every_mixed_part(s, i + 1, done, a, b)
    } else if is_cjk(s[i]) {
        lemma_cjk_run(s, i);
        let j = cjk_run_end(s, i);
        let next = if j == i + 1 {
            done.push(run_token(s, i, j, done.len() as int))
        } else {
            bigrams(s, i, j, done)
        };
        lemma_bigrams(s, i, j, done);
        if a < j {
            assert(is_cjk(s[a]));
            if b == a + 2 {
                assert(a + 1 < j);
                let at = done.len() as int + a - i;
                assert(next[at] == run_token(s, a, a + 2, at));
                lemma_mixed_keeps(s, j, next, at);
                at
            } else {
                if a > i {
                    assert(is_cjk(s[a - 1]));
                }
                assert(a == i);
                if j > i + 1 {
                    assert(is_cjk(s[i + 1]));
                }
                assert(b == j);
                lemma_mixed_keeps(s, j, next, done.len() as int);
                done.len() as int
            }
        } else {
            lemma_every_mixed_part(s, j, next, a, b)
        }
    } else {
        lemma_other_run(s, i);
        let j = other_run_end(s, i);
        let next = done.push(run_token(s, i, j, done.len() as int));
        if a < j {
            assert(!is_cjk(s[a]));
            if a > i {
                assert(!is_space(s[a - 1]) && !is_cjk(s[a - 1]));
            }
            assert(a == i);
            if b < j {
                assert(!is_space(s[b]) && !is_cjk(s[b]));
            }
            if j < b {
                assert(!is_space(s[j]) && !is_cjk(s[j]));
            }
            assert(b == j);
            lemma_mixed_keeps(s, j, next, done.len() as int);
            done.len() as int
        } else {
            lemma_every_mixed_part(s, j, next, a, b)
        }
    }
}

proof fn lemma_no_space_among_cjk(c: char)
    ensures
        is_cjk(c) ==> !is_space(c),
{
}

/// In text that mixes scripts, each two neighbours of Chinese, Japanese or Korean are a
/// token, each such character without a neighbour is one, and so is each run of others.
pub proof fn law_every_mixed_part_is_a_token(s: Seq<char>, a: int, b: int)
    requires
        is_mixed_part(s, a, b),
    ensures
        exists|k: int|
            0 <= k < cjk_from(s, 0, seq![]).len() && #[trigger] cjk_from(s, 0, seq![])[k]
                == run_token(s, a, b, k),
{
    assert forall|c: char| is_cjk(c) implies !#[trigger] is_space(c) by {
        lemma_no_space_among_cjk(c);
    }
    let k = lemma_every_mixed_part(s, 0, seq![], a, b);
    assert(cjk_from(s, 0, seq![])[k] == run_token(s, a, b, k));
}

} // verus!
