//! Sentences for answers and captions, and what their scores are made of.
use crate::json::{JsonV, ref_values};
use crate::query::analyzers::{analyze, terms_of};
use crate::service::highlight::{matched_spans, matched_word_spans, wrap_spans, wrapped};
use crate::service::highlights::{strings_of, value_strings};
use crate::storage::document::{Document, path_values};
use crate::text::{
    chars_of, is_space, join_texts, joined, last_word_end, lemma_texts_push, next_word, space,
    text_between, texts, trim, trim_start, trimmed, trimmed_items, trimmed_start,
};
use vstd::prelude::*;

verus! {

/// Minimum sentence length: shorter fragments are merged with the next
/// sentence.
pub const MIN_SENTENCE_LENGTH: usize = 20;

/// Maximum sentence length: longer sentences are split at the last word
/// boundary before this length.
pub const MAX_SENTENCE_LENGTH: usize = 500;

// ---------------------------------------------------------------------------
// Sentences
// ---------------------------------------------------------------------------

/// Whether a fragment ends behind place `i`: there is a terminator, and
/// whitespace or nothing follows.
pub open spec fn ends_fragment(s: Seq<char>, i: int) -> bool {
    (s[i] == '.' || s[i] == '!' || s[i] == '?' || s[i] == ';' || s[i] == '\n' || s[i] == '\r') && (i
        + 1 >= s.len() || is_space(s[i + 1]))
}

/// The fragments of a text of which `i` characters are read and whose running
/// fragment starts at `start`, behind those in `done`.
pub open spec fn raw_fragments(s: Seq<char>, i: int, start: int, done: Seq<Seq<char>>) -> Seq<
    Seq<char>,
>
    decreases s.len() - i,
{
    if i >= s.len() {
        if start < s.len() {
            done.push(s.skip(start))
        } else {
            done
        }
    } else if ends_fragment(s, i) {
        raw_fragments(s, i + 1, i + 1, done.push(s.subrange(start, i + 1)))
    } else {
        raw_fragments(s, i + 1, start, done)
    }
}

/// The fragments from `i` on, trimmed, short ones merged with what follows;
/// `pending` waits for more text.
pub open spec fn merged_from(
    fragments: Seq<Seq<char>>,
    i: int,
    pending: Seq<char>,
    done: Seq<Seq<char>>,
) -> Seq<Seq<char>>
    decreases fragments.len() - i,
{
    if i >= fragments.len() {
        if trim(pending).len() == 0 {
            done
        } else {
            done.push(pending)
        }
    } else {
        let f = trim(fragments[i]);
        if f.len() == 0 {
            merged_from(fragments, i + 1, pending, done)
        } else {
            let next = if pending.len() == 0 {
                f
            } else {
                pending.push(' ') + f
            };
            if trim(next).len() >= MIN_SENTENCE_LENGTH {
                merged_from(fragments, i + 1, seq![], done.push(next))
            } else {
                merged_from(fragments, i + 1, next, done)
            }
        }
    }
}

/// The last whitespace before place `n`, or -1.
pub open spec fn last_break(s: Seq<char>, n: int) -> int
    decreases n,
{
    if n <= 0 {
        -1
    } else if is_space(s[n - 1]) {
        n - 1
    } else {
        last_break(s, n - 1)
    }
}

/// Where an over-long text is cut: at the last word boundary before the limit, or,
/// where there is none, at the limit.
pub open spec fn cut_place(s: Seq<char>) -> int {
    let at = last_break(s, MAX_SENTENCE_LENGTH + 1);
    if at > 0 {
        at
    } else {
        MAX_SENTENCE_LENGTH as int
    }
}

/// The pieces of a text that fit the maximum, behind those in `done`.
pub open spec fn long_pieces(s: Seq<char>, done: Seq<Seq<char>>) -> Seq<Seq<char>>
    decreases s.len(),
{
    if s.len() <= MAX_SENTENCE_LENGTH {
        if s.len() == 0 {
            done
        } else {
            done.push(s)
        }
    } else {
        let at = cut_place(s);
        let rest = trim_start(s.skip(at));
        if rest.len() < s.len() {
            long_pieces(rest, done.push(s.take(at)))
        } else {
            done
        }
    }
}

/// The pieces of the fragments from `i` on, behind those in `done`.
pub open spec fn all_pieces(fragments: Seq<Seq<char>>, i: int, done: Seq<Seq<char>>) -> Seq<
    Seq<char>,
>
    decreases fragments.len() - i,
{
    if i >= fragments.len() {
        done
    } else {
        all_pieces(fragments, i + 1, long_pieces(trim(fragments[i]), done))
    }
}

/// The sentences of a text for answers and captions.
pub open spec fn answer_sentences(text: Seq<char>) -> Seq<Seq<char>> {
    trimmed_items(
        all_pieces(
            merged_from(raw_fragments(text, 0, 0, seq![]), 0, seq![], seq![]),
            0,
            seq![],
        ),
    )
}

fn split_fragments(text: &str) -> (r: Vec<String>)
    ensures
        texts(r@) == raw_fragments(text@, 0, 0, seq![]),
{
    broadcast use lemma_texts_push;

    let s = chars_of(text);
    let n: usize = s.len();
    let mut out: Vec<String> = Vec::new();
    let mut start: usize = 0;
    let mut i: usize = 0;
    assert(texts(out@) =~= seq![]);
    while i < n
        invariant
            s@ == text@,
            n == s@.len(),
            start <= i <= n,
            raw_fragments(text@, 0, 0, seq![]) == raw_fragments(
                s@,
                i as int,
                start as int,
                texts(out@),
            ),
        decreases n - i,
    {
        let c = s[i];
        let terminator = c == '.' || c == '!' || c == '?' || c == ';' || c == '\n' || c == '\r';
        let boundary = i + 1 >= n || space(s[i + 1]);
        if terminator && boundary {
            let ghost before = texts(out@);
            let sentence = text_between(&s, start, i + 1);
            out.push(sentence);
            assert(texts(out@) == before.push(sentence@));
            start = i + 1;
        }
        i += 1;
    }
    if start < n {
        let ghost before = texts(out@);
        let sentence = text_between(&s, start, n);
        out.push(sentence);
        assert(texts(out@) == before.push(sentence@));
        assert(sentence@ =~= text@.skip(start as int));
    }
    out
}

fn merge_fragments(fragments: &Vec<String>) -> (r: Vec<String>)
    ensures
        texts(r@) == merged_from(texts(fragments@), 0, seq![], seq![]),
{
    broadcast use lemma_texts_push;

    let ghost all = texts(fragments@);
    let mut out: Vec<String> = Vec::new();
    let mut pending = String::new();
    let mut i: usize = 0;
    assert(texts(out@) =~= seq![]);
    assert(pending@ =~= seq![]);
    while i < fragments.len()
        invariant
            all == texts(fragments@),
            i <= fragments@.len(),
            merged_from(all, 0, seq![], seq![]) == merged_from(
                all,
                i as int,
                pending@,
                texts(out@),
            ),
        decreases fragments@.len() - i,
    {
        assert(all[i as int] == fragments@[i as int]@);
        let f = trimmed(fragments[i].as_str());
        if !f.as_str().is_empty() {
            if pending.as_str().is_empty() {
                pending = f;
            } else {
                pending.push(' ');
                pending.append(f.as_str());
            }
            let n: usize = chars_of(trimmed(pending.as_str()).as_str()).len();
            if n >= MIN_SENTENCE_LENGTH {
                let ghost before = texts(out@);
                let ghost full = pending@;
                out.push(pending);
                assert(texts(out@) == before.push(full));
                pending = String::new();
                assert(pending@ =~= seq![]);
            }
        }
        i += 1;
    }
    if !trimmed(pending.as_str()).as_str().is_empty() {
        let ghost before = texts(out@);
        let ghost full = pending@;
        out.push(pending);
        assert(texts(out@) == before.push(full));
    }
    out
}

pub proof fn lemma_next_word_bounds(s: Seq<char>, i: int)
    requires
        0 <= i <= s.len(),
    ensures
        i <= next_word(s, i) <= s.len(),
        next_word(s, i) < s.len() ==> !is_space(s[next_word(s, i)]),
    decreases s.len() - i,
{
    if i < s.len() && is_space(s[i]) {
        lemma_next_word_bounds(s, i + 1);
    }
}

proof fn lemma_trim_starts_with_word(s: Seq<char>)
    ensures
        trim(s).len() > 0 ==> !is_space(trim(s)[0]),
        trim_start(s).len() > 0 ==> !is_space(trim_start(s)[0]),
        trim_start(s).len() <= s.len(),
{
    lemma_next_word_bounds(s, 0);
    lemma_word_end_bounds(s, s.len() as int);
}

proof fn lemma_last_break(s: Seq<char>, n: int)
    requires
        0 <= n <= s.len(),
    ensures
        -1 <= last_break(s, n) < n || n == 0 && last_break(s, n) == -1,
        last_break(s, n) >= 0 ==> is_space(s[last_break(s, n)]),
    decreases n,
{
    if n > 0 {
        lemma_last_break(s, n - 1);
    }
}

fn find_cut(s: &Vec<char>) -> (r: usize)
    requires
        s@.len() > MAX_SENTENCE_LENGTH,
        !is_space(s@[0]),
    ensures
        r == cut_place(s@),
        0 < r <= MAX_SENTENCE_LENGTH,
{
    let ghost limit = MAX_SENTENCE_LENGTH + 1;
    let mut k: usize = MAX_SENTENCE_LENGTH + 1;
    while k > 0 && !space(s[k - 1])
        invariant
            k <= limit <= s@.len(),
            last_break(s@, limit as int) == last_break(s@, k as int),
        decreases k,
    {
        k -= 1;
    }
    proof {
        lemma_last_break(s@, limit as int);
    }
    if k > 0 {
        k - 1
    } else {
        MAX_SENTENCE_LENGTH
    }
}

/// Splits a single fragment longer than [`MAX_SENTENCE_LENGTH`] at the last
/// word boundary before the limit (repeatedly, until every piece fits), and
/// puts the pieces behind those in `done`. A fragment without a word boundary
/// is hard-split at the limit.
fn split_long_sentence(fragment: &str, done: Vec<String>) -> (r: Vec<String>)
    ensures
        texts(r@) == long_pieces(trim(fragment@), texts(done@)),
{
    broadcast use lemma_texts_push;

    let ghost start = texts(done@);
    let mut out = done;
    let mut rest = trimmed(fragment);
    proof {
        lemma_trim_starts_with_word(fragment@);
    }
    loop
        invariant
            rest@.len() > 0 ==> !is_space(rest@[0]),
            start == texts(done@),
            long_pieces(trim(fragment@), start) == long_pieces(rest@, texts(out@)),
        decreases rest@.len(),
    {
        let s = chars_of(rest.as_str());
        let n: usize = s.len();
        if n <= MAX_SENTENCE_LENGTH {
            if n > 0 {
                let ghost before = texts(out@);
                let ghost full = rest@;
                out.push(rest);
                assert(texts(out@) == before.push(full));
            }
            return out;
        }
        let at = find_cut(&s);
        let head = text_between(&s, 0, at);
        let tail = text_between(&s, at, n);
        assert(tail@ =~= rest@.skip(at as int));
        assert(head@ =~= rest@.take(at as int));
        proof {
            lemma_trim_starts_with_word(tail@);
        }
        let ghost before = texts(out@);
        out.push(head);
        assert(texts(out@) == before.push(head@));
        rest = trimmed_start(tail.as_str());
    }
}

/// Splits text into sentences. A sentence ends at `.`, `!`, `?`, `;`, or a
/// newline followed by whitespace or the end of the text (the terminator
/// stays with its sentence). Fragments shorter than [`MIN_SENTENCE_LENGTH`]
/// are merged with the following fragment; fragments longer than
/// [`MAX_SENTENCE_LENGTH`] are split at the last word boundary before the
/// limit. Abbreviations are not special-cased.
pub fn split_sentences(text: &str) -> (r: Vec<String>)
    ensures
        texts(r@) == answer_sentences(text@),
{
    broadcast use lemma_texts_push;

    let fragments = split_fragments(text);
    let merged = merge_fragments(&fragments);
    let ghost all = texts(merged@);
    let mut pieces_list: Vec<String> = Vec::new();
    let mut i: usize = 0;
    assert(texts(pieces_list@) =~= seq![]);
    while i < merged.len()
        invariant
            all == texts(merged@),
            i <= merged@.len(),
            all_pieces(all, 0, seq![]) == all_pieces(all, i as int, texts(pieces_list@)),
        decreases merged@.len() - i,
    {
        assert(all[i as int] == merged@[i as int]@);
        pieces_list = split_long_sentence(merged[i].as_str(), pieces_list);
        i += 1;
    }
    let ghost parts = texts(pieces_list@);
    let mut out: Vec<String> = Vec::new();
    let mut k: usize = 0;
    assert(texts(out@) =~= seq![]);
    assert(parts.take(0) =~= seq![]);
    while k < pieces_list.len()
        invariant
            parts == texts(pieces_list@),
            k <= pieces_list@.len(),
            texts(out@) == trimmed_items(parts.take(k as int)),
        decreases pieces_list@.len() - k,
    {
        proof {
            let t = parts.take(k + 1);
            assert(t.drop_last() =~= parts.take(k as int));
            assert(t.last() == pieces_list@[k as int]@);
        }
        let sentence = trimmed(pieces_list[k].as_str());
        if !sentence.as_str().is_empty() {
            let ghost before = texts(out@);
            out.push(sentence);
            assert(texts(out@) == before.push(sentence@));
        }
        k += 1;
    }
    assert(parts.take(parts.len() as int) =~= parts);
    out
}

// ---------------------------------------------------------------------------
// Terms and highlights
// ---------------------------------------------------------------------------

/// The terms of the first `n` questions, behind those of the search text.
pub open spec fn query_terms_of(search: Seq<char>, questions: Seq<Seq<char>>, n: int) -> Seq<
    Seq<char>,
>
    decreases n,
{
    if n <= 0 {
        terms_of(search, None)
    } else {
        query_terms_of(search, questions, n - 1) + terms_of(questions[n - 1], None)
    }
}

/// Builds the analyzed query terms for answer/caption scoring: the search
/// text analyzed with the full-text (English) analyzer, with the
/// `queryContext` question text appended (biasing selection toward sentences
/// that address the questions).
pub fn query_terms(search_text: &str, questions: &Vec<String>) -> (r: Vec<String>)
    ensures
        texts(r@) == query_terms_of(
            search_text@,
            texts(questions@),
            questions@.len() as int,
        ),
{
    let mut terms = analyze(search_text);
    let ghost all = texts(questions@);
    let mut i: usize = 0;
    while i < questions.len()
        invariant
            all == texts(questions@),
            i <= questions@.len(),
            texts(terms@) == query_terms_of(search_text@, all, i as int),
        decreases questions@.len() - i,
    {
        assert(all[i as int] == questions@[i as int]@);
        let mut more = analyze(questions[i].as_str());
        let ghost a = terms@;
        let ghost b = more@;
        terms.append(&mut more);
        assert(texts(terms@) =~= texts(a) + texts(b));
        i += 1;
    }
    terms
}

/// Wraps the query-term matches of `text` in the highlight tags
/// (analyzer-aware matching, same as `@search.highlights`). With no matches
/// the text is returned unchanged.
pub fn highlight_text(text: &str, terms: &Vec<String>, pre_tag: &str, post_tag: &str) -> (r: String)
    ensures
        r@ == wrapped(text@, matched_spans(text@, texts(terms@), None), pre_tag@, post_tag@),
{
    let spans = matched_word_spans(text, terms, None);
    wrap_spans(text, &spans, pre_tag, post_tag)
}

/// The strings of the first `n` values.
pub open spec fn strings_within(v: Seq<JsonV>, n: int) -> Seq<Seq<char>>
    decreases n,
{
    if n <= 0 {
        seq![]
    } else {
        strings_within(v, n - 1) + strings_of(v[n - 1])
    }
}

/// The text of a document's field.
pub open spec fn text_of_field(fields: Seq<(Seq<char>, JsonV)>, field: Seq<char>) -> Seq<char> {
    let found = path_values(fields, field);
    joined(strings_within(found, found.len() as int), " "@)
}

/// Extracts the text of a document's field values as a single string (for
/// sentence splitting): every string value the path resolves to, joined. A string
/// collection supplies each of its strings.
pub fn field_text(document: &Document, field: &str) -> (r: String)
    ensures
        r@ == text_of_field(document@.fields, field@),
{
    let found = document.resolve_path(field);
    let ghost all = ref_values(found@);
    let mut parts: Vec<String> = Vec::new();
    let mut i: usize = 0;
    assert(texts(parts@) =~= seq![]);
    while i < found.len()
        invariant
            all == ref_values(found@),
            i <= found@.len(),
            texts(parts@) == strings_within(all, i as int),
        decreases found@.len() - i,
    {
        assert(all[i as int] == found@[i as int]@);
        let mut more = value_strings(found[i]);
        let ghost a = parts@;
        let ghost b = more@;
        parts.append(&mut more);
        assert(texts(parts@) =~= texts(a) + texts(b));
        i += 1;
    }
    join_texts(&parts, " ")
}

// ---------------------------------------------------------------------------
// Laws
// ---------------------------------------------------------------------------

proof fn lemma_trim_shrinks(s: Seq<char>)
    ensures
        trim(s).len() <= s.len(),
{
    lemma_next_word_bounds(s, 0);
    lemma_word_end_bounds(s, s.len() as int);
}

proof fn lemma_word_end_bounds(s: Seq<char>, n: int)
    requires
        0 <= n <= s.len(),
    ensures
        0 <= last_word_end(s, n) <= n,
    decreases n,
{
    if n > 0 {
        lemma_word_end_bounds(s, n - 1);
    }
}

pub open spec fn all_at_most(parts: Seq<Seq<char>>, max: int) -> bool {
    forall|i: int| 0 <= i < parts.len() ==> (#[trigger] parts[i]).len() <= max
}

pub(crate) proof fn lemma_cut_fits(s: Seq<char>)
    requires
        s.len() > MAX_SENTENCE_LENGTH,
    ensures
        0 < cut_place(s) <= MAX_SENTENCE_LENGTH,
{
    lemma_last_break(s, MAX_SENTENCE_LENGTH + 1);
}

proof fn lemma_long_pieces_fit(s: Seq<char>, done: Seq<Seq<char>>)
    requires
        all_at_most(done, MAX_SENTENCE_LENGTH as int),
    ensures
        all_at_most(long_pieces(s, done), MAX_SENTENCE_LENGTH as int),
    decreases s.len(),
{
    if s.len() <= MAX_SENTENCE_LENGTH {
        assert(all_at_most(done.push(s), MAX_SENTENCE_LENGTH as int));
    } else {
        lemma_cut_fits(s);
        let at = cut_place(s);
        let rest = trim_start(s.skip(at));
        assert(all_at_most(done.push(s.take(at)), MAX_SENTENCE_LENGTH as int));
        if rest.len() < s.len() {
            lemma_long_pieces_fit(rest, done.push(s.take(at)));
        }
    }
}

proof fn lemma_all_pieces_fit(fragments: Seq<Seq<char>>, i: int, done: Seq<Seq<char>>)
    requires
        all_at_most(done, MAX_SENTENCE_LENGTH as int),
    ensures
        all_at_most(all_pieces(fragments, i, done), MAX_SENTENCE_LENGTH as int),
    decreases fragments.len() - i,
{
    if i < fragments.len() {
        lemma_long_pieces_fit(trim(fragments[i]), done);
        lemma_all_pieces_fit(fragments, i + 1, long_pieces(trim(fragments[i]), done));
    }
}

proof fn lemma_trimmed_items_fit(parts: Seq<Seq<char>>, max: int)
    requires
        all_at_most(parts, max),
    ensures
        all_at_most(trimmed_items(parts), max),
        forall|i: int|
            0 <= i < trimmed_items(parts).len() ==> (#[trigger] trimmed_items(parts)[i]).len() > 0,
    decreases parts.len(),
{
    if parts.len() > 0 {
        assert(all_at_most(parts.drop_last(), max)) by {
            assert forall|i: int| 0 <= i < parts.drop_last().len() implies (
            #[trigger] parts.drop_last()[i]).len() <= max by {
                assert(parts.drop_last()[i] == parts[i]);
            }
        }
        lemma_trimmed_items_fit(parts.drop_last(), max);
        lemma_trim_shrinks(parts.last());
        assert(parts[parts.len() - 1].len() <= max);
    }
}

/// No sentence is empty, and none is longer than [`MAX_SENTENCE_LENGTH`]
/// characters.
pub proof fn law_sentences_fit(text: Seq<char>, i: int)
    requires
        0 <= i < answer_sentences(text).len(),
    ensures
        0 < answer_sentences(text)[i].len() <= MAX_SENTENCE_LENGTH,
{
    let merged = merged_from(raw_fragments(text, 0, 0, seq![]), 0, seq![], seq![]);
    lemma_all_pieces_fit(merged, 0, seq![]);
    lemma_trimmed_items_fit(all_pieces(merged, 0, seq![]), MAX_SENTENCE_LENGTH as int);
}

} // verus!
