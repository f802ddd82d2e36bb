//! Highlight fragments.
//!
//! A span is a pair of places in a text, counted in characters.
use crate::filter::token::{left, past};
use crate::query::analyzers::{analyze_with, opt_str, terms_of};
use crate::text::{
    byte_len, chars_of, find_space, find_word, holds_text, is_space, lemma_texts_push, next_space,
    next_word, space, text_between, texts, utf8_len,
};
use vstd::prelude::*;

verus! {

/// Upper bound on the number of highlight fragments returned per field.
pub const MAX_HIGHLIGHT_FRAGMENTS: usize = 3;

/// Sentences with more bytes than this are not returned whole: a window around
/// each match is used instead.
pub const LONGEST_WHOLE_SENTENCE: usize = 200;

/// Half-width, in characters, of the window extracted around a match in an over-long
/// sentence.
pub const FRAGMENT_WINDOW: usize = 100;

// ---------------------------------------------------------------------------
// Sentences
// ---------------------------------------------------------------------------

/// Whether a sentence ends behind place `i`: there is a terminator, and
/// whitespace or nothing follows.
pub open spec fn ends_sentence(s: Seq<char>, i: int) -> bool {
    (s[i] == '.' || s[i] == '!' || s[i] == '?' || s[i] == '\n' || s[i] == '\r') && (i + 1
        >= s.len() || is_space(s[i + 1]))
}

/// The sentences of a text of which `i` characters are read and whose running
/// sentence starts at `start`, behind those in `done`.
pub open spec fn sentences_from(s: Seq<char>, i: int, start: int, done: Seq<Seq<char>>) -> Seq<
    Seq<char>,
>
    decreases s.len() - i,
{
    if i >= s.len() {
        if start < s.len() {
            done.push(s.skip(start))
        } else {
            done
        }
    } else if ends_sentence(s, i) {
        sentences_from(s, i + 1, i + 1, done.push(s.subrange(start, i + 1)))
    } else {
        sentences_from(s, i + 1, start, done)
    }
}

/// The sentences of a text, each with its terminator.
pub open spec fn sentences_of(s: Seq<char>) -> Seq<Seq<char>> {
    sentences_from(s, 0, 0, seq![])
}

/// Splits `text` into sentences: a sentence ends at a sentence terminator
/// (`.`, `!`, `?`, or a newline) followed by whitespace or the end of the
/// text. Text without terminators is a single sentence. The terminator stays
/// with its sentence.
pub fn split_sentences(text: &str) -> (r: Vec<String>)
    ensures
        texts(r@) == sentences_of(text@),
{
    broadcast use lemma_texts_push;

    let s = chars_of(text);
    let n: usize = s.len();
    let mut out: Vec<String> = Vec::new();
    let mut start: usize = 0;
    let mut i: usize = 0;
    assert(texts(out@) =~= seq![]);
    while i < n
        invariant
            s@ == text@,
            n == s@.len(),
            start <= i <= n,
            sentences_of(text@) == sentences_from(s@, i as int, start as int, texts(out@)),
        decreases n - i,
    {
        let c = s[i];
        let terminator = c == '.' || c == '!' || c == '?' || c == '\n' || c == '\r';
        let boundary = i + 1 >= n || space(s[i + 1]);
        if terminator && boundary {
            let ghost before = texts(out@);
            let sentence = text_between(&s, start, i + 1);
            out.push(sentence);
            assert(texts(out@) == before.push(sentence@));
            start = i + 1;
        }
        i += 1;
    }
    if start < n {
        let ghost before = texts(out@);
        let sentence = text_between(&s, start, n);
        out.push(sentence);
        assert(texts(out@) == before.push(sentence@));
        assert(sentence@ =~= text@.skip(start as int));
    }
    out
}

// ---------------------------------------------------------------------------
// Words and spans
// ---------------------------------------------------------------------------

/// The spans of the words from a place on, behind those in `done`.
pub open spec fn word_spans_from(s: Seq<char>, i: int, done: Seq<(usize, usize)>) -> Seq<
    (usize, usize),
>
    decreases left(s.len(), i),
{
    let a = next_word(s, i);
    if i > a || a >= s.len() {
        done
    } else {
        let b = past(a, next_space(s, a));
        word_spans_from(s, b, done.push((a as usize, b as usize)))
    }
}

/// The spans of the words of a text: its maximal runs without whitespace.
pub open spec fn spans_of_words(s: Seq<char>) -> Seq<(usize, usize)> {
    word_spans_from(s, 0, seq![])
}

/// Whether spans lie in a text of `n` characters from place `from` on, one
/// behind the other.
pub open spec fn spans_ordered(spans: Seq<(usize, usize)>, from: int, n: int) -> bool {
    forall|i: int|
        0 <= i < spans.len() ==> from <= (#[trigger] spans[i]).0 <= spans[i].1 <= n && (i > 0
            ==> spans[i - 1].1 <= spans[i].0)
}

/// Returns the spans of the maximal non-whitespace runs (words) of `text`, in
/// order of appearance. A word keeps any trailing punctuation, so `azure.` is a
/// single word.
pub fn word_spans(text: &str) -> (r: Vec<(usize, usize)>)
    ensures
        r@ == spans_of_words(text@),
        spans_ordered(r@, 0, text@.len() as int),
{
    let s = chars_of(text);
    let n: usize = s.len();
    let mut out: Vec<(usize, usize)> = Vec::new();
    let mut i: usize = 0;
    loop
        invariant
            s@ == text@,
            n == s@.len(),
            i <= n,
            spans_ordered(out@, 0, i as int),
            spans_of_words(text@) == word_spans_from(s@, i as int, out@),
        decreases n - i,
    {
        let a = find_word(&s, i);
        if a >= n {
            return out;
        }
        let b = find_space(&s, a);
        out.push((a, b));
        i = b;
    }
}

/// Whether one of the terms of a word is among the given ones.
pub open spec fn word_matches(
    word: Seq<char>,
    terms: Seq<Seq<char>>,
    analyzer: Option<Seq<char>>,
) -> bool {
    exists|k: int|
        0 <= k < terms_of(word, analyzer).len() && terms.contains(
            #[trigger] terms_of(word, analyzer)[k],
        )
}

/// Those of the first `n` spans whose words match.
pub open spec fn matching_spans(
    s: Seq<char>,
    spans: Seq<(usize, usize)>,
    n: int,
    terms: Seq<Seq<char>>,
    analyzer: Option<Seq<char>>,
) -> Seq<(usize, usize)>
    decreases n,
{
    if n <= 0 {
        seq![]
    } else {
        let rest = matching_spans(s, spans, n - 1, terms, analyzer);
        let (a, b) = spans[n - 1];
        if word_matches(s.subrange(a as int, b as int), terms, analyzer) {
            rest.push((a, b))
        } else {
            rest
        }
    }
}

/// The spans of the words of a text that match.
pub open spec fn matched_spans(
    s: Seq<char>,
    terms: Seq<Seq<char>>,
    analyzer: Option<Seq<char>>,
) -> Seq<(usize, usize)> {
    let spans = spans_of_words(s);
    matching_spans(s, spans, spans.len() as int, terms, analyzer)
}

fn any_term_matches(word: &str, terms: &Vec<String>, analyzer: Option<&str>) -> (r: bool)
    ensures
        r == word_matches(word@, texts(terms@), opt_str(analyzer)),
{
    let tokens = analyze_with(word, analyzer);
    let ghost all = terms_of(word@, opt_str(analyzer));
    let mut i: usize = 0;
    while i < tokens.len()
        invariant
            all == texts(tokens@),
            all == terms_of(word@, opt_str(analyzer)),
            i <= tokens@.len(),
            forall|k: int| 0 <= k < i ==> !texts(terms@).contains(#[trigger] all[k]),
        decreases tokens@.len() - i,
    {
        assert(all[i as int] == tokens@[i as int]@);
        if holds_text(terms, tokens[i].as_str()) {
            return true;
        }
        i += 1;
    }
    false
}

/// Returns the spans of the whitespace-delimited words of `text` whose
/// analyzed form (under `analyzer`) is in `terms`, in order of appearance.
/// Matching is analyzer-aware, so inflected forms highlight.
pub fn matched_word_spans(text: &str, terms: &Vec<String>, analyzer: Option<&str>) -> (r: Vec<
    (usize, usize),
>)
    ensures
        r@ == matched_spans(text@, texts(terms@), opt_str(analyzer)),
        spans_ordered(r@, 0, text@.len() as int),
{
    let s = chars_of(text);
    let spans = word_spans(text);
    let mut out: Vec<(usize, usize)> = Vec::new();
    let mut i: usize = 0;
    while i < spans.len()
        invariant
            s@ == text@,
            spans@ == spans_of_words(text@),
            spans_ordered(spans@, 0, text@.len() as int),
            i <= spans@.len(),
            out@ == matching_spans(
                s@,
                spans@,
                i as int,
                texts(terms@),
                opt_str(analyzer),
            ),
            spans_ordered(out@, 0, text@.len() as int),
            out@.len() > 0 ==> i > 0 && out@.last().1 <= spans@[i - 1].1,
        decreases spans@.len() - i,
    {
        let (a, b) = spans[i];
        assert(spans@[i as int].0 <= spans@[i as int].1 <= text@.len());
        let word = text_between(&s, a, b);
        if any_term_matches(word.as_str(), terms, analyzer) {
            let ghost before = out@;
            out.push((a, b));
            proof {
                assert forall|k: int| 0 <= k < out@.len() implies 0 <= (#[trigger] out@[k]).0
                    <= out@[k].1 <= text@.len() && (k > 0 ==> out@[k - 1].1 <= out@[k].0) by {
                    if k < before.len() {
                        assert(out@[k] == before[k]);
                        if k > 0 {
                            assert(out@[k - 1] == before[k - 1]);
                        }
                    } else if k > 0 {
                        assert(out@[k - 1] == before.last());
                    }
                }
            }
        }
        i += 1;
    }
    out
}

/// A text from place `last` on, with the spans from `i` on in tags.
pub open spec fn wrapped_from(
    s: Seq<char>,
    spans: Seq<(usize, usize)>,
    i: int,
    last: int,
    pre: Seq<char>,
    post: Seq<char>,
) -> Seq<char>
    decreases spans.len() - i,
{
    if i >= spans.len() {
        s.skip(last)
    } else {
        let a = spans[i].0 as int;
        let b = spans[i].1 as int;
        s.subrange(last, a) + pre + s.subrange(a, b) + post + wrapped_from(
            s,
            spans,
            i + 1,
            b,
            pre,
            post,
        )
    }
}

/// A text with spans in tags.
pub open spec fn wrapped(
    s: Seq<char>,
    spans: Seq<(usize, usize)>,
    pre: Seq<char>,
    post: Seq<char>,
) -> Seq<char> {
    wrapped_from(s, spans, 0, 0, pre, post)
}

proof fn lemma_regroup(
    a: Seq<char>,
    b: Seq<char>,
    c: Seq<char>,
    d: Seq<char>,
    e: Seq<char>,
    f: Seq<char>,
)
    ensures
        a + (b + c + d + e + f) == a + b + c + d + e + f,
{
    assert(a + (b + c + d + e + f) =~= a + b + c + d + e + f);
}

/// Wraps each span in `spans` with the highlight tags, preserving all other
/// text (spacing and casing) verbatim.
pub fn wrap_spans(text: &str, spans: &Vec<(usize, usize)>, pre_tag: &str, post_tag: &str) -> (r:
    String)
    requires
        spans_ordered(spans@, 0, text@.len() as int),
    ensures
        r@ == wrapped(text@, spans@, pre_tag@, post_tag@),
{
    let s = chars_of(text);
    let mut out = String::new();
    let mut last: usize = 0;
    let mut i: usize = 0;
    assert(out@ + wrapped(s@, spans@, pre_tag@, post_tag@) =~= wrapped(
        s@,
        spans@,
        pre_tag@,
        post_tag@,
    ));
    while i < spans.len()
        invariant
            s@ == text@,
            spans_ordered(spans@, 0, text@.len() as int),
            i <= spans@.len(),
            i == 0 ==> last == 0,
            i > 0 ==> last == spans@[i - 1].1,
            last <= s@.len(),
            wrapped(text@, spans@, pre_tag@, post_tag@) == out@ + wrapped_from(
                s@,
                spans@,
                i as int,
                last as int,
                pre_tag@,
                post_tag@,
            ),
        decreases spans@.len() - i,
    {
        let (a, b) = spans[i];
        assert(spans@[i as int].0 <= spans@[i as int].1 <= text@.len());
        let ghost before = out@;
        let gap = text_between(&s, last, a);
        let word = text_between(&s, a, b);
        out.append(gap.as_str());
        out.append(pre_tag);
        out.append(word.as_str());
        out.append(post_tag);
        proof {
            let rest = wrapped_from(s@, spans@, i + 1, b as int, pre_tag@, post_tag@);
            lemma_regroup(before, gap@, pre_tag@, word@, post_tag@, rest);
        }
        last = b;
        i += 1;
    }
    let tail = text_between(&s, last, s.len());
    assert(tail@ =~= s@.skip(last as int));
    out.append(tail.as_str());
    out
}

// ---------------------------------------------------------------------------
// Fragments
// ---------------------------------------------------------------------------

/// The window around a span of a text of `n` characters: [`FRAGMENT_WINDOW`]
/// characters to either side, as far as the text goes.
pub open spec fn window_of(n: nat, span: (usize, usize)) -> (usize, usize) {
    (
        if span.0 < FRAGMENT_WINDOW {
            0
        } else {
            (span.0 - FRAGMENT_WINDOW) as usize
        },
        if n - span.1 < FRAGMENT_WINDOW {
            n as usize
        } else {
            (span.1 + FRAGMENT_WINDOW) as usize
        },
    )
}

pub open spec fn within(span: (usize, usize), window: (usize, usize)) -> bool {
    window.0 <= span.0 && span.1 <= window.1
}

pub open spec fn is_covered(span: (usize, usize), windows: Seq<(usize, usize)>) -> bool {
    exists|k: int| 0 <= k < windows.len() && within(span, #[trigger] windows[k])
}

/// Those of the first `n` spans that lie in a window, counted from its start.
pub open spec fn inner_spans(
    spans: Seq<(usize, usize)>,
    n: int,
    window: (usize, usize),
) -> Seq<(usize, usize)>
    decreases n,
{
    if n <= 0 {
        seq![]
    } else {
        let rest = inner_spans(spans, n - 1, window);
        if within(spans[n - 1], window) {
            rest.push(
                (
                    (spans[n - 1].0 - window.0) as usize,
                    (spans[n - 1].1 - window.0) as usize,
                ),
            )
        } else {
            rest
        }
    }
}

/// A window of a text with the spans in it in tags.
pub open spec fn window_fragment(
    s: Seq<char>,
    spans: Seq<(usize, usize)>,
    window: (usize, usize),
    pre: Seq<char>,
    post: Seq<char>,
) -> Seq<char> {
    wrapped(
        s.subrange(window.0 as int, window.1 as int),
        inner_spans(spans, spans.len() as int, window),
        pre,
        post,
    )
}

/// The fragments of an over-long sentence for its spans from `i` on, behind
/// those in `done`: a window around each span that no window so far covers.
pub open spec fn window_fragments(
    s: Seq<char>,
    spans: Seq<(usize, usize)>,
    i: int,
    windows: Seq<(usize, usize)>,
    done: Seq<Seq<char>>,
    pre: Seq<char>,
    post: Seq<char>,
) -> Seq<Seq<char>>
    decreases spans.len() - i,
{
    if i >= spans.len() {
        done
    } else if is_covered(spans[i], windows) {
        window_fragments(s, spans, i + 1, windows, done, pre, post)
    } else {
        let window = window_of(s.len(), spans[i]);
        let next = done.push(window_fragment(s, spans, window, pre, post));
        if next.len() >= MAX_HIGHLIGHT_FRAGMENTS {
            next
        } else {
            window_fragments(s, spans, i + 1, windows.push(window), next, pre, post)
        }
    }
}

/// The fragments of one sentence with spans, behind those in `done`.
pub open spec fn sentence_fragments(
    s: Seq<char>,
    spans: Seq<(usize, usize)>,
    done: Seq<Seq<char>>,
    pre: Seq<char>,
    post: Seq<char>,
) -> Seq<Seq<char>> {
    if utf8_len(s) <= LONGEST_WHOLE_SENTENCE {
        done.push(wrapped(s, spans, pre, post))
    } else {
        window_fragments(s, spans, 0, seq![], done, pre, post)
    }
}

/// The fragments of the sentences from `i` on, behind those in `done`, up to
/// [`MAX_HIGHLIGHT_FRAGMENTS`].
pub open spec fn fragments_from(
    sentences: Seq<Seq<char>>,
    i: int,
    done: Seq<Seq<char>>,
    terms: Seq<Seq<char>>,
    analyzer: Option<Seq<char>>,
    pre: Seq<char>,
    post: Seq<char>,
) -> Seq<Seq<char>>
    decreases sentences.len() - i,
{
    if i >= sentences.len() {
        done
    } else {
        let s = sentences[i];
        let spans = matched_spans(s, terms, analyzer);
        if spans.len() == 0 {
            fragments_from(sentences, i + 1, done, terms, analyzer, pre, post)
        } else {
            let next = sentence_fragments(s, spans, done, pre, post);
            if next.len() >= MAX_HIGHLIGHT_FRAGMENTS {
                next
            } else {
                fragments_from(sentences, i + 1, next, terms, analyzer, pre, post)
            }
        }
    }
}

/// The highlighted fragments of a text.
pub open spec fn fragments_of(
    text: Seq<char>,
    terms: Seq<Seq<char>>,
    analyzer: Option<Seq<char>>,
    pre: Seq<char>,
    post: Seq<char>,
) -> Seq<Seq<char>> {
    if terms.len() == 0 {
        seq![]
    } else {
        fragments_from(sentences_of(text), 0, seq![], terms, analyzer, pre, post)
    }
}

fn find_window(n: usize, span: (usize, usize)) -> (r: (usize, usize))
    requires
        span.0 <= span.1 <= n,
    ensures
        r == window_of(n as nat, span),
        r.0 <= span.0,
        span.1 <= r.1 <= n,
{
    let start: usize = if span.0 < FRAGMENT_WINDOW {
        0
    } else {
        span.0 - FRAGMENT_WINDOW
    };
    let end: usize = if n - span.1 < FRAGMENT_WINDOW {
        n
    } else {
        span.1 + FRAGMENT_WINDOW
    };
    (start, end)
}

fn covered(span: (usize, usize), windows: &Vec<(usize, usize)>) -> (r: bool)
    ensures
        r == is_covered(span, windows@),
{
    let mut i: usize = 0;
    while i < windows.len()
        invariant
            i <= windows@.len(),
            forall|k: int| 0 <= k < i ==> !within(span, #[trigger] windows@[k]),
        decreases windows@.len() - i,
    {
        if windows[i].0 <= span.0 && span.1 <= windows[i].1 {
            assert(within(span, windows@[i as int]));
            return true;
        }
        i += 1;
    }
    false
}

fn spans_inside(spans: &Vec<(usize, usize)>, window: (usize, usize)) -> (r: Vec<(usize, usize)>)
    requires
        window.0 <= window.1,
        exists|n: int| spans_ordered(spans@, 0, n),
    ensures
        r@ == inner_spans(spans@, spans@.len() as int, window),
        spans_ordered(r@, 0, window.1 - window.0),
{
    let ghost n = choose|n: int| spans_ordered(spans@, 0, n);
    let mut out: Vec<(usize, usize)> = Vec::new();
    let mut i: usize = 0;
    while i < spans.len()
        invariant
            window.0 <= window.1,
            spans_ordered(spans@, 0, n),
            i <= spans@.len(),
            out@ == inner_spans(spans@, i as int, window),
            spans_ordered(out@, 0, window.1 - window.0),
            out@.len() > 0 ==> i > 0 && out@.last().1 + window.0 <= spans@[i - 1].1,
        decreases spans@.len() - i,
    {
        let (a, b) = spans[i];
        assert(spans@[i as int].0 <= spans@[i as int].1);
        if window.0 <= a && b <= window.1 {
            let ghost before = out@;
            out.push((a - window.0, b - window.0));
            proof {
                assert forall|k: int| 0 <= k < out@.len() implies 0 <= (#[trigger] out@[k]).0
                    <= out@[k].1 <= window.1 - window.0 && (k > 0 ==> out@[k - 1].1
                    <= out@[k].0) by {
                    if k < before.len() {
                        assert(out@[k] == before[k]);
                        if k > 0 {
                            assert(out@[k - 1] == before[k - 1]);
                        }
                    } else if k > 0 {
                        assert(out@[k - 1] == before.last());
                    }
                }
            }
        }
        i += 1;
    }
    out
}

fn push_window_fragments(
    sentence: &str,
    spans: &Vec<(usize, usize)>,
    done: Vec<String>,
    pre_tag: &str,
    post_tag: &str,
) -> (r: Vec<String>)
    requires
        spans_ordered(spans@, 0, sentence@.len() as int),
    ensures
        texts(r@) == window_fragments(
            sentence@,
            spans@,
            0,
            seq![],
            texts(done@),
            pre_tag@,
            post_tag@,
        ),
{
    broadcast use lemma_texts_push;

    let s = chars_of(sentence);
    let ghost start = texts(done@);
    let mut out = done;
    let mut windows: Vec<(usize, usize)> = Vec::new();
    let mut i: usize = 0;
    while i < spans.len()
        invariant
            start == texts(done@),
            s@ == sentence@,
            spans_ordered(spans@, 0, sentence@.len() as int),
            i <= spans@.len(),
            window_fragments(sentence@, spans@, 0, seq![], start, pre_tag@, post_tag@)
                == window_fragments(
                sentence@,
                spans@,
                i as int,
                windows@,
                texts(out@),
                pre_tag@,
                post_tag@,
            ),
        decreases spans@.len() - i,
    {
        let span = spans[i];
        assert(spans@[i as int].0 <= spans@[i as int].1 <= sentence@.len());
        if !covered(span, &windows) {
            let window = find_window(s.len(), span);
            let part = text_between(&s, window.0, window.1);
            let inner = spans_inside(spans, window);
            let fragment = wrap_spans(part.as_str(), &inner, pre_tag, post_tag);
            let ghost before = texts(out@);
            out.push(fragment);
            assert(texts(out@) == before.push(fragment@));
            windows.push(window);
            if out.len() >= MAX_HIGHLIGHT_FRAGMENTS {
                return out;
            }
        }
        i += 1;
    }
    out
}

/// Computes the highlighted sentence-window fragments of `text` for the
/// query terms analyzed with `analyzer`. Each sentence containing a match
/// contributes a fragment (matched words wrapped in tags), in order of
/// appearance, up to [`MAX_HIGHLIGHT_FRAGMENTS`]. A sentence longer than
/// [`LONGEST_WHOLE_SENTENCE`] instead contributes a [`FRAGMENT_WINDOW`]-character
/// window around each match (matches already inside an emitted window are not
/// repeated). Returns `None` when no sentence matches.
pub fn highlight_fragments(
    text: &str,
    terms: &Vec<String>,
    analyzer: Option<&str>,
    pre_tag: &str,
    post_tag: &str,
) -> (r: Option<Vec<String>>)
    ensures
        match r {
            Some(v) => texts(v@) == fragments_of(
                text@,
                texts(terms@),
                opt_str(analyzer),
                pre_tag@,
                post_tag@,
            ) && v@.len() > 0,
            None => fragments_of(
                text@,
                texts(terms@),
                opt_str(analyzer),
                pre_tag@,
                post_tag@,
            ).len() == 0,
        },
{
    broadcast use lemma_texts_push;

    if terms.len() == 0 {
        return None;
    }
    let sentences = split_sentences(text);
    let ghost all = texts(sentences@);
    let ghost ts = texts(terms@);
    let ghost an = opt_str(analyzer);
    let ghost whole = fragments_of(text@, ts, an, pre_tag@, post_tag@);
    let mut out: Vec<String> = Vec::new();
    let mut i: usize = 0;
    assert(texts(out@) =~= seq![]);
    while i < sentences.len()
        invariant
            all == texts(sentences@),
            ts == texts(terms@),
            an == opt_str(analyzer),
            whole == fragments_of(text@, ts, an, pre_tag@, post_tag@),
            i <= sentences@.len(),
            whole == fragments_from(
                all,
                i as int,
                texts(out@),
                ts,
                an,
                pre_tag@,
                post_tag@,
            ),
        decreases sentences@.len() - i,
    {
        assert(all[i as int] == sentences@[i as int]@);
        let sentence = sentences[i].as_str();
        let spans = matched_word_spans(sentence, terms, analyzer);
        if spans.len() > 0 {
            if byte_len(sentence) <= LONGEST_WHOLE_SENTENCE {
                let fragment = wrap_spans(sentence, &spans, pre_tag, post_tag);
                let ghost before = texts(out@);
                out.push(fragment);
                assert(texts(out@) == before.push(fragment@));
            } else {
                out = push_window_fragments(sentence, &spans, out, pre_tag, post_tag);
            }
            if out.len() >= MAX_HIGHLIGHT_FRAGMENTS {
                assert(texts(out@) == whole);
                return Some(out);
            }
        }
        i += 1;
    }
    if out.len() == 0 {
        None
    } else {
        Some(out)
    }
}

// ---------------------------------------------------------------------------
// Laws
// ---------------------------------------------------------------------------

/// Without spans a text is left as it is.
pub proof fn law_no_spans_no_change(s: Seq<char>, pre: Seq<char>, post: Seq<char>)
    ensures
        wrapped(s, seq![], pre, post) == s,
{
    assert(s.skip(0) =~= s);
}

/// With empty tags a text is left as it is.
pub proof fn law_empty_tags_no_change(s: Seq<char>, spans: Seq<(usize, usize)>)
    requires
        spans_ordered(spans, 0, s.len() as int),
    ensures
        wrapped(s, spans, seq![], seq![]) == s,
{
    lemma_empty_tags(s, spans, 0, 0);
    assert(s.skip(0) =~= s);
}

proof fn lemma_empty_tags(s: Seq<char>, spans: Seq<(usize, usize)>, i: int, last: int)
    requires
        spans_ordered(spans, 0, s.len() as int),
        0 <= i <= spans.len(),
        0 <= last <= s.len(),
        i < spans.len() ==> last <= spans[i].0,
    ensures
        wrapped_from(s, spans, i, last, seq![], seq![]) == s.skip(last),
    decreases spans.len() - i,
{
    if i < spans.len() {
        let a = spans[i].0 as int;
        let b = spans[i].1 as int;
        assert(spans[i].0 <= spans[i].1 <= s.len());
        if i + 1 < spans.len() {
            assert(spans[i + 1 - 1].1 <= spans[i + 1].0);
        }
        lemma_empty_tags(s, spans, i + 1, b);
        assert(s.subrange(last, a) + seq![] + s.subrange(a, b) + seq![] + s.skip(b) =~= s.skip(
            last,
        ));
    }
}

/// There are at most [`MAX_HIGHLIGHT_FRAGMENTS`] fragments.
pub proof fn law_at_most_three_fragments(
    text: Seq<char>,
    terms: Seq<Seq<char>>,
    analyzer: Option<Seq<char>>,
    pre: Seq<char>,
    post: Seq<char>,
)
    ensures
        fragments_of(text, terms, analyzer, pre, post).len() <= MAX_HIGHLIGHT_FRAGMENTS,
{
    if terms.len() > 0 {
        lemma_fragments_bound(sentences_of(text), 0, seq![], terms, analyzer, pre, post);
    }
}

proof fn lemma_windows_bound(
    s: Seq<char>,
    spans: Seq<(usize, usize)>,
    i: int,
    windows: Seq<(usize, usize)>,
    done: Seq<Seq<char>>,
    pre: Seq<char>,
    post: Seq<char>,
)
    requires
        done.len() < MAX_HIGHLIGHT_FRAGMENTS,
    ensures
        window_fragments(s, spans, i, windows, done, pre, post).len() <= MAX_HIGHLIGHT_FRAGMENTS,
    decreases spans.len() - i,
{
    if i < spans.len() {
        if is_covered(spans[i], windows) {
            lemma_windows_bound(s, spans, i + 1, windows, done, pre, post);
        } else {
            let window = window_of(s.len(), spans[i]);
            let next = done.push(window_fragment(s, spans, window, pre, post));
            if next.len() < MAX_HIGHLIGHT_FRAGMENTS {
                lemma_windows_bound(s, spans, i + 1, windows.push(window), next, pre, post);
            }
        }
    }
}

proof fn lemma_fragments_bound(
    sentences: Seq<Seq<char>>,
    i: int,
    done: Seq<Seq<char>>,
    terms: Seq<Seq<char>>,
    analyzer: Option<Seq<char>>,
    pre: Seq<char>,
    post: Seq<char>,
)
    requires
        done.len() < MAX_HIGHLIGHT_FRAGMENTS,
    ensures
        fragments_from(sentences, i, done, terms, analyzer, pre, post).len()
            <= MAX_HIGHLIGHT_FRAGMENTS,
    decreases sentences.len() - i,
{
    if i < sentences.len() {
        let s = sentences[i];
        let spans = matched_spans(s, terms, analyzer);
        if spans.len() == 0 {
            lemma_fragments_bound(sentences, i + 1, done, terms, analyzer, pre, post);
        } else {
            let next = sentence_fragments(s, spans, done, pre, post);
            if utf8_len(s) > LONGEST_WHOLE_SENTENCE {
                lemma_windows_bound(s, spans, 0, seq![], done, pre, post);
            }
            if next.len() < MAX_HIGHLIGHT_FRAGMENTS {
                lemma_fragments_bound(sentences, i + 1, next, terms, analyzer, pre, post);
            }
        }
    }
}

/// The sentences of a text, put behind one another, are the text.
pub proof fn law_sentences_make_up_text(s: Seq<char>)
    ensures
        concat(sentences_of(s)) == s,
{
    assert(s.take(0) =~= seq![]);
    lemma_sentences(s, 0, 0, seq![]);
}

/// Texts put behind one another.
pub open spec fn concat(parts: Seq<Seq<char>>) -> Seq<char>
    decreases parts.len(),
{
    if parts.len() == 0 {
        seq![]
    } else {
        concat(parts.drop_last()) + parts.last()
    }
}

proof fn lemma_sentences(s: Seq<char>, i: int, start: int, done: Seq<Seq<char>>)
    requires
        0 <= start <= i <= s.len(),
        concat(done) == s.take(start),
    ensures
        concat(sentences_from(s, i, start, done)) == s,
    decreases s.len() - i,
{
    if i >= s.len() {
        if start < s.len() {
            let r = done.push(s.skip(start));
            assert(r.drop_last() =~= done);
            assert(s.take(start) + s.skip(start) =~= s);
        } else {
            assert(s.take(start) =~= s);
        }
    } else if ends_sentence(s, i) {
        let r = done.push(s.subrange(start, i + 1));
        assert(r.drop_last() =~= done);
        assert(s.take(start) + s.subrange(start, i + 1) =~= s.take(i + 1));
        lemma_sentences(s, i + 1, i + 1, r);
    } else {
        lemma_sentences(s, i + 1, start, done);
    }
}

} // verus!
