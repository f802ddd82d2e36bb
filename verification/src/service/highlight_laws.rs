//! What highlights show of texts.
use crate::json::JsonV;
use crate::query::analyzers::terms_of;
use crate::query::simple::{ClauseV, FullTextQueryV};
use crate::service::highlight::{
    MAX_HIGHLIGHT_FRAGMENTS, ends_sentence, fragments_from, fragments_of, inner_spans, is_covered,
    law_no_spans_no_change, matched_spans, matching_spans, sentence_fragments, sentences_from,
    sentences_of, spans_of_words, spans_ordered, window_fragment, window_fragments, window_of,
    word_matches, word_spans_from, wrapped, wrapped_from,
};
use crate::service::highlights::{
    DocumentHighlight, DocumentHighlightV, FieldHighlight, FieldHighlightV, MarkV, all_fragments,
    document_highlights, field_fragments, highlights_of, raw_terms, strings_of, value_fragments,
};
use crate::service::ordering::ScoredV;
use crate::service::types::SearchQueryV;
use crate::storage::definition::FieldV;
use crate::storage::document::DocumentV;
use crate::storage::keyed::{keyed_find, law_put_item_is_found};
use crate::text::{is_space, next_space, next_word, utf8_len};
use crate::text_laws::lemma_space_bounds;
use vstd::prelude::*;

verus! {

// ---------------------------------------------------------------------------
// Words
// ---------------------------------------------------------------------------

/// Whether a word stands between two places: no whitespace is in it, and whitespace or
/// an end of the text is on both its sides.
pub open spec fn is_run(s: Seq<char>, a: int, b: int) -> bool {
    &&& 0 <= a < b <= s.len()
    &&& forall|k: int| a <= k < b ==> !is_space(#[trigger] s[k])
    &&& a > 0 ==> is_space(s[a - 1])
    &&& b < s.len() ==> is_space(s[b])
}

proof fn lemma_gap(s: Seq<char>, i: int)
    requires
        0 <= i <= s.len(),
    ensures
        i <= next_word(s, i) <= s.len(),
        forall|k: int| i <= k < next_word(s, i) ==> is_space(#[trigger] s[k]),
        next_word(s, i) < s.len() ==> !is_space(s[next_word(s, i)]),
    decreases s.len() - i,
{
    if i < s.len() && is_space(s[i]) {
        lemma_gap(s, i + 1);
    }
}

proof fn lemma_word_spans(s: Seq<char>, i: int, done: Seq<(usize, usize)>, a: usize, b: usize)
    requires
        0 <= i <= s.len(),
        s.len() <= usize::MAX,
        i == 0 || i == s.len() || is_space(s[i]),
    ensures
        word_spans_from(s, i, done).contains((a, b)) <==> done.contains((a, b)) || i <= a && is_run(
            s,
            a as int,
            b as int,
        ),
    decreases s.len() - i,
{
    lemma_gap(s, i);
    let a0 = next_word(s, i);
    if a0 < s.len() {
        lemma_space_bounds(s, a0);
        let b0 = next_space(s, a0);
        let more = done.push((a0 as usize, b0 as usize));
        lemma_word_spans(s, b0, more, a, b);
        assert(is_run(s, a0, b0)) by {
            if a0 > i {
                assert(is_space(s[a0 - 1]));
            }
        }
        assert(more[done.len() as int] == (a0 as usize, b0 as usize));
        if done.contains((a, b)) {
            let j = choose|j: int| 0 <= j < done.len() && done[j] == (a, b);
            assert(more[j] == (a, b));
        }
        if more.contains((a, b)) {
            let j = choose|j: int| 0 <= j < more.len() && more[j] == (a, b);
            if j < done.len() {
                assert(done[j] == (a, b));
            }
        }
        if i <= a && is_run(s, a as int, b as int) && a < b0 {
            assert(!is_space(s[a as int]));
            assert(a >= a0);
            if a > a0 {
                assert(!is_space(s[a - 1]));
            }
            if b < b0 {
                assert(!is_space(s[b as int]));
            }
            if b > b0 {
                assert(is_space(s[b0]));
            }
            assert(a == a0 && b == b0);
        }
    } else if i <= a && is_run(s, a as int, b as int) {
        assert(is_space(s[a as int]));
    }
}

/// The words of a text are found: each of them, where it stands, and nothing else.
pub proof fn law_word_spans(s: Seq<char>, a: usize, b: usize)
    requires
        s.len() <= usize::MAX,
    ensures
        spans_of_words(s).contains((a, b)) <==> is_run(s, a as int, b as int),
{
    lemma_word_spans(s, 0, seq![], a, b);
}

proof fn lemma_matching(
    s: Seq<char>,
    spans: Seq<(usize, usize)>,
    n: int,
    terms: Seq<Seq<char>>,
    analyzer: Option<Seq<char>>,
    a: usize,
    b: usize,
)
    requires
        0 <= n <= spans.len(),
    ensures
        matching_spans(s, spans, n, terms, analyzer).contains((a, b)) <==> spans.take(n).contains(
            (a, b),
        ) && word_matches(s.subrange(a as int, b as int), terms, analyzer),
    decreases n,
{
    if n > 0 {
        lemma_matching(s, spans, n - 1, terms, analyzer, a, b);
        let rest = matching_spans(s, spans, n - 1, terms, analyzer);
        let all = matching_spans(s, spans, n, terms, analyzer);
        let few = spans.take(n - 1);
        let more = spans.take(n);
        assert(more[n - 1] == spans[n - 1]);
        if few.contains((a, b)) {
            let j = choose|j: int| 0 <= j < few.len() && few[j] == (a, b);
            assert(more[j] == (a, b));
        }
        if more.contains((a, b)) {
            let j = choose|j: int| 0 <= j < more.len() && more[j] == (a, b);
            if j < n - 1 {
                assert(few[j] == (a, b));
            }
        }
        if rest.contains((a, b)) {
            let j = choose|j: int| 0 <= j < rest.len() && rest[j] == (a, b);
            assert(all[j] == (a, b));
        }
        if spans[n - 1] == (a, b) && word_matches(
            s.subrange(a as int, b as int),
            terms,
            analyzer,
        ) {
            assert(all[rest.len() as int] == (a, b));
        }
        if all.contains((a, b)) {
            let j = choose|j: int| 0 <= j < all.len() && all[j] == (a, b);
            if j < rest.len() {
                assert(rest[j] == (a, b));
            }
        }
    } else {
        assert(spans.take(0) =~= seq![]);
    }
}

/// Exactly those words are marked that have one of the terms.
pub proof fn law_matching_words_are_marked(
    s: Seq<char>,
    terms: Seq<Seq<char>>,
    analyzer: Option<Seq<char>>,
    a: usize,
    b: usize,
)
    requires
        s.len() <= usize::MAX,
    ensures
        matched_spans(s, terms, analyzer).contains((a, b)) <==> is_run(s, a as int, b as int)
            && exists|k: int, m: int|
            0 <= k < terms_of(s.subrange(a as int, b as int), analyzer).len() && 0 <= m
                < terms.len() && #[trigger] terms_of(s.subrange(a as int, b as int), analyzer)[k]
                == #[trigger] terms[m],
{
    let spans = spans_of_words(s);
    let word = s.subrange(a as int, b as int);
    law_word_spans(s, a, b);
    lemma_matching(s, spans, spans.len() as int, terms, analyzer, a, b);
    assert(spans.take(spans.len() as int) =~= spans);
    if word_matches(word, terms, analyzer) {
        let k = choose|k: int|
            0 <= k < terms_of(word, analyzer).len() && terms.contains(
                #[trigger] terms_of(word, analyzer)[k],
            );
        let m = choose|m: int| 0 <= m < terms.len() && terms[m] == terms_of(word, analyzer)[k];
        assert(terms_of(word, analyzer)[k] == terms[m]);
    }
    if exists|k: int, m: int|
        0 <= k < terms_of(word, analyzer).len() && 0 <= m < terms.len() && #[trigger] terms_of(
            word,
            analyzer,
        )[k] == #[trigger] terms[m] {
        let (k, m) = choose|k: int, m: int|
            0 <= k < terms_of(word, analyzer).len() && 0 <= m < terms.len() && #[trigger] terms_of(
                word,
                analyzer,
            )[k] == #[trigger] terms[m];
        assert(terms.contains(terms_of(word, analyzer)[k]));
    }
}

// ---------------------------------------------------------------------------
// Tags
// ---------------------------------------------------------------------------

proof fn lemma_wrapped_more(
    s: Seq<char>,
    spans: Seq<(usize, usize)>,
    i: int,
    last: int,
    a: usize,
    b: usize,
    pre: Seq<char>,
    post: Seq<char>,
)
    requires
        0 <= i <= spans.len(),
        0 <= last <= a <= b <= s.len(),
        spans_ordered(spans, 0, a as int),
        i < spans.len() ==> last <= spans[i].0,
    ensures
        wrapped_from(s, spans.push((a, b)), i, last, pre, post) == wrapped_from(
            s.take(a as int),
            spans,
            i,
            last,
            pre,
            post,
        ) + pre + s.subrange(a as int, b as int) + post + s.skip(b as int),
    decreases spans.len() - i,
{
    let more = spans.push((a, b));
    let head = s.take(a as int);
    let word = s.subrange(a as int, b as int);
    if i == spans.len() {
        assert(more[i] == (a, b));
        assert(wrapped_from(s, more, i + 1, b as int, pre, post) == s.skip(b as int));
        assert(head.skip(last) =~= s.subrange(last, a as int));
    } else {
        let x = spans[i].0 as int;
        let y = spans[i].1 as int;
        assert(more[i] == spans[i]);
        assert(x <= y <= a);
        if i + 1 < spans.len() {
            assert(spans[i + 1 - 1].1 <= spans[i + 1].0);
        }
        lemma_wrapped_more(s, spans, i + 1, y, a, b, pre, post);
        let lead = s.subrange(last, x) + pre + s.subrange(x, y) + post;
        assert(head.subrange(last, x) =~= s.subrange(last, x));
        assert(head.subrange(x, y) =~= s.subrange(x, y));
        let rest = wrapped_from(head, spans, i + 1, y, pre, post);
        assert(lead + (rest + pre + word + post + s.skip(b as int)) =~= lead + rest + pre + word
            + post + s.skip(b as int));
    }
}

/// A marked word has the one tag before it and the other behind it, and all else stays
/// as it is.
pub proof fn law_marked_word_is_tagged(
    s: Seq<char>,
    spans: Seq<(usize, usize)>,
    a: usize,
    b: usize,
    pre: Seq<char>,
    post: Seq<char>,
)
    requires
        a <= b <= s.len(),
        spans_ordered(spans, 0, a as int),
    ensures
        wrapped(s, seq![], pre, post) == s,
        wrapped(s, spans.push((a, b)), pre, post) == wrapped(s.take(a as int), spans, pre, post)
            + pre + s.subrange(a as int, b as int) + post + s.skip(b as int),
{
    law_no_spans_no_change(s, pre, post);
    lemma_wrapped_more(s, spans, 0, 0, a, b, pre, post);
}

// ---------------------------------------------------------------------------
// Sentences
// ---------------------------------------------------------------------------

/// Whether a character can end a sentence.
pub open spec fn closes(c: char) -> bool {
    c == '.' || c == '!' || c == '?' || c == '\n' || c == '\r'
}

proof fn lemma_sentences_behind(
    x: Seq<char>,
    t: Seq<char>,
    i: int,
    start: int,
    done: Seq<Seq<char>>,
)
    requires
        0 <= start <= i <= t.len(),
    ensures
        sentences_from(x + t, x.len() + i, x.len() + start, done) == done + sentences_from(
            t,
            i,
            start,
            seq![],
        ),
    decreases t.len() - i,
{
    let s = x + t;
    let n = x.len() as int;
    if i >= t.len() {
        if start < t.len() {
            assert(s.skip(n + start) =~= t.skip(start));
            assert(done.push(t.skip(start)) =~= done + Seq::<Seq<char>>::empty().push(
                t.skip(start),
            ));
        } else {
            assert(done + Seq::<Seq<char>>::empty() =~= done);
        }
    } else {
        assert(s[n + i] == t[i]);
        if i + 1 < t.len() {
            assert(s[n + i + 1] == t[i + 1]);
        }
        assert(ends_sentence(s, n + i) == ends_sentence(t, i));
        if ends_sentence(t, i) {
            let own = t.subrange(start, i + 1);
            assert(s.subrange(n + start, n + i + 1) =~= own);
            lemma_sentences_behind(x, t, i + 1, i + 1, done.push(own));
            let none = Seq::<char>::empty();
            lemma_sentences_behind(none, t, i + 1, i + 1, seq![own]);
            assert(none + t =~= t);
            assert(Seq::<Seq<char>>::empty().push(own) =~= seq![own]);
            let rest = sentences_from(t, i + 1, i + 1, seq![]);
            assert(done.push(own) + rest =~= done + (seq![own] + rest));
        } else {
            lemma_sentences_behind(x, t, i + 1, start, done);
        }
    }
}

proof fn lemma_sentences_before(
    a: Seq<char>,
    b: Seq<char>,
    i: int,
    start: int,
    done: Seq<Seq<char>>,
)
    requires
        0 <= start <= i <= a.len(),
        a.len() > 0,
        closes(a.last()),
        b.len() > 0,
        is_space(b[0]),
        i == a.len() ==> start == i,
    ensures
        sentences_from(a + b, i, start, done) == sentences_from(
            a + b,
            a.len() as int,
            a.len() as int,
            sentences_from(a, i, start, done),
        ),
    decreases a.len() - i,
{
    let s = a + b;
    if i < a.len() {
        assert(s[i] == a[i]);
        assert(s[i + 1] == if i + 1 < a.len() {
            a[i + 1]
        } else {
            b[0]
        });
        if i + 1 == a.len() {
            assert(closes(a[i]));
        }
        assert(ends_sentence(s, i) == ends_sentence(a, i));
        if ends_sentence(a, i) {
            assert(s.subrange(start, i + 1) =~= a.subrange(start, i + 1));
            lemma_sentences_before(a, b, i + 1, i + 1, done.push(a.subrange(start, i + 1)));
        } else {
            lemma_sentences_before(a, b, i + 1, start, done);
        }
    }
}

/// A text ends a sentence where a full stop, an exclamation or question mark or the end
/// of a line stands before whitespace, and nowhere else.
pub proof fn law_sentences(a: Seq<char>, b: Seq<char>)
    ensures
        a.len() > 0 && (forall|i: int|
            0 <= i < a.len() - 1 && closes(#[trigger] a[i]) ==> !is_space(a[i + 1]))
            ==> sentences_of(a) == seq![a],
        a.len() > 0 && closes(a.last()) && b.len() > 0 && is_space(b[0]) ==> sentences_of(a + b)
            == sentences_of(a) + sentences_of(b),
        sentences_of(seq![]) == Seq::<Seq<char>>::empty(),
{
    if a.len() > 0 && (forall|i: int|
        0 <= i < a.len() - 1 && closes(#[trigger] a[i]) ==> !is_space(a[i + 1])) {
        lemma_one_sentence(a, 0);
    }
    if a.len() > 0 && closes(a.last()) && b.len() > 0 && is_space(b[0]) {
        lemma_sentences_before(a, b, 0, 0, seq![]);
        lemma_sentences_behind(a, b, 0, 0, sentences_of(a));
    }
}

proof fn lemma_one_sentence(a: Seq<char>, i: int)
    requires
        0 <= i < a.len(),
        forall|k: int| 0 <= k < a.len() - 1 && closes(#[trigger] a[k]) ==> !is_space(a[k + 1]),
    ensures
        sentences_from(a, i, 0, seq![]) == seq![a],
    decreases a.len() - i,
{
    assert(a.skip(0) =~= a);
    assert(a.subrange(0, a.len() as int) =~= a);
    assert(Seq::<Seq<char>>::empty().push(a) =~= seq![a]);
    if i + 1 < a.len() {
        assert(!ends_sentence(a, i)) by {
            if closes(a[i]) {
                assert(!is_space(a[i + 1]));
            }
        }
        lemma_one_sentence(a, i + 1);
    } else {
        let n = a.len() as int;
        let none = Seq::<Seq<char>>::empty();
        assert(sentences_from(a, n, n, none.push(a.subrange(0, i + 1))) == seq![a]);
        assert(sentences_from(a, n, 0, none) == seq![a]);
    }
}

// ---------------------------------------------------------------------------
// Fragments
// ---------------------------------------------------------------------------

/// Those of the first sentences that have a word to mark, with those words in tags.
pub open spec fn marked_sentences(sentences: Seq<Seq<char>>, n: int, mark: MarkV) -> Seq<Seq<char>>
    decreases n,
{
    if n <= 0 {
        seq![]
    } else {
        let s = sentences[n - 1];
        let spans = matched_spans(s, mark.terms, mark.analyzer);
        if spans.len() == 0 {
            marked_sentences(sentences, n - 1, mark)
        } else {
            marked_sentences(sentences, n - 1, mark).push(wrapped(s, spans, mark.pre, mark.post))
        }
    }
}

/// The first three of some fragments.
pub open spec fn first_three(list: Seq<Seq<char>>) -> Seq<Seq<char>> {
    if list.len() <= 3 {
        list
    } else {
        list.take(3)
    }
}

proof fn lemma_marked_grows(sentences: Seq<Seq<char>>, i: int, n: int, mark: MarkV)
    requires
        0 <= i <= n,
    ensures
        marked_sentences(sentences, i, mark).len() <= marked_sentences(sentences, n, mark).len(),
        marked_sentences(sentences, n, mark).take(
            marked_sentences(sentences, i, mark).len() as int,
        ) == marked_sentences(sentences, i, mark),
    decreases n,
{
    if i == n {
        let all = marked_sentences(sentences, n, mark);
        assert(all.take(all.len() as int) =~= all);
    } else {
        lemma_marked_grows(sentences, i, n - 1, mark);
        let few = marked_sentences(sentences, i, mark);
        let some = marked_sentences(sentences, n - 1, mark);
        let all = marked_sentences(sentences, n, mark);
        assert(all.take(few.len() as int) =~= some.take(few.len() as int));
    }
}

proof fn lemma_fragments(sentences: Seq<Seq<char>>, i: int, mark: MarkV)
    requires
        0 <= i <= sentences.len(),
        forall|k: int| 0 <= k < sentences.len() ==> utf8_len(#[trigger] sentences[k]) <= 200,
        marked_sentences(sentences, i, mark).len() < 3,
    ensures
        fragments_from(
            sentences,
            i,
            marked_sentences(sentences, i, mark),
            mark.terms,
            mark.analyzer,
            mark.pre,
            mark.post,
        ) == first_three(marked_sentences(sentences, sentences.len() as int, mark)),
    decreases sentences.len() - i,
{
    if i < sentences.len() {
        let next = marked_sentences(sentences, i + 1, mark);
        let all = marked_sentences(sentences, sentences.len() as int, mark);
        assert(utf8_len(sentences[i]) <= 200);
        if next.len() >= 3 {
            lemma_marked_grows(sentences, i + 1, sentences.len() as int, mark);
            assert(next.len() == 3);
            if all.len() == 3 {
                assert(all.take(3) =~= all);
            }
        } else {
            lemma_fragments(sentences, i + 1, mark);
        }
    }
}

/// The fragments of a text are its first three sentences with a word to mark, each with
/// its words in tags, where no sentence has more than 200 bytes.
pub proof fn law_fragments_are_sentences(text: Seq<char>, mark: MarkV)
    requires
        forall|k: int|
            0 <= k < sentences_of(text).len() ==> utf8_len(#[trigger] sentences_of(text)[k]) <= 200,
        mark.terms.len() > 0,
    ensures
        fragments_of(text, mark.terms, mark.analyzer, mark.pre, mark.post) == first_three(
            marked_sentences(sentences_of(text), sentences_of(text).len() as int, mark),
        ),
{
    lemma_fragments(sentences_of(text), 0, mark);
}

proof fn lemma_inner(
    spans: Seq<(usize, usize)>,
    n: int,
    window: (usize, usize),
    a: usize,
    b: usize,
)
    requires
        0 <= n <= spans.len(),
        window.0 <= a <= b <= window.1,
        forall|k: int| 0 <= k < spans.len() ==> (#[trigger] spans[k]).0 <= spans[k].1,
    ensures
        inner_spans(spans, n, window).contains(((a - window.0) as usize, (b - window.0) as usize))
            <==> spans.take(n).contains((a, b)),
    decreases n,
{
    let x = ((a - window.0) as usize, (b - window.0) as usize);
    if n > 0 {
        lemma_inner(spans, n - 1, window, a, b);
        let rest = inner_spans(spans, n - 1, window);
        let all = inner_spans(spans, n, window);
        let few = spans.take(n - 1);
        let more = spans.take(n);
        assert(more[n - 1] == spans[n - 1]);
        if few.contains((a, b)) {
            let j = choose|j: int| 0 <= j < few.len() && few[j] == (a, b);
            assert(more[j] == (a, b));
        }
        if more.contains((a, b)) {
            let j = choose|j: int| 0 <= j < more.len() && more[j] == (a, b);
            if j < n - 1 {
                assert(few[j] == (a, b));
            } else {
                assert(all[rest.len() as int] == x);
            }
        }
        if rest.contains(x) {
            let j = choose|j: int| 0 <= j < rest.len() && rest[j] == x;
            assert(all[j] == x);
        }
        if all.contains(x) {
            let j = choose|j: int| 0 <= j < all.len() && all[j] == x;
            if j < rest.len() {
                assert(rest[j] == x);
            } else {
                assert(spans[n - 1] == (a, b));
            }
        }
    } else {
        assert(spans.take(0) =~= seq![]);
    }
}

/// Of a sentence with more than 200 bytes a window is shown around a marked word: 100
/// characters to either side or as far as the text goes. Every marked word inside the
/// window is marked there.
pub proof fn law_windows(
    s: Seq<char>,
    spans: Seq<(usize, usize)>,
    a: usize,
    b: usize,
    pre: Seq<char>,
    post: Seq<char>,
)
    requires
        spans.len() > 0,
        spans_ordered(spans, 0, s.len() as int),
        s.len() <= usize::MAX,
        utf8_len(s) > 200,
    ensures
        ({
            let w = window_of(s.len(), spans[0]);
            let shown = sentence_fragments(s, spans, seq![], pre, post);
            &&& shown.len() > 0
            &&& shown[0] == wrapped(
                s.subrange(w.0 as int, w.1 as int),
                inner_spans(spans, spans.len() as int, w),
                pre,
                post,
            )
            &&& w.0 <= spans[0].0 <= spans[0].1 <= w.1 <= s.len()
            &&& w.0 == (if spans[0].0 <= 100 {
                0
            } else {
                spans[0].0 - 100
            })
            &&& w.1 == (if spans[0].1 + 100 >= s.len() {
                s.len() as int
            } else {
                spans[0].1 + 100
            })
            &&& w.0 <= a <= b <= w.1 ==> (inner_spans(spans, spans.len() as int, w).contains(
                ((a - w.0) as usize, (b - w.0) as usize),
            ) <==> spans.contains((a, b)))
        }),
{
    let w = window_of(s.len(), spans[0]);
    assert(spans[0].0 <= spans[0].1 <= s.len());
    let first = window_fragment(s, spans, w, pre, post);
    let done = Seq::<Seq<char>>::empty().push(first);
    assert(!is_covered(spans[0], seq![]));
    lemma_windows_keep(s, spans, 1, seq![].push(w), done, pre, post);
    if w.0 <= a <= b <= w.1 {
        assert(spans.take(spans.len() as int) =~= spans);
        lemma_inner(spans, spans.len() as int, w, a, b);
    }
}

proof fn lemma_windows_keep(
    s: Seq<char>,
    spans: Seq<(usize, usize)>,
    i: int,
    windows: Seq<(usize, usize)>,
    done: Seq<Seq<char>>,
    pre: Seq<char>,
    post: Seq<char>,
)
    requires
        done.len() > 0,
    ensures
        window_fragments(s, spans, i, windows, done, pre, post).len() > 0,
        window_fragments(s, spans, i, windows, done, pre, post)[0] == done[0],
    decreases spans.len() - i,
{
    if i < spans.len() {
        if is_covered(spans[i], windows) {
            lemma_windows_keep(s, spans, i + 1, windows, done, pre, post);
        } else {
            let window = window_of(s.len(), spans[i]);
            let next = done.push(window_fragment(s, spans, window, pre, post));
            assert(next[0] == done[0]);
            if next.len() < MAX_HIGHLIGHT_FRAGMENTS {
                lemma_windows_keep(s, spans, i + 1, windows.push(window), next, pre, post);
            }
        }
    }
}

// ---------------------------------------------------------------------------
// Fields and documents
// ---------------------------------------------------------------------------

/// The fragments of the texts of the first values, one behind the other.
pub open spec fn texts_fragments(found: Seq<JsonV>, n: int, mark: MarkV) -> Seq<Seq<char>>
    decreases n,
{
    if n <= 0 {
        seq![]
    } else {
        texts_fragments(found, n - 1, mark) + all_fragments(strings_of(found[n - 1]), mark)
    }
}

proof fn lemma_texts_fragments_grow(found: Seq<JsonV>, i: int, n: int, mark: MarkV)
    requires
        0 <= i <= n,
    ensures
        texts_fragments(found, i, mark).len() <= texts_fragments(found, n, mark).len(),
        texts_fragments(found, n, mark).take(texts_fragments(found, i, mark).len() as int)
            == texts_fragments(found, i, mark),
    decreases n,
{
    if i == n {
        let all = texts_fragments(found, n, mark);
        assert(all.take(all.len() as int) =~= all);
    } else {
        lemma_texts_fragments_grow(found, i, n - 1, mark);
        let few = texts_fragments(found, i, mark);
        let some = texts_fragments(found, n - 1, mark);
        let all = texts_fragments(found, n, mark);
        assert(all.take(few.len() as int) =~= some.take(few.len() as int));
    }
}

proof fn lemma_value_fragments(found: Seq<JsonV>, i: int, mark: MarkV)
    requires
        0 <= i <= found.len(),
        texts_fragments(found, i, mark).len() < 3,
    ensures
        value_fragments(found, i, texts_fragments(found, i, mark), mark) == first_three(
            texts_fragments(found, found.len() as int, mark),
        ),
    decreases found.len() - i,
{
    if i < found.len() {
        let next = texts_fragments(found, i + 1, mark);
        let all = texts_fragments(found, found.len() as int, mark);
        if next.len() >= 3 {
            lemma_texts_fragments_grow(found, i + 1, found.len() as int, mark);
            assert(next.take(3) =~= all.take(next.len() as int).take(3));
            assert(all.take(next.len() as int).take(3) =~= all.take(3));
            if all.len() == 3 {
                assert(all.take(3) =~= all);
            }
        } else {
            lemma_value_fragments(found, i + 1, mark);
        }
    }
}

/// A field shows the first three fragments of its texts, in order: those of a text, or
/// those of each text of a collection.
pub proof fn law_field_shows_first_fragments(
    found: Seq<JsonV>,
    mark: MarkV,
    list: Seq<Seq<char>>,
    text: Seq<char>,
    items: Seq<JsonV>,
    v: JsonV,
)
    ensures
        value_fragments(found, 0, seq![], mark) == first_three(
            texts_fragments(found, found.len() as int, mark),
        ),
        all_fragments(list.push(text), mark) == all_fragments(list, mark) + fragments_of(
            text,
            mark.terms,
            mark.analyzer,
            mark.pre,
            mark.post,
        ),
        strings_of(JsonV::String(text)) == seq![text],
        strings_of(JsonV::Array(items.push(v))) == (match v {
            JsonV::String(s) => strings_of(JsonV::Array(items)).push(s),
            _ => strings_of(JsonV::Array(items)),
        }),
{
    lemma_value_fragments(found, 0, mark);
    assert(list.push(text).drop_last() =~= list);
    assert(items.push(v).drop_last() =~= items);
}

/// The words that highlight are the texts of the required clauses, each in its place.
pub proof fn law_highlight_terms(query: FullTextQueryV, i: int)
    requires
        query.lucene is None,
        0 <= i < query.required.len(),
    ensures
        raw_terms(query).len() == query.required.len(),
        raw_terms(query)[i] == (match query.required[i] {
            ClauseV::Term(t) => t,
            ClauseV::FuzzyTerm { term, distance } => term,
            ClauseV::Phrase(p) => p,
        }),
{
}

/// A document shows the fragments of each field that was asked for and has some, and of
/// no other field.
pub proof fn law_every_field_is_highlighted(
    d: DocumentV,
    wanted: Seq<Seq<char>>,
    fields: Seq<FieldV>,
    raw: Seq<Seq<char>>,
    pre: Seq<char>,
    post: Seq<char>,
    field: Seq<char>,
)
    ensures
        ({
            let fragments = field_fragments(d, field, fields, raw, pre, post);
            keyed_find::<FieldHighlight>(
                document_highlights(d, wanted, fields, raw, pre, post),
                field,
            ) == (if wanted.contains(field) && fragments.len() > 0 {
                Some(FieldHighlightV { field, fragments })
            } else {
                None
            })
        }),
    decreases wanted.len(),
{
    if wanted.len() > 0 {
        let few = wanted.drop_last();
        let rest = document_highlights(d, few, fields, raw, pre, post);
        let last = wanted.last();
        let fragments = field_fragments(d, last, fields, raw, pre, post);
        law_every_field_is_highlighted(d, few, fields, raw, pre, post, field);
        law_put_item_is_found::<FieldHighlight>(
            rest,
            (FieldHighlightV { field: last, fragments }),
            field,
        );
        assert(wanted[wanted.len() - 1] == last);
        if few.contains(field) {
            let j = choose|j: int| 0 <= j < few.len() && few[j] == field;
            assert(wanted[j] == field);
        }
        if wanted.contains(field) && field != last {
            let j = choose|j: int| 0 <= j < wanted.len() && wanted[j] == field;
            assert(few[j] == field);
        }
    }
}

/// Each document of a page with something to show is shown its highlights.
pub proof fn law_every_document_is_highlighted(
    page: Seq<ScoredV>,
    query: SearchQueryV,
    full_text: FullTextQueryV,
    fields: Seq<FieldV>,
    i: int,
)
    requires
        0 <= i < page.len(),
        query.highlight_fields.len() > 0,
        forall|j: int|
            0 <= j < page.len() && j != i ==> (#[trigger] page[j]).document.key
                != page[i].document.key,
    ensures
        ({
            let d = page[i].document;
            let shown = document_highlights(
                d,
                query.highlight_fields,
                fields,
                raw_terms(full_text),
                query.highlight_pre_tag,
                query.highlight_post_tag,
            );
            keyed_find::<DocumentHighlight>(
                highlights_of(page, query, full_text, fields),
                d.key,
            ) == (if shown.len() > 0 {
                Some(DocumentHighlightV { key: d.key, fields: shown })
            } else {
                None
            })
        }),
    decreases page.len(),
{
    let few = page.drop_last();
    let rest = highlights_of(few, query, full_text, fields);
    let d = page.last().document;
    let shown = document_highlights(
        d,
        query.highlight_fields,
        fields,
        raw_terms(full_text),
        query.highlight_pre_tag,
        query.highlight_post_tag,
    );
    law_put_item_is_found::<DocumentHighlight>(
        rest,
        (DocumentHighlightV { key: d.key, fields: shown }),
        page[i].document.key,
    );
    if i < few.len() {
        assert(few[i] == page[i]);
        assert forall|j: int| 0 <= j < few.len() && j != i implies (#[trigger] few[j]).document.key
            != few[i].document.key by {
            assert(few[j] == page[j]);
        }
        law_every_document_is_highlighted(few, query, full_text, fields, i);
        assert(page[page.len() - 1].document.key != page[i].document.key);
    } else {
        lemma_no_highlight(few, query, full_text, fields, d.key, page);
    }
}

proof fn lemma_no_highlight(
    few: Seq<ScoredV>,
    query: SearchQueryV,
    full_text: FullTextQueryV,
    fields: Seq<FieldV>,
    key: Seq<char>,
    page: Seq<ScoredV>,
)
    requires
        few.len() <= page.len(),
        forall|j: int| 0 <= j < few.len() ==> #[trigger] few[j] == page[j] && page[j].document.key
            != key,
    ensures
        keyed_find::<DocumentHighlight>(highlights_of(few, query, full_text, fields), key) is None,
    decreases few.len(),
{
    if few.len() > 0 && query.highlight_fields.len() > 0 {
        let less = few.drop_last();
        let d = few.last().document;
        assert(few[few.len() - 1] == page[few.len() - 1]);
        assert forall|j: int| 0 <= j < less.len() implies #[trigger] less[j] == page[j]
            && page[j].document.key != key by {
            assert(few[j] == page[j]);
        }
        lemma_no_highlight(less, query, full_text, fields, key, page);
        let shown = document_highlights(
            d,
            query.highlight_fields,
            fields,
            raw_terms(full_text),
            query.highlight_pre_tag,
            query.highlight_post_tag,
        );
        law_put_item_is_found::<DocumentHighlight>(
            highlights_of(less, query, full_text, fields),
            (DocumentHighlightV { key: d.key, fields: shown }),
            key,
        );
    }
}

} // verus!
