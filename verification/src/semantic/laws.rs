//! What semantic answers and captions are taken from.
use crate::json::{JsonV, ZERO_RANK, is_nan_rank, rank_lt};
use crate::query::analyzers::terms_of;
use crate::semantic::answers::{
    all_pieces, answer_sentences, cut_place, ends_fragment, long_pieces, merged_from,
    query_terms_of, raw_fragments, strings_within, text_of_field,
};
use crate::semantic::captions::{last_space, truncated};
use crate::semantic::selection::{
    AnswerCandidateV, ScoredSentenceV, all_candidates, answers_from, best_candidates,
    better_answer, better_sentence, captions_from, document_candidates, nested_answers_of,
    positive_candidates, positive_sentences, sentence_captions,
};
use crate::service::highlight::{matched_spans, wrapped};
use crate::service::highlights::strings_of;
use crate::service::laws::law_trim_is_idempotent;
use crate::service::ordering::ScoredV;
use crate::sorting::{
    all_among, law_sorting_keeps_items, law_sorting_orders_items, sorted_by, strict_order,
};
use crate::storage::document::DocumentV;
use crate::text::{
    is_space, lemma_text_less_irreflexive, lemma_text_less_total, lemma_text_less_transitive,
    text_less, trim, trim_end, trim_start, trimmed_items,
};
use crate::text_laws::{law_text_order_is_lexicographic, precedes};
use vstd::prelude::*;

verus! {

// ---------------------------------------------------------------------------
// Candidates
// ---------------------------------------------------------------------------

proof fn lemma_candidates_prefix(d: DocumentV, a: Seq<Seq<char>>, b: Seq<Seq<char>>, n: int)
    requires
        n <= a.len(),
        n <= b.len(),
        forall|i: int| 0 <= i < n ==> #[trigger] a[i] == b[i],
    ensures
        document_candidates(d, a, n) == document_candidates(d, b, n),
    decreases n,
{
    if n > 0 {
        assert(a[n - 1] == b[n - 1]);
        lemma_candidates_prefix(d, a, b, n - 1);
    }
}

/// The candidates for answers are the sentences of each answer field of each result, in
/// order: one more result adds those of its fields, and one more field adds its
/// sentences, each in its place.
pub proof fn law_every_sentence_is_a_candidate(
    scored: Seq<ScoredV>,
    x: ScoredV,
    fields: Seq<Seq<char>>,
    field: Seq<char>,
    k: int,
)
    ensures
        all_candidates(seq![], fields) == Seq::<AnswerCandidateV>::empty(),
        all_candidates(scored.push(x), fields) == all_candidates(scored, fields)
            + document_candidates(x.document, fields, fields.len() as int),
        ({
            let n = fields.len() as int;
            let before = document_candidates(x.document, fields, n);
            let all = document_candidates(x.document, fields.push(field), n + 1);
            let text = text_of_field(x.document.fields, field);
            let sentences = answer_sentences(text);
            &&& trim(text).len() == 0 ==> all == before
            &&& trim(text).len() > 0 ==> all.len() == before.len() + sentences.len()
            &&& 0 <= k < before.len() ==> all[k] == before[k]
            &&& trim(text).len() > 0 && 0 <= k < sentences.len() ==> all[before.len() as int + k]
                == (AnswerCandidateV {
                key: x.document.key,
                order: n,
                index: k,
                text: sentences[k],
                score: 0,
            })
        }),
{
    assert(scored.push(x).drop_last() =~= scored);
    lemma_candidates_prefix(x.document, fields, fields.push(field), fields.len() as int);
}

// ---------------------------------------------------------------------------
// Answers
// ---------------------------------------------------------------------------

/// Whether a candidate scores.
pub open spec fn scores_some() -> spec_fn(AnswerCandidateV) -> bool {
    |c: AnswerCandidateV| c.score > ZERO_RANK && !is_nan_rank(c.score)
}

proof fn lemma_positive(c: Seq<AnswerCandidateV>, scores: Seq<u64>, n: int, x: AnswerCandidateV)
    requires
        0 <= n <= c.len(),
    ensures
        positive_candidates(c, scores, n).contains(x) <==> exists|k: int|
            0 <= k < n && k < scores.len() && rank_lt(ZERO_RANK, scores[k]) && x == (
            AnswerCandidateV { score: scores[k], ..#[trigger] c[k] }),
        all_among(positive_candidates(c, scores, n), scores_some()),
    decreases n,
{
    if n > 0 {
        lemma_positive(c, scores, n - 1, x);
        let rest = positive_candidates(c, scores, n - 1);
        let all = positive_candidates(c, scores, n);
        if rest.contains(x) {
            let j = choose|j: int| 0 <= j < rest.len() && rest[j] == x;
            assert(all[j] == x);
        }
        if n - 1 < scores.len() && rank_lt(ZERO_RANK, scores[n - 1]) {
            let own = AnswerCandidateV { score: scores[n - 1], ..c[n - 1] };
            assert(all[rest.len() as int] == own);
            assert(scores_some()(own));
        }
        if all.contains(x) {
            let j = choose|j: int| 0 <= j < all.len() && all[j] == x;
            if j < rest.len() {
                assert(rest[j] == x);
            } else {
                assert(x == (AnswerCandidateV { score: scores[n - 1], ..c[n - 1] }));
            }
        }
        assert forall|i: int| 0 <= i < all.len() implies scores_some()(#[trigger] all[i]) by {
            if i < rest.len() {
                assert(all[i] == rest[i]);
            }
        }
    }
}

proof fn lemma_answer_order()
    ensures
        strict_order(scores_some(), better_answer()),
{
    let among = scores_some();
    let before = better_answer();
    assert forall|a: AnswerCandidateV, b: AnswerCandidateV|
        among(a) && among(b) && #[trigger] before(a, b) implies !before(b, a) by {
        if a.score == b.score && a.key != b.key && text_less(a.key, b.key) && text_less(
            b.key,
            a.key,
        ) {
            lemma_text_less_transitive(a.key, b.key, a.key);
            lemma_text_less_irreflexive(a.key);
        }
    }
    assert forall|a: AnswerCandidateV, b: AnswerCandidateV, c: AnswerCandidateV|
        among(a) && among(b) && among(c) && #[trigger] before(a, b) && !(#[trigger] before(
            c,
            b,
        )) implies before(a, c) by {
        if a.score == b.score && b.score == c.score {
            lemma_text_less_total(c.key, b.key);
            lemma_text_less_total(a.key, b.key);
            if text_less(a.key, b.key) && text_less(b.key, c.key) {
                lemma_text_less_transitive(a.key, b.key, c.key);
                if a.key == c.key {
                    lemma_text_less_irreflexive(a.key);
                }
            }
        }
    }
}

/// Whether one answer is to stand ahead of another: by its score, by the key of its
/// document, by its field, and by its place.
pub open spec fn answer_ahead(a: AnswerCandidateV, b: AnswerCandidateV) -> bool {
    a.score > b.score || a.score == b.score && (precedes(a.key, b.key) || a.key == b.key && (a.order
        < b.order || a.order == b.order && a.index < b.index))
}

/// The answers are the candidates that score, with their scores, the best first; none
/// that scores is left out but where there are as many as were asked for, and then none
/// that is better than one that is shown.
pub proof fn law_best_answers(
    c: Seq<AnswerCandidateV>,
    scores: Seq<u64>,
    count: usize,
    k: int,
    i: int,
    j: int,
)
    requires
        0 <= k < c.len(),
    ensures
        ({
            let r = best_candidates(c, scores, count);
            let x = AnswerCandidateV { score: scores[k], ..c[k] };
            &&& k < scores.len() && scores[k] > ZERO_RANK && !is_nan_rank(scores[k])
                && !r.contains(x) ==> r.len() == count && (0 <= i < r.len() ==> !answer_ahead(
                x,
                r[i],
            ))
            &&& 0 <= i < r.len() ==> exists|m: int|
                0 <= m < c.len() && m < scores.len() && rank_lt(ZERO_RANK, scores[m]) && r[i] == (
                AnswerCandidateV { score: scores[m], ..#[trigger] c[m] })
            &&& 0 <= i < j < r.len() ==> !answer_ahead(r[j], r[i])
        }),
{
    broadcast use vstd::seq_lib::group_to_multiset_ensures;

    let kept = positive_candidates(c, scores, c.len() as int);
    let before = better_answer();
    let all = sorted_by(kept, before);
    let r = best_candidates(c, scores, count);
    let x = AnswerCandidateV { score: scores[k], ..c[k] };
    lemma_answer_order();
    lemma_positive(c, scores, c.len() as int, x);
    law_sorting_keeps_items(kept, before);
    law_sorting_orders_items(kept, scores_some(), before);
    if k < scores.len() && scores[k] > ZERO_RANK && !is_nan_rank(scores[k]) && !r.contains(x) {
        assert(rank_lt(ZERO_RANK, scores[k]));
        assert(kept.contains(x));
        assert(kept.to_multiset().count(x) > 0);
        assert(all.contains(x));
        let m = choose|m: int| 0 <= m < all.len() && all[m] == x;
        if m < r.len() {
            assert(r[m] == x);
        }
        if 0 <= i < r.len() {
            assert(r[i] == all[i]);
            assert(i < m);
            assert(!before(all[m], all[i]));
            lemma_answer_ahead(x, r[i]);
        }
    }
    if 0 <= i < r.len() {
        let y = r[i];
        assert(all[i] == y);
        assert(all.contains(y));
        assert(all.to_multiset().count(y) > 0);
        assert(kept.contains(y));
        lemma_positive(c, scores, c.len() as int, y);
    }
    if 0 <= i < j < r.len() {
        assert(r[i] == all[i] && r[j] == all[j]);
        assert(!before(all[j], all[i]));
        assert(scores_some()(all[j]) && scores_some()(all[i]));
        lemma_answer_ahead(r[j], r[i]);
    }
}

proof fn lemma_answer_ahead(a: AnswerCandidateV, b: AnswerCandidateV)
    requires
        scores_some()(a),
        scores_some()(b),
    ensures
        answer_ahead(a, b) == better_answer()(a, b),
{
    law_text_order_is_lexicographic(a.key, b.key);
    lemma_text_less_irreflexive(a.key);
}

/// An answer tells the text of its sentence, the document it is from, its score, and the
/// text with the words of the query in tags.
pub proof fn law_answers_tell_their_source(
    c: Seq<AnswerCandidateV>,
    terms: Seq<Seq<char>>,
    pre: Seq<char>,
    post: Seq<char>,
    i: int,
)
    requires
        0 <= i < c.len(),
    ensures
        answers_from(c, terms, pre, post).len() == c.len(),
        answers_from(c, terms, pre, post)[i].key == c[i].key,
        answers_from(c, terms, pre, post)[i].text == c[i].text,
        answers_from(c, terms, pre, post)[i].score == c[i].score,
        answers_from(c, terms, pre, post)[i].highlights == wrapped(
            c[i].text,
            matched_spans(c[i].text, terms, None),
            pre,
            post,
        ),
{
}

// ---------------------------------------------------------------------------
// Captions
// ---------------------------------------------------------------------------

/// The sentences of the first fields of a document, one behind the other.
pub open spec fn sentences_in(d: DocumentV, fields: Seq<Seq<char>>, n: int) -> Seq<Seq<char>>
    decreases n,
{
    if n <= 0 {
        seq![]
    } else {
        let text = text_of_field(d.fields, fields[n - 1]);
        if trim(text).len() == 0 {
            sentences_in(d, fields, n - 1)
        } else {
            sentences_in(d, fields, n - 1) + answer_sentences(text)
        }
    }
}

/// Whether captions are the first so many sentences, cut to 200 characters.
spec fn are_captions(r: Seq<Seq<char>>, all: Seq<Seq<char>>, count: int) -> bool {
    &&& r.len() == if all.len() < count {
        all.len() as int
    } else {
        count
    }
    &&& forall|i: int| 0 <= i < r.len() ==> #[trigger] r[i] == truncated(all[i], 200)
}

proof fn lemma_sentence_captions_are(
    before: Seq<Seq<char>>,
    sentences: Seq<Seq<char>>,
    i: int,
    done: Seq<Seq<char>>,
    count: int,
)
    requires
        0 <= count,
        0 <= i <= sentences.len(),
        are_captions(done, before + sentences.take(i), count),
    ensures
        are_captions(sentence_captions(sentences, i, done, count), before + sentences, count),
    decreases sentences.len() - i,
{
    let some = before + sentences.take(i);
    let all = before + sentences;
    assert forall|k: int| 0 <= k < some.len() implies some[k] == all[k] by {}
    if i >= sentences.len() || done.len() >= count {
        assert forall|k: int| 0 <= k < done.len() implies #[trigger] done[k] == truncated(
            all[k],
            200,
        ) by {
            assert(done[k] == truncated(some[k], 200));
        }
    } else {
        let next = done.push(truncated(sentences[i], 200));
        let more = before + sentences.take(i + 1);
        assert forall|k: int| 0 <= k < next.len() implies #[trigger] next[k] == truncated(
            more[k],
            200,
        ) by {
            if k < done.len() {
                assert(done[k] == truncated(some[k], 200));
            }
        }
        lemma_sentence_captions_are(before, sentences, i + 1, next, count);
    }
}

proof fn lemma_captions(
    d: DocumentV,
    fields: Seq<Seq<char>>,
    i: int,
    done: Seq<Seq<char>>,
    count: int,
)
    requires
        0 <= count,
        0 <= i <= fields.len(),
        are_captions(done, sentences_in(d, fields, i), count),
    ensures
        are_captions(
            captions_from(d, fields, i, done, count),
            sentences_in(d, fields, fields.len() as int),
            count,
        ),
    decreases fields.len() - i,
{
    if i < fields.len() {
        let before = sentences_in(d, fields, i);
        if done.len() >= count {
            lemma_sentences_grow(d, fields, i, fields.len() as int);
            let all = sentences_in(d, fields, fields.len() as int);
            assert forall|k: int| 0 <= k < done.len() implies #[trigger] done[k] == truncated(
                all[k],
                200,
            ) by {
                assert(done[k] == truncated(before[k], 200));
                assert(all.take(before.len() as int)[k] == all[k]);
            }
        } else {
            let text = text_of_field(d.fields, fields[i]);
            if trim(text).len() == 0 {
                lemma_captions(d, fields, i + 1, done, count);
            } else {
                let sentences = answer_sentences(text);
                assert(before + sentences.take(0) =~= before);
                lemma_sentence_captions_are(before, sentences, 0, done, count);
                lemma_captions(
                    d,
                    fields,
                    i + 1,
                    sentence_captions(sentences, 0, done, count),
                    count,
                );
            }
        }
    }
}

proof fn lemma_sentences_grow(d: DocumentV, fields: Seq<Seq<char>>, i: int, n: int)
    requires
        0 <= i <= n,
    ensures
        sentences_in(d, fields, i).len() <= sentences_in(d, fields, n).len(),
        sentences_in(d, fields, n).take(sentences_in(d, fields, i).len() as int) == sentences_in(
            d,
            fields,
            i,
        ),
    decreases n,
{
    let few = sentences_in(d, fields, i);
    let all = sentences_in(d, fields, n);
    if i == n {
        assert(all.take(all.len() as int) =~= all);
    } else {
        lemma_sentences_grow(d, fields, i, n - 1);
        let some = sentences_in(d, fields, n - 1);
        assert(all.take(few.len() as int) =~= some.take(few.len() as int));
    }
}

/// The captions of a document are the first sentences of its caption fields, in order,
/// as many as were asked for or as there are, each cut to 200 characters.
pub proof fn law_captions_are_first_sentences(
    d: DocumentV,
    fields: Seq<Seq<char>>,
    count: usize,
    i: int,
)
    ensures
        ({
            let r = captions_from(d, fields, 0, seq![], count as int);
            let all = sentences_in(d, fields, fields.len() as int);
            &&& r.len() == if all.len() < count {
                all.len() as int
            } else {
                count as int
            }
            &&& 0 <= i < r.len() ==> r[i] == truncated(all[i], 200)
        }),
{
    lemma_captions(d, fields, 0, seq![], count as int);
}

proof fn lemma_last_blank(s: Seq<char>, n: int)
    requires
        0 <= n <= s.len(),
    ensures
        -1 <= last_space(s, n) < n || n == 0 && last_space(s, n) == -1,
        last_space(s, n) >= 0 ==> is_space(s[last_space(s, n)]),
        forall|k: int| last_space(s, n) < k < n ==> !is_space(#[trigger] s[k]),
    decreases n,
{
    if n > 0 && !is_space(s[n - 1]) {
        lemma_last_blank(s, n - 1);
    }
}

/// Whether a place is behind the last word of a text that ends before another place, or
/// is that place where no word does.
pub open spec fn cut_behind_word(s: Seq<char>, cut: int, keep: int) -> bool {
    &&& 0 <= cut <= keep
    &&& cut < keep ==> is_space(s[cut])
    &&& forall|k: int| cut < k < keep ==> !is_space(#[trigger] s[k])
    &&& cut == keep ==> forall|k: int| 0 <= k < keep ==> !is_space(#[trigger] s[k])
}

/// A text that is too long is cut behind a word, the last that leaves room for the dots,
/// or in the middle of a word where it is the first; whitespace before the dots is left
/// out.
pub proof fn law_long_text_is_cut(text: Seq<char>, max: nat)
    requires
        max >= 3,
        trim(text).len() > max,
    ensures
        exists|cut: int| #[trigger] cut_behind_word(trim(text), cut, max - 3) && truncated(text, max)
            == trim_end(trim(text).take(cut)) + seq!['.', '.', '.'],
{
    reveal_strlit("...");
    assert("..."@ =~= seq!['.', '.', '.']);
    let s = trim(text);
    let keep = max - 3;
    lemma_last_blank(s, keep);
    let at = last_space(s, keep);
    let cut = if at >= 0 {
        at
    } else {
        keep
    };
    assert(cut_behind_word(s, cut, keep));
}

// ---------------------------------------------------------------------------
// Texts and terms
// ---------------------------------------------------------------------------

proof fn lemma_terms_prefix(
    search: Seq<char>,
    a: Seq<Seq<char>>,
    b: Seq<Seq<char>>,
    n: int,
)
    requires
        n <= a.len(),
        n <= b.len(),
        forall|i: int| 0 <= i < n ==> #[trigger] a[i] == b[i],
    ensures
        query_terms_of(search, a, n) == query_terms_of(search, b, n),
    decreases n,
{
    if n > 0 {
        assert(a[n - 1] == b[n - 1]);
        lemma_terms_prefix(search, a, b, n - 1);
    }
}

proof fn lemma_strings_prefix(a: Seq<JsonV>, b: Seq<JsonV>, n: int)
    requires
        n <= a.len(),
        n <= b.len(),
        forall|i: int| 0 <= i < n ==> #[trigger] a[i] == b[i],
    ensures
        strings_within(a, n) == strings_within(b, n),
    decreases n,
{
    if n > 0 {
        assert(a[n - 1] == b[n - 1]);
        lemma_strings_prefix(a, b, n - 1);
    }
}

/// The terms of a semantic query are those of the search text and then those of each
/// question. The texts of a field are those of each of its values, in order.
pub proof fn law_every_question_counts(
    search: Seq<char>,
    questions: Seq<Seq<char>>,
    question: Seq<char>,
    found: Seq<JsonV>,
    v: JsonV,
)
    ensures
        query_terms_of(search, seq![], 0) == terms_of(search, None),
        query_terms_of(search, questions.push(question), questions.len() as int + 1)
            == query_terms_of(search, questions, questions.len() as int) + terms_of(question, None),
        strings_within(found.push(v), found.len() as int + 1) == strings_within(
            found,
            found.len() as int,
        ) + strings_of(v),
{
    lemma_terms_prefix(search, questions, questions.push(question), questions.len() as int);
    lemma_strings_prefix(found, found.push(v), found.len() as int);
}

/// Whether a character can end a sentence of an answer.
pub open spec fn ends_answer(c: char) -> bool {
    c == '.' || c == '!' || c == '?' || c == ';' || c == '\n' || c == '\r'
}

proof fn lemma_raw_behind(x: Seq<char>, t: Seq<char>, i: int, start: int, done: Seq<Seq<char>>)
    requires
        0 <= start <= i <= t.len(),
    ensures
        raw_fragments(x + t, x.len() + i, x.len() + start, done) == done + raw_fragments(
            t,
            i,
            start,
            seq![],
        ),
    decreases t.len() - i,
{
    let s = x + t;
    let n = x.len() as int;
    if i >= t.len() {
        if start < t.len() {
            assert(s.skip(n + start) =~= t.skip(start));
            assert(done.push(t.skip(start)) =~= done + Seq::<Seq<char>>::empty().push(
                t.skip(start),
            ));
        } else {
            assert(done + Seq::<Seq<char>>::empty() =~= done);
        }
    } else {
        assert(s[n + i] == t[i]);
        if i + 1 < t.len() {
            assert(s[n + i + 1] == t[i + 1]);
        }
        assert(ends_fragment(s, n + i) == ends_fragment(t, i));
        if ends_fragment(t, i) {
            let own = t.subrange(start, i + 1);
            assert(s.subrange(n + start, n + i + 1) =~= own);
            lemma_raw_behind(x, t, i + 1, i + 1, done.push(own));
            let none = Seq::<char>::empty();
            lemma_raw_behind(none, t, i + 1, i + 1, seq![own]);
            assert(none + t =~= t);
            assert(Seq::<Seq<char>>::empty().push(own) =~= seq![own]);
            let rest = raw_fragments(t, i + 1, i + 1, seq![]);
            assert(done.push(own) + rest =~= done + (seq![own] + rest));
        } else {
            lemma_raw_behind(x, t, i + 1, start, done);
        }
    }
}

proof fn lemma_raw_first(a: Seq<char>, b: Seq<char>, i: int)
    requires
        0 <= i < a.len(),
        forall|k: int|
            0 <= k < a.len() - 1 && ends_answer(#[trigger] a[k]) ==> !is_space(a[k + 1]),
        ends_answer(a.last()),
        b.len() > 0,
        is_space(b[0]),
    ensures
        raw_fragments(a + b, i, 0, seq![]) == seq![a] + raw_fragments(b, 0, 0, seq![]),
    decreases a.len() - i,
{
    let s = a + b;
    let n = a.len() as int;
    assert(s[i] == a[i]);
    if i + 1 < n {
        assert(s[i + 1] == a[i + 1]);
        assert(!ends_fragment(s, i)) by {
            if ends_answer(a[i]) {
                assert(!is_space(a[i + 1]));
            }
        }
        lemma_raw_first(a, b, i + 1);
    } else {
        assert(s[i + 1] == b[0]);
        assert(ends_fragment(s, i));
        assert(s.subrange(0, n) =~= a);
        assert(Seq::<Seq<char>>::empty().push(a) =~= seq![a]);
        lemma_raw_behind(a, b, 0, 0, seq![a]);
    }
}

proof fn lemma_merged_behind(
    x: Seq<Seq<char>>,
    y: Seq<Seq<char>>,
    i: int,
    pending: Seq<char>,
    done: Seq<Seq<char>>,
)
    requires
        0 <= i <= y.len(),
    ensures
        merged_from(x + y, x.len() + i, pending, done) == done + merged_from(
            y,
            i,
            pending,
            seq![],
        ),
    decreases y.len() - i,
{
    let all = x + y;
    let none = Seq::<Seq<char>>::empty();
    if i >= y.len() {
        assert(done + none =~= done);
        assert(done + none.push(pending) =~= done.push(pending));
    } else {
        assert(all[x.len() as int + i] == y[i]);
        let f = trim(y[i]);
        if f.len() == 0 {
            lemma_merged_behind(x, y, i + 1, pending, done);
        } else {
            let next = if pending.len() == 0 {
                f
            } else {
                pending.push(' ') + f
            };
            if trim(next).len() >= 20 {
                lemma_merged_behind(x, y, i + 1, seq![], done.push(next));
                lemma_merged_behind(none, y, i + 1, seq![], none.push(next));
                assert(none + y =~= y);
                let rest = merged_from(y, i + 1, seq![], none);
                assert(done.push(next) + rest =~= done + (none.push(next) + rest));
            } else {
                lemma_merged_behind(x, y, i + 1, next, done);
            }
        }
    }
}

proof fn lemma_long_behind(s: Seq<char>, done: Seq<Seq<char>>)
    ensures
        long_pieces(s, done) == done + long_pieces(s, seq![]),
    decreases s.len(),
{
    let none = Seq::<Seq<char>>::empty();
    assert(done + none =~= done);
    if s.len() <= 500 {
        assert(done + none.push(s) =~= done.push(s));
    } else {
        let at = cut_place(s);
        let rest = trim_start(s.skip(at));
        if rest.len() < s.len() {
            lemma_long_behind(rest, done.push(s.take(at)));
            lemma_long_behind(rest, none.push(s.take(at)));
            let more = long_pieces(rest, none);
            assert(done.push(s.take(at)) + more =~= done + (none.push(s.take(at)) + more));
        }
    }
}

proof fn lemma_all_behind(
    x: Seq<Seq<char>>,
    y: Seq<Seq<char>>,
    i: int,
    done: Seq<Seq<char>>,
)
    requires
        0 <= i <= y.len(),
    ensures
        all_pieces(x + y, x.len() + i, done) == done + all_pieces(y, i, seq![]),
    decreases y.len() - i,
{
    let all = x + y;
    let none = Seq::<Seq<char>>::empty();
    if i >= y.len() {
        assert(done + none =~= done);
    } else {
        assert(all[x.len() as int + i] == y[i]);
        let t = trim(y[i]);
        lemma_long_behind(t, done);
        let own = long_pieces(t, none);
        lemma_all_behind(x, y, i + 1, done + own);
        lemma_all_behind(none, y, i + 1, own);
        assert(none + y =~= y);
        let rest = all_pieces(y, i + 1, none);
        assert(done + own + rest =~= done + (own + rest));
    }
}

proof fn lemma_trimmed_first(first: Seq<char>, rest: Seq<Seq<char>>)
    requires
        trim(first) == first,
        first.len() > 0,
    ensures
        trimmed_items(seq![first] + rest) == seq![first] + trimmed_items(rest),
    decreases rest.len(),
{
    let all = seq![first] + rest;
    if rest.len() == 0 {
        assert(all =~= seq![first]);
        assert(all.drop_last() =~= seq![]);
        assert(all.last() == first);
        assert(trimmed_items(all.drop_last()) == Seq::<Seq<char>>::empty());
        assert(trimmed_items(all) =~= seq![first] + trimmed_items(rest));
    } else {
        assert(all.drop_last() =~= seq![first] + rest.drop_last());
        assert(all.last() == rest.last());
        lemma_trimmed_first(first, rest.drop_last());
        assert(trimmed_items(all) =~= seq![first] + trimmed_items(rest));
    }
}

/// A sentence of 20 to 500 characters, up to the first mark that whitespace follows, is
/// a sentence of its own, without the whitespace around it, and the others are those of
/// what comes behind it.
pub proof fn law_first_sentence(a: Seq<char>, b: Seq<char>)
    requires
        a.len() > 0,
        forall|k: int|
            0 <= k < a.len() - 1 && ends_answer(#[trigger] a[k]) ==> !is_space(a[k + 1]),
        ends_answer(a.last()),
        b.len() > 0,
        is_space(b[0]),
        20 <= trim(a).len() <= 500,
    ensures
        answer_sentences(a + b) == seq![trim(a)] + answer_sentences(b),
{
    let none = Seq::<Seq<char>>::empty();
    let f = trim(a);
    let raw = raw_fragments(b, 0, 0, none);
    lemma_raw_first(a, b, 0);
    let all = raw_fragments(a + b, 0, 0, none);
    assert(all == seq![a] + raw);
    assert(all[0] == a);
    law_trim_is_idempotent(a);
    assert(none.push(f) =~= seq![f]);
    lemma_merged_behind(seq![a], raw, 0, seq![], seq![f]);
    let merged = merged_from(raw, 0, seq![], none);
    assert(merged_from(all, 0, seq![], none) == seq![f] + merged);
    let whole = seq![f] + merged;
    assert(whole[0] == f);
    assert(long_pieces(trim(f), none) == seq![f]);
    lemma_all_behind(seq![f], merged, 0, seq![f]);
    let parts = all_pieces(merged, 0, none);
    assert(all_pieces(whole, 0, none) == seq![f] + parts);
    lemma_trimmed_first(f, parts);
}

// ---------------------------------------------------------------------------
// Nested answers
// ---------------------------------------------------------------------------

proof fn lemma_positive_sentences(
    sentences: Seq<Seq<char>>,
    scores: Seq<u64>,
    n: int,
    x: ScoredSentenceV,
)
    requires
        0 <= n <= sentences.len(),
    ensures
        positive_sentences(sentences, scores, n).contains(x) <==> exists|k: int|
            0 <= k < n && k < scores.len() && rank_lt(ZERO_RANK, scores[k]) && x == (
            ScoredSentenceV { text: #[trigger] sentences[k], score: scores[k] }),
    decreases n,
{
    if n > 0 {
        lemma_positive_sentences(sentences, scores, n - 1, x);
        let rest = positive_sentences(sentences, scores, n - 1);
        let all = positive_sentences(sentences, scores, n);
        if rest.contains(x) {
            let j = choose|j: int| 0 <= j < rest.len() && rest[j] == x;
            assert(all[j] == x);
        }
        if n - 1 < scores.len() && rank_lt(ZERO_RANK, scores[n - 1]) {
            assert(all[rest.len() as int] == (ScoredSentenceV {
                text: sentences[n - 1],
                score: scores[n - 1],
            }));
        }
        if all.contains(x) {
            let j = choose|j: int| 0 <= j < all.len() && all[j] == x;
            if j < rest.len() {
                assert(rest[j] == x);
            } else {
                assert(x.text == sentences[n - 1]);
            }
        }
    }
}

/// The nested answers of a caption are those of its sentences that score, with their
/// scores; all of them where no more than the count do.
pub proof fn law_nested_answers(
    caption: Seq<char>,
    terms: Seq<Seq<char>>,
    count: usize,
    scores: Seq<u64>,
    pre: Seq<char>,
    post: Seq<char>,
    i: int,
    k: int,
)
    requires
        terms.len() > 0,
    ensures
        ({
            let r = nested_answers_of(caption, terms, count, scores, pre, post);
            let sentences = answer_sentences(caption);
            &&& r.len() <= count
            &&& 0 <= i < r.len() ==> exists|m: int|
                0 <= m < sentences.len() && m < scores.len() && rank_lt(ZERO_RANK, scores[m])
                    && r[i].text == #[trigger] sentences[m] && r[i].score == scores[m]
            &&& 0 <= i < r.len() ==> r[i].highlights == wrapped(
                r[i].text,
                matched_spans(r[i].text, terms, None),
                pre,
                post,
            )
            &&& sentences.len() <= count && 0 <= k < sentences.len() && k < scores.len()
                && rank_lt(ZERO_RANK, scores[k]) ==> exists|j: int|
                0 <= j < r.len() && (#[trigger] r[j]).text == sentences[k] && r[j].score
                    == scores[k]
        }),
{
    broadcast use vstd::seq_lib::group_to_multiset_ensures;

    let sentences = answer_sentences(caption);
    let n = sentences.len() as int;
    let kept = positive_sentences(sentences, scores, n);
    let all = sorted_by(kept, better_sentence());
    let r = nested_answers_of(caption, terms, count, scores, pre, post);
    law_sorting_keeps_items(kept, better_sentence());
    lemma_kept_bounds(sentences, scores, n);
    if 0 <= i < r.len() {
        let y = all[i];
        assert(all.contains(y));
        assert(all.to_multiset().count(y) > 0);
        assert(kept.contains(y));
        lemma_positive_sentences(sentences, scores, n, y);
        let m = choose|m: int|
            0 <= m < n && m < scores.len() && rank_lt(ZERO_RANK, scores[m]) && y == (
            ScoredSentenceV { text: #[trigger] sentences[m], score: scores[m] });
        assert(r[i].text == sentences[m]);
    }
    if sentences.len() <= count && 0 <= k < n && k < scores.len() && rank_lt(
        ZERO_RANK,
        scores[k],
    ) {
        let x = ScoredSentenceV { text: sentences[k], score: scores[k] };
        lemma_positive_sentences(sentences, scores, n, x);
        assert(kept.contains(x));
        assert(kept.to_multiset().count(x) > 0);
        assert(all.contains(x));
        let j = choose|j: int| 0 <= j < all.len() && all[j] == x;
        assert(r[j].text == sentences[k]);
    }
}

proof fn lemma_kept_bounds(sentences: Seq<Seq<char>>, scores: Seq<u64>, n: int)
    requires
        0 <= n <= sentences.len(),
    ensures
        positive_sentences(sentences, scores, n).len() <= n,
    decreases n,
{
    if n > 0 {
        lemma_kept_bounds(sentences, scores, n - 1);
    }
}

} // verus!
