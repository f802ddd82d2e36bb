//! Selecting extractive answers and captions: candidates, the counts that scores
//! are made of, and the order of what is selected.
use crate::json::{ZERO_RANK, rank_lt, ranks_less};
use crate::query::analyzers::{analyze, terms_of};
use crate::semantic::answers::{
    all_at_most, answer_sentences, field_text, highlight_text, text_of_field,
};
use crate::semantic::captions::{CAPTION_MAX_LENGTH, law_truncated_fits, truncate, truncated};
use crate::semantic::config::{SemanticConfiguration, SemanticConfigurationV};
use crate::semantic::query::{SemanticQuery, SemanticQueryCaptions, SemanticQueryV};
use crate::service::facets::limited;
use crate::service::highlight::{matched_spans, wrapped};
use crate::service::ordering::{Scored, ScoredV, score_order, scored_views};
use crate::sorting::{sort_items, sorted_by, views_of};
use crate::storage::document::{Document, DocumentV};
use crate::text::{lemma_texts_push, same_text, text_before, text_less, texts, trim, trimmed};
use vstd::prelude::*;

verus! {

// ---------------------------------------------------------------------------
// Counts
// ---------------------------------------------------------------------------

/// How often a term occurs among tokens.
pub open spec fn frequency(tokens: Seq<Seq<char>>, term: Seq<char>) -> nat
    decreases tokens.len(),
{
    if tokens.len() == 0 {
        0
    } else {
        frequency(tokens.drop_last(), term) + if tokens.last() == term {
            1nat
        } else {
            0nat
        }
    }
}

/// How many sentences have a term among their tokens.
pub open spec fn document_frequency(sentences: Seq<Seq<char>>, term: Seq<char>) -> nat
    decreases sentences.len(),
{
    if sentences.len() == 0 {
        0
    } else {
        document_frequency(sentences.drop_last(), term) + if terms_of(
            sentences.last(),
            None,
        ).contains(term) {
            1nat
        } else {
            0nat
        }
    }
}

/// The counts of a sentence: its tokens, and how often each query term occurs.
#[derive(Debug, PartialEq, Eq)]
pub struct SentenceCounts {
    pub length: usize,
    pub frequencies: Vec<usize>,
}

/// Whether counts are those of a sentence.
pub open spec fn counts_sentence(c: SentenceCounts, sentence: Seq<char>, terms: Seq<Seq<char>>) -> bool {
    &&& c.length == terms_of(sentence, None).len()
    &&& c.frequencies@.len() == terms.len()
    &&& forall|i: int|
        0 <= i < terms.len() ==> #[trigger] c.frequencies@[i] == frequency(
            terms_of(sentence, None),
            terms[i],
        )
}

fn count_term(tokens: &Vec<String>, term: &str) -> (r: usize)
    ensures
        r == frequency(texts(tokens@), term@),
        r <= tokens@.len(),
{
    let ghost all = texts(tokens@);
    let n: usize = tokens.len();
    let mut count: usize = 0;
    let mut i: usize = 0;
    while i < n
        invariant
            all == texts(tokens@),
            n == tokens@.len(),
            i <= n,
            count <= i,
            count == frequency(all.take(i as int), term@),
        decreases n - i,
    {
        assert(all.take(i + 1).drop_last() =~= all.take(i as int));
        assert(all[i as int] == tokens@[i as int]@);
        if same_text(tokens[i].as_str(), term) {
            count += 1;
        }
        i += 1;
    }
    assert(all.take(i as int) =~= all);
    count
}

fn count_sentence(sentence: &str, terms: &Vec<String>) -> (r: SentenceCounts)
    ensures
        counts_sentence(r, sentence@, texts(terms@)),
{
    let tokens = analyze(sentence);
    assert(texts(tokens@).len() == tokens@.len());
    let ghost list = texts(terms@);
    let mut frequencies: Vec<usize> = Vec::new();
    let mut i: usize = 0;
    while i < terms.len()
        invariant
            list == texts(terms@),
            texts(tokens@) == terms_of(sentence@, None),
            i <= terms@.len(),
            frequencies@.len() == i,
            forall|k: int|
                0 <= k < i ==> #[trigger] frequencies@[k] == frequency(
                    terms_of(sentence@, None),
                    list[k],
                ),
        decreases terms@.len() - i,
    {
        assert(list[i as int] == terms@[i as int]@);
        frequencies.push(count_term(&tokens, terms[i].as_str()));
        i += 1;
    }
    SentenceCounts { length: tokens.len(), frequencies }
}

fn count_each(sentences: &Vec<String>, terms: &Vec<String>) -> (r: Vec<SentenceCounts>)
    ensures
        r@.len() == sentences@.len(),
        forall|i: int|
            0 <= i < sentences@.len() ==> counts_sentence(
                #[trigger] r@[i],
                sentences@[i]@,
                texts(terms@),
            ),
{
    let mut out: Vec<SentenceCounts> = Vec::new();
    let mut i: usize = 0;
    while i < sentences.len()
        invariant
            i <= sentences@.len(),
            out@.len() == i,
            forall|k: int|
                0 <= k < i ==> counts_sentence(
                    #[trigger] out@[k],
                    sentences@[k]@,
                    texts(terms@),
                ),
        decreases sentences@.len() - i,
    {
        let c = count_sentence(sentences[i].as_str(), terms);
        out.push(c);
        i += 1;
    }
    out
}

fn count_documents_with(counts: &Vec<SentenceCounts>, terms: &Vec<String>, sentences: Ghost<
    Seq<Seq<char>>,
>) -> (r: Vec<usize>)
    requires
        counts@.len() == sentences@.len(),
        forall|i: int|
            0 <= i < counts@.len() ==> counts_sentence(
                #[trigger] counts@[i],
                sentences@[i],
                texts(terms@),
            ),
    ensures
        r@.len() == terms@.len(),
        forall|k: int|
            0 <= k < terms@.len() ==> #[trigger] r@[k] == document_frequency(
                sentences@,
                terms@[k]@,
            ),
{
    let ghost all = sentences@;
    let n: usize = counts.len();
    let mut out: Vec<usize> = Vec::new();
    let mut k: usize = 0;
    while k < terms.len()
        invariant
            all == sentences@,
            n == counts@.len(),
            counts@.len() == all.len(),
            forall|i: int|
                0 <= i < counts@.len() ==> counts_sentence(
                    #[trigger] counts@[i],
                    all[i],
                    texts(terms@),
                ),
            k <= terms@.len(),
            out@.len() == k,
            forall|j: int|
                0 <= j < k ==> #[trigger] out@[j] == document_frequency(all, terms@[j]@),
        decreases terms@.len() - k,
    {
        let mut df: usize = 0;
        let mut i: usize = 0;
        while i < n
            invariant
                all == sentences@,
                n == counts@.len(),
                counts@.len() == all.len(),
                k < terms@.len(),
                forall|j: int|
                    0 <= j < counts@.len() ==> counts_sentence(
                        #[trigger] counts@[j],
                        all[j],
                        texts(terms@),
                    ),
                i <= n,
                df <= i,
                df == document_frequency(all.take(i as int), terms@[k as int]@),
            decreases n - i,
        {
            proof {
                assert(all.take(i + 1).drop_last() =~= all.take(i as int));
                assert(counts_sentence(counts@[i as int], all[i as int], texts(terms@)));
                assert(texts(terms@)[k as int] == terms@[k as int]@);
                law_frequency_counts(terms_of(all[i as int], None), terms@[k as int]@);
            }
            if counts[i].frequencies[k] > 0 {
                df += 1;
            }
            i += 1;
        }
        assert(all.take(i as int) =~= all);
        out.push(df);
        k += 1;
    }
    out
}

/// Counts what the scores of sentences against analyzed query terms are made of:
/// each sentence is a document, analyzed with the full-text (English) analyzer.
/// Gives the counts of each sentence, and in how many sentences each term occurs.
pub fn count_sentences(sentences: &Vec<String>, terms: &Vec<String>) -> (r: (
    Vec<SentenceCounts>,
    Vec<usize>,
))
    ensures
        r.0@.len() == sentences@.len(),
        forall|i: int|
            0 <= i < sentences@.len() ==> counts_sentence(
                #[trigger] r.0@[i],
                sentences@[i]@,
                texts(terms@),
            ),
        r.1@.len() == terms@.len(),
        forall|k: int|
            0 <= k < terms@.len() ==> #[trigger] r.1@[k] == document_frequency(
                texts(sentences@),
                terms@[k]@,
            ),
{
    let counts = count_each(sentences, terms);
    let ghost all = texts(sentences@);
    proof {
        assert forall|i: int| 0 <= i < counts@.len() implies counts_sentence(
            #[trigger] counts@[i],
            all[i],
            texts(terms@),
        ) by {
            assert(all[i] == sentences@[i]@);
        }
    }
    let frequencies = count_documents_with(&counts, terms, Ghost(all));
    (counts, frequencies)
}

/// A term occurs among tokens exactly where its frequency is above zero.
pub proof fn law_frequency_counts(tokens: Seq<Seq<char>>, term: Seq<char>)
    ensures
        frequency(tokens, term) > 0 <==> tokens.contains(term),
        frequency(tokens, term) <= tokens.len(),
    decreases tokens.len(),
{
    if tokens.len() > 0 {
        let rest = tokens.drop_last();
        law_frequency_counts(rest, term);
        if rest.contains(term) {
            let i = choose|i: int| 0 <= i < rest.len() && rest[i] == term;
            assert(tokens[i] == term);
        }
        if tokens.last() == term {
            assert(tokens[tokens.len() - 1] == term);
        }
        if tokens.contains(term) && tokens.last() != term {
            let i = choose|i: int| 0 <= i < tokens.len() && tokens[i] == term;
            assert(rest[i] == term);
        }
    }
}

// ---------------------------------------------------------------------------
// Answers
// ---------------------------------------------------------------------------

/// A candidate sentence: its document, the place of its field among the answer
/// fields, its place among the field's sentences, and its text.
#[derive(Debug, PartialEq, Eq)]
pub struct AnswerCandidate {
    pub key: String,
    pub order: usize,
    pub index: usize,
    pub text: String,
    pub score: u64,
}

/// The mathematical value of an [`AnswerCandidate`].
pub struct AnswerCandidateV {
    pub key: Seq<char>,
    pub order: int,
    pub index: int,
    pub text: Seq<char>,
    pub score: u64,
}

impl View for AnswerCandidate {
    type V = AnswerCandidateV;

    open spec fn view(&self) -> AnswerCandidateV {
        AnswerCandidateV {
            key: self.key@,
            order: self.order as int,
            index: self.index as int,
            text: self.text@,
            score: self.score,
        }
    }
}

/// The candidates among sentences.
pub open spec fn sentence_candidates(key: Seq<char>, order: int, sentences: Seq<Seq<char>>) -> Seq<
    AnswerCandidateV,
> {
    Seq::new(
        sentences.len(),
        |i: int| AnswerCandidateV { key, order, index: i, text: sentences[i], score: 0 },
    )
}

/// The candidates of the first `n` answer fields of a document.
pub open spec fn document_candidates(d: DocumentV, fields: Seq<Seq<char>>, n: int) -> Seq<
    AnswerCandidateV,
>
    decreases n,
{
    if n <= 0 {
        seq![]
    } else {
        let rest = document_candidates(d, fields, n - 1);
        let text = text_of_field(d.fields, fields[n - 1]);
        if trim(text).len() == 0 {
            rest
        } else {
            rest + sentence_candidates(d.key, n - 1, answer_sentences(text))
        }
    }
}

/// The candidates of results.
pub open spec fn all_candidates(scored: Seq<ScoredV>, fields: Seq<Seq<char>>) -> Seq<
    AnswerCandidateV,
>
    decreases scored.len(),
{
    if scored.len() == 0 {
        seq![]
    } else {
        all_candidates(scored.drop_last(), fields) + document_candidates(
            scored.last().document,
            fields,
            fields.len() as int,
        )
    }
}

fn push_sentences(out: &mut Vec<AnswerCandidate>, key: &str, order: usize, sentences: &Vec<String>)
    ensures
        views_of(final(out)@) == views_of(old(out)@) + sentence_candidates(
            key@,
            order as int,
            texts(sentences@),
        ),
{
    let ghost start = views_of(out@);
    let ghost all = sentence_candidates(key@, order as int, texts(sentences@));
    let mut i: usize = 0;
    assert(start + all.take(0) =~= start);
    while i < sentences.len()
        invariant
            all == sentence_candidates(key@, order as int, texts(sentences@)),
            i <= sentences@.len(),
            views_of(out@) == start + all.take(i as int),
        decreases sentences@.len() - i,
    {
        let ghost before = out@;
        assert(texts(sentences@)[i as int] == sentences@[i as int]@);
        let c = AnswerCandidate {
            key: key.to_owned(),
            order,
            index: i,
            text: sentences[i].clone(),
            score: 0,
        };
        out.push(c);
        assert(views_of(out@) =~= views_of(before).push(c@));
        assert(all[i as int] == c@);
        i += 1;
        assert(views_of(out@) =~= start + all.take(i as int));
    }
    assert(all.take(i as int) =~= all);
}

/// Gathers the candidate sentences of the answer fields across results.
pub fn gather_candidates(scored: &Vec<Scored>, fields: &Vec<String>) -> (r: Vec<AnswerCandidate>)
    ensures
        views_of(r@) == all_candidates(scored_views(scored@), texts(fields@)),
{
    let ghost all = scored_views(scored@);
    let ghost list = texts(fields@);
    let mut out: Vec<AnswerCandidate> = Vec::new();
    let mut i: usize = 0;
    assert(views_of(out@) =~= all_candidates(all.take(0), list));
    while i < scored.len()
        invariant
            all == scored_views(scored@),
            list == texts(fields@),
            i <= scored@.len(),
            views_of(out@) == all_candidates(all.take(i as int), list),
        decreases scored@.len() - i,
    {
        assert(all.take(i + 1).drop_last() =~= all.take(i as int));
        assert(all[i as int] == scored@[i as int]@);
        let ghost start = views_of(out@);
        let d = &scored[i].document;
        let mut k: usize = 0;
        assert(start + document_candidates(d@, list, 0) =~= start);
        while k < fields.len()
            invariant
                list == texts(fields@),
                k <= fields@.len(),
                views_of(out@) == start + document_candidates(d@, list, k as int),
            decreases fields@.len() - k,
        {
            assert(list[k as int] == fields@[k as int]@);
            let text = field_text(d, fields[k].as_str());
            if !trimmed(text.as_str()).as_str().is_empty() {
                let sentences = crate::semantic::answers::split_sentences(text.as_str());
                push_sentences(&mut out, d.key.as_str(), k, &sentences);
            }
            k += 1;
            assert(views_of(out@) =~= start + document_candidates(d@, list, k as int));
        }
        i += 1;
    }
    assert(all.take(i as int) =~= all);
    out
}

/// The candidates with a positive score, with their scores; a missing score
/// counts as none.
pub open spec fn positive_candidates(c: Seq<AnswerCandidateV>, scores: Seq<u64>, n: int) -> Seq<
    AnswerCandidateV,
>
    decreases n,
{
    if n <= 0 {
        seq![]
    } else {
        let rest = positive_candidates(c, scores, n - 1);
        if n - 1 < scores.len() && rank_lt(ZERO_RANK, scores[n - 1]) {
            rest.push(AnswerCandidateV { score: scores[n - 1], ..c[n - 1] })
        } else {
            rest
        }
    }
}

/// Better answers come first: the greater score, then the key, the field, and
/// the sentence.
pub open spec fn better_answer() -> spec_fn(AnswerCandidateV, AnswerCandidateV) -> bool {
    |a: AnswerCandidateV, b: AnswerCandidateV|
        {
            if score_order(a.score, b.score) != 0 {
                score_order(a.score, b.score) > 0
            } else if a.key != b.key {
                text_less(a.key, b.key)
            } else if a.order != b.order {
                a.order < b.order
            } else {
                a.index < b.index
            }
        }
}

/// The best candidates, at most `count` of them.
pub open spec fn best_candidates(c: Seq<AnswerCandidateV>, scores: Seq<u64>, count: usize) -> Seq<
    AnswerCandidateV,
> {
    limited(
        sorted_by(positive_candidates(c, scores, c.len() as int), better_answer()),
        Some(count),
    )
}

fn is_better_answer(a: &AnswerCandidate, b: &AnswerCandidate) -> (r: bool)
    ensures
        r == (better_answer())(a@, b@),
{
    if ranks_less(b.score, a.score) {
        return true;
    }
    if ranks_less(a.score, b.score) {
        return false;
    }
    if !same_text(a.key.as_str(), b.key.as_str()) {
        return text_before(a.key.as_str(), b.key.as_str());
    }
    if a.order != b.order {
        return a.order < b.order;
    }
    a.index < b.index
}

/// Ranks scored candidates: those with a positive score, best first, at most
/// `count` of them. Scores are binary64 numbers, by their ranks (see
/// [`crate::json::Number`]).
pub fn rank_answers(candidates: Vec<AnswerCandidate>, scores: &Vec<u64>, count: usize) -> (r: Vec<
    AnswerCandidate,
>)
    ensures
        views_of(r@) == best_candidates(views_of(candidates@), scores@, count),
{
    let ghost all = views_of(candidates@);
    let mut kept: Vec<AnswerCandidate> = Vec::new();
    let mut i: usize = 0;
    assert(views_of(kept@) =~= positive_candidates(all, scores@, 0));
    while i < candidates.len()
        invariant
            all == views_of(candidates@),
            i <= candidates@.len(),
            views_of(kept@) == positive_candidates(all, scores@, i as int),
        decreases candidates@.len() - i,
    {
        assert(all[i as int] == candidates@[i as int]@);
        if i < scores.len() && ranks_less(ZERO_RANK, scores[i]) {
            let ghost before = kept@;
            let c = AnswerCandidate {
                key: candidates[i].key.clone(),
                order: candidates[i].order,
                index: candidates[i].index,
                text: candidates[i].text.clone(),
                score: scores[i],
            };
            kept.push(c);
            assert(views_of(kept@) =~= views_of(before).push(c@));
        }
        i += 1;
    }
    let f = |a: &AnswerCandidate, b: &AnswerCandidate| -> (res: bool)
        ensures
            res == (better_answer())(a@, b@),
        { is_better_answer(a, b) };
    let mut sorted = sort_items(kept, f, Ghost(better_answer()));
    let ghost before = sorted@;
    if count < sorted.len() {
        sorted.truncate(count);
        assert(views_of(sorted@) =~= views_of(before).take(count as int));
    }
    sorted
}

/// A single top-level extractive answer: the text, its source document, and its
/// score.
#[derive(Debug, PartialEq, Eq)]
pub struct SemanticAnswer {
    pub key: String,
    pub text: String,
    pub score: u64,
    pub highlights: String,
}

/// The mathematical value of a [`SemanticAnswer`].
pub struct SemanticAnswerV {
    pub key: Seq<char>,
    pub text: Seq<char>,
    pub score: u64,
    pub highlights: Seq<char>,
}

impl View for SemanticAnswer {
    type V = SemanticAnswerV;

    open spec fn view(&self) -> SemanticAnswerV {
        SemanticAnswerV {
            key: self.key@,
            text: self.text@,
            score: self.score,
            highlights: self.highlights@,
        }
    }
}

/// A text with its query-term matches in tags.
pub open spec fn highlighted(text: Seq<char>, terms: Seq<Seq<char>>, pre: Seq<char>, post: Seq<char>) -> Seq<
    char,
> {
    wrapped(text, matched_spans(text, terms, None), pre, post)
}

/// The answers of candidates.
pub open spec fn answers_from(
    c: Seq<AnswerCandidateV>,
    terms: Seq<Seq<char>>,
    pre: Seq<char>,
    post: Seq<char>,
) -> Seq<SemanticAnswerV> {
    c.map_values(
        |x: AnswerCandidateV|
            SemanticAnswerV {
                key: x.key,
                text: x.text,
                score: x.score,
                highlights: highlighted(x.text, terms, pre, post),
            },
    )
}

/// The answers of a semantic search, given the scores of its candidates.
pub open spec fn answers_of(
    scored: Seq<ScoredV>,
    terms: Seq<Seq<char>>,
    config: SemanticConfigurationV,
    query: SemanticQueryV,
    scores: Seq<u64>,
    pre: Seq<char>,
    post: Seq<char>,
) -> Seq<SemanticAnswerV> {
    match query.answers {
        None => seq![],
        Some(requested) => if terms.len() == 0 || config.answers_fields.len() == 0 {
            seq![]
        } else {
            answers_from(
                best_candidates(
                    all_candidates(scored, config.answers_fields),
                    scores,
                    requested.count,
                ),
                terms,
                pre,
                post,
            )
        },
    }
}

/// Selects the global top-N answers for a semantic search: candidate sentences
/// are gathered from the configuration's answer fields across the full scored
/// result set (before paging), and the top-N (N = `answers.count`) with a
/// positive score are given in score order. `scores` are the scores of the
/// sentences that [`gather_candidates`] gives, in their order.
pub fn select_answers(
    scored: &Vec<Scored>,
    terms: &Vec<String>,
    config: &SemanticConfiguration,
    semantic_query: &SemanticQuery,
    scores: &Vec<u64>,
    pre_tag: &str,
    post_tag: &str,
) -> (r: Vec<SemanticAnswer>)
    ensures
        views_of(r@) == answers_of(
            scored_views(scored@),
            texts(terms@),
            config@,
            semantic_query@,
            scores@,
            pre_tag@,
            post_tag@,
        ),
{
    let mut out: Vec<SemanticAnswer> = Vec::new();
    assert(views_of(out@) =~= seq![]);
    assert(texts(terms@).len() == terms@.len());
    assert(config@.answers_fields.len() == config.answers_fields@.len());
    let count: usize = match &semantic_query.answers {
        None => return out,
        Some(requested) => requested.count,
    };
    if terms.len() == 0 || config.answers_fields.len() == 0 {
        return out;
    }
    let found = gather_candidates(scored, &config.answers_fields);
    let best = rank_answers(found, scores, count);
    let ghost all = answers_from(views_of(best@), texts(terms@), pre_tag@, post_tag@);
    let mut i: usize = 0;
    assert(views_of(out@) =~= all.take(0));
    while i < best.len()
        invariant
            all == answers_from(views_of(best@), texts(terms@), pre_tag@, post_tag@),
            i <= best@.len(),
            views_of(out@) == all.take(i as int),
        decreases best@.len() - i,
    {
        let ghost before = out@;
        assert(views_of(best@)[i as int] == best@[i as int]@);
        let x = SemanticAnswer {
            key: best[i].key.clone(),
            text: best[i].text.clone(),
            score: best[i].score,
            highlights: highlight_text(best[i].text.as_str(), terms, pre_tag, post_tag),
        };
        out.push(x);
        assert(views_of(out@) =~= views_of(before).push(x@));
        assert(all[i as int] == x@);
        i += 1;
        assert(views_of(out@) =~= all.take(i as int));
    }
    assert(all.take(i as int) =~= all);
    out
}

// ---------------------------------------------------------------------------
// Captions
// ---------------------------------------------------------------------------

/// A sentence of a caption with its score.
#[derive(Debug, PartialEq, Eq)]
pub struct ScoredSentence {
    pub text: String,
    pub score: u64,
}

/// The mathematical value of a [`ScoredSentence`].
pub struct ScoredSentenceV {
    pub text: Seq<char>,
    pub score: u64,
}

impl View for ScoredSentence {
    type V = ScoredSentenceV;

    open spec fn view(&self) -> ScoredSentenceV {
        ScoredSentenceV { text: self.text@, score: self.score }
    }
}

/// The first `n` sentences that have a positive score, with their scores.
pub open spec fn positive_sentences(sentences: Seq<Seq<char>>, scores: Seq<u64>, n: int) -> Seq<
    ScoredSentenceV,
>
    decreases n,
{
    if n <= 0 {
        seq![]
    } else {
        let rest = positive_sentences(sentences, scores, n - 1);
        if n - 1 < scores.len() && rank_lt(ZERO_RANK, scores[n - 1]) {
            rest.push(ScoredSentenceV { text: sentences[n - 1], score: scores[n - 1] })
        } else {
            rest
        }
    }
}

/// Better sentences come first: the greater score, then the text.
pub open spec fn better_sentence() -> spec_fn(ScoredSentenceV, ScoredSentenceV) -> bool {
    |a: ScoredSentenceV, b: ScoredSentenceV|
        {
            if score_order(a.score, b.score) != 0 {
                score_order(a.score, b.score) > 0
            } else {
                text_less(a.text, b.text)
            }
        }
}

fn is_better_sentence(a: &ScoredSentence, b: &ScoredSentence) -> (r: bool)
    ensures
        r == (better_sentence())(a@, b@),
{
    if ranks_less(b.score, a.score) {
        return true;
    }
    if ranks_less(a.score, b.score) {
        return false;
    }
    text_before(a.text.as_str(), b.text.as_str())
}

/// Ranks the scored sentences of a caption: those with a positive score, best
/// first, at most `count` of them.
pub fn rank_sentences(sentences: &Vec<String>, scores: &Vec<u64>, count: usize) -> (r: Vec<
    ScoredSentence,
>)
    ensures
        views_of(r@) == limited(
            sorted_by(
                positive_sentences(texts(sentences@), scores@, sentences@.len() as int),
                better_sentence(),
            ),
            Some(count),
        ),
{
    let ghost all = texts(sentences@);
    let mut kept: Vec<ScoredSentence> = Vec::new();
    let mut i: usize = 0;
    assert(views_of(kept@) =~= positive_sentences(all, scores@, 0));
    while i < sentences.len()
        invariant
            all == texts(sentences@),
            i <= sentences@.len(),
            views_of(kept@) == positive_sentences(all, scores@, i as int),
        decreases sentences@.len() - i,
    {
        assert(all[i as int] == sentences@[i as int]@);
        if i < scores.len() && ranks_less(ZERO_RANK, scores[i]) {
            let ghost before = kept@;
            let c = ScoredSentence { text: sentences[i].clone(), score: scores[i] };
            kept.push(c);
            assert(views_of(kept@) =~= views_of(before).push(c@));
        }
        i += 1;
    }
    let f = |a: &ScoredSentence, b: &ScoredSentence| -> (res: bool)
        ensures
            res == (better_sentence())(a@, b@),
        { is_better_sentence(a, b) };
    let mut sorted = sort_items(kept, f, Ghost(better_sentence()));
    let ghost before = sorted@;
    if count < sorted.len() {
        sorted.truncate(count);
        assert(views_of(sorted@) =~= views_of(before).take(count as int));
    }
    sorted
}

/// Captions behind those in `done`, one for each sentence from `i` on, until
/// there are `count` of them.
pub open spec fn sentence_captions(
    sentences: Seq<Seq<char>>,
    i: int,
    done: Seq<Seq<char>>,
    count: int,
) -> Seq<Seq<char>>
    decreases sentences.len() - i,
{
    if i >= sentences.len() || done.len() >= count {
        done
    } else {
        sentence_captions(
            sentences,
            i + 1,
            done.push(truncated(sentences[i], CAPTION_MAX_LENGTH as nat)),
            count,
        )
    }
}

/// The captions of the caption fields from `i` on, behind those in `done`.
pub open spec fn captions_from(
    d: DocumentV,
    fields: Seq<Seq<char>>,
    i: int,
    done: Seq<Seq<char>>,
    count: int,
) -> Seq<Seq<char>>
    decreases fields.len() - i,
{
    if i >= fields.len() || done.len() >= count {
        done
    } else {
        let text = text_of_field(d.fields, fields[i]);
        if trim(text).len() == 0 {
            captions_from(d, fields, i + 1, done, count)
        } else {
            captions_from(
                d,
                fields,
                i + 1,
                sentence_captions(answer_sentences(text), 0, done, count),
                count,
            )
        }
    }
}

/// Selects the caption texts of a document: the first `count` sentences from the
/// caption fields in priority order (falling back to the next field when the
/// current one is empty or exhausted), each truncated to [`CAPTION_MAX_LENGTH`]
/// characters.
pub fn select_caption_texts(doc: &Document, fields: &Vec<String>, count: usize) -> (r: Vec<String>)
    ensures
        texts(r@) == captions_from(doc@, texts(fields@), 0, seq![], count as int),
{
    broadcast use lemma_texts_push;

    let ghost list = texts(fields@);
    let ghost whole = captions_from(doc@, list, 0, seq![], count as int);
    let mut out: Vec<String> = Vec::new();
    let mut i: usize = 0;
    assert(texts(out@) =~= seq![]);
    while i < fields.len()
        invariant
            list == texts(fields@),
            i <= fields@.len(),
            whole == captions_from(doc@, list, 0, seq![], count as int),
            whole == captions_from(doc@, list, i as int, texts(out@), count as int),
        decreases fields@.len() - i,
    {
        broadcast use lemma_texts_push;

        assert(list[i as int] == fields@[i as int]@);
        assert(texts(out@).len() == out@.len());
        if out.len() >= count {
            return out;
        }
        let text = field_text(doc, fields[i].as_str());
        if !trimmed(text.as_str()).as_str().is_empty() {
            let sentences = crate::semantic::answers::split_sentences(text.as_str());
            let ghost all = texts(sentences@);
            let ghost start = texts(out@);
            let mut k: usize = 0;
            while k < sentences.len() && out.len() < count
                invariant
                    all == texts(sentences@),
                    k <= sentences@.len(),
                    sentence_captions(all, 0, start, count as int) == sentence_captions(
                        all,
                        k as int,
                        texts(out@),
                        count as int,
                    ),
                decreases sentences@.len() - k,
            {
                broadcast use lemma_texts_push;

                assert(all[k as int] == sentences@[k as int]@);
                assert(texts(out@).len() == out@.len());
                let ghost before = texts(out@);
                let c = truncate(sentences[k].as_str(), CAPTION_MAX_LENGTH);
                out.push(c);
                assert(texts(out@) == before.push(c@));
                k += 1;
            }
            assert(texts(out@).len() == out@.len());
            assert(sentence_captions(all, 0, start, count as int) == texts(out@));
        }
        i += 1;
    }
    out
}

/// A nested per-caption answer (from `captions.answers`).
#[derive(Debug, PartialEq, Eq)]
pub struct SemanticCaptionAnswer {
    pub text: String,
    pub score: u64,
    pub highlights: String,
}

/// The mathematical value of a [`SemanticCaptionAnswer`].
pub struct CaptionAnswerV {
    pub text: Seq<char>,
    pub score: u64,
    pub highlights: Seq<char>,
}

impl View for SemanticCaptionAnswer {
    type V = CaptionAnswerV;

    open spec fn view(&self) -> CaptionAnswerV {
        CaptionAnswerV { text: self.text@, score: self.score, highlights: self.highlights@ }
    }
}

/// A single caption: representative text with highlights and optional nested
/// answers.
#[derive(Debug, PartialEq, Eq)]
pub struct SemanticCaption {
    pub text: String,
    pub highlights: String,
    pub answers: Vec<SemanticCaptionAnswer>,
}

/// The mathematical value of a [`SemanticCaption`].
pub struct CaptionV {
    pub text: Seq<char>,
    pub highlights: Seq<char>,
    pub answers: Seq<CaptionAnswerV>,
}

impl View for SemanticCaption {
    type V = CaptionV;

    open spec fn view(&self) -> CaptionV {
        CaptionV {
            text: self.text@,
            highlights: self.highlights@,
            answers: views_of(self.answers@),
        }
    }
}

/// The nested answers of a caption, given the scores of its sentences.
pub open spec fn nested_answers_of(
    caption: Seq<char>,
    terms: Seq<Seq<char>>,
    count: usize,
    scores: Seq<u64>,
    pre: Seq<char>,
    post: Seq<char>,
) -> Seq<CaptionAnswerV> {
    if terms.len() == 0 {
        seq![]
    } else {
        let sentences = answer_sentences(caption);
        limited(
            sorted_by(
                positive_sentences(sentences, scores, sentences.len() as int),
                better_sentence(),
            ),
            Some(count),
        ).map_values(
            |x: ScoredSentenceV|
                CaptionAnswerV {
                    text: x.text,
                    score: x.score,
                    highlights: highlighted(x.text, terms, pre, post),
                },
        )
    }
}

/// Extracts nested answers from a caption's text: the caption's sentences, top-N
/// with a positive score. `scores` are the scores of the caption's sentences, in
/// their order.
pub fn select_nested_answers(
    caption_text: &str,
    terms: &Vec<String>,
    count: usize,
    scores: &Vec<u64>,
    pre_tag: &str,
    post_tag: &str,
) -> (r: Vec<SemanticCaptionAnswer>)
    ensures
        views_of(r@) == nested_answers_of(
            caption_text@,
            texts(terms@),
            count,
            scores@,
            pre_tag@,
            post_tag@,
        ),
{
    let mut out: Vec<SemanticCaptionAnswer> = Vec::new();
    assert(views_of(out@) =~= seq![]);
    assert(texts(terms@).len() == terms@.len());
    if terms.len() == 0 {
        return out;
    }
    let sentences = crate::semantic::answers::split_sentences(caption_text);
    assert(texts(sentences@).len() == sentences@.len());
    let best = rank_sentences(&sentences, scores, count);
    let ghost all = nested_answers_of(
        caption_text@,
        texts(terms@),
        count,
        scores@,
        pre_tag@,
        post_tag@,
    );
    let mut i: usize = 0;
    assert(all.len() == views_of(best@).len());
    assert(views_of(out@) =~= all.take(0));
    while i < best.len()
        invariant
            all.len() == best@.len(),
            forall|k: int|
                0 <= k < all.len() ==> #[trigger] all[k] == (CaptionAnswerV {
                    text: best@[k]@.text,
                    score: best@[k]@.score,
                    highlights: highlighted(
                        best@[k]@.text,
                        texts(terms@),
                        pre_tag@,
                        post_tag@,
                    ),
                }),
            i <= best@.len(),
            views_of(out@) == all.take(i as int),
        decreases best@.len() - i,
    {
        let ghost before = out@;
        let x = SemanticCaptionAnswer {
            text: best[i].text.clone(),
            score: best[i].score,
            highlights: highlight_text(best[i].text.as_str(), terms, pre_tag, post_tag),
        };
        out.push(x);
        assert(views_of(out@) =~= views_of(before).push(x@));
        assert(all[i as int] == x@);
        i += 1;
        assert(views_of(out@) =~= all.take(i as int));
    }
    assert(all.take(i as int) =~= all);
    out
}

/// The scores of the caption at a place; none where there are no scores for it.
pub open spec fn scores_at(nested: Seq<Seq<u64>>, i: int) -> Seq<u64> {
    if 0 <= i < nested.len() {
        nested[i]
    } else {
        seq![]
    }
}

/// The captions of caption texts, given the scores of their sentences.
pub open spec fn captions_with(
    list: Seq<Seq<char>>,
    requested: SemanticQueryCaptions,
    terms: Seq<Seq<char>>,
    nested: Seq<Seq<u64>>,
    pre: Seq<char>,
    post: Seq<char>,
) -> Seq<CaptionV> {
    Seq::new(
        list.len(),
        |i: int|
            CaptionV {
                text: list[i],
                highlights: highlighted(list[i], terms, pre, post),
                answers: match requested.answers {
                    Some(a) => nested_answers_of(
                        list[i],
                        terms,
                        a.count,
                        scores_at(nested, i),
                        pre,
                        post,
                    ),
                    None => seq![],
                },
            },
    )
}

/// The captions of a document, given the scores of their sentences.
pub open spec fn captions_of(
    d: DocumentV,
    config: SemanticConfigurationV,
    query: SemanticQueryV,
    terms: Seq<Seq<char>>,
    nested: Seq<Seq<u64>>,
    pre: Seq<char>,
    post: Seq<char>,
) -> Seq<CaptionV> {
    match query.captions {
        None => seq![],
        Some(requested) => captions_with(
            captions_from(d, config.captions_fields, 0, seq![], requested.count as int),
            requested,
            terms,
            nested,
            pre,
            post,
        ),
    }
}

pub open spec fn nested_views(v: Seq<Vec<u64>>) -> Seq<Seq<u64>> {
    v.map_values(|x: Vec<u64>| x@)
}

/// Selects captions for a document: the caption texts of
/// [`select_caption_texts`], highlighted, with nested answers where they were
/// asked for. `nested` are, for each caption, the scores of its sentences.
pub fn select_captions(
    doc: &Document,
    config: &SemanticConfiguration,
    semantic_query: &SemanticQuery,
    terms: &Vec<String>,
    nested: &Vec<Vec<u64>>,
    pre_tag: &str,
    post_tag: &str,
) -> (r: Vec<SemanticCaption>)
    ensures
        views_of(r@) == captions_of(
            doc@,
            config@,
            semantic_query@,
            texts(terms@),
            nested_views(nested@),
            pre_tag@,
            post_tag@,
        ),
{
    let mut out: Vec<SemanticCaption> = Vec::new();
    assert(views_of(out@) =~= seq![]);
    let requested = match &semantic_query.captions {
        None => return out,
        Some(requested) => requested,
    };
    let list = select_caption_texts(doc, &config.captions_fields, requested.count);
    let ghost ts = texts(terms@);
    let ghost all = captions_with(
        texts(list@),
        *requested,
        ts,
        nested_views(nested@),
        pre_tag@,
        post_tag@,
    );
    let mut i: usize = 0;
    assert(views_of(out@) =~= all.take(0));
    while i < list.len()
        invariant
            ts == texts(terms@),
            all == captions_with(
                texts(list@),
                *requested,
                ts,
                nested_views(nested@),
                pre_tag@,
                post_tag@,
            ),
            i <= list@.len(),
            views_of(out@) == all.take(i as int),
        decreases list@.len() - i,
    {
        let ghost before = out@;
        assert(texts(list@)[i as int] == list@[i as int]@);
        let text = list[i].as_str();
        let answers: Vec<SemanticCaptionAnswer> = match &requested.answers {
            Some(a) => if i < nested.len() {
                assert(nested_views(nested@)[i as int] == nested@[i as int]@);
                select_nested_answers(text, terms, a.count, &nested[i], pre_tag, post_tag)
            } else {
                let none: Vec<u64> = Vec::new();
                assert(none@ =~= seq![]);
                select_nested_answers(text, terms, a.count, &none, pre_tag, post_tag)
            },
            None => {
                let none: Vec<SemanticCaptionAnswer> = Vec::new();
                assert(views_of(none@) =~= seq![]);
                none
            },
        };
        let c = SemanticCaption {
            highlights: highlight_text(text, terms, pre_tag, post_tag),
            text: text.to_owned(),
            answers,
        };
        out.push(c);
        assert(views_of(out@) =~= views_of(before).push(c@));
        assert(all[i as int] == c@);
        i += 1;
        assert(views_of(out@) =~= all.take(i as int));
    }
    assert(all.take(i as int) =~= all);
    out
}

// ---------------------------------------------------------------------------
// Laws
// ---------------------------------------------------------------------------

proof fn lemma_sentence_captions(
    sentences: Seq<Seq<char>>,
    i: int,
    done: Seq<Seq<char>>,
    count: int,
)
    requires
        0 <= count,
        done.len() <= count,
        all_at_most(done, CAPTION_MAX_LENGTH as int),
    ensures
        sentence_captions(sentences, i, done, count).len() <= count,
        all_at_most(sentence_captions(sentences, i, done, count), CAPTION_MAX_LENGTH as int),
    decreases sentences.len() - i,
{
    if i < sentences.len() && done.len() < count {
        let t = truncated(sentences[i], CAPTION_MAX_LENGTH as nat);
        law_truncated_fits(sentences[i], CAPTION_MAX_LENGTH as nat);
        assert(all_at_most(done.push(t), CAPTION_MAX_LENGTH as int));
        lemma_sentence_captions(sentences, i + 1, done.push(t), count);
    }
}

/// There are never more captions than asked for, and none is longer than
/// [`CAPTION_MAX_LENGTH`] characters.
pub proof fn law_captions_fit(
    d: DocumentV,
    fields: Seq<Seq<char>>,
    i: int,
    done: Seq<Seq<char>>,
    count: int,
)
    requires
        0 <= count,
        done.len() <= count,
        all_at_most(done, CAPTION_MAX_LENGTH as int),
    ensures
        captions_from(d, fields, i, done, count).len() <= count,
        all_at_most(captions_from(d, fields, i, done, count), CAPTION_MAX_LENGTH as int),
    decreases fields.len() - i,
{
    if i < fields.len() && done.len() < count {
        let text = text_of_field(d.fields, fields[i]);
        if trim(text).len() == 0 {
            law_captions_fit(d, fields, i + 1, done, count);
        } else {
            lemma_sentence_captions(answer_sentences(text), 0, done, count);
            law_captions_fit(
                d,
                fields,
                i + 1,
                sentence_captions(answer_sentences(text), 0, done, count),
                count,
            );
        }
    }
}

/// There are never more answers than asked for.
pub proof fn law_answers_are_bounded(c: Seq<AnswerCandidateV>, scores: Seq<u64>, count: usize)
    ensures
        best_candidates(c, scores, count).len() <= count,
{
}

/// Every candidate that is kept has a positive score.
pub proof fn law_kept_answers_are_positive(c: Seq<AnswerCandidateV>, scores: Seq<u64>, n: int, i: int)
    requires
        0 <= i < positive_candidates(c, scores, n).len(),
    ensures
        rank_lt(ZERO_RANK, positive_candidates(c, scores, n)[i].score),
    decreases n,
{
    if n > 0 {
        let rest = positive_candidates(c, scores, n - 1);
        if i < rest.len() {
            law_kept_answers_are_positive(c, scores, n - 1, i);
        }
    }
}

} // verus!
