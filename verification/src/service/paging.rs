//! Merging scores, and pages of results.
use crate::filter::eval::satisfies;
use crate::filter::expr::{FilterExpr, FilterExprV};
use crate::json::{Json, JsonMap, JsonV, group_json, members, opt_owned};
use crate::query::engine::{KeyScore, KeyScoreV, add_score, with_score};
use crate::service::highlights::{DocumentHighlight, DocumentHighlightV};
use crate::service::ordering::{Scored, ScoredV, lemma_scored_views_push, scored_views};
use crate::service::types::opt_expr;
use crate::sorting::{sort_items, sorted_by, views_of};
use crate::storage::definition::{FieldDefinition, FieldV, field_views};
use crate::storage::document::{Document, DocumentV, document_views};
use crate::storage::index::IndexDefinition;
use crate::storage::keyed::{KeyedList, item_views, keyed_find, keyed_put};
use crate::text::{holds_text, lemma_texts_push, text_before, text_less, texts};
use vstd::prelude::*;

verus! {

// ---------------------------------------------------------------------------
// Scores
// ---------------------------------------------------------------------------

/// The scores of one vector query, with the weight that it has. The weight is a
/// binary64 number, by its rank (see [`crate::json::Number`]).
pub struct VectorList {
    pub weight: u64,
    pub scores: KeyedList<KeyScore>,
}

/// The mathematical value of a [`VectorList`].
pub struct VectorListV {
    pub weight: u64,
    pub scores: Seq<KeyScoreV>,
}

impl View for VectorList {
    type V = VectorListV;

    open spec fn view(&self) -> VectorListV {
        VectorListV { weight: self.weight, scores: self.scores@ }
    }
}

pub open spec fn list_views(v: Seq<VectorList>) -> Seq<VectorListV> {
    v.map_values(|l: VectorList| l@)
}

pub broadcast proof fn lemma_list_views_push(v: Seq<VectorList>, l: VectorList)
    ensures
        #[trigger] list_views(v.push(l)) == list_views(v).push(l@),
{
    assert(list_views(v.push(l)) =~= list_views(v).push(l@));
}

/// Scores with more of them: a key keeps its better score.
pub open spec fn with_scores(scores: Seq<KeyScoreV>, more: Seq<KeyScoreV>) -> Seq<KeyScoreV>
    decreases more.len(),
{
    if more.len() == 0 {
        scores
    } else {
        with_score(with_scores(scores, more.drop_last()), more.last().key, more.last().score)
    }
}

/// Scores with those of several vector queries.
pub open spec fn with_lists(scores: Seq<KeyScoreV>, lists: Seq<VectorListV>) -> Seq<KeyScoreV>
    decreases lists.len(),
{
    if lists.len() == 0 {
        scores
    } else {
        with_scores(with_lists(scores, lists.drop_last()), lists.last().scores)
    }
}

pub(crate) fn add_scores(scores: &mut KeyedList<KeyScore>, more: &KeyedList<KeyScore>)
    ensures
        final(scores)@ == with_scores(old(scores)@, more@),
{
    let ghost start = scores@;
    let mut i: usize = 0;
    assert(more@.take(0) =~= seq![]);
    while i < more.len()
        invariant
            i <= more@.len(),
            scores@ == with_scores(start, more@.take(i as int)),
        decreases more@.len() - i,
    {
        assert(more@.take(i + 1).drop_last() =~= more@.take(i as int));
        let e = more.at(i);
        add_score(scores, e.key.as_str(), e.score);
        i += 1;
    }
    assert(more@.take(i as int) =~= more@);
}

/// Whether one of the vector lists has hits.
pub open spec fn some_hits(lists: Seq<VectorListV>) -> bool {
    exists|i: int| 0 <= i < lists.len() && (#[trigger] lists[i]).scores.len() > 0
}

/// Whether scores have to be fused: both sides produced hits.
pub open spec fn fusion_needed(full_text: Seq<KeyScoreV>, lists: Seq<VectorListV>) -> bool {
    full_text.len() > 0 && some_hits(lists)
}

fn any_hits(lists: &Vec<VectorList>) -> (r: bool)
    ensures
        r == some_hits(list_views(lists@)),
{
    let ghost all = list_views(lists@);
    let mut i: usize = 0;
    while i < lists.len()
        invariant
            all == list_views(lists@),
            i <= lists@.len(),
            forall|k: int| 0 <= k < i ==> (#[trigger] all[k]).scores.len() == 0,
        decreases lists@.len() - i,
    {
        assert(all[i as int] == lists@[i as int]@);
        if lists[i].scores.len() > 0 {
            return true;
        }
        i += 1;
    }
    false
}

/// Merges full-text and vector score lists where they need no fusion: a plain
/// union that keeps the scores, the best of a key.
pub fn merge_scores(full_text: &KeyedList<KeyScore>, lists: &Vec<VectorList>) -> (r: Option<
    KeyedList<KeyScore>,
>)
    ensures
        match r {
            Some(merged) => !fusion_needed(full_text@, list_views(lists@)) && merged@
                == with_lists(full_text@, list_views(lists@)),
            None => fusion_needed(full_text@, list_views(lists@)),
        },
{
    if full_text.len() > 0 && any_hits(lists) {
        return None;
    }
    let ghost all = list_views(lists@);
    let mut merged = full_text.duplicate();
    let mut i: usize = 0;
    assert(all.take(0) =~= seq![]);
    while i < lists.len()
        invariant
            all == list_views(lists@),
            i <= lists@.len(),
            merged@ == with_lists(full_text@, all.take(i as int)),
        decreases lists@.len() - i,
    {
        assert(all.take(i + 1).drop_last() =~= all.take(i as int));
        assert(all[i as int] == lists@[i as int]@);
        add_scores(&mut merged, &lists[i].scores);
        i += 1;
    }
    assert(all.take(i as int) =~= all);
    Some(merged)
}

/// Whether one score ranks before another in a list: the greater score first,
/// then the key.
pub open spec fn ranks_before() -> spec_fn(KeyScoreV, KeyScoreV) -> bool {
    |a: KeyScoreV, b: KeyScoreV|
        a.score > b.score || (a.score == b.score && text_less(a.key, b.key))
}

/// Ranks a score list, best first, with the key as tie-breaker: the order in
/// which rank fusion counts.
pub fn rank_scores(list: &KeyedList<KeyScore>) -> (r: Vec<KeyScore>)
    ensures
        views_of(r@) == sorted_by(list@, ranks_before()),
{
    let items = list.to_vec();
    let ghost all = items@;
    assert(views_of(all) =~= item_views(all));
    let f = |a: &KeyScore, b: &KeyScore| -> (res: bool)
        ensures
            res == (ranks_before())(a@, b@),
        {
            a.score > b.score || (a.score == b.score && text_before(a.key.as_str(), b.key.as_str()))
        };
    sort_items(items, f, Ghost(ranks_before()))
}

/// Whether a document passes a filter.
pub open spec fn passes(filter: Option<FilterExprV>, docs: Seq<DocumentV>, key: Seq<char>) -> bool {
    match filter {
        None => true,
        Some(e) => match keyed_find::<Document>(docs, key) {
            Some(d) => satisfies(e, d.fields),
            None => false,
        },
    }
}

/// The scores of the documents that pass a filter.
pub open spec fn passing_scores(
    scores: Seq<KeyScoreV>,
    filter: Option<FilterExprV>,
    docs: Seq<DocumentV>,
) -> Seq<KeyScoreV>
    decreases scores.len(),
{
    if scores.len() == 0 {
        seq![]
    } else {
        let rest = passing_scores(scores.drop_last(), filter, docs);
        if passes(filter, docs, scores.last().key) {
            keyed_put::<KeyScore>(rest, scores.last())
        } else {
            rest
        }
    }
}

pub(crate) fn passes_filter(
    filter: &Option<FilterExpr>,
    docs: &KeyedList<Document>,
    key: &str,
) -> (r: bool)
    ensures
        r == passes(opt_expr(*filter), docs@, key@),
{
    match filter {
        None => true,
        Some(e) => match docs.get(key) {
            Some(d) => e.matches(&d.fields),
            None => false,
        },
    }
}

/// Keeps the scores of the documents that pass a filter.
pub fn filter_scores(
    scores: &KeyedList<KeyScore>,
    filter: &Option<FilterExpr>,
    docs: &KeyedList<Document>,
) -> (r: KeyedList<KeyScore>)
    ensures
        r@ == passing_scores(scores@, opt_expr(*filter), docs@),
{
    let mut out: KeyedList<KeyScore> = KeyedList::new();
    let mut i: usize = 0;
    assert(scores@.take(0) =~= seq![]);
    while i < scores.len()
        invariant
            i <= scores@.len(),
            out@ == passing_scores(scores@.take(i as int), opt_expr(*filter), docs@),
        decreases scores@.len() - i,
    {
        assert(scores@.take(i + 1).drop_last() =~= scores@.take(i as int));
        let e = scores.at(i);
        if passes_filter(filter, docs, e.key.as_str()) {
            out.put(KeyScore { key: e.key.clone(), score: e.score });
        }
        i += 1;
    }
    assert(scores@.take(i as int) =~= scores@);
    out
}

/// The documents of scores, with their scores. A key without a document counts
/// for nothing.
pub open spec fn scored_documents(scores: Seq<KeyScoreV>, docs: Seq<DocumentV>) -> Seq<ScoredV>
    decreases scores.len(),
{
    if scores.len() == 0 {
        seq![]
    } else {
        let rest = scored_documents(scores.drop_last(), docs);
        match keyed_find::<Document>(docs, scores.last().key) {
            Some(document) => rest.push(ScoredV { document, score: scores.last().score }),
            None => rest,
        }
    }
}

/// Finds the documents of scores.
pub fn find_documents(scores: &KeyedList<KeyScore>, docs: &KeyedList<Document>) -> (r: Vec<Scored>)
    ensures
        scored_views(r@) == scored_documents(scores@, docs@),
{
    broadcast use lemma_scored_views_push;

    let mut out: Vec<Scored> = Vec::new();
    let mut i: usize = 0;
    assert(scores@.take(0) =~= seq![]);
    assert(scored_views(out@) =~= scored_documents(scores@.take(0), docs@));
    while i < scores.len()
        invariant
            i <= scores@.len(),
            scored_views(out@) == scored_documents(scores@.take(i as int), docs@),
        decreases scores@.len() - i,
    {
        broadcast use lemma_scored_views_push;

        assert(scores@.take(i + 1).drop_last() =~= scores@.take(i as int));
        let e = scores.at(i);
        if let Some(d) = docs.get(e.key.as_str()) {
            let ghost before = scored_views(out@);
            let s = Scored { document: d.duplicate(), score: e.score };
            out.push(s);
            assert(scored_views(out@) == before.push(s@));
        }
        i += 1;
    }
    assert(scores@.take(i as int) =~= scores@);
    out
}

/// Where only the full-text side produced hits, merging keeps its scores.
pub proof fn law_merging_keeps_native_scores(full_text: Seq<KeyScoreV>, lists: Seq<VectorListV>)
    requires
        !some_hits(lists),
    ensures
        !fusion_needed(full_text, lists),
        with_lists(full_text, lists) == full_text,
    decreases lists.len(),
{
    if lists.len() > 0 {
        let rest = lists.drop_last();
        assert(!some_hits(rest)) by {
            assert forall|i: int| 0 <= i < rest.len() implies (#[trigger] rest[i]).scores.len()
                == 0 by {
                assert(rest[i] == lists[i]);
            }
        }
        law_merging_keeps_native_scores(full_text, rest);
        assert(lists[lists.len() - 1].scores.len() == 0);
    }
}

// ---------------------------------------------------------------------------
// Pages
// ---------------------------------------------------------------------------

/// The outcome of a search.
pub struct SearchOutcome {
    /// The number of matching documents.
    pub total: u64,
    /// The documents of the page.
    pub documents: Vec<Document>,
    /// The scores of the page's documents, by key.
    pub scores: KeyedList<KeyScore>,
    /// The highlights of the page's documents, by key.
    pub highlights: KeyedList<DocumentHighlight>,
    pub facets: Option<Json>,
    pub has_more: bool,
    pub next_skip: u64,
}

/// The mathematical value of a [`SearchOutcome`].
pub struct OutcomeV {
    pub total: u64,
    pub documents: Seq<DocumentV>,
    pub scores: Seq<KeyScoreV>,
    pub highlights: Seq<DocumentHighlightV>,
    pub facets: Option<JsonV>,
    pub has_more: bool,
    pub next_skip: u64,
}

impl View for SearchOutcome {
    type V = OutcomeV;

    open spec fn view(&self) -> OutcomeV {
        OutcomeV {
            total: self.total,
            documents: document_views(self.documents@),
            scores: self.scores@,
            highlights: self.highlights@,
            facets: opt_owned(self.facets),
            has_more: self.has_more,
            next_skip: self.next_skip,
        }
    }
}

/// A number of results, within what can be counted.
pub open spec fn countable(n: u64) -> int {
    if n <= usize::MAX {
        n as int
    } else {
        usize::MAX as int
    }
}

/// Where a page ends among `n` results.
pub open spec fn page_end(n: int, skip: u64, top: Option<u64>) -> int {
    let start = page_start(n, skip);
    match top {
        Some(t) => if start + countable(t) < n {
            start + countable(t)
        } else {
            n
        },
        None => n,
    }
}

/// Where a page starts among `n` results.
pub open spec fn page_start(n: int, skip: u64) -> int {
    if countable(skip) < n {
        countable(skip)
    } else {
        n
    }
}

/// The page of results behind the first `skip`, at most `top` of them.
pub open spec fn page_of<V>(scored: Seq<V>, skip: u64, top: Option<u64>) -> Seq<V> {
    scored.subrange(
        page_start(scored.len() as int, skip),
        page_end(scored.len() as int, skip, top),
    )
}

/// What the page after a page skips.
pub open spec fn skip_after(skip: u64, len: int) -> u64 {
    if countable(skip) + len <= usize::MAX {
        (countable(skip) + len) as u64
    } else {
        usize::MAX as u64
    }
}

/// A page of results.
pub struct Page {
    pub results: Vec<Scored>,
    pub has_more: bool,
    pub next_skip: u64,
}

/// Slices a scored result list into a page: skips `skip`, takes `top` (or
/// everything when `None`). An empty page ends the sequence even when more
/// documents exist (e.g. `top=0`): otherwise the next token would encode the
/// same skip and a token-following client would loop forever on empty pages.
pub fn paginate(scored: Vec<Scored>, skip: u64, top: Option<u64>, total: u64) -> (r: Page)
    ensures
        scored_views(r.results@) == page_of(scored_views(scored@), skip, top),
        r.next_skip == skip_after(skip, r.results@.len() as int),
        r.has_more == (r.results@.len() > 0 && r.next_skip < total),
{
    broadcast use lemma_scored_views_push;

    let skip_usize: usize = if skip <= usize::MAX as u64 {
        skip as usize
    } else {
        usize::MAX
    };
    let take: usize = match top {
        Some(t) => if t <= usize::MAX as u64 {
            t as usize
        } else {
            usize::MAX
        },
        None => usize::MAX,
    };
    let n: usize = scored.len();
    let start: usize = if skip_usize < n {
        skip_usize
    } else {
        n
    };
    let end: usize = if take < n - start {
        start + take
    } else {
        n
    };
    let ghost all = scored_views(scored@);
    let mut results: Vec<Scored> = Vec::new();
    let mut i: usize = start;
    assert(scored_views(results@) =~= all.subrange(start as int, start as int));
    while i < end
        invariant
            all == scored_views(scored@),
            start <= i <= end <= scored@.len(),
            scored_views(results@) == all.subrange(start as int, i as int),
        decreases end - i,
    {
        broadcast use lemma_scored_views_push;

        let ghost before = scored_views(results@);
        let s = Scored { document: scored[i].document.duplicate(), score: scored[i].score };
        results.push(s);
        assert(scored_views(results@) == before.push(s@));
        assert(all[i as int] == scored@[i as int]@);
        i += 1;
        assert(scored_views(results@) =~= all.subrange(start as int, i as int));
    }
    assert(scored_views(results@).len() == end - start);
    let len: usize = results.len();
    let next: usize = if len <= usize::MAX - skip_usize {
        skip_usize + len
    } else {
        usize::MAX
    };
    let next_skip: u64 = next as u64;
    let has_more = len > 0 && next_skip < total;
    Page { results, has_more, next_skip }
}

// ---------------------------------------------------------------------------
// Projection
// ---------------------------------------------------------------------------

/// The vector fields that results do not show.
pub open spec fn hidden_fields(fields: Seq<FieldV>) -> Seq<Seq<char>>
    decreases fields.len(),
{
    if fields.len() == 0 {
        seq![]
    } else {
        let rest = hidden_fields(fields.drop_last());
        let f = fields.last();
        if f.vector() && !f.retrievable {
            rest.push(f.name)
        } else {
            rest
        }
    }
}

/// Whether a field is shown: it is not hidden, or it was selected.
pub open spec fn is_shown(
    name: Seq<char>,
    hidden: Seq<Seq<char>>,
    select: Seq<Seq<char>>,
) -> bool {
    !hidden.contains(name) || select.contains(name)
}

/// The members of a document that are shown.
pub open spec fn shown_fields(
    m: Seq<(Seq<char>, JsonV)>,
    hidden: Seq<Seq<char>>,
    select: Seq<Seq<char>>,
) -> Seq<(Seq<char>, JsonV)>
    decreases m.len(),
{
    if m.len() == 0 {
        seq![]
    } else {
        let rest = shown_fields(m.drop_last(), hidden, select);
        if is_shown(m.last().0, hidden, select) {
            rest.push(m.last())
        } else {
            rest
        }
    }
}

/// The fields whose values are not to be read back.
pub open spec fn unstored_fields(fields: Seq<FieldV>) -> Seq<Seq<char>>
    decreases fields.len(),
{
    if fields.len() == 0 {
        seq![]
    } else {
        let rest = unstored_fields(fields.drop_last());
        if fields.last().stored {
            rest
        } else {
            rest.push(fields.last().name)
        }
    }
}

/// The members of a document that can be read back.
pub open spec fn stored_members(
    m: Seq<(Seq<char>, JsonV)>,
    fields: Seq<FieldV>,
) -> Seq<(Seq<char>, JsonV)> {
    shown_fields(m, unstored_fields(fields), seq![])
}

/// The documents of a page as they are shown.
pub open spec fn shown_documents(
    page: Seq<ScoredV>,
    fields: Seq<FieldV>,
    select: Seq<Seq<char>>,
) -> Seq<DocumentV> {
    page.map_values(
        |s: ScoredV|
            DocumentV {
                key: s.document.key,
                fields: stored_members(
                    shown_fields(s.document.fields, hidden_fields(fields), select),
                    fields,
                ),
            },
    )
}

/// The scores of a page, by key.
pub open spec fn page_scores(page: Seq<ScoredV>) -> Seq<KeyScoreV>
    decreases page.len(),
{
    if page.len() == 0 {
        seq![]
    } else {
        keyed_put::<KeyScore>(
            page_scores(page.drop_last()),
            (KeyScoreV { key: page.last().document.key, score: page.last().score }),
        )
    }
}

fn find_hidden(fields: &Vec<FieldDefinition>) -> (r: Vec<String>)
    ensures
        texts(r@) == hidden_fields(field_views(fields@)),
{
    broadcast use lemma_texts_push;

    let ghost all = field_views(fields@);
    let mut out: Vec<String> = Vec::new();
    let mut i: usize = 0;
    assert(texts(out@) =~= hidden_fields(all.take(0)));
    while i < fields.len()
        invariant
            all == field_views(fields@),
            i <= fields@.len(),
            texts(out@) == hidden_fields(all.take(i as int)),
        decreases fields@.len() - i,
    {
        broadcast use lemma_texts_push;

        assert(all.take(i + 1).drop_last() =~= all.take(i as int));
        assert(all[i as int] == fields@[i as int]@);
        if fields[i].is_vector_field() && !fields[i].retrievable {
            let ghost before = texts(out@);
            let name = fields[i].name.clone();
            out.push(name);
            assert(texts(out@) == before.push(name@));
        }
        i += 1;
    }
    assert(all.take(i as int) =~= all);
    out
}

fn find_unstored(fields: &Vec<FieldDefinition>) -> (r: Vec<String>)
    ensures
        texts(r@) == unstored_fields(field_views(fields@)),
{
    broadcast use lemma_texts_push;

    let ghost all = field_views(fields@);
    let mut out: Vec<String> = Vec::new();
    let mut i: usize = 0;
    assert(texts(out@) =~= unstored_fields(all.take(0)));
    while i < fields.len()
        invariant
            all == field_views(fields@),
            i <= fields@.len(),
            texts(out@) == unstored_fields(all.take(i as int)),
        decreases fields@.len() - i,
    {
        broadcast use lemma_texts_push;

        assert(all.take(i + 1).drop_last() =~= all.take(i as int));
        assert(all[i as int] == fields@[i as int]@);
        if !fields[i].stored {
            let ghost before = texts(out@);
            let name = fields[i].name.clone();
            out.push(name);
            assert(texts(out@) == before.push(name@));
        }
        i += 1;
    }
    assert(all.take(i as int) =~= all);
    out
}

/// The members of a document whose fields are stored.
pub(crate) fn keep_stored(m: &JsonMap, definition: &IndexDefinition) -> (r: JsonMap)
    ensures
        r@ == stored_members(m@, definition@.fields),
{
    let unstored = find_unstored(&definition.fields);
    let none: Vec<String> = Vec::new();
    assert(texts(none@) =~= seq![]);
    show_fields(m, &unstored, &none)
}

fn show_fields(m: &JsonMap, hidden: &Vec<String>, select: &Vec<String>) -> (r: JsonMap)
    ensures
        r@ == shown_fields(m@, texts(hidden@), texts(select@)),
{
    broadcast use group_json;

    let ghost all = m@;
    let mut entries: Vec<(String, Json)> = Vec::new();
    let mut i: usize = 0;
    assert(members(entries@) =~= shown_fields(all.take(0), texts(hidden@), texts(select@)));
    while i < m.entries.len()
        invariant
            all == m@,
            all == members(m.entries@),
            i <= m.entries@.len(),
            members(entries@) == shown_fields(
                all.take(i as int),
                texts(hidden@),
                texts(select@),
            ),
        decreases m.entries@.len() - i,
    {
        broadcast use group_json;

        assert(all.take(i + 1).drop_last() =~= all.take(i as int));
        assert(all[i as int] == (m.entries@[i as int].0@, m.entries@[i as int].1@));
        let name = m.entries[i].0.as_str();
        if !holds_text(hidden, name) || holds_text(select, name) {
            let ghost before = members(entries@);
            let e = (m.entries[i].0.clone(), m.entries[i].1.duplicate());
            entries.push(e);
            assert(members(entries@) == before.push((e.0@, e.1@)));
        }
        i += 1;
    }
    assert(all.take(i as int) =~= all);
    JsonMap { entries }
}

/// The documents of a page, without vectors that are not retrievable unless
/// they were explicitly selected, and without fields that are not stored.
pub fn project_documents(
    page: &Vec<Scored>,
    select: &Vec<String>,
    definition: &IndexDefinition,
) -> (r: Vec<Document>)
    ensures
        document_views(r@) == shown_documents(
            scored_views(page@),
            definition@.fields,
            texts(select@),
        ),
{
    let hidden = find_hidden(&definition.fields);
    let ghost all = shown_documents(scored_views(page@), definition@.fields, texts(select@));
    let mut out: Vec<Document> = Vec::new();
    let mut i: usize = 0;
    assert(document_views(out@) =~= all.take(0));
    while i < page.len()
        invariant
            all == shown_documents(scored_views(page@), definition@.fields, texts(select@)),
            texts(hidden@) == hidden_fields(definition@.fields),
            i <= page@.len(),
            document_views(out@) == all.take(i as int),
        decreases page@.len() - i,
    {
        let shown = show_fields(&page[i].document.fields, &hidden, select);
        let d = Document {
            key: page[i].document.key.clone(),
            fields: keep_stored(&shown, definition),
        };
        let ghost old_out = out@;
        out.push(d);
        assert(document_views(out@) =~= document_views(old_out).push(d@));
        assert(scored_views(page@)[i as int] == page@[i as int]@);
        assert(all[i as int] == d@);
        i += 1;
        assert(document_views(out@) =~= all.take(i as int));
    }
    assert(all.take(i as int) =~= all);
    out
}

/// The scores of a page, by key.
pub fn collect_page_scores(page: &Vec<Scored>) -> (r: KeyedList<KeyScore>)
    ensures
        r@ == page_scores(scored_views(page@)),
{
    let ghost all = scored_views(page@);
    let mut out: KeyedList<KeyScore> = KeyedList::new();
    let mut i: usize = 0;
    assert(all.take(0) =~= seq![]);
    while i < page.len()
        invariant
            all == scored_views(page@),
            i <= page@.len(),
            out@ == page_scores(all.take(i as int)),
        decreases page@.len() - i,
    {
        assert(all.take(i + 1).drop_last() =~= all.take(i as int));
        assert(all[i as int] == page@[i as int]@);
        out.put(KeyScore { key: page[i].document.key.clone(), score: page[i].score });
        i += 1;
    }
    assert(all.take(i as int) =~= all);
    out
}

// ---------------------------------------------------------------------------
// Laws
// ---------------------------------------------------------------------------

/// Following pages tile the results: the next page starts where a page ends,
/// and what follows is what the page left out. Skips that cannot be counted are
/// left out.
pub proof fn law_pages_tile<V>(scored: Seq<V>, skip: u64, top: Option<u64>)
    requires
        skip <= scored.len() <= usize::MAX,
    ensures
        skip_after(skip, page_of(scored, skip, top).len() as int) == skip + page_of(
            scored,
            skip,
            top,
        ).len(),
        scored.skip(skip as int) == page_of(scored, skip, top) + scored.skip(
            skip_after(skip, page_of(scored, skip, top).len() as int) as int,
        ),
{
    let page = page_of(scored, skip, top);
    let next = skip_after(skip, page.len() as int) as int;
    assert(scored.skip(skip as int) =~= page + scored.skip(next));
}

/// A page that says that there is more moves on, and there is more; the last
/// page reaches the end. An empty page always ends the sequence.
pub proof fn law_paging_ends<V>(scored: Seq<V>, skip: u64, top: Option<u64>)
    requires
        scored.len() <= usize::MAX,
    ensures
        ({
            let page = page_of(scored, skip, top);
            let next = skip_after(skip, page.len() as int);
            let has_more = page.len() > 0 && next < scored.len();
            &&& has_more ==> skip < next && (top matches Some(t) ==> t > 0)
            &&& !has_more && page.len() > 0 ==> next >= scored.len()
            &&& top == Some(0u64) ==> !has_more
        }),
{
}

/// A page holds at most `top` results, and without a limit all that are left.
pub proof fn law_page_size<V>(scored: Seq<V>, skip: u64, top: Option<u64>)
    requires
        scored.len() <= usize::MAX,
    ensures
        top matches Some(t) ==> page_of(scored, skip, top).len() <= t,
        top is None && skip <= scored.len() ==> page_of(scored, skip, top) == scored.skip(
            skip as int,
        ),
{
    if top is None && skip <= scored.len() {
        assert(page_of(scored, skip, top) =~= scored.skip(skip as int));
    }
}

proof fn lemma_shown_fields_contain(
    m: Seq<(Seq<char>, JsonV)>,
    hidden: Seq<Seq<char>>,
    select: Seq<Seq<char>>,
    e: (Seq<char>, JsonV),
)
    ensures
        shown_fields(m, hidden, select).contains(e) <==> m.contains(e) && is_shown(
            e.0,
            hidden,
            select,
        ),
    decreases m.len(),
{
    if m.len() > 0 {
        let rest = shown_fields(m.drop_last(), hidden, select);
        let all = shown_fields(m, hidden, select);
        lemma_shown_fields_contain(m.drop_last(), hidden, select, e);
        assert(m =~= m.drop_last().push(m.last()));
        if m.drop_last().contains(e) {
            let k = choose|k: int| 0 <= k < m.drop_last().len() && m.drop_last()[k] == e;
            assert(m[k] == e);
        }
        if m.contains(e) && !m.drop_last().contains(e) {
            let k = choose|k: int| 0 <= k < m.len() && m[k] == e;
            assert(k == m.len() - 1) by {
                if k < m.len() - 1 {
                    assert(m.drop_last()[k] == e);
                }
            }
        }
        if is_shown(m.last().0, hidden, select) {
            assert(all == rest.push(m.last()));
            assert(all[rest.len() as int] == m.last());
            if rest.contains(e) {
                let k = choose|k: int| 0 <= k < rest.len() && rest[k] == e;
                assert(all[k] == e);
            }
            if all.contains(e) && !rest.contains(e) {
                let k = choose|k: int| 0 <= k < all.len() && all[k] == e;
                assert(k == rest.len()) by {
                    if k < rest.len() {
                        assert(rest[k] == e);
                    }
                }
            }
        }
    }
}

proof fn lemma_pushed(s: Seq<Seq<char>>, x: Seq<char>, name: Seq<char>)
    ensures
        s.push(x).contains(name) <==> s.contains(name) || x == name,
{
    let all = s.push(x);
    assert(all[s.len() as int] == x);
    if s.contains(name) {
        let k = choose|k: int| 0 <= k < s.len() && s[k] == name;
        assert(all[k] == name);
    }
    if all.contains(name) && x != name {
        let k = choose|k: int| 0 <= k < all.len() && all[k] == name;
        assert(s[k] == name);
    }
}

/// A field of a name whose value results do not show unless it is selected.
pub open spec fn hides(f: FieldV, name: Seq<char>) -> bool {
    f.name == name && f.vector() && !f.retrievable
}

/// A field of a name whose value is not to be read back.
pub open spec fn drops(f: FieldV, name: Seq<char>) -> bool {
    f.name == name && !f.stored
}

proof fn lemma_hidden_names(fields: Seq<FieldV>, name: Seq<char>)
    ensures
        hidden_fields(fields).contains(name) <==> exists|i: int|
            0 <= i < fields.len() && hides(#[trigger] fields[i], name),
    decreases fields.len(),
{
    if fields.len() > 0 {
        let rest = fields.drop_last();
        let last = fields.len() - 1;
        lemma_hidden_names(rest, name);
        lemma_pushed(hidden_fields(rest), fields.last().name, name);
        if exists|i: int| 0 <= i < rest.len() && hides(#[trigger] rest[i], name) {
            let i = choose|i: int| 0 <= i < rest.len() && hides(#[trigger] rest[i], name);
            assert(hides(fields[i], name));
        }
        if exists|i: int| 0 <= i < fields.len() && hides(#[trigger] fields[i], name) {
            let i = choose|i: int| 0 <= i < fields.len() && hides(#[trigger] fields[i], name);
            if i < last {
                assert(hides(rest[i], name));
            }
        }
        assert(fields[last] == fields.last());
    }
}

proof fn lemma_unstored_names(fields: Seq<FieldV>, name: Seq<char>)
    ensures
        unstored_fields(fields).contains(name) <==> exists|i: int|
            0 <= i < fields.len() && drops(#[trigger] fields[i], name),
    decreases fields.len(),
{
    if fields.len() > 0 {
        let rest = fields.drop_last();
        let last = fields.len() - 1;
        lemma_unstored_names(rest, name);
        lemma_pushed(unstored_fields(rest), fields.last().name, name);
        if exists|i: int| 0 <= i < rest.len() && drops(#[trigger] rest[i], name) {
            let i = choose|i: int| 0 <= i < rest.len() && drops(#[trigger] rest[i], name);
            assert(drops(fields[i], name));
        }
        if exists|i: int| 0 <= i < fields.len() && drops(#[trigger] fields[i], name) {
            let i = choose|i: int| 0 <= i < fields.len() && drops(#[trigger] fields[i], name);
            if i < last {
                assert(drops(rest[i], name));
            }
        }
        assert(fields[last] == fields.last());
    }
}

/// A result shows each member of its document but those of unstored fields, and
/// those of vector fields that are not retrievable and were not selected.
pub proof fn law_results_show_fields(
    page: Seq<ScoredV>,
    fields: Seq<FieldV>,
    select: Seq<Seq<char>>,
    i: int,
    e: (Seq<char>, JsonV),
)
    requires
        0 <= i < page.len(),
    ensures
        shown_documents(page, fields, select)[i].fields.contains(e) <==> {
            &&& page[i].document.fields.contains(e)
            &&& forall|k: int| 0 <= k < fields.len() ==> !drops(#[trigger] fields[k], e.0)
            &&& select.contains(e.0) || forall|k: int|
                0 <= k < fields.len() ==> !hides(#[trigger] fields[k], e.0)
        },
{
    let m = page[i].document.fields;
    let hidden = hidden_fields(fields);
    lemma_shown_fields_contain(m, hidden, select, e);
    lemma_shown_fields_contain(
        shown_fields(m, hidden, select),
        unstored_fields(fields),
        seq![],
        e,
    );
    lemma_hidden_names(fields, e.0);
    lemma_unstored_names(fields, e.0);
}

/// A document that is read has each member that was stored but those of unstored
/// fields.
pub proof fn law_stored_members(
    m: Seq<(Seq<char>, JsonV)>,
    fields: Seq<FieldV>,
    e: (Seq<char>, JsonV),
)
    ensures
        stored_members(m, fields).contains(e) <==> {
            &&& m.contains(e)
            &&& forall|k: int| 0 <= k < fields.len() ==> !drops(#[trigger] fields[k], e.0)
        },
{
    lemma_shown_fields_contain(m, unstored_fields(fields), seq![], e);
    lemma_unstored_names(fields, e.0);
}

} // verus!
