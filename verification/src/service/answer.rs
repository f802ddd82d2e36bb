//! How a search is answered.
use crate::error::{ApiError, ApiErrorV};
use crate::filter::eval::satisfies;
use crate::filter::expr::{FilterExpr, FilterExprV};
use crate::json::JsonV;
use crate::query::engine::{KeyScore, KeyScoreV, add_score, engine_index, search_gives};
use crate::query::lucene::QueryErrorV;
use crate::query::simple::{FullTextQuery, FullTextQueryV};
use crate::service::facets::{compute_facets, facet_members};
use crate::service::highlights::{highlights_of, page_highlights};
use crate::service::ordering::{comes_before, order_scored, scored_views};
use crate::service::paging::{
    OutcomeV, SearchOutcome, VectorList, VectorListV, collect_page_scores, filter_scores,
    find_documents, fusion_needed, lemma_list_views_push, list_views, merge_scores, page_of,
    page_scores, paginate, passing_scores, project_documents, scored_documents, shown_documents,
    skip_after, with_lists, with_scores,
};
use crate::service::search::{full_text_of, paging_state, prepare_full_text, resolve_paging};
use crate::service::state::{
    SearchService, ServiceV, engine_error, engine_error_v, no_index, service_wf,
};
use crate::service::types::{
    OrderBy, OrderByV, SearchQuery, SearchQueryV, VectorFilterMode, opt_expr, order_views,
};
use crate::sorting::{sorted_by, views_of};
use crate::storage::document::{Document, DocumentV};
use crate::storage::index::{IndexDefinition, IndexV};
use crate::storage::keyed::KeyedList;
use crate::storage::memory::{EntryV, lemma_found_has_key};
use crate::text::{lemma_texts_push, texts};
use vstd::prelude::*;

verus! {

/// What the vector engine contributes to a search: the identity of the vector
/// queries, and the hits of each of them over its fields.
pub struct VectorSide {
    pub hash: Option<u64>,
    pub hits: Vec<Vec<KeyScore>>,
}

/// The mathematical value of a [`VectorSide`].
pub struct VectorSideV {
    pub hash: Option<u64>,
    pub hits: Seq<Seq<KeyScoreV>>,
}

impl View for VectorSide {
    type V = VectorSideV;

    open spec fn view(&self) -> VectorSideV {
        VectorSideV {
            hash: self.hash,
            hits: self.hits@.map_values(|h: Vec<KeyScore>| views_of(h@)),
        }
    }
}

/// The resolved state of a search: the effective paging parameters plus the
/// per-side score lists, ready to merge, order, and project.
pub struct SearchPlan {
    pub definition: IndexDefinition,
    pub skip: u64,
    pub orderby: Vec<OrderBy>,
    pub full_text: FullTextQuery,
    pub documents: KeyedList<Document>,
    pub full_text_scores: KeyedList<KeyScore>,
    pub vector_lists: Vec<VectorList>,
}

/// The mathematical value of a [`SearchPlan`].
pub struct PlanV {
    pub definition: IndexV,
    pub skip: u64,
    pub orderby: Seq<OrderByV>,
    pub full_text: FullTextQueryV,
    pub documents: Seq<DocumentV>,
    pub full_text_scores: Seq<KeyScoreV>,
    pub vector_lists: Seq<VectorListV>,
}

impl View for SearchPlan {
    type V = PlanV;

    open spec fn view(&self) -> PlanV {
        PlanV {
            definition: self.definition@,
            skip: self.skip,
            orderby: order_views(self.orderby@),
            full_text: self.full_text@,
            documents: self.documents@,
            full_text_scores: self.full_text_scores@,
            vector_lists: list_views(self.vector_lists@),
        }
    }
}

// ---------------------------------------------------------------------------
// The vector side
// ---------------------------------------------------------------------------

/// The hits of the vector query at a place; none where there are no hits for it.
pub open spec fn hits_at(hits: Seq<Seq<KeyScoreV>>, i: int) -> Seq<KeyScoreV> {
    if 0 <= i < hits.len() {
        hits[i]
    } else {
        seq![]
    }
}

/// Whether the filter trims what the vector queries retrieved.
pub open spec fn trims_after(query: SearchQueryV) -> bool {
    query.vector_filter_mode is PostFilter
}

/// The scores of a vector query: the best of each document, trimmed by the
/// filter where it applies after the retrieval.
pub open spec fn vector_scores(
    hits: Seq<KeyScoreV>,
    query: SearchQueryV,
    filter: Option<FilterExprV>,
    docs: Seq<DocumentV>,
) -> Seq<KeyScoreV> {
    let scores = with_scores(seq![], hits);
    if trims_after(query) && filter is Some {
        passing_scores(scores, filter, docs)
    } else {
        scores
    }
}

/// The score lists of the vector queries, each with its weight.
pub open spec fn vector_lists_of(
    side: VectorSideV,
    query: SearchQueryV,
    filter: Option<FilterExprV>,
    docs: Seq<DocumentV>,
) -> Seq<VectorListV> {
    Seq::new(
        query.vector_queries.len(),
        |i: int|
            VectorListV {
                weight: query.vector_queries[i].weight,
                scores: vector_scores(hits_at(side.hits, i), query, filter, docs),
            },
    )
}

fn collect_hits(hits: &Vec<KeyScore>) -> (r: KeyedList<KeyScore>)
    ensures
        r@ == with_scores(seq![], views_of(hits@)),
{
    let ghost all = views_of(hits@);
    let mut scores: KeyedList<KeyScore> = KeyedList::new();
    let mut i: usize = 0;
    assert(all.take(0) =~= seq![]);
    assert(scores@ =~= seq![]);
    while i < hits.len()
        invariant
            all == views_of(hits@),
            i <= hits@.len(),
            scores@ == with_scores(seq![], all.take(i as int)),
        decreases hits@.len() - i,
    {
        assert(all.take(i + 1).drop_last() =~= all.take(i as int));
        assert(all[i as int] == hits@[i as int]@);
        add_score(&mut scores, hits[i].key.as_str(), hits[i].score);
        i += 1;
    }
    assert(all.take(i as int) =~= all);
    scores
}

/// The vector side of a search: one `(weight, scores)` list per vector query,
/// where `scores` is the union of that query's hits with the best score per
/// document key. Keeping the queries separate lets the hybrid merge weight each
/// query's contribution. A filter that applies after the retrieval trims the
/// retrieved documents.
pub fn vector_side_score_lists(
    side: &VectorSide,
    query: &SearchQuery,
    filter: &Option<FilterExpr>,
    docs: &KeyedList<Document>,
) -> (r: Vec<VectorList>)
    ensures
        list_views(r@) == vector_lists_of(side@, query@, opt_expr(*filter), docs@),
{
    broadcast use lemma_list_views_push;

    let ghost all = vector_lists_of(side@, query@, opt_expr(*filter), docs@);
    let mut out: Vec<VectorList> = Vec::new();
    let mut i: usize = 0;
    assert(list_views(out@) =~= all.take(0));
    while i < query.vector_queries.len()
        invariant
            all == vector_lists_of(side@, query@, opt_expr(*filter), docs@),
            i <= query.vector_queries@.len(),
            list_views(out@) == all.take(i as int),
        decreases query.vector_queries@.len() - i,
    {
        broadcast use lemma_list_views_push;

        let ghost before = list_views(out@);
        assert(query@.vector_queries[i as int] == query.vector_queries@[i as int]@);
        let mut scores = if i < side.hits.len() {
            assert(side@.hits[i as int] == views_of(side.hits@[i as int]@));
            collect_hits(&side.hits[i])
        } else {
            let none: KeyedList<KeyScore> = KeyedList::new();
            assert(none@ =~= with_scores(seq![], seq![]));
            none
        };
        if matches!(query.vector_filter_mode, VectorFilterMode::PostFilter) && filter.is_some() {
            scores = filter_scores(&scores, filter, docs);
        }
        let list = VectorList { weight: query.vector_queries[i].weight, scores };
        out.push(list);
        assert(list_views(out@) == before.push(list@));
        assert(all[i as int] == list@);
        i += 1;
        assert(list_views(out@) =~= all.take(i as int));
    }
    assert(all.take(i as int) =~= all);
    out
}

/// The documents that a filter lets a vector query consider: none where the
/// filter does not apply before the retrieval.
pub open spec fn candidate_keys(docs: Seq<DocumentV>, e: FilterExprV) -> Seq<Seq<char>>
    decreases docs.len(),
{
    if docs.len() == 0 {
        seq![]
    } else {
        let rest = candidate_keys(docs.drop_last(), e);
        if satisfies(e, docs.last().fields) {
            rest.push(docs.last().key)
        } else {
            rest
        }
    }
}

fn find_candidates(docs: &KeyedList<Document>, e: &FilterExpr) -> (r: Vec<String>)
    ensures
        texts(r@) == candidate_keys(docs@, e@),
{
    broadcast use lemma_texts_push;

    let mut out: Vec<String> = Vec::new();
    let mut i: usize = 0;
    assert(docs@.take(0) =~= seq![]);
    assert(texts(out@) =~= candidate_keys(docs@.take(0), e@));
    while i < docs.len()
        invariant
            i <= docs@.len(),
            texts(out@) == candidate_keys(docs@.take(i as int), e@),
        decreases docs@.len() - i,
    {
        broadcast use lemma_texts_push;

        assert(docs@.take(i + 1).drop_last() =~= docs@.take(i as int));
        let d = docs.at(i);
        if e.matches(&d.fields) {
            let ghost before = texts(out@);
            let key = d.key.clone();
            out.push(key);
            assert(texts(out@) == before.push(key@));
        }
        i += 1;
    }
    assert(docs@.take(i as int) =~= docs@);
    out
}

// ---------------------------------------------------------------------------
// Plans
// ---------------------------------------------------------------------------

/// Whether the full-text side counts. It is skipped only for vector-only
/// searches: a query that matches everything would otherwise drag every document
/// into the union.
pub open spec fn text_side_counts(query: SearchQueryV, full_text: FullTextQueryV) -> bool {
    !full_text.matches_all() || query.vector_queries.len() == 0
}

/// Whether a plan, or an error, is what a resolved request leads to.
pub open spec fn plan_gives(
    s: ServiceV,
    e: EntryV,
    query: SearchQueryV,
    side: VectorSideV,
    r: Result<PlanV, ApiErrorV>,
) -> bool {
    match paging_state(query, e.definition, side.hash) {
        Err(x) => r is Err && r->Err_0 == x,
        Ok((skip, filter, orderby)) => match full_text_of(query, s.synonym_maps.items) {
            Err(x) => r is Err && r->Err_0 == x,
            Ok(full_text) => {
                let plan = PlanV {
                    definition: e.definition,
                    skip,
                    orderby,
                    full_text,
                    documents: e.documents,
                    full_text_scores: seq![],
                    vector_lists: vector_lists_of(side, query, filter, e.documents),
                };
                let name = e.definition.name;
                if !text_side_counts(query, full_text) {
                    r is Ok && r->Ok_0 == plan
                } else {
                    match engine_index(s.engine, name) {
                        None => r is Err && r->Err_0 == no_index(name),
                        Some(index) => match r {
                            Ok(p) => exists|scores: Seq<KeyScoreV>|
                                #![trigger passing_scores(scores, filter, e.documents)]
                                search_gives(index, full_text, Ok(scores)) && p == (PlanV {
                                    full_text_scores: passing_scores(scores, filter, e.documents),
                                    ..plan
                                }),
                            Err(x) => exists|q: QueryErrorV|
                                #![trigger engine_error_v(name, q)]
                                search_gives(index, full_text, Err(q)) && x == engine_error_v(
                                    name,
                                    q,
                                ),
                        },
                    }
                }
            },
        },
    }
}

pub open spec fn plan_result(r: Result<SearchPlan, ApiError>) -> Result<PlanV, ApiErrorV> {
    match r {
        Ok(p) => Ok(p@),
        Err(e) => Err(e@),
    }
}

/// What a search gives from a plan and the merged scores: the ordered results,
/// their facets, and the page of them.
pub open spec fn outcome_of(
    plan: PlanV,
    merged: Seq<KeyScoreV>,
    query: SearchQueryV,
) -> OutcomeV {
    let scored = sorted_by(
        scored_documents(merged, plan.documents),
        comes_before(plan.orderby),
    );
    let page = page_of(scored, plan.skip, query.top);
    let next_skip = skip_after(plan.skip, page.len() as int);
    OutcomeV {
        total: scored.len() as u64,
        documents: shown_documents(page, plan.definition.fields, query.select),
        scores: page_scores(page),
        highlights: highlights_of(page, query, plan.full_text, plan.definition.fields),
        facets: if query.facets.len() == 0 {
            None
        } else {
            Some(JsonV::Object(facet_members(scored, query.facets)))
        },
        has_more: page.len() > 0 && next_skip < scored.len() as u64,
        next_skip,
    }
}

/// Answers a search from its plan and the merged scores: orders the hits,
/// computes facets over the full matched set, and projects the page.
pub fn finish_search(plan: &SearchPlan, merged: &KeyedList<KeyScore>, query: &SearchQuery) -> (r:
    SearchOutcome)
    ensures
        r@ == outcome_of(plan@, merged@, query@),
{
    let found = find_documents(merged, &plan.documents);
    let scored = order_scored(found, &plan.orderby);
    let ghost all = scored_views(scored@);
    assert(all.len() == scored@.len());
    let total: u64 = scored.len() as u64;
    assert(query@.facets.len() == query.facets@.len());
    let facets = if query.facets.len() == 0 {
        None
    } else {
        Some(compute_facets(&scored, &query.facets))
    };
    let page = paginate(scored, plan.skip, query.top, total);
    assert(page.results@.len() == scored_views(page.results@).len());
    let scores = collect_page_scores(&page.results);
    let highlights = page_highlights(query, &plan.full_text, &plan.definition, &page.results);
    let documents = project_documents(&page.results, &query.select, &plan.definition);
    SearchOutcome {
        total,
        documents,
        scores,
        highlights,
        facets,
        has_more: page.has_more,
        next_skip: page.next_skip,
    }
}

/// A search that is answered, or one whose score lists have to be fused first.
pub enum SearchStep {
    Done(SearchOutcome),
    Fuse(SearchPlan),
}

impl SearchService {
    /// The documents that the vector queries of a search may consider: those
    /// that pass the filter, where the filter applies before the retrieval;
    /// otherwise `None`, for all of them.
    pub fn vector_candidates(&self, index: &str, query: &SearchQuery, hash: Option<u64>) -> (r:
        Result<Option<Vec<String>>, ApiError>)
        ensures
            match self@.entry(index@) {
                None => r is Err && r->Err_0@ == no_index(index@),
                Some(e) => match paging_state(query@, e.definition, hash) {
                    Err(x) => r is Err && r->Err_0@ == x,
                    Ok((skip, filter, orderby)) => r is Ok && (match r->Ok_0 {
                        Some(keys) => query@.vector_filter_mode is PreFilter && filter is Some
                            && texts(keys@) == candidate_keys(e.documents, filter->Some_0),
                        None => !(query@.vector_filter_mode is PreFilter && filter is Some),
                    }),
                },
            },
    {
        let definition = self.require_index(index)?;
        proof {
            lemma_found_has_key(self@.storage, self@.resolved(index@));
        }
        let (_, filter, _) = resolve_paging(query, &definition, hash)?;
        if let Some(e) = &filter {
            if matches!(query.vector_filter_mode, VectorFilterMode::PreFilter) {
                if let Some(docs) = self.stored(definition.name.as_str()) {
                    return Ok(Some(find_candidates(docs, e)));
                }
            }
        }
        Ok(None)
    }

    /// Resolves a search request into a [`SearchPlan`]: the effective paging
    /// state (a continuation token is authoritative for skip/filter/orderby),
    /// the prepared full-text query, and the per-side score lists.
    pub fn resolve_plan(&self, index: &str, query: &SearchQuery, side: &VectorSide) -> (r: Result<
        SearchPlan,
        ApiError,
    >)
        requires
            service_wf(self@),
        ensures
            match self@.entry(index@) {
                None => r is Err && r->Err_0@ == no_index(index@),
                Some(e) => plan_gives(self@, e, query@, side@, plan_result(r)),
            },
    {
        let definition = self.require_index(index)?;
        let ghost e = self@.entry(index@)->Some_0;
        proof {
            lemma_found_has_key(self@.storage, self@.resolved(index@));
        }
        let (skip, filter, orderby) = resolve_paging(query, &definition, side.hash)?;
        let full_text = prepare_full_text(query, self.synonyms())?;
        let name = definition.name.as_str();
        let documents = match self.stored(name) {
            Some(docs) => docs.duplicate(),
            None => KeyedList::new(),
        };
        let vector_lists = vector_side_score_lists(side, query, &filter, &documents);
        assert(query@.vector_queries.len() == query.vector_queries@.len());
        let full_text_scores: KeyedList<KeyScore> = if !full_text.is_match_all()
            || query.vector_queries.len() == 0 {
            match self.engine().search(name, &full_text) {
                Ok(found) => {
                    let ghost scores = found@;
                    let kept = filter_scores(&found, &filter, &documents);
                    assert(kept@ == passing_scores(scores, opt_expr(filter), e.documents));
                    kept
                },
                Err(q) => {
                    let ghost qv = q@;
                    let x = engine_error(name, q);
                    assert(x@ == engine_error_v(name@, qv));
                    return Err(x);
                },
            }
        } else {
            KeyedList::new()
        };
        Ok(
            SearchPlan {
                definition,
                skip,
                orderby,
                full_text,
                documents,
                full_text_scores,
                vector_lists,
            },
        )
    }

    /// Runs a search over an index: full-text match, vector similarity, hybrid
    /// union merge, filter, ordering, facets, and paging. Where both sides
    /// produced hits, the score lists have to be fused: the plan is handed back,
    /// and [`finish_search`] answers the search with the fused scores.
    pub fn search(&self, index: &str, query: &SearchQuery, side: &VectorSide) -> (r: Result<
        SearchStep,
        ApiError,
    >)
        requires
            service_wf(self@),
        ensures
            match self@.entry(index@) {
                None => r is Err && r->Err_0@ == no_index(index@),
                Some(e) => match r {
                    Err(x) => plan_gives(self@, e, query@, side@, Err(x@)),
                    Ok(SearchStep::Fuse(p)) => plan_gives(self@, e, query@, side@, Ok(p@))
                        && fusion_needed(p@.full_text_scores, p@.vector_lists),
                    Ok(SearchStep::Done(o)) => exists|p: PlanV|
                        #![trigger plan_gives(self@, e, query@, side@, Ok(p))]
                        plan_gives(self@, e, query@, side@, Ok(p)) && !fusion_needed(
                            p.full_text_scores,
                            p.vector_lists,
                        ) && o@ == outcome_of(
                            p,
                            with_lists(p.full_text_scores, p.vector_lists),
                            query@,
                        ),
                },
            },
    {
        let plan = self.resolve_plan(index, query, side)?;
        match merge_scores(&plan.full_text_scores, &plan.vector_lists) {
            None => Ok(SearchStep::Fuse(plan)),
            Some(merged) => {
                let outcome = finish_search(&plan, &merged, query);
                assert(plan_gives(
                    self@,
                    self@.entry(index@)->Some_0,
                    query@,
                    side@,
                    Ok(plan@),
                ));
                Ok(SearchStep::Done(outcome))
            },
        }
    }
}

} // verus!
