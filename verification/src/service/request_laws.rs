//! What a search request asks for, from what its body says.
use crate::error::ApiErrorV;
use crate::filter::eval::satisfies;
use crate::filter::expr::FilterExprV;
use crate::filter::parser::filter_of;
use crate::filter::validate::filter_problem;
use crate::json::{JsonV, Number, member, member_or};
use crate::query::clause_laws::law_first_rule_adds_terms;
use crate::query::plan::added_terms;
use crate::query::simple::{
    ClauseV, ExpansionV, QueryType, SearchField, SearchFieldV, SearchMode, query_type_of,
    search_clauses, search_mode_of,
};
use crate::service::answer::{VectorSideV, candidate_keys, vector_lists_of};
use crate::service::paging::{passing_scores, with_scores};
use crate::service::parsing::{
    facets_of, highlight_fields_of, orderby_of, orders_by_score, search_fields_of, select_of,
    suggester_orderby_of,
};
use crate::service::search::{boosts_of, full_text_of, request_of, request_of_body, synonyms_for};
use crate::service::synonyms::{SynonymMapV, expansions_of};
use crate::service::types::{FacetV, SearchQueryV};
use crate::service::vectors::vector_queries_of;
use crate::storage::document::DocumentV;
use crate::storage::index::IndexV;
use crate::storage::keyed::{keyed_find, law_put_item_is_found};
use crate::text::ascii_lowercase;
use vstd::prelude::*;

verus! {

/// What an optional part of a request gives: what it says, or what holds by itself.
pub open spec fn option_or<T>(
    v: Option<JsonV>,
    by_itself: T,
    read: spec_fn(JsonV) -> Result<T, ApiErrorV>,
) -> Result<T, ApiErrorV> {
    match v {
        Some(x) => read(x),
        None => Ok(by_itself),
    }
}

/// A request that is accepted asks for what its members say: the text, the filter, the
/// order, the fields and facets to show, the fields to search, the page and whether to
/// count; what it does not say it does not ask for.
pub proof fn law_request_says(
    m: Seq<(Seq<char>, JsonV)>,
    d: IndexV,
    vectorized: Seq<Seq<char>>,
    q: SearchQueryV,
)
    requires
        request_of(m, d, vectorized) == Ok::<SearchQueryV, ApiErrorV>(q),
    ensures
        q.search == (match member(m, "search"@) {
            Some(JsonV::String(s)) => Some(s),
            _ => None,
        }),
        q.continuation == (match member(m, "continuation"@) {
            Some(JsonV::String(s)) => Some(s),
            _ => None,
        }),
        match member(m, "filter"@) {
            Some(JsonV::String(text)) => q.filter is Some && filter_of(text) == Ok::<
                FilterExprV,
                Seq<char>,
            >(q.filter->Some_0) && filter_problem(q.filter->Some_0, d) is None,
            _ => q.filter is None,
        },
        match member(m, "orderby"@) {
            Some(v) => orderby_of(v, d) is Ok && q.orderby == orderby_of(v, d)->Ok_0.0,
            None => q.orderby.len() == 0,
        },
        option_or(member(m, "select"@), seq![], |v: JsonV| select_of(v, d)) == Ok::<
            Seq<Seq<char>>,
            ApiErrorV,
        >(q.select),
        option_or(member(m, "facets"@), seq![], |v: JsonV| facets_of(v, d)) == Ok::<
            Seq<FacetV>,
            ApiErrorV,
        >(q.facets),
        option_or(member(m, "searchFields"@), seq![], |v: JsonV| search_fields_of(v, d)) == Ok::<
            Seq<SearchFieldV>,
            ApiErrorV,
        >(q.search_fields),
        highlight_fields_of(member(m, "highlight"@), d) == Ok::<Seq<Seq<char>>, ApiErrorV>(
            q.highlight_fields,
        ),
        member(m, "top"@) is None ==> q.top is None,
        member(m, "top"@) matches Some(JsonV::Number(Number::PosInt(n))) ==> q.top == Some(n),
        member(m, "skip"@) is None ==> q.skip == 0,
        member(m, "skip"@) matches Some(JsonV::Number(Number::PosInt(n))) ==> q.skip == n,
        q.count == (member(m, "count"@) == Some(JsonV::Bool(true))),
        q.query_type is Full <==> (member(m, "queryType"@) matches Some(JsonV::String(s))
            && query_type_of(s) == Ok::<QueryType, Seq<char>>(QueryType::Full)),
        member_or(m, "searchMode"@, "search_mode"@) is None ==> q.search_mode is Any,
        member_or(m, "searchMode"@, "search_mode"@) matches Some(JsonV::String(s)) ==> search_mode_of(
            s,
        ) == Ok::<SearchMode, Seq<char>>(q.search_mode),
        match vector_queries_of(
            member_or(m, "vectorQueries"@, "vector_queries"@),
            d,
            vectorized,
        ) {
            Ok((queries, raw)) => q.vector_queries == queries,
            Err(_) => false,
        },
{
}

/// The mode is `all` or `any`, and the type of a query is `simple`, `full` or `semantic`,
/// in any case; nothing else is one.
pub proof fn law_modes(value: Seq<char>)
    ensures
        search_mode_of(value) == Ok::<SearchMode, Seq<char>>(SearchMode::All) <==> ascii_lowercase(
            value,
        ) == "all"@,
        search_mode_of(value) == Ok::<SearchMode, Seq<char>>(SearchMode::Any) <==> ascii_lowercase(
            value,
        ) == "any"@,
        query_type_of(value) == Ok::<QueryType, Seq<char>>(QueryType::Simple) <==> ascii_lowercase(
            value,
        ) == "simple"@,
        query_type_of(value) == Ok::<QueryType, Seq<char>>(QueryType::Full) <==> ascii_lowercase(
            value,
        ) == "full"@,
        query_type_of(value) == Ok::<QueryType, Seq<char>>(QueryType::Semantic) <==>
            ascii_lowercase(value) == "semantic"@,
{
    reveal_strlit("all");
    reveal_strlit("any");
    reveal_strlit("simple");
    reveal_strlit("full");
    reveal_strlit("semantic");
    assert("all"@[1] == 'l' && "any"@[1] == 'n');
    assert("simple"@.len() == 6 && "full"@.len() == 4 && "semantic"@.len() == 8);
}

/// Suggestions are ordered by the clauses that are written, none of which is the score.
pub proof fn law_suggestion_order(value: JsonV, d: IndexV, i: int)
    ensures
        suggester_orderby_of(Some(value), d) matches Ok(clauses) ==> orderby_of(value, d) is Ok
            && clauses == orderby_of(value, d)->Ok_0.0 && (0 <= i < clauses.len()
            ==> clauses[i].field != "@search.score"@),
        orderby_of(value, d) matches Ok((clauses, _)) ==> 0 <= i < clauses.len()
            && clauses[i].field == "@search.score"@ ==> suggester_orderby_of(Some(value), d) is Err,
{
    if let Ok((clauses, _)) = orderby_of(value, d) {
        if 0 <= i < clauses.len() && clauses[i].field == "@search.score"@ {
            assert(orders_by_score(clauses));
        }
    }
}

/// A request with a part that cannot be read is refused.
pub proof fn law_bad_requests_are_refused(
    m: Seq<(Seq<char>, JsonV)>,
    d: IndexV,
    vectorized: Seq<Seq<char>>,
    text: Seq<char>,
    v: JsonV,
)
    ensures
        member(m, "filter"@) == Some(JsonV::String(text)) && (filter_of(text) is Err
            || filter_problem(filter_of(text)->Ok_0, d) is Some) ==> request_of(m, d, vectorized)
            is Err,
        member(m, "orderby"@) == Some(v) && orderby_of(v, d) is Err ==> request_of(
            m,
            d,
            vectorized,
        ) is Err,
        member(m, "select"@) == Some(v) && select_of(v, d) is Err ==> request_of(m, d, vectorized)
            is Err,
        member(m, "facets"@) == Some(v) && facets_of(v, d) is Err ==> request_of(m, d, vectorized)
            is Err,
        member(m, "searchFields"@) == Some(v) && search_fields_of(v, d) is Err ==> request_of(
            m,
            d,
            vectorized,
        ) is Err,
        highlight_fields_of(member(m, "highlight"@), d) is Err ==> request_of(m, d, vectorized)
            is Err,
        (member(m, "scoringProfile"@) is Some || member(m, "scoringParameters"@) is Some || member(
            m,
            "scoringStatistics"@,
        ) is Some) ==> request_of(m, d, vectorized) is Err,
        !(v is Object) && !(v is Null) ==> request_of_body(v, d, vectorized) is Err,
{
}

// ---------------------------------------------------------------------------
// Texts
// ---------------------------------------------------------------------------

proof fn lemma_added_behind(list: Seq<ExpansionV>, e: ExpansionV, term: Seq<char>)
    ensures
        added_terms(list.push(e), term) == (if exists|k: int|
            0 <= k < list.len() && (#[trigger] list[k]).term == term {
            added_terms(list, term)
        } else if e.term == term {
            e.added
        } else {
            seq![]
        }),
    decreases list.len(),
{
    let all = list.push(e);
    if list.len() == 0 {
        assert(all[0] == e);
        assert(all.drop_first() =~= seq![]);
        assert(added_terms(all.drop_first(), term) == Seq::<Seq<char>>::empty());
    } else {
        assert(all[0] == list[0]);
        if list[0].term != term {
            let rest = list.drop_first();
            assert(all.drop_first() =~= rest.push(e));
            lemma_added_behind(rest, e, term);
            if exists|k: int| 0 <= k < list.len() && (#[trigger] list[k]).term == term {
                let k = choose|k: int| 0 <= k < list.len() && (#[trigger] list[k]).term == term;
                assert(rest[k - 1].term == term);
            }
            if exists|k: int| 0 <= k < rest.len() && (#[trigger] rest[k]).term == term {
                let k = choose|k: int| 0 <= k < rest.len() && (#[trigger] rest[k]).term == term;
                assert(list[k + 1].term == term);
            }
        }
    }
}

proof fn lemma_synonyms_listed(clauses: Seq<ClauseV>, maps: Seq<SynonymMapV>, k: int)
    requires
        0 <= k < synonyms_for(clauses, maps).len(),
    ensures
        synonyms_for(clauses, maps)[k].added == expansions_of(
            maps,
            synonyms_for(clauses, maps)[k].term,
        ),
        synonyms_for(clauses, maps)[k].added.len() > 0,
        clauses.contains(ClauseV::Term(synonyms_for(clauses, maps)[k].term)),
    decreases clauses.len(),
{
    if clauses.len() > 0 {
        let few = clauses.drop_last();
        let rest = synonyms_for(few, maps);
        let term = synonyms_for(clauses, maps)[k].term;
        if k < rest.len() {
            lemma_synonyms_listed(few, maps, k);
            let j = choose|j: int| 0 <= j < few.len() && few[j] == ClauseV::Term(term);
            assert(clauses[j] == ClauseV::Term(term));
        } else {
            assert(clauses[clauses.len() - 1] == ClauseV::Term(term));
        }
    }
}

/// Each required term of a query is expanded by its synonyms, and no other text is.
pub proof fn law_every_term_has_its_synonyms(
    clauses: Seq<ClauseV>,
    maps: Seq<SynonymMapV>,
    term: Seq<char>,
)
    ensures
        added_terms(synonyms_for(clauses, maps), term) == (if clauses.contains(
            ClauseV::Term(term),
        ) {
            expansions_of(maps, term)
        } else {
            seq![]
        }),
    decreases clauses.len(),
{
    if clauses.len() > 0 {
        let few = clauses.drop_last();
        let rest = synonyms_for(few, maps);
        let last = clauses.last();
        law_every_term_has_its_synonyms(few, maps, term);
        assert(clauses[clauses.len() - 1] == last);
        if few.contains(ClauseV::Term(term)) {
            let j = choose|j: int| 0 <= j < few.len() && few[j] == ClauseV::Term(term);
            assert(clauses[j] == ClauseV::Term(term));
        }
        if clauses.contains(ClauseV::Term(term)) && last != ClauseV::Term(term) {
            let j = choose|j: int| 0 <= j < clauses.len() && clauses[j] == ClauseV::Term(term);
            assert(few[j] == ClauseV::Term(term));
        }
        if exists|k: int| 0 <= k < rest.len() && (#[trigger] rest[k]).term == term {
            let k = choose|k: int| 0 <= k < rest.len() && (#[trigger] rest[k]).term == term;
            lemma_synonyms_listed(few, maps, k);
        } else {
            law_first_rule_adds_terms(rest, term, 0);
            assert(added_terms(rest, term) =~= seq![]);
        }
        if let ClauseV::Term(t) = last {
            lemma_added_behind(rest, ExpansionV { term: t, added: expansions_of(maps, t) }, term);
            if expansions_of(maps, term).len() == 0 {
                assert(expansions_of(maps, term) =~= seq![]);
            }
        }
    } else {
        assert(added_terms(synonyms_for(clauses, maps), term) =~= seq![]);
    }
}

/// A field weighs what the last item for it says.
pub proof fn law_field_weights(fields: Seq<SearchFieldV>, i: int)
    requires
        0 <= i < fields.len(),
        forall|j: int| i < j < fields.len() ==> (#[trigger] fields[j]).name != fields[i].name,
    ensures
        keyed_find::<SearchField>(boosts_of(fields), fields[i].name) == Some(fields[i]),
    decreases fields.len(),
{
    let rest = fields.drop_last();
    let last = fields.last();
    law_put_item_is_found::<SearchField>(boosts_of(rest), last, fields[i].name);
    if i < rest.len() {
        assert(rest[i] == fields[i]);
        assert forall|j: int| i < j < rest.len() implies (#[trigger] rest[j]).name
            != rest[i].name by {
            assert(rest[j] == fields[j]);
        }
        law_field_weights(rest, i);
        assert(fields[fields.len() - 1].name != fields[i].name);
    }
}

/// The full-text query of a request has the clauses of its text, in its mode, over the
/// fields that it names; without a text it asks for everything.
pub proof fn law_full_text_query(query: SearchQueryV, maps: Seq<SynonymMapV>, i: int)
    requires
        full_text_of(query, maps) is Ok,
    ensures
        ({
            let q = full_text_of(query, maps)->Ok_0;
            &&& q.mode == query.search_mode
            &&& query.search is None ==> q.required.len() == 0 && q.excluded.len() == 0
                && q.lucene is None
            &&& query.search matches Some(text) ==> if query.query_type is Full {
                q.lucene == Some(text)
            } else {
                q.lucene is None && search_clauses(text) == Ok::<
                    (Seq<ClauseV>, Seq<ClauseV>),
                    Seq<char>,
                >((q.required, q.excluded))
            }
            &&& query.search_fields.len() == 0 ==> q.fields is None
            &&& query.search_fields.len() > 0 ==> q.fields is Some && q.fields->Some_0.len()
                == query.search_fields.len() && (0 <= i < query.search_fields.len()
                ==> q.fields->Some_0[i] == query.search_fields[i].name) && q.boosts == boosts_of(
                query.search_fields,
            )
            &&& q.synonyms == synonyms_for(q.required, maps)
        }),
{
}

// ---------------------------------------------------------------------------
// Vectors
// ---------------------------------------------------------------------------

/// The documents that a vector search may find are those that pass the filter, all of
/// them.
pub proof fn law_candidates_pass_filter(docs: Seq<DocumentV>, e: FilterExprV, key: Seq<char>)
    ensures
        candidate_keys(docs, e).contains(key) <==> exists|i: int|
            0 <= i < docs.len() && (#[trigger] docs[i]).key == key && satisfies(e, docs[i].fields),
    decreases docs.len(),
{
    if docs.len() > 0 {
        let few = docs.drop_last();
        let rest = candidate_keys(few, e);
        let all = candidate_keys(docs, e);
        let last = docs.last();
        law_candidates_pass_filter(few, e, key);
        assert(docs[docs.len() - 1] == last);
        if rest.contains(key) {
            let j = choose|j: int| 0 <= j < rest.len() && rest[j] == key;
            assert(all[j] == key);
            let i = choose|i: int|
                0 <= i < few.len() && (#[trigger] few[i]).key == key && satisfies(
                    e,
                    few[i].fields,
                );
            assert(docs[i] == few[i]);
        }
        if last.key == key && satisfies(e, last.fields) {
            assert(all[rest.len() as int] == key);
        }
        if all.contains(key) {
            let j = choose|j: int| 0 <= j < all.len() && all[j] == key;
            if j < rest.len() {
                assert(rest[j] == key);
            }
        }
        if exists|i: int|
            0 <= i < docs.len() && (#[trigger] docs[i]).key == key && satisfies(e, docs[i].fields) {
            let i = choose|i: int|
                0 <= i < docs.len() && (#[trigger] docs[i]).key == key && satisfies(
                    e,
                    docs[i].fields,
                );
            if i < few.len() {
                assert(few[i] == docs[i]);
            }
        }
    }
}

/// Each vector query has a list of what it found, with its weight; a filter that comes
/// after the search keeps what passes it.
pub proof fn law_every_vector_query_has_a_list(
    side: VectorSideV,
    query: SearchQueryV,
    filter: Option<FilterExprV>,
    docs: Seq<DocumentV>,
    i: int,
)
    requires
        0 <= i < query.vector_queries.len(),
        i < side.hits.len(),
    ensures
        ({
            let lists = vector_lists_of(side, query, filter, docs);
            &&& lists.len() == query.vector_queries.len()
            &&& lists[i].weight == query.vector_queries[i].weight
            &&& lists[i].scores == (if query.vector_filter_mode is PostFilter && filter is Some {
                passing_scores(with_scores(seq![], side.hits[i]), filter, docs)
            } else {
                with_scores(seq![], side.hits[i])
            })
        }),
{
}

} // verus!
