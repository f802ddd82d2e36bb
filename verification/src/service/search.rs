//! Search requests: how they are parsed, resolved, and answered.
use crate::error::{ApiError, ApiErrorV, ErrorCode, bad_request_v, invalid_query_v};
use crate::filter::expr::{FilterExpr, FilterExprV};
use crate::filter::validate::{filter_problem, validate};
use crate::json::{Json, JsonMap, JsonV, group_json, member, str_of};
use crate::query::analyzers::opt_str;
use crate::query::simple::{
    Clause, ClauseV, Expansion, ExpansionV, FullTextQuery, FullTextQueryV, QueryType, SearchField,
    SearchFieldV, clause_views, default_query, expansion_views, lemma_expansion_views_push,
    parse_search_text, query_type_of, search_clauses,
};
use crate::service::continuation::{ContinuationToken, ContinuationV, decoded_token};
use crate::service::paging::{OutcomeV, SearchOutcome};
use crate::service::parsing::{
    facets_of, filter_option_of, highlight_of, orderby_of, paging_of, parse_facets,
    parse_filter_option, parse_highlight_options, parse_orderby, parse_paging_options,
    parse_search_fields, parse_search_mode, parse_select, search_fields_of, search_mode_option,
    select_of,
};
use crate::service::state::{SearchService, no_index};
use crate::service::synonyms::{SynonymMap, SynonymMapV, expansions_of, synonym_expansions};
use crate::service::types::{
    Facet, FacetV, OrderBy, OrderByV, PagingState, PagingStateV, SearchQuery, SearchQueryV,
    clone_orders, default_search, facet_views, group_types, opt_expr, order_views,
    search_field_views,
};
use crate::service::vectors::{parse_vector_options, vector_options_of};
use crate::storage::index::{IndexDefinition, IndexV};
use crate::storage::keyed::{KeyedList, keyed_put};
use crate::text::{
    cat2, cat3, clone_opt_text, debug_text, lemma_texts_push, opt_text, quoted, texts,
};
use vstd::prelude::*;

verus! {

// ---------------------------------------------------------------------------
// Requests
// ---------------------------------------------------------------------------

/// The first search option that is not supported, if there is one.
pub open spec fn unsupported_option(m: Seq<(Seq<char>, JsonV)>) -> Option<Seq<char>> {
    if member(m, "scoringProfile"@) is Some {
        Some("scoringProfile"@)
    } else if member(m, "scoringParameters"@) is Some {
        Some("scoringParameters"@)
    } else if member(m, "scoringStatistics"@) is Some {
        Some("scoringStatistics"@)
    } else {
        None
    }
}

/// A string option.
pub open spec fn string_option(m: Seq<(Seq<char>, JsonV)>, key: Seq<char>) -> Option<Seq<char>> {
    match member(m, key) {
        Some(v) => str_of(v),
        None => None,
    }
}

/// The `queryType` of a request.
pub open spec fn query_type_option(m: Seq<(Seq<char>, JsonV)>) -> Result<QueryType, ApiErrorV> {
    match string_option(m, "queryType"@) {
        None => Ok(QueryType::Simple),
        Some(raw) => match query_type_of(raw) {
            Ok(t) => Ok(t),
            Err(e) => Err(invalid_query_v("Invalid queryType: "@ + e)),
        },
    }
}

/// The filter of a request, checked against the schema.
pub open spec fn filter_option(raw: Option<Seq<char>>, d: IndexV) -> Result<
    Option<FilterExprV>,
    ApiErrorV,
> {
    match raw {
        None => Ok(None),
        Some(text) => match filter_option_of(text) {
            Err(e) => Err(e),
            Ok(expr) => match filter_problem(expr, d) {
                Some(m) => Err(invalid_query_v("Invalid filter: "@ + m)),
                None => Ok(Some(expr)),
            },
        },
    }
}

/// The `orderby` of a request, with its canonical text.
pub open spec fn orderby_option(v: Option<JsonV>, d: IndexV) -> Result<
    (Seq<OrderByV>, Option<Seq<char>>),
    ApiErrorV,
> {
    match v {
        None => Ok((seq![], None)),
        Some(x) => match orderby_of(x, d) {
            Err(e) => Err(e),
            Ok((clauses, raw)) => Ok((clauses, Some(raw))),
        },
    }
}

pub open spec fn select_option(v: Option<JsonV>, d: IndexV) -> Result<Seq<Seq<char>>, ApiErrorV> {
    match v {
        None => Ok(seq![]),
        Some(x) => select_of(x, d),
    }
}

pub open spec fn facets_option(v: Option<JsonV>, d: IndexV) -> Result<Seq<FacetV>, ApiErrorV> {
    match v {
        None => Ok(seq![]),
        Some(x) => facets_of(x, d),
    }
}

pub open spec fn search_fields_option(v: Option<JsonV>, d: IndexV) -> Result<
    Seq<SearchFieldV>,
    ApiErrorV,
> {
    match v {
        None => Ok(seq![]),
        Some(x) => search_fields_of(x, d),
    }
}

/// The request that the members of a body make.
pub open spec fn request_of(
    m: Seq<(Seq<char>, JsonV)>,
    d: IndexV,
    vectorized: Seq<Seq<char>>,
) -> Result<SearchQueryV, ApiErrorV> {
    let filter_raw = string_option(m, "filter"@);
    if unsupported_option(m) is Some {
        Err(
            bad_request_v(
                ErrorCode::UnsupportedQuery,
                "The "@ + debug_text(unsupported_option(m)->Some_0)
                    + " search option is not supported by the emulator."@,
            ),
        )
    } else {
        match query_type_option(m) {
            Err(e) => Err(e),
            Ok(query_type) => match search_mode_option(m) {
                Err(e) => Err(e),
                Ok(search_mode) => match paging_of(m) {
                    Err(e) => Err(e),
                    Ok((count, top, skip)) => match filter_option(filter_raw, d) {
                        Err(e) => Err(e),
                        Ok(filter) => match orderby_option(member(m, "orderby"@), d) {
                            Err(e) => Err(e),
                            Ok((orderby, orderby_raw)) => request_rest(
                                m,
                                d,
                                vectorized,
                                (SearchQueryV {
                                    search: string_option(m, "search"@),
                                    query_type,
                                    search_mode,
                                    count,
                                    top,
                                    skip,
                                    filter,
                                    orderby,
                                    continuation: string_option(m, "continuation"@),
                                    paging: PagingStateV {
                                        filter_raw,
                                        orderby_raw,
                                        vector_queries_raw: None,
                                    },
                                    ..default_search()
                                }),
                            ),
                        },
                    },
                },
            },
        }
    }
}

/// The request with its options from `select` on.
pub open spec fn request_rest(
    m: Seq<(Seq<char>, JsonV)>,
    d: IndexV,
    vectorized: Seq<Seq<char>>,
    q: SearchQueryV,
) -> Result<SearchQueryV, ApiErrorV> {
    match select_option(member(m, "select"@), d) {
        Err(e) => Err(e),
        Ok(select) => match facets_option(member(m, "facets"@), d) {
            Err(e) => Err(e),
            Ok(facets) => match search_fields_option(member(m, "searchFields"@), d) {
                Err(e) => Err(e),
                Ok(search_fields) => match vector_options_of(m, d, vectorized) {
                    Err(e) => Err(e),
                    Ok((vector_queries, vector_queries_raw, vector_filter_mode)) => match highlight_of(
                        m,
                        d,
                    ) {
                        Err(e) => Err(e),
                        Ok((highlight_fields, highlight_pre_tag, highlight_post_tag)) => Ok(
                            SearchQueryV {
                                select,
                                facets,
                                search_fields,
                                vector_queries,
                                vector_filter_mode,
                                highlight_fields,
                                highlight_pre_tag,
                                highlight_post_tag,
                                paging: PagingStateV { vector_queries_raw, ..q.paging },
                                ..q
                            },
                        ),
                    },
                },
            },
        },
    }
}

/// The request that a body makes. A missing body is an empty one.
pub open spec fn request_of_body(body: JsonV, d: IndexV, vectorized: Seq<Seq<char>>) -> Result<
    SearchQueryV,
    ApiErrorV,
> {
    match body {
        JsonV::Object(m) => request_of(m, d, vectorized),
        JsonV::Null => request_of(seq![], d, vectorized),
        _ => Err(invalid_query_v("Search request body must be a JSON object."@)),
    }
}

pub open spec fn request_result(r: Result<SearchQuery, ApiError>) -> Result<
    SearchQueryV,
    ApiErrorV,
> {
    match r {
        Ok(q) => Ok(q@),
        Err(e) => Err(e@),
    }
}

fn find_unsupported(obj: &JsonMap) -> (r: Option<&'static str>)
    ensures
        opt_str(r) == unsupported_option(obj@),
{
    if obj.contains_key("scoringProfile") {
        Some("scoringProfile")
    } else if obj.contains_key("scoringParameters") {
        Some("scoringParameters")
    } else if obj.contains_key("scoringStatistics") {
        Some("scoringStatistics")
    } else {
        None
    }
}

fn read_string_option(obj: &JsonMap, key: &str) -> (r: Option<String>)
    ensures
        opt_text(r) == string_option(obj@, key@),
{
    match obj.get(key) {
        Some(v) => match v.as_str() {
            Some(s) => Some(s.to_owned()),
            None => None,
        },
        None => None,
    }
}

fn read_query_type(obj: &JsonMap) -> (r: Result<QueryType, ApiError>)
    ensures
        match r {
            Ok(t) => query_type_option(obj@) is Ok && query_type_option(obj@)->Ok_0 == t,
            Err(e) => query_type_option(obj@) is Err && query_type_option(obj@)->Err_0 == e@,
        },
{
    match read_string_option(obj, "queryType") {
        None => Ok(QueryType::Simple),
        Some(raw) => match QueryType::parse(raw.as_str()) {
            Ok(t) => Ok(t),
            Err(e) => Err(
                ApiError::invalid_query(cat2("Invalid queryType: ", e.as_str()).as_str()),
            ),
        },
    }
}

fn read_filter(raw: &Option<String>, definition: &IndexDefinition) -> (r: Result<
    Option<FilterExpr>,
    ApiError,
>)
    ensures
        match r {
            Ok(o) => filter_option(opt_text(*raw), definition@) is Ok && filter_option(
                opt_text(*raw),
                definition@,
            )->Ok_0 == opt_expr(o),
            Err(e) => filter_option(opt_text(*raw), definition@) is Err && filter_option(
                opt_text(*raw),
                definition@,
            )->Err_0 == e@,
        },
{
    match raw {
        None => Ok(None),
        Some(text) => {
            let expr = parse_filter_option(text.as_str())?;
            match validate(&expr, definition) {
                Ok(_) => Ok(Some(expr)),
                Err(m) => Err(
                    ApiError::invalid_query(cat2("Invalid filter: ", m.as_str()).as_str()),
                ),
            }
        },
    }
}

fn parse_request(obj: &JsonMap, definition: &IndexDefinition, vectorized: &Vec<String>) -> (r:
    Result<SearchQuery, ApiError>)
    ensures
        request_result(r) == request_of(obj@, definition@, texts(vectorized@)),
{
    broadcast use group_types;

    if let Some(key) = find_unsupported(obj) {
        return Err(
            ApiError::unsupported(
                ErrorCode::UnsupportedQuery,
                cat3(
                    "The ",
                    quoted(key).as_str(),
                    " search option is not supported by the emulator.",
                ).as_str(),
            ),
        );
    }
    let query_type = read_query_type(obj)?;
    let search = read_string_option(obj, "search");
    let search_mode = parse_search_mode(obj)?;
    let (count, top, skip) = parse_paging_options(obj)?;
    let filter_raw = read_string_option(obj, "filter");
    let filter = read_filter(&filter_raw, definition)?;
    let (orderby, orderby_raw): (Vec<OrderBy>, Option<String>) = match obj.get("orderby") {
        Some(v) => {
            let (clauses, raw) = parse_orderby(v, definition)?;
            (clauses, Some(raw))
        },
        None => (Vec::new(), None),
    };
    let select = match obj.get("select") {
        Some(v) => parse_select(v, definition)?,
        None => Vec::new(),
    };
    let facets = match obj.get("facets") {
        Some(v) => parse_facets(v, definition)?,
        None => Vec::new(),
    };
    let search_fields = match obj.get("searchFields") {
        Some(v) => parse_search_fields(v, definition)?,
        None => Vec::new(),
    };
    let (vector_queries, vector_queries_raw, vector_filter_mode) = parse_vector_options(
        obj,
        definition,
        vectorized,
    )?;
    let continuation = read_string_option(obj, "continuation");
    let (highlight_fields, highlight_pre_tag, highlight_post_tag) = parse_highlight_options(
        obj,
        definition,
    )?;
    proof {
        assert(order_views(Seq::<OrderBy>::empty()) =~= seq![]);
        assert(texts(Seq::<String>::empty()) =~= seq![]);
        assert(facet_views(Seq::<Facet>::empty()) =~= seq![]);
        assert(search_field_views(Seq::<SearchField>::empty()) =~= seq![]);
    }
    Ok(
        SearchQuery {
            search,
            query_type,
            search_mode,
            count,
            top,
            skip,
            filter,
            orderby,
            select,
            facets,
            search_fields,
            highlight_fields,
            highlight_pre_tag,
            highlight_post_tag,
            continuation,
            paging: PagingState { filter_raw, orderby_raw, vector_queries_raw },
            vector_queries,
            vector_filter_mode,
        },
    )
}

impl SearchService {
    /// Parses and validates a search request body against the index schema.
    /// `vectorized` names the fields that have a vectorizer. The search text
    /// itself is parsed when the search runs.
    pub fn parse_search(&self, index: &str, body: &Json, vectorized: &Vec<String>) -> (r: Result<
        SearchQuery,
        ApiError,
    >)
        ensures
            match self@.entry(index@) {
                None => r is Err && r->Err_0@ == no_index(index@),
                Some(e) => request_result(r) == request_of_body(
                    body@,
                    e.definition,
                    texts(vectorized@),
                ),
            },
    {
        broadcast use group_json;

        let definition = self.require_index(index)?;
        match body {
            Json::Object(obj) => parse_request(obj, &definition, vectorized),
            Json::Null => {
                let empty = JsonMap::new();
                assert(empty@ =~= seq![]);
                parse_request(&empty, &definition, vectorized)
            },
            _ => Err(ApiError::invalid_query("Search request body must be a JSON object.")),
        }
    }
}

// ---------------------------------------------------------------------------
// Full-text queries
// ---------------------------------------------------------------------------

/// The synonym expansions of the terms among clauses. Fuzzy terms and phrases do
/// not expand.
pub open spec fn synonyms_for(clauses: Seq<ClauseV>, maps: Seq<SynonymMapV>) -> Seq<ExpansionV>
    decreases clauses.len(),
{
    if clauses.len() == 0 {
        seq![]
    } else {
        let rest = synonyms_for(clauses.drop_last(), maps);
        match clauses.last() {
            ClauseV::Term(term) => if expansions_of(maps, term).len() > 0 {
                rest.push(ExpansionV { term, added: expansions_of(maps, term) })
            } else {
                rest
            },
            _ => rest,
        }
    }
}

/// The boosts of search fields, by name.
pub open spec fn boosts_of(fields: Seq<SearchFieldV>) -> Seq<SearchFieldV>
    decreases fields.len(),
{
    if fields.len() == 0 {
        seq![]
    } else {
        keyed_put::<SearchField>(boosts_of(fields.drop_last()), fields.last())
    }
}

/// The clauses of a request's search text.
pub open spec fn text_query(query: SearchQueryV) -> Result<FullTextQueryV, ApiErrorV> {
    match query.search {
        None => Ok(default_query()),
        Some(text) => if query.query_type is Full {
            Ok(FullTextQueryV { lucene: Some(text), ..default_query() })
        } else {
            match search_clauses(text) {
                Ok((required, excluded)) => Ok(
                    FullTextQueryV { required, excluded, ..default_query() },
                ),
                Err(e) => Err(invalid_query_v("Invalid search text: "@ + e)),
            }
        },
    }
}

/// The full-text query of a request.
pub open spec fn full_text_of(query: SearchQueryV, maps: Seq<SynonymMapV>) -> Result<
    FullTextQueryV,
    ApiErrorV,
> {
    match text_query(query) {
        Err(e) => Err(e),
        Ok(q) => {
            let q = FullTextQueryV {
                mode: query.search_mode,
                synonyms: synonyms_for(q.required, maps),
                ..q
            };
            if query.search_fields.len() == 0 {
                Ok(q)
            } else {
                Ok(
                    FullTextQueryV {
                        fields: Some(query.search_fields.map_values(|f: SearchFieldV| f.name)),
                        boosts: boosts_of(query.search_fields),
                        ..q
                    },
                )
            }
        },
    }
}

pub open spec fn full_text_result(r: Result<FullTextQuery, ApiError>) -> Result<
    FullTextQueryV,
    ApiErrorV,
> {
    match r {
        Ok(q) => Ok(q@),
        Err(e) => Err(e@),
    }
}

fn find_synonyms(clauses: &Vec<Clause>, maps: &KeyedList<SynonymMap>) -> (r: Vec<Expansion>)
    ensures
        expansion_views(r@) == synonyms_for(clause_views(clauses@), maps@),
{
    broadcast use lemma_expansion_views_push;

    let ghost all = clause_views(clauses@);
    let mut out: Vec<Expansion> = Vec::new();
    let mut i: usize = 0;
    assert(expansion_views(out@) =~= synonyms_for(all.take(0), maps@));
    while i < clauses.len()
        invariant
            all == clause_views(clauses@),
            i <= clauses@.len(),
            expansion_views(out@) == synonyms_for(all.take(i as int), maps@),
        decreases clauses@.len() - i,
    {
        broadcast use lemma_expansion_views_push;

        assert(all.take(i + 1).drop_last() =~= all.take(i as int));
        assert(all[i as int] == clauses@[i as int]@);
        if let Clause::Term(term) = &clauses[i] {
            let added = synonym_expansions(maps, term.as_str());
            assert(added@.len() == texts(added@).len());
            if added.len() > 0 {
                let ghost before = expansion_views(out@);
                let e = Expansion { term: term.clone(), added };
                out.push(e);
                assert(expansion_views(out@) == before.push(e@));
            }
        }
        i += 1;
    }
    assert(all.take(i as int) =~= all);
    out
}

fn field_scope(fields: &Vec<SearchField>) -> (r: (Vec<String>, KeyedList<SearchField>))
    ensures
        texts(r.0@) == search_field_views(fields@).map_values(|f: SearchFieldV| f.name),
        r.1@ == boosts_of(search_field_views(fields@)),
{
    broadcast use lemma_texts_push;

    let ghost all = search_field_views(fields@);
    let ghost wanted = all.map_values(|f: SearchFieldV| f.name);
    let mut names: Vec<String> = Vec::new();
    let mut boosts: KeyedList<SearchField> = KeyedList::new();
    let mut i: usize = 0;
    assert(texts(names@) =~= wanted.take(0));
    while i < fields.len()
        invariant
            all == search_field_views(fields@),
            wanted == all.map_values(|f: SearchFieldV| f.name),
            i <= fields@.len(),
            texts(names@) == wanted.take(i as int),
            boosts@ == boosts_of(all.take(i as int)),
        decreases fields@.len() - i,
    {
        broadcast use lemma_texts_push;

        let ghost before = texts(names@);
        assert(all.take(i + 1).drop_last() =~= all.take(i as int));
        assert(all[i as int] == fields@[i as int]@);
        let name = fields[i].name.clone();
        names.push(name);
        assert(texts(names@) == before.push(name@));
        boosts.put(SearchField { name: fields[i].name.clone(), boost: fields[i].boost });
        i += 1;
        assert(texts(names@) =~= wanted.take(i as int));
    }
    assert(all.take(i as int) =~= all);
    assert(wanted.take(i as int) =~= wanted);
    (names, boosts)
}

/// Builds the engine-level full-text query for a search: parses the search text
/// (simple-query clauses, or raw Lucene text for `queryType=full`), attaches
/// synonym expansions for single-term clauses, and applies the request's
/// `searchMode` and `searchFields` (names plus `field^N` boosts).
pub fn prepare_full_text(query: &SearchQuery, maps: &KeyedList<SynonymMap>) -> (r: Result<
    FullTextQuery,
    ApiError,
>)
    ensures
        full_text_result(r) == full_text_of(query@, maps@),
{
    let mut full_text = match &query.search {
        None => FullTextQuery::default(),
        Some(text) => match query.query_type {
            QueryType::Full => {
                let mut q = FullTextQuery::default();
                q.lucene = Some(text.clone());
                q
            },
            _ => match parse_search_text(text.as_str()) {
                Ok(q) => q,
                Err(e) => {
                    return Err(
                        ApiError::invalid_query(
                            cat2("Invalid search text: ", e.as_str()).as_str(),
                        ),
                    );
                },
            },
        },
    };
    full_text.mode = query.search_mode;
    full_text.synonyms = find_synonyms(&full_text.required, maps);
    assert(query@.search_fields.len() == query.search_fields@.len());
    if query.search_fields.len() > 0 {
        let (names, boosts) = field_scope(&query.search_fields);
        full_text.fields = Some(names);
        full_text.boosts = boosts;
    }
    Ok(full_text)
}

// ---------------------------------------------------------------------------
// Paging
// ---------------------------------------------------------------------------

/// The effective skip, filter, and order of a request. A continuation token
/// encapsulates the result-set state, so its values win over those of the
/// request; the token must match the request's vector-query identity.
pub open spec fn paging_state(query: SearchQueryV, d: IndexV, hash: Option<u64>) -> Result<
    (u64, Option<FilterExprV>, Seq<OrderByV>),
    ApiErrorV,
> {
    match query.continuation {
        None => Ok((query.skip, query.filter, query.orderby)),
        Some(raw) => match decoded_token(raw) {
            Err(e) => Err(invalid_query_v("Invalid continuation token: "@ + e)),
            Ok(token) => token_state(token, d, hash),
        },
    }
}

/// The paging state of a continuation token.
pub open spec fn token_state(token: ContinuationV, d: IndexV, hash: Option<u64>) -> Result<
    (u64, Option<FilterExprV>, Seq<OrderByV>),
    ApiErrorV,
> {
    if hash != token.vector_query_hash {
        Err(invalid_query_v("Vector query changed during paging; restart the search."@))
    } else {
        match token_filter(token.filter) {
            Err(e) => Err(e),
            Ok(filter) => match token_orderby(token.orderby, d) {
                Err(e) => Err(e),
                Ok(orderby) => Ok((token.skip, filter, orderby)),
            },
        }
    }
}

pub open spec fn token_filter(raw: Option<Seq<char>>) -> Result<Option<FilterExprV>, ApiErrorV> {
    match raw {
        None => Ok(None),
        Some(text) => match filter_option_of(text) {
            Err(e) => Err(e),
            Ok(e) => Ok(Some(e)),
        },
    }
}

pub open spec fn token_orderby(raw: Option<Seq<char>>, d: IndexV) -> Result<
    Seq<OrderByV>,
    ApiErrorV,
> {
    match raw {
        None => Ok(seq![]),
        Some(text) => match orderby_of(JsonV::String(text), d) {
            Err(e) => Err(e),
            Ok((clauses, _)) => Ok(clauses),
        },
    }
}

fn same_hash(a: Option<u64>, b: Option<u64>) -> (r: bool)
    ensures
        r == (a == b),
{
    match (a, b) {
        (Some(x), Some(y)) => x == y,
        (None, None) => true,
        _ => false,
    }
}

fn clone_filter(filter: &Option<FilterExpr>) -> (r: Option<FilterExpr>)
    ensures
        opt_expr(r) == opt_expr(*filter),
{
    match filter {
        Some(e) => Some(e.duplicate()),
        None => None,
    }
}

/// Resolves the effective `(skip, filter, orderby)` for a search. When a
/// continuation token is present it encapsulates the result-set state, so its
/// `skip`/`filter`/`orderby` win over the request parameters: paging can never
/// mix states mid-sequence. Tokens remain valid across document mutations
/// (results may shift). The token must also match the request's vector-query
/// identity.
pub fn resolve_paging(query: &SearchQuery, definition: &IndexDefinition, hash: Option<u64>) -> (r:
    Result<(u64, Option<FilterExpr>, Vec<OrderBy>), ApiError>)
    ensures
        match r {
            Ok((skip, filter, orderby)) => paging_state(query@, definition@, hash) is Ok
                && paging_state(query@, definition@, hash)->Ok_0 == (
                skip,
                opt_expr(filter),
                order_views(orderby@),
            ),
            Err(e) => paging_state(query@, definition@, hash) is Err && paging_state(
                query@,
                definition@,
                hash,
            )->Err_0 == e@,
        },
{
    broadcast use group_json;

    let raw = match &query.continuation {
        None => {
            return Ok((query.skip, clone_filter(&query.filter), clone_orders(&query.orderby)));
        },
        Some(raw) => raw,
    };
    let token = match ContinuationToken::decode(raw.as_str()) {
        Ok(t) => t,
        Err(e) => {
            return Err(
                ApiError::invalid_query(
                    cat2("Invalid continuation token: ", e.as_str()).as_str(),
                ),
            );
        },
    };
    if !same_hash(hash, token.vector_query_hash) {
        return Err(
            ApiError::invalid_query("Vector query changed during paging; restart the search."),
        );
    }
    let filter = match &token.filter {
        Some(text) => Some(parse_filter_option(text.as_str())?),
        None => None,
    };
    let orderby: Vec<OrderBy> = match &token.orderby {
        Some(text) => {
            let (clauses, _) = parse_orderby(&Json::String(text.clone()), definition)?;
            clauses
        },
        None => {
            let none: Vec<OrderBy> = Vec::new();
            assert(order_views(none@) =~= seq![]);
            none
        },
    };
    Ok((token.skip, filter, orderby))
}

/// The continuation of a search.
pub open spec fn next_token(query: SearchQueryV, outcome: OutcomeV, hash: Option<u64>) -> ContinuationV {
    let started = ContinuationV {
        filter: query.paging.filter_raw,
        orderby: query.paging.orderby_raw,
        skip: outcome.next_skip,
        vector_query_hash: hash,
    };
    match query.continuation {
        None => started,
        Some(raw) => match decoded_token(raw) {
            Ok(t) => ContinuationV { filter: t.filter, orderby: t.orderby, ..started },
            Err(_) => started,
        },
    }
}

impl SearchService {
    /// Builds the continuation token for the next page, if one exists. The token
    /// carries the effective paging state: when the request continued a previous
    /// token, that token's filter/orderby propagate forward (they are
    /// authoritative); otherwise the request's values start the sequence. This
    /// keeps clients that send only `{continuation}` on later pages on the same
    /// result set. `hash` is the identity of the request's vector queries.
    pub fn next_continuation(
        &self,
        query: &SearchQuery,
        outcome: &SearchOutcome,
        hash: Option<u64>,
    ) -> (r: Option<String>)
        ensures
            r is Some == outcome.has_more,
            r matches Some(t) ==> decoded_token(t@) is Ok && decoded_token(t@)->Ok_0 == next_token(
                query@,
                outcome@,
                hash,
            ),
    {
        if !outcome.has_more {
            return None;
        }
        let (filter, orderby) = match &query.continuation {
            Some(raw) => match ContinuationToken::decode(raw.as_str()) {
                Ok(token) => (token.filter, token.orderby),
                Err(_) => (
                    clone_opt_text(&query.paging.filter_raw),
                    clone_opt_text(&query.paging.orderby_raw),
                ),
            },
            None => (
                clone_opt_text(&query.paging.filter_raw),
                clone_opt_text(&query.paging.orderby_raw),
            ),
        };
        let token = ContinuationToken {
            filter,
            orderby,
            skip: outcome.next_skip,
            vector_query_hash: hash,
        };
        Some(token.encode())
    }
}

} // verus!
