//! Requests and results of the service.
use crate::error::{ApiError, ApiErrorV, ErrorCode, bad_request_v};
use crate::filter::expr::{FilterExpr, FilterExprV};
use crate::json::{Json, JsonMap, JsonV, Number, group_json, members, opt_owned};
use crate::query::simple::{QueryType, SearchField, SearchFieldV, SearchMode};
use crate::semantic::config::{member_of, value_member};
use crate::storage::document::{Document, DocumentV};
use crate::text::{cat3, debug_text, opt_text, quoted, same_text, texts};
use vstd::prelude::*;

verus! {

/// Per-document result of an indexing operation.
#[derive(Debug, PartialEq, Eq)]
pub struct IndexingResultItem {
    pub key: String,
    pub succeeded: bool,
    pub status_code: u16,
    pub error_message: Option<String>,
}

/// The mathematical value of an [`IndexingResultItem`].
pub struct ResultItemV {
    pub key: Seq<char>,
    pub succeeded: bool,
    pub status_code: u16,
    pub error_message: Option<Seq<char>>,
}

impl View for IndexingResultItem {
    type V = ResultItemV;

    open spec fn view(&self) -> ResultItemV {
        ResultItemV {
            key: self.key@,
            succeeded: self.succeeded,
            status_code: self.status_code,
            error_message: opt_text(self.error_message),
        }
    }
}

pub open spec fn result_views(v: Seq<IndexingResultItem>) -> Seq<ResultItemV> {
    v.map_values(|x: IndexingResultItem| x@)
}

pub broadcast proof fn lemma_result_views_push(v: Seq<IndexingResultItem>, x: IndexingResultItem)
    ensures
        #[trigger] result_views(v.push(x)) == result_views(v).push(x@),
{
    assert(result_views(v.push(x)) =~= result_views(v).push(x@));
}

/// The result of an action that succeeded.
pub open spec fn ok_item(key: Seq<char>, status_code: u16) -> ResultItemV {
    ResultItemV { key, succeeded: true, status_code, error_message: None }
}

/// The result of an action that failed.
pub open spec fn fail_item(key: Seq<char>, status_code: u16, message: Seq<char>) -> ResultItemV {
    ResultItemV { key, succeeded: false, status_code, error_message: Some(message) }
}

pub fn ok_result(key: String, status_code: u16) -> (r: IndexingResultItem)
    ensures
        r@ == ok_item(key@, status_code),
{
    IndexingResultItem { key, succeeded: true, status_code, error_message: None }
}

pub fn fail_result(key: String, status_code: u16, message: String) -> (r: IndexingResultItem)
    ensures
        r@ == fail_item(key@, status_code, message@),
{
    IndexingResultItem { key, succeeded: false, status_code, error_message: Some(message) }
}

/// The JSON members of a result, in the order of their keys.
pub open spec fn item_members_v(item: ResultItemV) -> Seq<(Seq<char>, JsonV)> {
    seq![
        (
            "errorMessage"@,
            match item.error_message {
                Some(m) => JsonV::String(m),
                None => JsonV::Null,
            },
        ),
        ("key"@, JsonV::String(item.key)),
        ("status"@, JsonV::Bool(item.succeeded)),
        ("statusCode"@, JsonV::Number(Number::PosInt(item.status_code as u64))),
    ]
}

impl IndexingResultItem {
    /// The result as the JSON object of a response.
    pub fn to_value(&self) -> (r: Json)
        ensures
            r@ == JsonV::Object(item_members_v(self@)),
    {
        broadcast use group_json;

        let mut entries: Vec<(String, Json)> = Vec::new();
        entries.push(
            (
                "errorMessage".to_owned(),
                match &self.error_message {
                    Some(m) => Json::String(m.clone()),
                    None => Json::Null,
                },
            ),
        );
        entries.push(("key".to_owned(), Json::String(self.key.clone())));
        entries.push(("status".to_owned(), Json::Bool(self.succeeded)));
        entries.push(
            ("statusCode".to_owned(), Json::Number(Number::PosInt(self.status_code as u64))),
        );
        assert(members(entries@) =~= item_members_v(self@));
        Json::Object(JsonMap { entries })
    }
}

#[derive(Debug, Clone, Copy, PartialEq, Eq, Structural)]
pub enum ActionKind {
    Upload,
    Merge,
    MergeOrUpload,
    Delete,
}

/// A document batch action, parsed from the wire format.
#[derive(Debug, PartialEq)]
pub struct DocumentAction {
    pub kind: ActionKind,
    /// The document fields (for `delete`, only the key field is meaningful).
    pub document: Json,
}

/// The mathematical value of a [`DocumentAction`].
pub struct ActionV {
    pub kind: ActionKind,
    pub document: JsonV,
}

impl View for DocumentAction {
    type V = ActionV;

    open spec fn view(&self) -> ActionV {
        ActionV { kind: self.kind, document: self.document@ }
    }
}

pub open spec fn action_views(v: Seq<DocumentAction>) -> Seq<ActionV> {
    v.map_values(|a: DocumentAction| a@)
}

pub open spec fn action_named(name: Seq<char>) -> Option<ActionKind> {
    if name == "upload"@ {
        Some(ActionKind::Upload)
    } else if name == "merge"@ {
        Some(ActionKind::Merge)
    } else if name == "mergeOrUpload"@ {
        Some(ActionKind::MergeOrUpload)
    } else if name == "delete"@ {
        Some(ActionKind::Delete)
    } else {
        None
    }
}

/// The first `n` members of an object but those with a key.
pub open spec fn without_key(m: Seq<(Seq<char>, JsonV)>, key: Seq<char>, n: int) -> Seq<
    (Seq<char>, JsonV),
>
    decreases n,
{
    if n <= 0 {
        seq![]
    } else {
        let rest = without_key(m, key, n - 1);
        if m[n - 1].0 == key {
            rest
        } else {
            rest.push(m[n - 1])
        }
    }
}

/// The action that a JSON value writes: an upload where it names none. The
/// document is under `document`, or else made of the other members.
pub open spec fn action_of(v: JsonV) -> Result<ActionV, ApiErrorV> {
    let named = match member_of(v, "@search.action"@) {
        Some(JsonV::String(s)) => s,
        _ => "upload"@,
    };
    match action_named(named) {
        None => Err(
            bad_request_v(
                ErrorCode::UnsupportedAction,
                "Document action "@ + debug_text(named) + " is not supported by the emulator."@,
            ),
        ),
        Some(kind) => match member_of(v, "document"@) {
            Some(document) => Ok(ActionV { kind, document }),
            None => match v {
                JsonV::Object(m) => Ok(
                    ActionV {
                        kind,
                        document: JsonV::Object(
                            without_key(m, "@search.action"@, m.len() as int),
                        ),
                    },
                ),
                _ => Err(
                    bad_request_v(
                        ErrorCode::InvalidDocuments,
                        "Each batch action must be a JSON object."@,
                    ),
                ),
            },
        },
    }
}

impl DocumentAction {
    /// Parses one upload-batch action from the wire format. Two shapes are
    /// accepted:
    ///   - `{"@search.action": "...", "document": {...}}`
    ///   - `{"@search.action": "...", ...fields}` (the document fields spread
    ///     at the top level of the action)
    pub fn from_value(value: &Json) -> (r: Result<DocumentAction, ApiError>)
        ensures
            match r {
                Ok(a) => action_of(value@) == Ok::<_, ApiErrorV>(a@),
                Err(e) => action_of(value@) == Err::<ActionV, _>(e@),
            },
    {
        broadcast use group_json;

        let named = match value_member(value, "@search.action") {
            Some(Json::String(s)) => s.as_str(),
            _ => "upload",
        };
        let kind = if same_text(named, "upload") {
            ActionKind::Upload
        } else if same_text(named, "merge") {
            ActionKind::Merge
        } else if same_text(named, "mergeOrUpload") {
            ActionKind::MergeOrUpload
        } else if same_text(named, "delete") {
            ActionKind::Delete
        } else {
            return Err(
                ApiError::unsupported(
                    ErrorCode::UnsupportedAction,
                    cat3(
                        "Document action ",
                        quoted(named).as_str(),
                        " is not supported by the emulator.",
                    ).as_str(),
                ),
            );
        };
        if let Some(document) = value_member(value, "document") {
            return Ok(DocumentAction { kind, document: document.duplicate() });
        }
        let obj = match value {
            Json::Object(obj) => obj,
            _ => {
                return Err(
                    ApiError::bad_request(
                        ErrorCode::InvalidDocuments,
                        "Each batch action must be a JSON object.",
                    ),
                );
            },
        };
        let ghost m = obj@;
        let mut entries: Vec<(String, Json)> = Vec::new();
        let mut i: usize = 0;
        assert(members(entries@) =~= seq![]);
        while i < obj.entries.len()
            invariant
                m == obj@,
                i <= obj.entries@.len(),
                members(entries@) == without_key(m, "@search.action"@, i as int),
            decreases obj.entries@.len() - i,
        {
            assert(m[i as int] == (obj.entries@[i as int].0@, obj.entries@[i as int].1@));
            if !same_text(obj.entries[i].0.as_str(), "@search.action") {
                let ghost before = members(entries@);
                let e = (obj.entries[i].0.clone(), obj.entries[i].1.duplicate());
                entries.push(e);
                assert(members(entries@) == before.push((e.0@, e.1@)));
            }
            i += 1;
        }
        Ok(DocumentAction { kind, document: Json::Object(JsonMap { entries }) })
    }
}

/// One `facets` entry: a field (or the special `$count`) with an optional
/// limit on the number of returned facet values (`count:N` / `top:N`).
#[derive(Debug, PartialEq, Eq)]
pub struct Facet {
    pub field: String,
    pub limit: Option<usize>,
}

/// The mathematical value of a [`Facet`].
pub struct FacetV {
    pub field: Seq<char>,
    pub limit: Option<usize>,
}

impl View for Facet {
    type V = FacetV;

    open spec fn view(&self) -> FacetV {
        FacetV { field: self.field@, limit: self.limit }
    }
}

pub open spec fn facet_views(v: Seq<Facet>) -> Seq<FacetV> {
    v.map_values(|f: Facet| f@)
}

pub broadcast proof fn lemma_facet_views_push(v: Seq<Facet>, f: Facet)
    ensures
        #[trigger] facet_views(v.push(f)) == facet_views(v).push(f@),
{
    assert(facet_views(v.push(f)) =~= facet_views(v).push(f@));
}

/// One `orderby` clause: a field and its direction.
#[derive(Debug, PartialEq, Eq)]
pub struct OrderBy {
    pub field: String,
    pub descending: bool,
}

/// The mathematical value of an [`OrderBy`].
pub struct OrderByV {
    pub field: Seq<char>,
    pub descending: bool,
}

impl View for OrderBy {
    type V = OrderByV;

    open spec fn view(&self) -> OrderByV {
        OrderByV { field: self.field@, descending: self.descending }
    }
}

pub open spec fn order_views(v: Seq<OrderBy>) -> Seq<OrderByV> {
    v.map_values(|o: OrderBy| o@)
}

pub broadcast proof fn lemma_order_views_push(v: Seq<OrderBy>, o: OrderBy)
    ensures
        #[trigger] order_views(v.push(o)) == order_views(v).push(o@),
{
    assert(order_views(v.push(o)) =~= order_views(v).push(o@));
}

pub(crate) fn clone_orders(v: &Vec<OrderBy>) -> (r: Vec<OrderBy>)
    ensures
        order_views(r@) == order_views(v@),
{
    broadcast use lemma_order_views_push;

    let ghost all = order_views(v@);
    let mut out: Vec<OrderBy> = Vec::new();
    let mut i: usize = 0;
    assert(order_views(out@) =~= all.take(0));
    while i < v.len()
        invariant
            all == order_views(v@),
            i <= v@.len(),
            order_views(out@) == all.take(i as int),
        decreases v@.len() - i,
    {
        let ghost before = order_views(out@);
        let o = OrderBy { field: v[i].field.clone(), descending: v[i].descending };
        out.push(o);
        assert(order_views(out@) == before.push(o@));
        assert(all[i as int] == o@);
        i += 1;
        assert(order_views(out@) =~= all.take(i as int));
    }
    assert(all.take(all.len() as int) =~= all);
    out
}

/// The top-level `vectorFilterMode`: `postFilter` (default) retrieves top-k
/// by similarity then applies `filter`; `preFilter` constrains candidates to
/// `filter` matches before top-k.
#[derive(Debug, Clone, Copy, PartialEq, Eq, Structural)]
pub enum VectorFilterMode {
    PostFilter,
    PreFilter,
}

impl Default for VectorFilterMode {
    fn default() -> (r: VectorFilterMode)
        ensures
            r == VectorFilterMode::PostFilter,
    {
        VectorFilterMode::PostFilter
    }
}

pub open spec fn filter_mode_named(raw: Seq<char>) -> Option<VectorFilterMode> {
    if raw == "postFilter"@ {
        Some(VectorFilterMode::PostFilter)
    } else if raw == "preFilter"@ {
        Some(VectorFilterMode::PreFilter)
    } else {
        None
    }
}

impl VectorFilterMode {
    pub open spec fn name(self) -> Seq<char> {
        match self {
            VectorFilterMode::PostFilter => "postFilter"@,
            VectorFilterMode::PreFilter => "preFilter"@,
        }
    }

    pub fn parse(raw: &str) -> (r: Option<VectorFilterMode>)
        ensures
            r == filter_mode_named(raw@),
    {
        if same_text(raw, "postFilter") {
            Some(VectorFilterMode::PostFilter)
        } else if same_text(raw, "preFilter") {
            Some(VectorFilterMode::PreFilter)
        } else {
            None
        }
    }

    pub fn as_str(self) -> (r: &'static str)
        ensures
            r@ == self.name(),
    {
        match self {
            VectorFilterMode::PostFilter => "postFilter",
            VectorFilterMode::PreFilter => "preFilter",
        }
    }
}

/// The vector of a vector query: numbers, by their binary64 ranks, or a text
/// that the target fields' vectorizer turns into as many numbers.
#[derive(Debug, PartialEq, Eq)]
pub enum QueryVector {
    Numbers(Vec<u64>),
    Text { text: String, dimension: usize },
}

/// The mathematical value of a [`QueryVector`].
pub enum QueryVectorV {
    Numbers(Seq<u64>),
    Text { text: Seq<char>, dimension: usize },
}

impl View for QueryVector {
    type V = QueryVectorV;

    open spec fn view(&self) -> QueryVectorV {
        match self {
            QueryVector::Numbers(v) => QueryVectorV::Numbers(v@),
            QueryVector::Text { text, dimension } => QueryVectorV::Text {
                text: text@,
                dimension: *dimension,
            },
        }
    }
}

/// One parsed `vectorQueries[]` entry: a kNN query over one or more vector
/// fields. `weight` scales this query's contribution to the hybrid fusion; it
/// is a binary64 number, by its rank.
#[derive(Debug, PartialEq, Eq)]
pub struct VectorQuery {
    pub fields: Vec<String>,
    pub vector: QueryVector,
    pub k: usize,
    pub exhaustive: bool,
    pub weight: u64,
}

/// The mathematical value of a [`VectorQuery`].
pub struct VectorQueryV {
    pub fields: Seq<Seq<char>>,
    pub vector: QueryVectorV,
    pub k: usize,
    pub exhaustive: bool,
    pub weight: u64,
}

impl View for VectorQuery {
    type V = VectorQueryV;

    open spec fn view(&self) -> VectorQueryV {
        VectorQueryV {
            fields: texts(self.fields@),
            vector: self.vector@,
            k: self.k,
            exhaustive: self.exhaustive,
            weight: self.weight,
        }
    }
}

pub open spec fn vector_query_views(v: Seq<VectorQuery>) -> Seq<VectorQueryV> {
    v.map_values(|q: VectorQuery| q@)
}

pub broadcast proof fn lemma_vector_query_views_push(v: Seq<VectorQuery>, q: VectorQuery)
    ensures
        #[trigger] vector_query_views(v.push(q)) == vector_query_views(v).push(q@),
{
    assert(vector_query_views(v.push(q)) =~= vector_query_views(v).push(q@));
}

pub open spec fn search_field_views(v: Seq<SearchField>) -> Seq<SearchFieldV> {
    v.map_values(|f: SearchField| f@)
}

pub broadcast proof fn lemma_search_field_views_push(v: Seq<SearchField>, f: SearchField)
    ensures
        #[trigger] search_field_views(v.push(f)) == search_field_views(v).push(f@),
{
    assert(search_field_views(v.push(f)) =~= search_field_views(v).push(f@));
}

pub broadcast group group_types {
    lemma_result_views_push,
    lemma_facet_views_push,
    lemma_order_views_push,
    lemma_vector_query_views_push,
    lemma_search_field_views_push,
}

/// The raw request state bound into continuation tokens: the raw `filter`,
/// `orderby`, and `vectorQueries` values that must survive a token round-trip
/// so later pages stay on the same result set and vector-query identity.
#[derive(Debug, PartialEq)]
pub struct PagingState {
    /// The raw `filter` string.
    pub filter_raw: Option<String>,
    /// The raw `orderby` string.
    pub orderby_raw: Option<String>,
    /// The raw `vectorQueries` array, binding tokens to the vector identity.
    pub vector_queries_raw: Option<Json>,
}

/// The mathematical value of a [`PagingState`].
pub struct PagingStateV {
    pub filter_raw: Option<Seq<char>>,
    pub orderby_raw: Option<Seq<char>>,
    pub vector_queries_raw: Option<JsonV>,
}

impl View for PagingState {
    type V = PagingStateV;

    open spec fn view(&self) -> PagingStateV {
        PagingStateV {
            filter_raw: opt_text(self.filter_raw),
            orderby_raw: opt_text(self.orderby_raw),
            vector_queries_raw: opt_owned(self.vector_queries_raw),
        }
    }
}

/// A parsed search request.
#[derive(Debug, PartialEq)]
pub struct SearchQuery {
    pub search: Option<String>,
    /// The `queryType`: `simple` (the default), `full` (Lucene) or `semantic`.
    pub query_type: QueryType,
    /// How multi-term required clauses combine (`searchMode`).
    pub search_mode: SearchMode,
    pub count: bool,
    pub top: Option<u64>,
    pub skip: u64,
    pub filter: Option<FilterExpr>,
    pub orderby: Vec<OrderBy>,
    pub select: Vec<String>,
    pub facets: Vec<Facet>,
    pub search_fields: Vec<SearchField>,
    /// Fields to highlight (`highlight`); empty means no highlighting.
    pub highlight_fields: Vec<String>,
    /// Tags wrapping highlighted terms (`highlightPreTag` / `highlightPostTag`).
    pub highlight_pre_tag: String,
    pub highlight_post_tag: String,
    pub continuation: Option<String>,
    /// The raw request state bound into continuation tokens.
    pub paging: PagingState,
    /// Parsed `vectorQueries` entries.
    pub vector_queries: Vec<VectorQuery>,
    pub vector_filter_mode: VectorFilterMode,
}

/// The mathematical value of a [`SearchQuery`].
pub struct SearchQueryV {
    pub search: Option<Seq<char>>,
    pub query_type: QueryType,
    pub search_mode: SearchMode,
    pub count: bool,
    pub top: Option<u64>,
    pub skip: u64,
    pub filter: Option<FilterExprV>,
    pub orderby: Seq<OrderByV>,
    pub select: Seq<Seq<char>>,
    pub facets: Seq<FacetV>,
    pub search_fields: Seq<SearchFieldV>,
    pub highlight_fields: Seq<Seq<char>>,
    pub highlight_pre_tag: Seq<char>,
    pub highlight_post_tag: Seq<char>,
    pub continuation: Option<Seq<char>>,
    pub paging: PagingStateV,
    pub vector_queries: Seq<VectorQueryV>,
    pub vector_filter_mode: VectorFilterMode,
}

pub open spec fn opt_expr(o: Option<FilterExpr>) -> Option<FilterExprV> {
    match o {
        Some(e) => Some(e@),
        None => None,
    }
}

impl View for SearchQuery {
    type V = SearchQueryV;

    open spec fn view(&self) -> SearchQueryV {
        SearchQueryV {
            search: opt_text(self.search),
            query_type: self.query_type,
            search_mode: self.search_mode,
            count: self.count,
            top: self.top,
            skip: self.skip,
            filter: opt_expr(self.filter),
            orderby: order_views(self.orderby@),
            select: texts(self.select@),
            facets: facet_views(self.facets@),
            search_fields: search_field_views(self.search_fields@),
            highlight_fields: texts(self.highlight_fields@),
            highlight_pre_tag: self.highlight_pre_tag@,
            highlight_post_tag: self.highlight_post_tag@,
            continuation: opt_text(self.continuation),
            paging: self.paging@,
            vector_queries: vector_query_views(self.vector_queries@),
            vector_filter_mode: self.vector_filter_mode,
        }
    }
}

/// The request without any option.
pub open spec fn default_search() -> SearchQueryV {
    SearchQueryV {
        search: None,
        query_type: QueryType::Simple,
        search_mode: SearchMode::Any,
        count: false,
        top: None,
        skip: 0,
        filter: None,
        orderby: seq![],
        select: seq![],
        facets: seq![],
        search_fields: seq![],
        highlight_fields: seq![],
        highlight_pre_tag: seq![],
        highlight_post_tag: seq![],
        continuation: None,
        paging: PagingStateV { filter_raw: None, orderby_raw: None, vector_queries_raw: None },
        vector_queries: seq![],
        vector_filter_mode: VectorFilterMode::PostFilter,
    }
}

impl Default for SearchQuery {
    fn default() -> (r: SearchQuery)
        ensures
            r@ == default_search(),
    {
        let r = SearchQuery {
            search: None,
            query_type: QueryType::Simple,
            search_mode: SearchMode::Any,
            count: false,
            top: None,
            skip: 0,
            filter: None,
            orderby: Vec::new(),
            select: Vec::new(),
            facets: Vec::new(),
            search_fields: Vec::new(),
            highlight_fields: Vec::new(),
            highlight_pre_tag: String::new(),
            highlight_post_tag: String::new(),
            continuation: None,
            paging: PagingState { filter_raw: None, orderby_raw: None, vector_queries_raw: None },
            vector_queries: Vec::new(),
            vector_filter_mode: VectorFilterMode::PostFilter,
        };
        assert(order_views(r.orderby@) =~= seq![]);
        assert(texts(r.select@) =~= seq![]);
        assert(facet_views(r.facets@) =~= seq![]);
        assert(search_field_views(r.search_fields@) =~= seq![]);
        assert(texts(r.highlight_fields@) =~= seq![]);
        assert(vector_query_views(r.vector_queries@) =~= seq![]);
        assert(r.highlight_pre_tag@ =~= seq![]);
        assert(r.highlight_post_tag@ =~= seq![]);
        r
    }
}

/// A single autocomplete completion: the completed term and the query with
/// the completed term appended.
#[derive(Debug, PartialEq, Eq)]
pub struct AutocompleteCompletion {
    pub text: String,
    pub query_plus_text: String,
}

/// The mathematical value of an [`AutocompleteCompletion`].
pub struct CompletionV {
    pub text: Seq<char>,
    pub query_plus_text: Seq<char>,
}

impl View for AutocompleteCompletion {
    type V = CompletionV;

    open spec fn view(&self) -> CompletionV {
        CompletionV { text: self.text@, query_plus_text: self.query_plus_text@ }
    }
}

pub open spec fn completion_views(v: Seq<AutocompleteCompletion>) -> Seq<CompletionV> {
    v.map_values(|c: AutocompleteCompletion| c@)
}

/// A single suggestion: a matched document plus the word that matched.
#[derive(Debug, PartialEq)]
pub struct Suggestion {
    pub document: Document,
    pub text: String,
}

/// The mathematical value of a [`Suggestion`].
pub struct SuggestionV {
    pub document: DocumentV,
    pub text: Seq<char>,
}

impl View for Suggestion {
    type V = SuggestionV;

    open spec fn view(&self) -> SuggestionV {
        SuggestionV { document: self.document@, text: self.text@ }
    }
}

pub open spec fn suggestion_views(v: Seq<Suggestion>) -> Seq<SuggestionV> {
    v.map_values(|s: Suggestion| s@)
}

/// Reading a filter mode's name gives the mode back.
pub proof fn law_filter_mode_round_trip(mode: VectorFilterMode)
    ensures
        filter_mode_named(mode.name()) == Some(mode),
{
    reveal_strlit("postFilter");
    reveal_strlit("preFilter");
    assert("postFilter"@.len() != "preFilter"@.len());
}

} // verus!
