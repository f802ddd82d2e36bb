//! Request bodies and parameters.
use crate::api::segments::text_result;
use crate::error::{ApiError, ApiErrorV, ErrorCode, bad_request_v, invalid_query_v, unit_result};
use crate::json::{
    Json, JsonV, array_of, group_json, member_array, nonempty_str, nonempty_str_of, str_of,
    u64_of, values,
};
use crate::query::analyzers::opt_str;
use crate::semantic::config::{member_of, value_member};
use crate::service::resources::ResourceKind;
use crate::service::types::{ActionV, DocumentAction, action_of, action_views};
use crate::text::{
    cat2, cat3, cat4, debug_text, opt_text, parse_unsigned, quoted, same_text, trim, trimmed,
    unsigned_value,
};
use vstd::prelude::*;

verus! {

/// A string member of a value.
pub open spec fn string_member(v: JsonV, key: Seq<char>) -> Option<Seq<char>> {
    match member_of(v, key) {
        Some(x) => str_of(x),
        None => None,
    }
}

pub(crate) fn read_string_member<'a>(v: &'a Json, key: &str) -> (r: Option<&'a str>)
    ensures
        opt_str(r) == string_member(v@, key@),
{
    match value_member(v, key) {
        Some(x) => x.as_str(),
        None => None,
    }
}

/// A string member of a value, empty where there is none.
pub open spec fn string_or_empty(v: JsonV, key: Seq<char>) -> Seq<char> {
    match string_member(v, key) {
        Some(s) => s,
        None => ""@,
    }
}

pub(crate) fn read_string_or_empty<'a>(v: &'a Json, key: &str) -> (r: &'a str)
    ensures
        r@ == string_or_empty(v@, key@),
{
    match read_string_member(v, key) {
        Some(s) => s,
        None => "",
    }
}

/// A string member of a value that is not empty.
pub open spec fn nonempty_member(v: JsonV, key: Seq<char>) -> Option<Seq<char>> {
    nonempty_str_of(member_of(v, key))
}

// ---------------------------------------------------------------------------
// Bodies
// ---------------------------------------------------------------------------

/// The error for a missing body.
pub fn body_required() -> (r: ApiError)
    ensures
        r@ == bad_request_v(ErrorCode::InvalidRequest, "Request body is required."@),
{
    ApiError::bad_request(ErrorCode::InvalidRequest, "Request body is required.")
}

/// The error for a body that is no JSON.
pub fn body_invalid(problem: &str) -> (r: ApiError)
    ensures
        r@ == bad_request_v(ErrorCode::InvalidRequest, "Invalid JSON body: "@ + problem@),
{
    ApiError::bad_request(
        ErrorCode::InvalidRequest,
        cat2("Invalid JSON body: ", problem).as_str(),
    )
}

/// The document actions of an upload batch.
pub open spec fn actions_of_batch(batch: JsonV) -> Result<Seq<JsonV>, ApiErrorV> {
    match batch {
        JsonV::Array(items) => Ok(items),
        _ => match array_of(member_of(batch, "value"@)) {
            Some(items) => Ok(items),
            None => Err(
                bad_request_v(
                    ErrorCode::InvalidDocuments,
                    "Document batch must be a JSON array of actions or an object with a \"value\" array."@,
                ),
            ),
        },
    }
}

/// The document actions of an upload batch: a bare JSON array, or an object with
/// a `"value"` array (the wire shape of an index batch).
pub fn batch_items(batch: &Json) -> (r: Result<&Vec<Json>, ApiError>)
    ensures
        match actions_of_batch(batch@) {
            Ok(items) => r is Ok && values(r->Ok_0@) == items,
            Err(e) => r is Err && r->Err_0@ == e,
        },
{
    broadcast use group_json;

    match batch {
        Json::Array(items) => Ok(items),
        _ => match member_array(value_member(batch, "value")) {
            Some(items) => Ok(items),
            None => Err(
                ApiError::bad_request(
                    ErrorCode::InvalidDocuments,
                    "Document batch must be a JSON array of actions or an object with a \"value\" array.",
                ),
            ),
        },
    }
}

/// The actions from place `i` on behind those in `done`, or the first error.
pub open spec fn parsed_actions(items: Seq<JsonV>, i: int, done: Seq<ActionV>) -> Result<
    Seq<ActionV>,
    ApiErrorV,
>
    decreases items.len() - i,
{
    if i >= items.len() {
        Ok(done)
    } else {
        match action_of(items[i]) {
            Err(e) => Err(e),
            Ok(a) => parsed_actions(items, i + 1, done.push(a)),
        }
    }
}

/// The actions of an upload batch.
pub open spec fn batch_of(batch: JsonV) -> Result<Seq<ActionV>, ApiErrorV> {
    match actions_of_batch(batch) {
        Err(e) => Err(e),
        Ok(items) => parsed_actions(items, 0, seq![]),
    }
}

/// Parses the actions of an upload batch.
pub fn parse_batch(batch: &Json) -> (r: Result<Vec<DocumentAction>, ApiError>)
    ensures
        match batch_of(batch@) {
            Ok(actions) => r is Ok && action_views(r->Ok_0@) == actions,
            Err(e) => r is Err && r->Err_0@ == e,
        },
{
    let items = batch_items(batch)?;
    let ghost all = values(items@);
    let mut out: Vec<DocumentAction> = Vec::new();
    let mut i: usize = 0;
    assert(action_views(out@) =~= seq![]);
    while i < items.len()
        invariant
            all == values(items@),
            batch_of(batch@) == parsed_actions(all, 0, seq![]),
            i <= items@.len(),
            parsed_actions(all, 0, seq![]) == parsed_actions(all, i as int, action_views(out@)),
        decreases items@.len() - i,
    {
        assert(all[i as int] == items@[i as int]@);
        let action = DocumentAction::from_value(&items[i])?;
        let ghost before = out@;
        out.push(action);
        assert(action_views(out@) =~= action_views(before).push(action@));
        i += 1;
    }
    Ok(out)
}

// ---------------------------------------------------------------------------
// Named resources
// ---------------------------------------------------------------------------

/// The name in a resource body.
pub open spec fn name_in_body(v: JsonV, kind: Seq<char>, code: ErrorCode) -> Result<
    Seq<char>,
    ApiErrorV,
> {
    match nonempty_member(v, "name"@) {
        Some(name) => Ok(name),
        None => Err(bad_request_v(code, "The "@ + kind + " name is required."@)),
    }
}

/// Extracts a non-empty `name` from a resource body.
pub fn body_name(definition: &Json, kind: &str, code: ErrorCode) -> (r: Result<String, ApiError>)
    ensures
        text_result(r) == name_in_body(definition@, kind@, code),
{
    match nonempty_str(value_member(definition, "name")) {
        Some(name) => Ok(name.to_owned()),
        None => Err(
            ApiError::bad_request(code, cat3("The ", kind, " name is required.").as_str()),
        ),
    }
}

/// Whether the name in a body is the name in the path.
pub open spec fn name_check(path_name: Seq<char>, v: JsonV, kind: Seq<char>, code: ErrorCode) -> Result<
    (),
    ApiErrorV,
> {
    let name = string_or_empty(v, "name"@);
    if name.len() == 0 || name != path_name {
        Err(
            bad_request_v(
                code,
                kind + " name in path ("@ + debug_text(path_name)
                    + ") does not match name in body."@,
            ),
        )
    } else {
        Ok(())
    }
}

/// Checks that the body's `name` matches the name parsed from the path.
pub fn validate_named_body(path_name: &str, definition: &Json, kind: &str, code: ErrorCode) -> (r:
    Result<(), ApiError>)
    ensures
        unit_result(r) == name_check(path_name@, definition@, kind@, code),
{
    let name = read_string_or_empty(definition, "name");
    if name.is_empty() || !same_text(name, path_name) {
        return Err(
            ApiError::bad_request(
                code,
                cat4(
                    kind,
                    " name in path (",
                    quoted(path_name).as_str(),
                    ") does not match name in body.",
                ).as_str(),
            ),
        );
    }
    Ok(())
}

/// What is wrong with an alias body.
pub open spec fn alias_check(v: JsonV) -> Result<(), ApiErrorV> {
    match array_of(member_of(v, "indexes"@)) {
        None => Err(
            bad_request_v(
                ErrorCode::InvalidAlias,
                "An alias must define a non-empty \"indexes\" array."@,
            ),
        ),
        Some(items) => if items.len() == 0 {
            Err(
                bad_request_v(
                    ErrorCode::InvalidAlias,
                    "An alias must define a non-empty \"indexes\" array."@,
                ),
            )
        } else if exists|i: int|
            0 <= i < items.len() && nonempty_str_of(Some(#[trigger] items[i])) is None {
            Err(
                bad_request_v(
                    ErrorCode::InvalidAlias,
                    "Alias \"indexes\" entries must be non-empty index name strings."@,
                ),
            )
        } else {
            Ok(())
        },
    }
}

/// Validates an alias body: a non-empty `indexes` array of non-empty strings.
pub fn validate_alias(definition: &Json) -> (r: Result<(), ApiError>)
    ensures
        unit_result(r) == alias_check(definition@),
{
    let missing = "An alias must define a non-empty \"indexes\" array.";
    let items = match member_array(value_member(definition, "indexes")) {
        Some(items) => items,
        None => return Err(ApiError::bad_request(ErrorCode::InvalidAlias, missing)),
    };
    let ghost all = values(items@);
    assert(all.len() == items@.len());
    if items.len() == 0 {
        return Err(ApiError::bad_request(ErrorCode::InvalidAlias, missing));
    }
    let mut i: usize = 0;
    while i < items.len()
        invariant
            all == values(items@),
            array_of(member_of(definition@, "indexes"@)) == Some(all),
            all.len() > 0,
            i <= items@.len(),
            forall|k: int| 0 <= k < i ==> nonempty_str_of(Some(#[trigger] all[k])) is Some,
        decreases items@.len() - i,
    {
        assert(all[i as int] == items@[i as int]@);
        if nonempty_str(Some(&items[i])).is_none() {
            assert(nonempty_str_of(Some(all[i as int])) is None);
            return Err(
                ApiError::bad_request(
                    ErrorCode::InvalidAlias,
                    "Alias \"indexes\" entries must be non-empty index name strings.",
                ),
            );
        }
        i += 1;
    }
    Ok(())
}

/// What is wrong with a knowledge source body.
pub open spec fn knowledge_source_check(v: JsonV) -> Result<(), ApiErrorV> {
    match nonempty_member(v, "kind"@) {
        None => Err(
            bad_request_v(
                ErrorCode::InvalidKnowledgeSource,
                "A knowledge source must define a non-empty \"kind\"."@,
            ),
        ),
        Some(kind) => if kind == "searchIndex"@ && search_index_of(v) is None {
            Err(
                bad_request_v(
                    ErrorCode::InvalidKnowledgeSource,
                    "A searchIndex knowledge source must define \"searchIndexParameters.searchIndexName\"."@,
                ),
            )
        } else {
            Ok(())
        },
    }
}

/// The search index of a knowledge source.
pub open spec fn search_index_of(v: JsonV) -> Option<Seq<char>> {
    match member_of(v, "searchIndexParameters"@) {
        Some(p) => nonempty_member(p, "searchIndexName"@),
        None => None,
    }
}

/// Validates a knowledge source body: a non-empty `kind` discriminator. Other
/// kinds than `searchIndex` are accepted opaquely.
pub fn validate_knowledge_source(definition: &Json) -> (r: Result<(), ApiError>)
    ensures
        unit_result(r) == knowledge_source_check(definition@),
{
    let kind = match nonempty_str(value_member(definition, "kind")) {
        Some(k) => k,
        None => {
            return Err(
                ApiError::bad_request(
                    ErrorCode::InvalidKnowledgeSource,
                    "A knowledge source must define a non-empty \"kind\".",
                ),
            );
        },
    };
    if same_text(kind, "searchIndex") {
        let index = match value_member(definition, "searchIndexParameters") {
            Some(p) => nonempty_str(value_member(p, "searchIndexName")),
            None => None,
        };
        if index.is_none() {
            return Err(
                ApiError::bad_request(
                    ErrorCode::InvalidKnowledgeSource,
                    "A searchIndex knowledge source must define \"searchIndexParameters.searchIndexName\".",
                ),
            );
        }
    }
    Ok(())
}

/// What is wrong with a knowledge base body.
pub open spec fn knowledge_base_check(v: JsonV) -> Result<(), ApiErrorV> {
    match array_of(member_of(v, "knowledgeSources"@)) {
        None => Err(
            bad_request_v(
                ErrorCode::InvalidKnowledgeBase,
                "A knowledge base must define a non-empty \"knowledgeSources\" array."@,
            ),
        ),
        Some(items) => if items.len() == 0 {
            Err(
                bad_request_v(
                    ErrorCode::InvalidKnowledgeBase,
                    "A knowledge base must define a non-empty \"knowledgeSources\" array."@,
                ),
            )
        } else if exists|i: int|
            0 <= i < items.len() && nonempty_member(#[trigger] items[i], "name"@) is None {
            Err(
                bad_request_v(
                    ErrorCode::InvalidKnowledgeBase,
                    "Each \"knowledgeSources\" entry must have a non-empty \"name\"."@,
                ),
            )
        } else {
            Ok(())
        },
    }
}

/// Validates a knowledge base body: a non-empty `knowledgeSources` array of
/// named entries.
pub fn validate_knowledge_base(definition: &Json) -> (r: Result<(), ApiError>)
    ensures
        unit_result(r) == knowledge_base_check(definition@),
{
    let missing = "A knowledge base must define a non-empty \"knowledgeSources\" array.";
    let items = match member_array(value_member(definition, "knowledgeSources")) {
        Some(items) => items,
        None => return Err(ApiError::bad_request(ErrorCode::InvalidKnowledgeBase, missing)),
    };
    let ghost all = values(items@);
    assert(all.len() == items@.len());
    if items.len() == 0 {
        return Err(ApiError::bad_request(ErrorCode::InvalidKnowledgeBase, missing));
    }
    let mut i: usize = 0;
    while i < items.len()
        invariant
            all == values(items@),
            array_of(member_of(definition@, "knowledgeSources"@)) == Some(all),
            all.len() > 0,
            i <= items@.len(),
            forall|k: int| 0 <= k < i ==> nonempty_member(#[trigger] all[k], "name"@) is Some,
        decreases items@.len() - i,
    {
        assert(all[i as int] == items@[i as int]@);
        if nonempty_str(value_member(&items[i], "name")).is_none() {
            assert(nonempty_member(all[i as int], "name"@) is None);
            return Err(
                ApiError::bad_request(
                    ErrorCode::InvalidKnowledgeBase,
                    "Each \"knowledgeSources\" entry must have a non-empty \"name\".",
                ),
            );
        }
        i += 1;
    }
    Ok(())
}

/// What is wrong with the shape of a named resource body.
pub open spec fn resource_check(kind: ResourceKind, v: JsonV) -> Result<(), ApiErrorV> {
    match kind {
        ResourceKind::Alias => alias_check(v),
        ResourceKind::KnowledgeSource => knowledge_source_check(v),
        ResourceKind::KnowledgeBase => knowledge_base_check(v),
        ResourceKind::SynonymMap => Ok(()),
    }
}

/// Validates a named resource body's kind-specific shape.
pub fn validate_named_resource_body(kind: ResourceKind, definition: &Json) -> (r: Result<
    (),
    ApiError,
>)
    ensures
        unit_result(r) == resource_check(kind, definition@),
{
    match kind {
        ResourceKind::Alias => validate_alias(definition),
        ResourceKind::KnowledgeSource => validate_knowledge_source(definition),
        ResourceKind::KnowledgeBase => validate_knowledge_base(definition),
        ResourceKind::SynonymMap => Ok(()),
    }
}

// ---------------------------------------------------------------------------
// Query parameters
// ---------------------------------------------------------------------------

/// The pairs of a query string, decoded.
pub uninterp spec fn form_pairs(query: Seq<char>) -> Seq<(Seq<char>, Seq<char>)>;

pub open spec fn pair_views(v: Seq<(String, String)>) -> Seq<(Seq<char>, Seq<char>)> {
    v.map_values(|p: (String, String)| (p.0@, p.1@))
}

/// `url::form_urlencoded::parse`: the pairs of a query string, in order,
/// percent-decoded.
#[verifier::external_body]
fn parse_form(query: &str) -> (r: Vec<(String, String)>)
    ensures
        pair_views(r@) == form_pairs(query@),
{
    url::form_urlencoded::parse(query.as_bytes()).into_owned().collect()
}

/// The value of the first pair with a key.
pub open spec fn first_value(pairs: Seq<(Seq<char>, Seq<char>)>, key: Seq<char>) -> Option<Seq<char>>
    decreases pairs.len(),
{
    if pairs.len() == 0 {
        None
    } else if pairs[0].0 == key {
        Some(pairs[0].1)
    } else {
        first_value(pairs.drop_first(), key)
    }
}

/// The value of the first of decoded pairs with a key.
pub fn find_value(pairs: &Vec<(String, String)>, key: &str) -> (r: Option<String>)
    ensures
        opt_text(r) == first_value(pair_views(pairs@), key@),
{
    let ghost all = pair_views(pairs@);
    let mut i: usize = 0;
    assert(all.skip(0) =~= all);
    while i < pairs.len()
        invariant
            all == pair_views(pairs@),
            i <= pairs@.len(),
            first_value(all, key@) == first_value(all.skip(i as int), key@),
        decreases pairs@.len() - i,
    {
        assert(all.skip(i as int)[0] == (pairs@[i as int].0@, pairs@[i as int].1@));
        assert(all.skip(i as int).drop_first() =~= all.skip(i + 1));
        if same_text(pairs[i].0.as_str(), key) {
            return Some(pairs[i].1.clone());
        }
        i += 1;
    }
    None
}

/// The value of a key in a query string.
pub open spec fn param_of(query: Option<Seq<char>>, key: Seq<char>) -> Option<Seq<char>> {
    match query {
        Some(q) => first_value(form_pairs(q), key),
        None => None,
    }
}

/// The value of `key` in a `form_urlencoded` query string, percent-decoded.
pub fn query_param(query: &str, key: &str) -> (r: Option<String>)
    ensures
        opt_text(r) == param_of(Some(query@), key@),
{
    find_value(&parse_form(query), key)
}

/// A request parameter: a string member of the body, or else of the query
/// string; a blank one counts for nothing.
pub open spec fn request_param(
    raw: JsonV,
    pairs: Seq<(Seq<char>, Seq<char>)>,
    key: Seq<char>,
) -> Option<Seq<char>> {
    let found = match string_member(raw, key) {
        Some(s) => Some(s),
        None => first_value(pairs, key),
    };
    match found {
        Some(s) => if trim(s).len() == 0 {
            None
        } else {
            Some(s)
        },
        None => None,
    }
}

fn read_request_param(raw: &Json, pairs: &Vec<(String, String)>, key: &str) -> (r: Option<String>)
    ensures
        opt_text(r) == request_param(raw@, pair_views(pairs@), key@),
{
    let found = match read_string_member(raw, key) {
        Some(s) => Some(s.to_owned()),
        None => find_value(pairs, key),
    };
    match found {
        Some(s) => if trimmed(s.as_str()).as_str().is_empty() {
            None
        } else {
            Some(s)
        },
        None => None,
    }
}

/// The error for a `top` that is no positive integer.
pub open spec fn bad_top() -> ApiErrorV {
    invalid_query_v("\"top\" must be a positive integer."@)
}

/// A positive integer in a query string.
pub open spec fn top_text(raw: Seq<char>) -> Result<u64, ApiErrorV> {
    match unsigned_value(raw, u64::MAX as nat) {
        Some(n) => if n > 0 {
            Ok(n as u64)
        } else {
            Err(bad_top())
        },
        None => Err(bad_top()),
    }
}

pub open spec fn number_result(r: Result<u64, ApiError>) -> Result<u64, ApiErrorV> {
    match r {
        Ok(n) => Ok(n),
        Err(e) => Err(e@),
    }
}

/// Parses a `top`/`$top` query-string value: must be a positive integer.
pub fn parse_top_param(raw: &str) -> (r: Result<u64, ApiError>)
    ensures
        number_result(r) == top_text(raw@),
{
    match parse_unsigned(raw, u64::MAX) {
        Some(n) => if n > 0 {
            Ok(n)
        } else {
            Err(ApiError::invalid_query("\"top\" must be a positive integer."))
        },
        None => Err(ApiError::invalid_query("\"top\" must be a positive integer.")),
    }
}

/// The `top` of a request: of the body, or else of the query string, or else 5.
pub open spec fn top_of(raw: JsonV, pairs: Seq<(Seq<char>, Seq<char>)>) -> Result<u64, ApiErrorV> {
    match member_of(raw, "top"@) {
        Some(v) => if v is Null {
            top_param(pairs)
        } else {
            match u64_of(v) {
                Some(n) => if n > 0 {
                    Ok(n)
                } else {
                    Err(bad_top())
                },
                None => Err(bad_top()),
            }
        },
        None => top_param(pairs),
    }
}

pub open spec fn top_param(pairs: Seq<(Seq<char>, Seq<char>)>) -> Result<u64, ApiErrorV> {
    match first_value(pairs, "top"@) {
        Some(s) => top_text(s),
        None => match first_value(pairs, "$top"@) {
            Some(s) => top_text(s),
            None => Ok(5),
        },
    }
}

fn read_top(raw: &Json, pairs: &Vec<(String, String)>) -> (r: Result<u64, ApiError>)
    ensures
        number_result(r) == top_of(raw@, pair_views(pairs@)),
{
    if let Some(v) = value_member(raw, "top") {
        if !v.is_null() {
            if let Some(n) = v.as_u64() {
                if n > 0 {
                    return Ok(n);
                }
            }
            return Err(ApiError::invalid_query("\"top\" must be a positive integer."));
        }
    }
    match find_value(pairs, "top") {
        Some(s) => parse_top_param(s.as_str()),
        None => match find_value(pairs, "$top") {
            Some(s) => parse_top_param(s.as_str()),
            None => Ok(5),
        },
    }
}

/// The parameters of a suggest or autocomplete request.
#[derive(Debug, PartialEq, Eq)]
pub struct SuggestParams {
    pub search: String,
    pub suggester: String,
    pub top: u64,
    pub filter: Option<String>,
}

/// The mathematical value of [`SuggestParams`].
pub struct SuggestParamsV {
    pub search: Seq<char>,
    pub suggester: Seq<char>,
    pub top: u64,
    pub filter: Option<Seq<char>>,
}

impl View for SuggestParams {
    type V = SuggestParamsV;

    open spec fn view(&self) -> SuggestParamsV {
        SuggestParamsV {
            search: self.search@,
            suggester: self.suggester@,
            top: self.top,
            filter: opt_text(self.filter),
        }
    }
}

pub open spec fn suggest_params_result(r: Result<SuggestParams, ApiError>) -> Result<
    SuggestParamsV,
    ApiErrorV,
> {
    match r {
        Ok(p) => Ok(p@),
        Err(e) => Err(e@),
    }
}

/// The parameters that a suggest or autocomplete request has.
pub open spec fn suggest_params_of(raw: JsonV, pairs: Seq<(Seq<char>, Seq<char>)>) -> Result<
    SuggestParamsV,
    ApiErrorV,
> {
    let search = match request_param(raw, pairs, "search"@) {
        Some(s) => Some(s),
        None => request_param(raw, pairs, "searchText"@),
    };
    match search {
        None => Err(invalid_query_v("The \"search\" field is required."@)),
        Some(search) => match request_param(raw, pairs, "suggesterName"@) {
            None => Err(invalid_query_v("The \"suggesterName\" field is required."@)),
            Some(suggester) => match top_of(raw, pairs) {
                Err(e) => Err(e),
                Ok(top) => Ok(
                    SuggestParamsV {
                        search,
                        suggester,
                        top,
                        filter: request_param(raw, pairs, "filter"@),
                    },
                ),
            },
        },
    }
}

/// Reads the suggest/autocomplete request parameters from the body and the
/// decoded pairs of the query string.
pub fn read_suggest_params(raw: &Json, pairs: &Vec<(String, String)>) -> (r: Result<
    SuggestParams,
    ApiError,
>)
    ensures
        suggest_params_result(r) == suggest_params_of(raw@, pair_views(pairs@)),
{
    let search = match read_request_param(raw, pairs, "search") {
        Some(s) => s,
        None => match read_request_param(raw, pairs, "searchText") {
            Some(s) => s,
            None => return Err(ApiError::invalid_query("The \"search\" field is required.")),
        },
    };
    let suggester = match read_request_param(raw, pairs, "suggesterName") {
        Some(s) => s,
        None => {
            return Err(ApiError::invalid_query("The \"suggesterName\" field is required."));
        },
    };
    let top = read_top(raw, pairs)?;
    let filter = read_request_param(raw, pairs, "filter");
    Ok(SuggestParams { search, suggester, top, filter })
}

/// The pairs of an optional query string.
pub open spec fn pairs_of_query(query: Option<Seq<char>>) -> Seq<(Seq<char>, Seq<char>)> {
    match query {
        Some(q) => form_pairs(q),
        None => seq![],
    }
}

/// Extracts the suggest/autocomplete request parameters: the search text
/// (`search`), the suggester name (`suggesterName`), the result limit (`top`,
/// default 5), and an optional `filter` that narrows the candidate documents.
/// They come in the JSON body; the query-string form is also accepted.
pub fn suggest_request_params(raw: &Json, query: Option<&str>) -> (r: Result<
    SuggestParams,
    ApiError,
>)
    ensures
        suggest_params_result(r) == suggest_params_of(raw@, pairs_of_query(opt_str(query))),
{
    match query {
        Some(q) => read_suggest_params(raw, &parse_form(q)),
        None => {
            let none: Vec<(String, String)> = Vec::new();
            assert(pair_views(none@) =~= seq![]);
            read_suggest_params(raw, &none)
        },
    }
}

} // verus!
