//! Responses.
use crate::error::{ApiError, ApiErrorV};
use crate::json::{
    Json, JsonMap, JsonV, Number, ONE_RANK, group_json, law_insert_keeps_other_members,
    law_inserted_member_is_found, member, members, values, with_member,
};
use crate::query::analyzers::{AnalyzeToken, AnalyzeTokenV, analyzed, opt_str};
use crate::query::engine::{KeyScore, KeyScoreV};
use crate::service::highlights::{DocumentHighlight, FieldHighlight, FieldHighlightV};
use crate::service::paging::{OutcomeV, SearchOutcome};
use crate::service::types::{
    AutocompleteCompletion, CompletionV, IndexingResultItem, ResultItemV, SearchQuery,
    SearchQueryV, Suggestion, SuggestionV, completion_views, item_members_v, result_views,
    suggestion_views,
};
use crate::storage::document::{Document, DocumentV};
use crate::storage::keyed::{KeyedList, keyed_find};
use crate::text::{cat3, cat5, holds_text, texts};
use vstd::prelude::*;

verus! {

/// An array of strings.
pub open spec fn string_values(list: Seq<Seq<char>>) -> Seq<JsonV> {
    list.map_values(|s: Seq<char>| JsonV::String(s))
}

fn show_strings(list: &Vec<String>) -> (r: Json)
    ensures
        r@ == JsonV::Array(string_values(texts(list@))),
{
    broadcast use group_json;

    let ghost all = string_values(texts(list@));
    let mut out: Vec<Json> = Vec::new();
    let mut i: usize = 0;
    assert(values(out@) =~= all.take(0));
    while i < list.len()
        invariant
            all == string_values(texts(list@)),
            i <= list@.len(),
            values(out@) == all.take(i as int),
        decreases list@.len() - i,
    {
        broadcast use group_json;

        let ghost before = values(out@);
        let s = Json::String(list[i].clone());
        out.push(s);
        assert(values(out@) == before.push(s@));
        assert(texts(list@)[i as int] == list@[i as int]@);
        i += 1;
        assert(values(out@) =~= all.take(i as int));
    }
    assert(all.take(i as int) =~= all);
    Json::Array(out)
}

/// An object with one member, `value`.
pub open spec fn value_object(v: JsonV) -> JsonV {
    JsonV::Object(seq![("value"@, v)])
}

/// Wraps a response's items into its `value` member.
pub fn wrap_value(v: Json) -> (r: Json)
    ensures
        r@ == value_object(v@),
{
    broadcast use group_json;

    let mut m = JsonMap::new();
    m.insert("value".to_owned(), v);
    assert(m@ =~= seq![("value"@, v@)]);
    Json::Object(m)
}

/// The body of an error response.
pub open spec fn error_value(e: ApiErrorV) -> JsonV {
    JsonV::Object(
        seq![
            (
                "error"@,
                JsonV::Object(
                    seq![
                        ("code"@, JsonV::String(e.code.name())),
                        ("message"@, JsonV::String(e.message)),
                    ],
                ),
            ),
        ],
    )
}

/// The body of an error response: the code and the message.
pub fn error_response(e: &ApiError) -> (r: Json)
    ensures
        r@ == error_value(e@),
{
    broadcast use group_json;

    let inner: Vec<(String, Json)> = vec![
        ("code".to_owned(), Json::String(e.code.as_str().to_owned())),
        ("message".to_owned(), Json::String(e.message.clone())),
    ];
    assert(members(inner@) =~= seq![
        ("code"@, JsonV::String(e@.code.name())),
        ("message"@, JsonV::String(e@.message)),
    ]);
    let outer: Vec<(String, Json)> = vec![
        ("error".to_owned(), Json::Object(JsonMap { entries: inner })),
    ];
    assert(members(outer@) =~= seq![
        (
            "error"@,
            JsonV::Object(
                seq![
                    ("code"@, JsonV::String(e@.code.name())),
                    ("message"@, JsonV::String(e@.message)),
                ],
            ),
        ),
    ]);
    Json::Object(JsonMap { entries: outer })
}

// ---------------------------------------------------------------------------
// Search
// ---------------------------------------------------------------------------

/// Whether a rank is that of a finite number.
pub open spec fn finite_rank(rank: u64) -> bool {
    0x000f_ffff_ffff_ffff < rank < 0xfff0_0000_0000_0000
}

/// A score as it is shown: a number, or null where it is not finite.
pub open spec fn score_value(rank: u64) -> JsonV {
    if finite_rank(rank) {
        JsonV::Number(Number::Float(rank))
    } else {
        JsonV::Null
    }
}

fn show_score(rank: u64) -> (r: Json)
    ensures
        r@ == score_value(rank),
{
    if 0x000f_ffff_ffff_ffff < rank && rank < 0xfff0_0000_0000_0000 {
        Json::Number(Number::Float(rank))
    } else {
        Json::Null
    }
}

/// The highlights of a document as they are shown.
pub open spec fn highlight_members(list: Seq<FieldHighlightV>) -> Seq<(Seq<char>, JsonV)>
    decreases list.len(),
{
    if list.len() == 0 {
        seq![]
    } else {
        with_member(
            highlight_members(list.drop_last()),
            list.last().field,
            JsonV::Array(string_values(list.last().fragments)),
        )
    }
}

fn show_highlights(list: &KeyedList<FieldHighlight>) -> (r: Json)
    ensures
        r@ == JsonV::Object(highlight_members(list@)),
{
    broadcast use group_json;

    let ghost all = list@;
    let mut m = JsonMap::new();
    let mut i: usize = 0;
    assert(all.take(0) =~= seq![]);
    while i < list.len()
        invariant
            all == list@,
            i <= all.len(),
            m@ == highlight_members(all.take(i as int)),
        decreases all.len() - i,
    {
        assert(all.take(i + 1).drop_last() =~= all.take(i as int));
        let h = list.at(i);
        m.insert(h.field.clone(), show_strings(&h.fragments));
        i += 1;
    }
    assert(all.take(i as int) =~= all);
    Json::Object(m)
}

/// Members with the first `n` fields of a document that were selected; without
/// a selection all are.
pub open spec fn selected_members(
    m: Seq<(Seq<char>, JsonV)>,
    fields: Seq<(Seq<char>, JsonV)>,
    n: int,
    select: Seq<Seq<char>>,
) -> Seq<(Seq<char>, JsonV)>
    decreases n,
{
    if n <= 0 {
        m
    } else {
        let rest = selected_members(m, fields, n - 1, select);
        if select.len() == 0 || select.contains(fields[n - 1].0) {
            with_member(rest, fields[n - 1].0, fields[n - 1].1)
        } else {
            rest
        }
    }
}

/// The score of a document; one where there is none.
pub open spec fn score_of(scores: Seq<KeyScoreV>, key: Seq<char>) -> u64 {
    match keyed_find::<KeyScore>(scores, key) {
        Some(s) => s.score,
        None => ONE_RANK,
    }
}

/// The entry of a document in a search response.
pub open spec fn page_entry(d: DocumentV, select: Seq<Seq<char>>, outcome: OutcomeV) -> JsonV {
    let scored = with_member(
        seq![],
        "@search.score"@,
        score_value(score_of(outcome.scores, d.key)),
    );
    let marked = match keyed_find::<DocumentHighlight>(outcome.highlights, d.key) {
        Some(h) => with_member(
            scored,
            "@search.highlights"@,
            JsonV::Object(highlight_members(h.fields)),
        ),
        None => scored,
    };
    JsonV::Object(selected_members(marked, d.fields, d.fields.len() as int, select))
}

/// The entries of a search response.
pub open spec fn page_entries(select: Seq<Seq<char>>, outcome: OutcomeV) -> Seq<JsonV> {
    outcome.documents.map_values(|d: DocumentV| page_entry(d, select, outcome))
}

fn build_entry(d: &Document, select: &Vec<String>, outcome: &SearchOutcome) -> (r: Json)
    ensures
        r@ == page_entry(d@, texts(select@), outcome@),
{
    broadcast use group_json;

    let mut m = JsonMap::new();
    assert(m@ =~= seq![]);
    let score: u64 = match outcome.scores.get(d.key.as_str()) {
        Some(s) => s.score,
        None => ONE_RANK,
    };
    m.insert("@search.score".to_owned(), show_score(score));
    if let Some(h) = outcome.highlights.get(d.key.as_str()) {
        m.insert("@search.highlights".to_owned(), show_highlights(&h.fields));
    }
    let ghost start = m@;
    let ghost fields = d@.fields;
    assert(texts(select@).len() == select@.len());
    let mut i: usize = 0;
    while i < d.fields.entries.len()
        invariant
            fields == d@.fields,
            fields == members(d.fields.entries@),
            texts(select@).len() == select@.len(),
            i <= d.fields.entries@.len(),
            m@ == selected_members(start, fields, i as int, texts(select@)),
        decreases d.fields.entries@.len() - i,
    {
        assert(fields[i as int] == (
            d.fields.entries@[i as int].0@,
            d.fields.entries@[i as int].1@,
        ));
        let name = d.fields.entries[i].0.as_str();
        if select.len() == 0 || holds_text(select, name) {
            m.insert(name.to_owned(), d.fields.entries[i].1.duplicate());
        }
        i += 1;
    }
    Json::Object(m)
}

/// The `value` array of a search response: one entry per page document with its
/// `@search.score`, its `@search.highlights` (when present), and the selected
/// fields.
pub fn build_page_entries(query: &SearchQuery, outcome: &SearchOutcome) -> (r: Vec<Json>)
    ensures
        values(r@) == page_entries(query@.select, outcome@),
{
    broadcast use group_json;

    let ghost all = page_entries(query@.select, outcome@);
    let mut out: Vec<Json> = Vec::new();
    let mut i: usize = 0;
    assert(values(out@) =~= all.take(0));
    while i < outcome.documents.len()
        invariant
            all == page_entries(query@.select, outcome@),
            i <= outcome.documents@.len(),
            values(out@) == all.take(i as int),
        decreases outcome.documents@.len() - i,
    {
        broadcast use group_json;

        let ghost before = values(out@);
        let e = build_entry(&outcome.documents[i], &query.select, outcome);
        out.push(e);
        assert(values(out@) == before.push(e@));
        assert(outcome@.documents[i as int] == outcome.documents@[i as int]@);
        i += 1;
        assert(values(out@) =~= all.take(i as int));
    }
    assert(all.take(i as int) =~= all);
    out
}

/// The link to the next page.
pub open spec fn next_link(name: Seq<char>, api_version: Option<Seq<char>>, token: Seq<char>) -> Seq<
    char,
> {
    let route = "/indexes('"@ + name + "')/docs/search.post.search?"@;
    match api_version {
        Some(v) => route + "api-version="@ + v + "&continuation="@ + token,
        None => route + "continuation="@ + token,
    }
}

/// The `@odata.nextLink` for the next page: the search route with the request's
/// `api-version` (when present) and the continuation token.
pub fn build_next_link(name: &str, api_version: Option<&str>, token: &str) -> (r: String)
    ensures
        r@ == next_link(name@, opt_str(api_version), token@),
{
    let route = cat3("/indexes('", name, "')/docs/search.post.search?");
    match api_version {
        Some(v) => cat5(route.as_str(), "api-version=", v, "&continuation=", token),
        None => cat3(route.as_str(), "continuation=", token),
    }
}

/// The body of the request for the next page.
pub open spec fn next_page_members(raw: JsonV, token: Seq<char>, next_skip: u64) -> Seq<
    (Seq<char>, JsonV),
> {
    let m = match raw {
        JsonV::Object(m) => m,
        _ => seq![],
    };
    with_member(
        with_member(m, "continuation"@, JsonV::String(token)),
        "skip"@,
        JsonV::Number(Number::PosInt(next_skip)),
    )
}

/// The `@search.nextPageParameters` compatibility shim: the original request
/// body plus the paging cursor. Clients page by re-POSTing this (a serialized
/// search request) rather than following nextLink, so the next request is the
/// original body plus the continuation token. A client may drop unknown
/// properties on re-serialization, so the paging cursor is also carried in the
/// first-class `skip` property; `continuation` additionally binds the result-set
/// state (filter/orderby) for clients that preserve it.
pub fn build_next_page_params(raw_request: &Json, token: &str, next_skip: u64) -> (r: Json)
    ensures
        r@ == JsonV::Object(next_page_members(raw_request@, token@, next_skip)),
{
    broadcast use group_json;

    let mut m = match raw_request {
        Json::Object(map) => map.duplicate(),
        _ => {
            let m = JsonMap::new();
            assert(m@ =~= seq![]);
            m
        },
    };
    m.insert("continuation".to_owned(), Json::String(token.to_owned()));
    m.insert("skip".to_owned(), Json::Number(Number::PosInt(next_skip)));
    Json::Object(m)
}

/// The members of a search response.
pub open spec fn response_members(
    name: Seq<char>,
    api_version: Option<Seq<char>>,
    raw: JsonV,
    query: SearchQueryV,
    outcome: OutcomeV,
    continuation: Option<Seq<char>>,
) -> Seq<(Seq<char>, JsonV)> {
    let m = with_member(seq![], "@odata.context"@, JsonV::String("/$metadata#documents"@));
    let m = if query.count {
        with_member(m, "@odata.count"@, JsonV::Number(Number::PosInt(outcome.total)))
    } else {
        m
    };
    let m = match outcome.facets {
        Some(f) => with_member(m, "@search.facets"@, f),
        None => m,
    };
    let m = with_member(m, "value"@, JsonV::Array(page_entries(query.select, outcome)));
    match continuation {
        Some(token) => with_member(
            with_member(m, "@odata.nextLink"@, JsonV::String(next_link(name, api_version, token))),
            "@search.nextPageParameters"@,
            JsonV::Object(next_page_members(raw, token, outcome.next_skip)),
        ),
        None => m,
    }
}

/// The body of a search response. `@search.facets` is omitted when no facets were
/// requested, the count when it was not asked for, and the links when there is
/// no next page.
pub fn search_response(
    name: &str,
    api_version: Option<&str>,
    raw_request: &Json,
    query: &SearchQuery,
    outcome: &SearchOutcome,
    continuation: Option<&str>,
) -> (r: Json)
    ensures
        r@ == JsonV::Object(
            response_members(
                name@,
                opt_str(api_version),
                raw_request@,
                query@,
                outcome@,
                opt_str(continuation),
            ),
        ),
{
    broadcast use group_json;

    let mut m = JsonMap::new();
    assert(m@ =~= seq![]);
    m.insert("@odata.context".to_owned(), Json::String("/$metadata#documents".to_owned()));
    if query.count {
        m.insert("@odata.count".to_owned(), Json::Number(Number::PosInt(outcome.total)));
    }
    if let Some(f) = &outcome.facets {
        m.insert("@search.facets".to_owned(), f.duplicate());
    }
    m.insert("value".to_owned(), Json::Array(build_page_entries(query, outcome)));
    if let Some(token) = continuation {
        m.insert(
            "@odata.nextLink".to_owned(),
            Json::String(build_next_link(name, api_version, token)),
        );
        m.insert(
            "@search.nextPageParameters".to_owned(),
            build_next_page_params(raw_request, token, outcome.next_skip),
        );
    }
    Json::Object(m)
}

// ---------------------------------------------------------------------------
// Suggestions, completions, and tokens
// ---------------------------------------------------------------------------

/// A completion as it is shown.
pub open spec fn completion_value(c: CompletionV) -> JsonV {
    JsonV::Object(
        with_member(
            with_member(seq![], "text"@, JsonV::String(c.text)),
            "queryPlusText"@,
            JsonV::String(c.query_plus_text),
        ),
    )
}

/// The response to an autocomplete request.
pub open spec fn completions_value(list: Seq<CompletionV>) -> JsonV {
    value_object(JsonV::Array(list.map_values(|c: CompletionV| completion_value(c))))
}

fn show_completion(c: &AutocompleteCompletion) -> (r: Json)
    ensures
        r@ == completion_value(c@),
{
    broadcast use group_json;

    let mut m = JsonMap::new();
    assert(m@ =~= seq![]);
    m.insert("text".to_owned(), Json::String(c.text.clone()));
    m.insert("queryPlusText".to_owned(), Json::String(c.query_plus_text.clone()));
    Json::Object(m)
}

/// The response to an autocomplete request.
pub fn autocomplete_response(list: &Vec<AutocompleteCompletion>) -> (r: Json)
    ensures
        r@ == completions_value(completion_views(list@)),
{
    broadcast use group_json;

    let ghost all = completion_views(list@).map_values(|c: CompletionV| completion_value(c));
    let mut out: Vec<Json> = Vec::new();
    let mut i: usize = 0;
    assert(values(out@) =~= all.take(0));
    while i < list.len()
        invariant
            all == completion_views(list@).map_values(|c: CompletionV| completion_value(c)),
            i <= list@.len(),
            values(out@) == all.take(i as int),
        decreases list@.len() - i,
    {
        broadcast use group_json;

        let ghost before = values(out@);
        let v = show_completion(&list[i]);
        out.push(v);
        assert(values(out@) == before.push(v@));
        assert(completion_views(list@)[i as int] == list@[i as int]@);
        i += 1;
        assert(values(out@) =~= all.take(i as int));
    }
    assert(all.take(i as int) =~= all);
    wrap_value(Json::Array(out))
}

/// A suggestion as it is shown: the document, with the matched word.
pub open spec fn suggestion_value(s: SuggestionV) -> JsonV {
    JsonV::Object(
        selected_members(
            with_member(seq![], "@search.text"@, JsonV::String(s.text)),
            s.document.fields,
            s.document.fields.len() as int,
            seq![],
        ),
    )
}

/// The response to a suggest request.
pub open spec fn suggestions_value(list: Seq<SuggestionV>) -> JsonV {
    value_object(JsonV::Array(list.map_values(|s: SuggestionV| suggestion_value(s))))
}

fn show_suggestion(s: &Suggestion) -> (r: Json)
    ensures
        r@ == suggestion_value(s@),
{
    broadcast use group_json;

    let mut m = JsonMap::new();
    assert(m@ =~= seq![]);
    m.insert("@search.text".to_owned(), Json::String(s.text.clone()));
    let ghost start = m@;
    let ghost fields = s.document@.fields;
    let mut i: usize = 0;
    while i < s.document.fields.entries.len()
        invariant
            fields == s.document@.fields,
            fields == members(s.document.fields.entries@),
            i <= s.document.fields.entries@.len(),
            m@ == selected_members(start, fields, i as int, seq![]),
        decreases s.document.fields.entries@.len() - i,
    {
        assert(fields[i as int] == (
            s.document.fields.entries@[i as int].0@,
            s.document.fields.entries@[i as int].1@,
        ));
        m.insert(
            s.document.fields.entries[i].0.clone(),
            s.document.fields.entries[i].1.duplicate(),
        );
        i += 1;
    }
    Json::Object(m)
}

/// The response to a suggest request: the documents, each with an additional
/// `@search.text` member carrying the matched word.
pub fn suggest_response(list: &Vec<Suggestion>) -> (r: Json)
    ensures
        r@ == suggestions_value(suggestion_views(list@)),
{
    broadcast use group_json;

    let ghost all = suggestion_views(list@).map_values(|s: SuggestionV| suggestion_value(s));
    let mut out: Vec<Json> = Vec::new();
    let mut i: usize = 0;
    assert(values(out@) =~= all.take(0));
    while i < list.len()
        invariant
            all == suggestion_views(list@).map_values(|s: SuggestionV| suggestion_value(s)),
            i <= list@.len(),
            values(out@) == all.take(i as int),
        decreases list@.len() - i,
    {
        broadcast use group_json;

        let ghost before = values(out@);
        let v = show_suggestion(&list[i]);
        out.push(v);
        assert(values(out@) == before.push(v@));
        assert(suggestion_views(list@)[i as int] == list@[i as int]@);
        i += 1;
        assert(values(out@) =~= all.take(i as int));
    }
    assert(all.take(i as int) =~= all);
    wrap_value(Json::Array(out))
}

/// A number as it is shown.
pub open spec fn count_value(n: usize) -> JsonV {
    JsonV::Number(Number::PosInt(n as u64))
}

/// A token as it is shown.
pub open spec fn token_json_value(t: AnalyzeTokenV) -> JsonV {
    JsonV::Object(
        with_member(
            with_member(
                with_member(
                    with_member(seq![], "token"@, JsonV::String(t.token)),
                    "startOffset"@,
                    count_value(t.start_offset),
                ),
                "endOffset"@,
                count_value(t.end_offset),
            ),
            "position"@,
            count_value(t.position),
        ),
    )
}

/// The response to an analyze request.
pub open spec fn tokens_value(list: Seq<AnalyzeTokenV>) -> JsonV {
    JsonV::Object(
        seq![("tokens"@, JsonV::Array(list.map_values(|t: AnalyzeTokenV| token_json_value(t))))],
    )
}

fn show_token(t: &AnalyzeToken) -> (r: Json)
    ensures
        r@ == token_json_value(t@),
{
    broadcast use group_json;

    let mut m = JsonMap::new();
    assert(m@ =~= seq![]);
    m.insert("token".to_owned(), Json::String(t.token.clone()));
    m.insert("startOffset".to_owned(), Json::Number(Number::PosInt(t.start_offset as u64)));
    m.insert("endOffset".to_owned(), Json::Number(Number::PosInt(t.end_offset as u64)));
    m.insert("position".to_owned(), Json::Number(Number::PosInt(t.position as u64)));
    Json::Object(m)
}

/// The response to an analyze request: the tokens with offsets and positions.
pub fn analyze_response(list: &Vec<AnalyzeToken>) -> (r: Json)
    ensures
        r@ == tokens_value(analyzed(list@)),
{
    broadcast use group_json;

    let ghost all = analyzed(list@).map_values(|t: AnalyzeTokenV| token_json_value(t));
    let mut out: Vec<Json> = Vec::new();
    let mut i: usize = 0;
    assert(values(out@) =~= all.take(0));
    while i < list.len()
        invariant
            all == analyzed(list@).map_values(|t: AnalyzeTokenV| token_json_value(t)),
            i <= list@.len(),
            values(out@) == all.take(i as int),
        decreases list@.len() - i,
    {
        broadcast use group_json;

        let ghost before = values(out@);
        let v = show_token(&list[i]);
        out.push(v);
        assert(values(out@) == before.push(v@));
        assert(analyzed(list@)[i as int] == list@[i as int]@);
        i += 1;
        assert(values(out@) =~= all.take(i as int));
    }
    assert(all.take(i as int) =~= all);
    let items = Json::Array(out);
    let mut m = JsonMap::new();
    m.insert("tokens".to_owned(), items);
    assert(m@ =~= seq![("tokens"@, items@)]);
    Json::Object(m)
}

/// The results of an upload as they are shown.
pub open spec fn results_value(list: Seq<ResultItemV>) -> JsonV {
    value_object(
        JsonV::Array(list.map_values(|x: ResultItemV| JsonV::Object(item_members_v(x)))),
    )
}

/// The response to an upload: one result per action.
pub fn upload_response(list: &Vec<IndexingResultItem>) -> (r: Json)
    ensures
        r@ == results_value(result_views(list@)),
{
    broadcast use group_json;

    let ghost all = result_views(list@).map_values(
        |x: ResultItemV| JsonV::Object(item_members_v(x)),
    );
    let mut out: Vec<Json> = Vec::new();
    let mut i: usize = 0;
    assert(values(out@) =~= all.take(0));
    while i < list.len()
        invariant
            all == result_views(list@).map_values(
                |x: ResultItemV| JsonV::Object(item_members_v(x)),
            ),
            i <= list@.len(),
            values(out@) == all.take(i as int),
        decreases list@.len() - i,
    {
        broadcast use group_json;

        let ghost before = values(out@);
        let v = list[i].to_value();
        out.push(v);
        assert(values(out@) == before.push(v@));
        assert(result_views(list@)[i as int] == list@[i as int]@);
        i += 1;
        assert(values(out@) =~= all.take(i as int));
    }
    assert(all.take(i as int) =~= all);
    wrap_value(Json::Array(out))
}

// ---------------------------------------------------------------------------
// Laws
// ---------------------------------------------------------------------------

/// The request for the next page carries the token and the skip, whatever the
/// original body held under these names, and all else that the body held.
pub proof fn law_next_page_carries_cursor(
    m: Seq<(Seq<char>, JsonV)>,
    token: Seq<char>,
    next_skip: u64,
    other: Seq<char>,
)
    requires
        other != "continuation"@,
        other != "skip"@,
    ensures
        ({
            let r = next_page_members(JsonV::Object(m), token, next_skip);
            member(r, "continuation"@) == Some(JsonV::String(token)) && member(r, "skip"@) == Some(
                JsonV::Number(Number::PosInt(next_skip)),
            ) && member(r, other) == member(m, other)
        }),
{
    let c = JsonV::String(token);
    let n = JsonV::Number(Number::PosInt(next_skip));
    let first = with_member(m, "continuation"@, c);
    reveal_strlit("continuation");
    reveal_strlit("skip");
    assert("continuation"@.len() != "skip"@.len());
    law_inserted_member_is_found(m, "continuation"@, c);
    law_inserted_member_is_found(first, "skip"@, n);
    law_insert_keeps_other_members(first, "skip"@, n, "continuation"@);
    law_insert_keeps_other_members(first, "skip"@, n, other);
    law_insert_keeps_other_members(m, "continuation"@, c, other);
}

} // verus!
