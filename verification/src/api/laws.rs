//! What requests say and what responses show.
use crate::api::bodies::{bad_top, batch_of, first_value, parsed_actions, top_of};
use crate::api::responses::{
    completion_value, completions_value, count_value, highlight_members, next_link,
    next_page_members, page_entries, page_entry, response_members, score_of, score_value,
    selected_members, string_values, suggestion_value, suggestions_value, token_json_value,
    tokens_value,
};
use crate::error::ApiErrorV;
use crate::json::{
    JsonV, Number, ONE_RANK, law_insert_keeps_other_members, law_inserted_member_is_found, member,
    with_member,
};
use crate::query::analyzers::AnalyzeTokenV;
use crate::query::engine::KeyScore;
use crate::semantic::config::member_of;
use crate::service::document_laws::names_differ;
use crate::service::highlights::{DocumentHighlight, FieldHighlightV};
use crate::service::paging::OutcomeV;
use crate::service::types::{
    ActionKind, ActionV, CompletionV, SearchQueryV, SuggestionV, action_named, action_of,
    without_key,
};
use crate::storage::document::DocumentV;
use crate::storage::keyed::keyed_find;
use crate::text::decimal;
use crate::text_laws::law_decimal_reads_back;
use vstd::prelude::*;

verus! {

// ---------------------------------------------------------------------------
// Entries
// ---------------------------------------------------------------------------

proof fn lemma_selected_members(
    m: Seq<(Seq<char>, JsonV)>,
    fields: Seq<(Seq<char>, JsonV)>,
    n: int,
    select: Seq<Seq<char>>,
    key: Seq<char>,
    at: int,
)
    requires
        0 <= n <= fields.len(),
        forall|k: int| 0 <= k < n && k != at ==> (#[trigger] fields[k]).0 != key,
        0 <= at < n ==> fields[at].0 == key,
    ensures
        member(selected_members(m, fields, n, select), key) == (if 0 <= at < n && (select.len() == 0
            || select.contains(key)) {
            Some(fields[at].1)
        } else {
            member(m, key)
        }),
    decreases n,
{
    if n > 0 {
        lemma_selected_members(m, fields, n - 1, select, key, at);
        let rest = selected_members(m, fields, n - 1, select);
        let (name, v) = fields[n - 1];
        law_inserted_member_is_found(rest, name, v);
        if n - 1 != at {
            law_insert_keeps_other_members(rest, name, v, key);
        }
    }
}

/// The entry of a document shows each field that was selected with its value, all fields
/// where none was, and no other field; it shows the score, and the highlights where the
/// document has some.
pub proof fn law_entry_shows_selected_fields(
    d: DocumentV,
    select: Seq<Seq<char>>,
    outcome: OutcomeV,
    i: int,
    other: Seq<char>,
)
    requires
        names_differ(d.fields),
        forall|k: int|
            0 <= k < d.fields.len() ==> (#[trigger] d.fields[k]).0 != "@search.score"@
                && d.fields[k].0 != "@search.highlights"@ && d.fields[k].0 != other,
        other != "@search.score"@,
        other != "@search.highlights"@,
    ensures
        page_entry(d, select, outcome) is Object,
        ({
            let m = page_entry(d, select, outcome)->Object_0;
            let marks = keyed_find::<DocumentHighlight>(outcome.highlights, d.key);
            &&& 0 <= i < d.fields.len() ==> member(m, d.fields[i].0) == (if select.len() == 0
                || select.contains(d.fields[i].0) {
                Some(d.fields[i].1)
            } else {
                None
            })
            &&& member(m, other) is None
            &&& member(m, "@search.score"@) == Some(
                score_value(
                    match keyed_find::<KeyScore>(outcome.scores, d.key) {
                        Some(s) => s.score,
                        None => ONE_RANK,
                    },
                ),
            )
            &&& member(m, "@search.highlights"@) == (match marks {
                Some(h) => Some(JsonV::Object(highlight_members(h.fields))),
                None => None,
            })
        }),
{
    reveal_strlit("@search.score");
    reveal_strlit("@search.highlights");
    assert("@search.score"@.len() == 13 && "@search.highlights"@.len() == 18);
    let score = score_value(score_of(outcome.scores, d.key));
    let none = Seq::<(Seq<char>, JsonV)>::empty();
    let scored = with_member(none, "@search.score"@, score);
    law_inserted_member_is_found(none, "@search.score"@, score);
    law_insert_keeps_other_members(none, "@search.score"@, score, other);
    law_insert_keeps_other_members(none, "@search.score"@, score, "@search.highlights"@);
    let marked = match keyed_find::<DocumentHighlight>(outcome.highlights, d.key) {
        Some(h) => {
            let v = JsonV::Object(highlight_members(h.fields));
            law_inserted_member_is_found(scored, "@search.highlights"@, v);
            law_insert_keeps_other_members(scored, "@search.highlights"@, v, other);
            law_insert_keeps_other_members(scored, "@search.highlights"@, v, "@search.score"@);
            with_member(scored, "@search.highlights"@, v)
        },
        None => scored,
    };
    let n = d.fields.len() as int;
    lemma_selected_members(marked, d.fields, n, select, other, -1);
    lemma_selected_members(marked, d.fields, n, select, "@search.score"@, -1);
    lemma_selected_members(marked, d.fields, n, select, "@search.highlights"@, -1);
    if 0 <= i < n {
        let name = d.fields[i].0;
        law_insert_keeps_other_members(none, "@search.score"@, score, name);
        if let Some(h) = keyed_find::<DocumentHighlight>(outcome.highlights, d.key) {
            law_insert_keeps_other_members(
                scored,
                "@search.highlights"@,
                JsonV::Object(highlight_members(h.fields)),
                name,
            );
        }
        assert forall|k: int| 0 <= k < n && k != i implies (#[trigger] d.fields[k]).0 != name by {
            assert(d.fields[i].0 == name);
        }
        lemma_selected_members(marked, d.fields, n, select, name, i);
    }
}

/// The highlights of a field are shown under its name, all of them.
pub proof fn law_highlights_are_shown(list: Seq<FieldHighlightV>, i: int, k: int)
    requires
        0 <= i < list.len(),
        forall|j: int| i < j < list.len() ==> (#[trigger] list[j]).field != list[i].field,
    ensures
        ({
            let shown = member(highlight_members(list), list[i].field);
            &&& shown is Some && shown->Some_0 is Array
            &&& shown->Some_0->Array_0.len() == list[i].fragments.len()
            &&& 0 <= k < list[i].fragments.len() ==> shown->Some_0->Array_0[k] == JsonV::String(
                list[i].fragments[k],
            )
        }),
    decreases list.len(),
{
    let rest = list.drop_last();
    let last = list.last();
    let v = JsonV::Array(string_values(last.fragments));
    law_inserted_member_is_found(highlight_members(rest), last.field, v);
    if i < rest.len() {
        assert(rest[i] == list[i]);
        assert forall|j: int| i < j < rest.len() implies (#[trigger] rest[j]).field
            != rest[i].field by {
            assert(rest[j] == list[j]);
        }
        law_highlights_are_shown(rest, i, k);
        assert(list[list.len() - 1].field != list[i].field);
        law_insert_keeps_other_members(highlight_members(rest), last.field, v, list[i].field);
    }
}

// ---------------------------------------------------------------------------
// Responses
// ---------------------------------------------------------------------------

proof fn lemma_response_names()
    ensures
        "@odata.context"@ != "@odata.count"@,
        "@odata.context"@ != "@search.facets"@,
        "@odata.context"@ != "value"@,
        "@odata.context"@ != "@odata.nextLink"@,
        "@odata.context"@ != "@search.nextPageParameters"@,
        "@odata.count"@ != "@search.facets"@,
        "@odata.count"@ != "value"@,
        "@odata.count"@ != "@odata.nextLink"@,
        "@odata.count"@ != "@search.nextPageParameters"@,
        "@search.facets"@ != "value"@,
        "@search.facets"@ != "@odata.nextLink"@,
        "@search.facets"@ != "@search.nextPageParameters"@,
        "value"@ != "@odata.nextLink"@,
        "value"@ != "@search.nextPageParameters"@,
        "@odata.nextLink"@ != "@search.nextPageParameters"@,
{
    reveal_strlit("@odata.context");
    reveal_strlit("@odata.count");
    reveal_strlit("@search.facets");
    reveal_strlit("value");
    reveal_strlit("@odata.nextLink");
    reveal_strlit("@search.nextPageParameters");
    assert("@odata.context"@[1] == 'o' && "@search.facets"@[1] == 's');
    assert("@odata.context"@.len() == 14 && "@search.facets"@.len() == 14);
    assert("@odata.count"@.len() == 12 && "value"@.len() == 5);
    assert("@odata.nextLink"@.len() == 15 && "@search.nextPageParameters"@.len() == 26);
}

proof fn lemma_put(m: Seq<(Seq<char>, JsonV)>, key: Seq<char>, v: JsonV, other: Seq<char>)
    ensures
        member(with_member(m, key, v), other) == (if other == key {
            Some(v)
        } else {
            member(m, other)
        }),
{
    law_inserted_member_is_found(m, key, v);
    if other != key {
        law_insert_keeps_other_members(m, key, v, other);
    }
}

/// A search response shows the entry of each document of the page, in order; how many
/// results there are where that was asked for; the facets where there are some; and the
/// way to the next page where there is one.
pub proof fn law_response_shows_page(
    name: Seq<char>,
    api_version: Option<Seq<char>>,
    raw: JsonV,
    query: SearchQueryV,
    outcome: OutcomeV,
    continuation: Option<Seq<char>>,
    i: int,
)
    ensures
        ({
            let m = response_members(name, api_version, raw, query, outcome, continuation);
            let shown = member(m, "value"@);
            &&& shown is Some && shown->Some_0 is Array
            &&& shown->Some_0->Array_0.len() == outcome.documents.len()
            &&& 0 <= i < outcome.documents.len() ==> shown->Some_0->Array_0[i] == page_entry(
                outcome.documents[i],
                query.select,
                outcome,
            )
            &&& member(m, "@odata.count"@) == (if query.count {
                Some(JsonV::Number(Number::PosInt(outcome.total)))
            } else {
                None
            })
            &&& member(m, "@search.facets"@) == outcome.facets
            &&& member(m, "@odata.nextLink"@) == (match continuation {
                Some(token) => Some(JsonV::String(next_link(name, api_version, token))),
                None => None,
            })
            &&& member(m, "@search.nextPageParameters"@) == (match continuation {
                Some(token) => Some(
                    JsonV::Object(next_page_members(raw, token, outcome.next_skip)),
                ),
                None => None,
            })
        }),
{
    lemma_response_names();
    let names = seq![
        "value"@,
        "@odata.count"@,
        "@search.facets"@,
        "@odata.nextLink"@,
        "@search.nextPageParameters"@,
    ];
    let none = Seq::<(Seq<char>, JsonV)>::empty();
    let context = JsonV::String("/$metadata#documents"@);
    let total = JsonV::Number(Number::PosInt(outcome.total));
    let entries = JsonV::Array(page_entries(query.select, outcome));
    let m1 = with_member(none, "@odata.context"@, context);
    let m2 = if query.count {
        with_member(m1, "@odata.count"@, total)
    } else {
        m1
    };
    let m3 = match outcome.facets {
        Some(f) => with_member(m2, "@search.facets"@, f),
        None => m2,
    };
    let m4 = with_member(m3, "value"@, entries);
    assert forall|k: int| 0 <= k < names.len() implies member(m4, #[trigger] names[k]) == (
    if names[k] == "value"@ {
        Some(entries)
    } else if names[k] == "@search.facets"@ {
        outcome.facets
    } else if names[k] == "@odata.count"@ && query.count {
        Some(total)
    } else {
        None
    }) by {
        let x = names[k];
        assert(x != "@odata.context"@);
        lemma_put(none, "@odata.context"@, context, x);
        lemma_put(m1, "@odata.count"@, total, x);
        if let Some(f) = outcome.facets {
            lemma_put(m2, "@search.facets"@, f, x);
        }
        lemma_put(m3, "value"@, entries, x);
    }
    assert(names[0] == "value"@ && names[1] == "@odata.count"@ && names[2] == "@search.facets"@);
    assert(names[3] == "@odata.nextLink"@ && names[4] == "@search.nextPageParameters"@);
    if let Some(token) = continuation {
        let link = JsonV::String(next_link(name, api_version, token));
        let next = JsonV::Object(next_page_members(raw, token, outcome.next_skip));
        let m5 = with_member(m4, "@odata.nextLink"@, link);
        assert forall|k: int| 0 <= k < names.len() implies member(
            with_member(m5, "@search.nextPageParameters"@, next),
            #[trigger] names[k],
        ) == (if names[k] == "@search.nextPageParameters"@ {
            Some(next)
        } else if names[k] == "@odata.nextLink"@ {
            Some(link)
        } else {
            member(m4, names[k])
        }) by {
            lemma_put(m4, "@odata.nextLink"@, link, names[k]);
            lemma_put(m5, "@search.nextPageParameters"@, next, names[k]);
        }
    }
}

/// A response lists each suggestion, completion, token or result, in its place.
pub proof fn law_responses_list_everything(
    suggestions: Seq<SuggestionV>,
    completions: Seq<CompletionV>,
    list: Seq<AnalyzeTokenV>,
    i: int,
)
    ensures
        ({
            let s = suggestions_value(suggestions)->Object_0;
            let c = completions_value(completions)->Object_0;
            let t = tokens_value(list)->Object_0;
            &&& s.len() == 1 && s[0].0 == "value"@ && s[0].1->Array_0.len() == suggestions.len()
            &&& c.len() == 1 && c[0].0 == "value"@ && c[0].1->Array_0.len() == completions.len()
            &&& t.len() == 1 && t[0].0 == "tokens"@ && t[0].1->Array_0.len() == list.len()
            &&& 0 <= i < suggestions.len() ==> s[0].1->Array_0[i] == suggestion_value(
                suggestions[i],
            )
            &&& 0 <= i < completions.len() ==> c[0].1->Array_0[i] == completion_value(
                completions[i],
            )
            &&& 0 <= i < list.len() ==> t[0].1->Array_0[i] == token_json_value(list[i])
        }),
{
}

/// A completion shows its text and the whole query with it; a token its text, its place
/// in the text and its position; a suggestion the matched word and all fields of its
/// document.
pub proof fn law_entries_show_all(
    c: CompletionV,
    t: AnalyzeTokenV,
    s: SuggestionV,
    i: int,
)
    requires
        names_differ(s.document.fields),
        forall|k: int|
            0 <= k < s.document.fields.len() ==> (#[trigger] s.document.fields[k]).0
                != "@search.text"@,
    ensures
        ({
            let m = completion_value(c)->Object_0;
            &&& member(m, "text"@) == Some(JsonV::String(c.text))
            &&& member(m, "queryPlusText"@) == Some(JsonV::String(c.query_plus_text))
        }),
        ({
            let m = token_json_value(t)->Object_0;
            &&& member(m, "token"@) == Some(JsonV::String(t.token))
            &&& member(m, "startOffset"@) == Some(
                JsonV::Number(Number::PosInt(t.start_offset as u64)),
            )
            &&& member(m, "endOffset"@) == Some(JsonV::Number(Number::PosInt(t.end_offset as u64)))
            &&& member(m, "position"@) == Some(JsonV::Number(Number::PosInt(t.position as u64)))
        }),
        ({
            let m = suggestion_value(s)->Object_0;
            &&& member(m, "@search.text"@) == Some(JsonV::String(s.text))
            &&& 0 <= i < s.document.fields.len() ==> member(m, s.document.fields[i].0) == Some(
                s.document.fields[i].1,
            )
        }),
{
    reveal_strlit("text");
    reveal_strlit("queryPlusText");
    reveal_strlit("token");
    reveal_strlit("startOffset");
    reveal_strlit("endOffset");
    reveal_strlit("position");
    assert("text"@.len() == 4 && "queryPlusText"@.len() == 13 && "token"@.len() == 5);
    assert("startOffset"@.len() == 11 && "endOffset"@.len() == 9 && "position"@.len() == 8);
    let none = Seq::<(Seq<char>, JsonV)>::empty();
    let text = JsonV::String(c.text);
    let m1 = with_member(none, "text"@, text);
    lemma_put(none, "text"@, text, "text"@);
    lemma_put(m1, "queryPlusText"@, JsonV::String(c.query_plus_text), "text"@);
    lemma_put(m1, "queryPlusText"@, JsonV::String(c.query_plus_text), "queryPlusText"@);
    let token = JsonV::String(t.token);
    let t1 = with_member(none, "token"@, token);
    let t2 = with_member(t1, "startOffset"@, count_value(t.start_offset));
    let t3 = with_member(t2, "endOffset"@, count_value(t.end_offset));
    lemma_put(none, "token"@, token, "token"@);
    lemma_put(t1, "startOffset"@, count_value(t.start_offset), "token"@);
    lemma_put(t2, "endOffset"@, count_value(t.end_offset), "token"@);
    lemma_put(t3, "position"@, count_value(t.position), "token"@);
    lemma_put(t1, "startOffset"@, count_value(t.start_offset), "startOffset"@);
    lemma_put(t2, "endOffset"@, count_value(t.end_offset), "startOffset"@);
    lemma_put(t3, "position"@, count_value(t.position), "startOffset"@);
    lemma_put(t2, "endOffset"@, count_value(t.end_offset), "endOffset"@);
    lemma_put(t3, "position"@, count_value(t.position), "endOffset"@);
    lemma_put(t3, "position"@, count_value(t.position), "position"@);
    let shown = JsonV::String(s.text);
    let s1 = with_member(none, "@search.text"@, shown);
    let fields = s.document.fields;
    let n = fields.len() as int;
    lemma_put(none, "@search.text"@, shown, "@search.text"@);
    lemma_selected_members(s1, fields, n, seq![], "@search.text"@, -1);
    if 0 <= i < n {
        let name = fields[i].0;
        assert forall|k: int| 0 <= k < n && k != i implies (#[trigger] fields[k]).0 != name by {
            assert(fields[i].0 == name);
        }
        lemma_selected_members(s1, fields, n, seq![], name, i);
    }
}

// ---------------------------------------------------------------------------
// Requests
// ---------------------------------------------------------------------------

/// A parameter has the value of the first pair with its name.
pub proof fn law_first_pair_counts(pairs: Seq<(Seq<char>, Seq<char>)>, key: Seq<char>, at: int)
    requires
        0 <= at <= pairs.len(),
        forall|k: int| 0 <= k < at ==> (#[trigger] pairs[k]).0 != key,
        at < pairs.len() ==> pairs[at].0 == key,
    ensures
        first_value(pairs, key) == (if at < pairs.len() {
            Some(pairs[at].1)
        } else {
            None
        }),
    decreases pairs.len(),
{
    if at > 0 {
        assert(pairs[0].0 != key);
        let rest = pairs.drop_first();
        assert forall|k: int| 0 <= k < at - 1 implies (#[trigger] rest[k]).0 != key by {
            assert(rest[k] == pairs[k + 1]);
        }
        law_first_pair_counts(rest, key, at - 1);
    }
}

/// The number of suggestions that was asked for: of the body, or else of the query, and
/// 5 where neither has it. It is positive.
pub proof fn law_top(raw: JsonV, pairs: Seq<(Seq<char>, Seq<char>)>, n: u64)
    ensures
        member_of(raw, "top"@) == Some(JsonV::Number(Number::PosInt(n))) ==> top_of(raw, pairs) == (
        if n > 0 {
            Ok::<u64, ApiErrorV>(n)
        } else {
            Err(bad_top())
        }),
        member_of(raw, "top"@) is None && first_value(pairs, "top"@) == Some(decimal(n as nat))
            ==> top_of(raw, pairs) == (if n > 0 {
            Ok::<u64, ApiErrorV>(n)
        } else {
            Err(bad_top())
        }),
        member_of(raw, "top"@) is None && first_value(pairs, "top"@) is None && first_value(
            pairs,
            "$top"@,
        ) is None ==> top_of(raw, pairs) == Ok::<u64, ApiErrorV>(5),
        top_of(raw, pairs) matches Ok(k) ==> k > 0,
{
    law_decimal_reads_back(n as nat);
}

proof fn lemma_parsed_actions(items: Seq<JsonV>, x: JsonV, i: int, done: Seq<ActionV>)
    requires
        0 <= i <= items.len(),
    ensures
        parsed_actions(items.push(x), i, done) == (match parsed_actions(items, i, done) {
            Err(e) => Err(e),
            Ok(r) => match action_of(x) {
                Err(e) => Err(e),
                Ok(a) => Ok(r.push(a)),
            },
        }),
    decreases items.len() - i,
{
    let all = items.push(x);
    if i < items.len() {
        assert(all[i] == items[i]);
        if let Ok(a) = action_of(items[i]) {
            lemma_parsed_actions(items, x, i + 1, done.push(a));
        }
    } else {
        assert(all[i] == x);
        if let Ok(a) = action_of(x) {
            assert(parsed_actions(all, i + 1, done.push(a)) == Ok::<Seq<ActionV>, ApiErrorV>(
                done.push(a),
            ));
        }
    }
}

/// Each item of a batch is an action, in its place. A batch is a list, or an object with
/// a list under `value`.
pub proof fn law_every_item_is_an_action(
    items: Seq<JsonV>,
    x: JsonV,
    m: Seq<(Seq<char>, JsonV)>,
)
    ensures
        batch_of(JsonV::Array(seq![])) == Ok::<Seq<ActionV>, ApiErrorV>(seq![]),
        batch_of(JsonV::Array(items.push(x))) == (match batch_of(JsonV::Array(items)) {
            Err(e) => Err(e),
            Ok(r) => match action_of(x) {
                Err(e) => Err(e),
                Ok(a) => Ok(r.push(a)),
            },
        }),
        member(m, "value"@) == Some(JsonV::Array(items)) ==> batch_of(JsonV::Object(m))
            == batch_of(JsonV::Array(items)),
        !(member(m, "value"@) matches Some(JsonV::Array(_))) ==> batch_of(JsonV::Object(m)) is Err,
{
    lemma_parsed_actions(items, x, 0, seq![]);
}

proof fn lemma_without_key(m: Seq<(Seq<char>, JsonV)>, key: Seq<char>, n: int, x: (Seq<char>, JsonV))
    requires
        0 <= n <= m.len(),
    ensures
        without_key(m, key, n).contains(x) <==> x.0 != key && m.take(n).contains(x),
    decreases n,
{
    if n > 0 {
        lemma_without_key(m, key, n - 1, x);
        let few = m.take(n - 1);
        let more = m.take(n);
        let rest = without_key(m, key, n - 1);
        let all = without_key(m, key, n);
        assert(more[n - 1] == m[n - 1]);
        if few.contains(x) {
            let j = choose|j: int| 0 <= j < few.len() && few[j] == x;
            assert(more[j] == x);
        }
        if more.contains(x) {
            let j = choose|j: int| 0 <= j < more.len() && more[j] == x;
            if j < n - 1 {
                assert(few[j] == x);
            } else if x.0 != key {
                assert(all[rest.len() as int] == x);
            }
        }
        if rest.contains(x) {
            let j = choose|j: int| 0 <= j < rest.len() && rest[j] == x;
            assert(all[j] == x);
        }
        if all.contains(x) {
            let j = choose|j: int| 0 <= j < all.len() && all[j] == x;
            if j < rest.len() {
                assert(rest[j] == x);
            }
        }
    } else {
        assert(m.take(0) =~= seq![]);
    }
}

/// How an action is named.
pub open spec fn action_text(kind: ActionKind) -> Seq<char> {
    match kind {
        ActionKind::Upload => "upload"@,
        ActionKind::Merge => "merge"@,
        ActionKind::MergeOrUpload => "mergeOrUpload"@,
        ActionKind::Delete => "delete"@,
    }
}

/// An item of a batch names its action, or is an upload; its document is the one under
/// `document`, or all its other members, each with its value.
pub proof fn law_actions(
    m: Seq<(Seq<char>, JsonV)>,
    kind: ActionKind,
    x: (Seq<char>, JsonV),
)
    requires
        member(m, "@search.action"@) == Some(JsonV::String(action_text(kind))) || kind is Upload
            && member(m, "@search.action"@) is None,
    ensures
        ({
            let r = action_of(JsonV::Object(m));
            &&& r is Ok && r->Ok_0.kind == kind
            &&& member(m, "document"@) matches Some(d) ==> r->Ok_0.document == d
            &&& member(m, "document"@) is None ==> r->Ok_0.document is Object && (
            r->Ok_0.document->Object_0.contains(x) <==> x.0 != "@search.action"@ && m.contains(x))
        }),
{
    reveal_strlit("upload");
    reveal_strlit("merge");
    reveal_strlit("mergeOrUpload");
    reveal_strlit("delete");
    assert("upload"@.len() == 6 && "merge"@.len() == 5 && "mergeOrUpload"@.len() == 13);
    assert("delete"@.len() == 6 && "delete"@[0] == 'd' && "upload"@[0] == 'u');
    assert(action_named(action_text(kind)) == Some(kind));
    lemma_without_key(m, "@search.action"@, m.len() as int, x);
    assert(m.take(m.len() as int) =~= m);
}

/// An action of another name is refused.
pub proof fn law_unknown_actions_are_refused(m: Seq<(Seq<char>, JsonV)>, name: Seq<char>)
    requires
        member(m, "@search.action"@) == Some(JsonV::String(name)),
        name != "upload"@,
        name != "merge"@,
        name != "mergeOrUpload"@,
        name != "delete"@,
    ensures
        action_of(JsonV::Object(m)) is Err,
{
}

} // verus!
