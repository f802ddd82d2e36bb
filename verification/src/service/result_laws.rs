//! What a search answers, from the documents that were found.
use crate::filter::eval::satisfies;
use crate::filter::expr::FilterExprV;
use crate::json::{
    JsonV, Number, is_nan_rank, law_insert_keeps_other_members, law_inserted_member_is_found,
    member, rank_lt, with_member,
};
use crate::query::engine::{KeyScore, KeyScoreV, better_score, scores_of, with_score};
use crate::query::fulltext::HitV;
use crate::service::answer::{PlanV, outcome_of};
use crate::service::facets::{
    FacetCount, FacetCountV, counts_of, document_values, entry_value, entry_values, facet_key,
    facet_members, facet_value, facet_values, law_facet_counts_are_occurrences,
    law_facet_entries_are_ordered, limited, more_frequent, occurrences, present_values,
};
use crate::service::order_laws::{law_value_order, value_ahead};
use crate::service::ordering::{ScoredV, comes_before};
use crate::service::paging::{
    VectorListV, fusion_needed, page_of, page_scores, passes, passing_scores, scored_documents,
    with_lists, with_scores,
};
use crate::service::types::{FacetV, SearchQueryV};
use crate::sorting::{law_sorting_keeps_items, sorted_by};
use crate::storage::document::{Document, DocumentV};
use crate::storage::keyed::{
    Keyed, keyed_find, keyed_sorted, law_found_item_has_key, law_put_item_is_found,
    law_put_keeps_order, law_replace_keeps_order, law_replaced_item_is_found,
};
use crate::text::{lemma_text_less_irreflexive, text_less};
use vstd::prelude::*;

verus! {

// ---------------------------------------------------------------------------
// Scores
// ---------------------------------------------------------------------------

/// Whether no two scores are of the same key.
pub open spec fn keys_differ(scores: Seq<KeyScoreV>) -> bool {
    forall|i: int, j: int|
        0 <= i < scores.len() && 0 <= j < scores.len() && (#[trigger] scores[i]).key == (
        #[trigger] scores[j]).key ==> i == j
}

/// Whether documents have a key, and the document that has it.
pub open spec fn stores(docs: Seq<DocumentV>, d: DocumentV) -> bool {
    keyed_find::<Document>(docs, d.key) == Some(d)
}

/// A filter keeps the score of each document that passes it as it is, and takes away all
/// others; without a filter all are kept.
pub proof fn law_filter_keeps_what_passes(
    scores: Seq<KeyScoreV>,
    filter: Option<FilterExprV>,
    docs: Seq<DocumentV>,
    i: int,
)
    requires
        keys_differ(scores),
        0 <= i < scores.len(),
    ensures
        ({
            let kept = keyed_find::<KeyScore>(
                passing_scores(scores, filter, docs),
                scores[i].key,
            );
            match filter {
                None => kept == Some(scores[i]),
                Some(e) => match keyed_find::<Document>(docs, scores[i].key) {
                    None => kept is None,
                    Some(d) => kept == (if satisfies(e, d.fields) {
                        Some(scores[i])
                    } else {
                        None
                    }),
                },
            }
        }),
    decreases scores.len(),
{
    let rest = scores.drop_last();
    let key = scores[i].key;
    let last = scores.last();
    assert(keys_differ(rest)) by {
        assert forall|a: int, b: int|
            0 <= a < rest.len() && 0 <= b < rest.len() && (#[trigger] rest[a]).key == (
            #[trigger] rest[b]).key implies a == b by {
            assert(rest[a] == scores[a] && rest[b] == scores[b]);
        }
    }
    let kept = passing_scores(rest, filter, docs);
    if i < rest.len() {
        assert(rest[i] == scores[i]);
        law_filter_keeps_what_passes(rest, filter, docs, i);
        assert(scores[scores.len() - 1] == last);
        law_put_item_is_found::<KeyScore>(kept, last, key);
    } else {
        assert(last == scores[i]);
        law_put_item_is_found::<KeyScore>(kept, last, key);
        if !passes(filter, docs, key) {
            lemma_not_there(rest, filter, docs, key);
        }
    }
}

proof fn lemma_not_there(
    scores: Seq<KeyScoreV>,
    filter: Option<FilterExprV>,
    docs: Seq<DocumentV>,
    key: Seq<char>,
)
    requires
        !passes(filter, docs, key),
    ensures
        keyed_find::<KeyScore>(passing_scores(scores, filter, docs), key) is None,
    decreases scores.len(),
{
    if scores.len() > 0 {
        lemma_not_there(scores.drop_last(), filter, docs, key);
        law_put_item_is_found::<KeyScore>(
            passing_scores(scores.drop_last(), filter, docs),
            scores.last(),
            key,
        );
    }
}

/// Every scored document that is stored is among the results with its score, and there
/// are no other results.
pub proof fn law_results_are_the_scored_documents(
    scores: Seq<KeyScoreV>,
    docs: Seq<DocumentV>,
    d: DocumentV,
    score: u64,
)
    requires
        stores(docs, d),
    ensures
        scored_documents(scores, docs).contains(ScoredV { document: d, score }) <==> scores.contains(
            KeyScoreV { key: d.key, score },
        ),
    decreases scores.len(),
{
    let x = ScoredV { document: d, score };
    let k = KeyScoreV { key: d.key, score };
    if scores.len() > 0 {
        let rest = scores.drop_last();
        let before = scored_documents(rest, docs);
        let all = scored_documents(scores, docs);
        law_results_are_the_scored_documents(rest, docs, d, score);
        let last = scores.last();
        if scores.contains(k) {
            if last == k {
                assert(all[before.len() as int] == x);
            } else {
                let i = choose|i: int| 0 <= i < scores.len() && scores[i] == k;
                assert(rest[i] == k);
                let j = choose|j: int| 0 <= j < before.len() && before[j] == x;
                assert(all[j] == x);
            }
        }
        if all.contains(x) {
            let j = choose|j: int| 0 <= j < all.len() && all[j] == x;
            if j < before.len() {
                assert(before[j] == x);
                let i = choose|i: int| 0 <= i < rest.len() && rest[i] == k;
                assert(scores[i] == k);
            } else {
                law_found_item_has_key::<Document>(docs, last.key);
                assert(last == k);
                assert(scores[scores.len() - 1] == k);
            }
        }
    }
}

/// Each result's document is a stored one.
pub proof fn law_results_are_stored(scores: Seq<KeyScoreV>, docs: Seq<DocumentV>, i: int)
    requires
        0 <= i < scored_documents(scores, docs).len(),
    ensures
        stores(docs, scored_documents(scores, docs)[i].document),
        scored_documents(scores, docs).len() <= scores.len(),
    decreases scores.len(),
{
    if scores.len() > 0 {
        let rest = scores.drop_last();
        let before = scored_documents(rest, docs);
        law_found_item_has_key::<Document>(docs, scores.last().key);
        if i < before.len() {
            law_results_are_stored(rest, docs, i);
            assert(scored_documents(scores, docs)[i] == before[i]);
        } else if before.len() > 0 {
            law_results_are_stored(rest, docs, 0);
        }
    }
}

/// A key with several scores keeps the greatest one; a score for one key leaves those of
/// others as they were. Scores that are no numbers are left out.
pub proof fn law_best_score_is_kept(
    scores: Seq<KeyScoreV>,
    key: Seq<char>,
    score: u64,
    other: Seq<char>,
)
    requires
        !is_nan_rank(score),
        keyed_find::<KeyScore>(scores, key) matches Some(e) ==> !is_nan_rank(e.score),
    ensures
        ({
            let r = with_score(scores, key, score);
            let kept = keyed_find::<KeyScore>(r, key);
            &&& kept is Some
            &&& !rank_lt(kept->Some_0.score, score)
            &&& match keyed_find::<KeyScore>(scores, key) {
                Some(e) => !rank_lt(kept->Some_0.score, e.score) && (kept->Some_0.score == score
                    || kept->Some_0.score == e.score),
                None => kept->Some_0.score == score,
            }
            &&& other != key ==> keyed_find::<KeyScore>(r, other) == keyed_find::<KeyScore>(
                scores,
                other,
            )
        }),
{
    match keyed_find::<KeyScore>(scores, key) {
        Some(e) => {
            law_found_item_has_key::<KeyScore>(scores, key);
            law_replaced_item_is_found::<KeyScore>(
                scores,
                key,
                KeyScoreV { key, score: better_score(e.score, score) },
                other,
            );
        },
        None => {
            law_put_item_is_found::<KeyScore>(scores, KeyScoreV { key, score }, other);
            law_put_item_is_found::<KeyScore>(scores, KeyScoreV { key, score }, key);
        },
    }
}

/// The scores of several sources are taken in one after the other, and none is passed
/// over.
pub proof fn law_scores_are_taken_in_turn(
    scores: Seq<KeyScoreV>,
    more: Seq<KeyScoreV>,
    e: KeyScoreV,
    lists: Seq<VectorListV>,
    list: VectorListV,
    hits: Seq<HitV>,
    hit: HitV,
)
    ensures
        with_scores(scores, more.push(e)) == with_score(
            with_scores(scores, more),
            e.key,
            e.score,
        ),
        with_scores(scores, seq![]) == scores,
        with_lists(scores, lists.push(list)) == with_scores(
            with_lists(scores, lists),
            list.scores,
        ),
        with_lists(scores, seq![]) == scores,
        scores_of(hits.push(hit)) == (match hit.key {
            Some(key) => with_score(scores_of(hits), key, hit.score),
            None => scores_of(hits),
        }),
        scores_of(seq![]) == Seq::<KeyScoreV>::empty(),
{
    assert(more.push(e).drop_last() =~= more);
    assert(lists.push(list).drop_last() =~= lists);
    assert(hits.push(hit).drop_last() =~= hits);
}

/// Score lists are fused exactly where the full text found something and a vector query
/// did.
pub proof fn law_fusion_is_for_both_sides(full_text: Seq<KeyScoreV>, lists: Seq<VectorListV>, i: int)
    ensures
        full_text.len() > 0 && 0 <= i < lists.len() && lists[i].scores.len() > 0 ==> fusion_needed(
            full_text,
            lists,
        ),
        full_text.len() == 0 ==> !fusion_needed(full_text, lists),
        (forall|k: int| 0 <= k < lists.len() ==> (#[trigger] lists[k]).scores.len() == 0)
            ==> !fusion_needed(full_text, lists),
{
}

// ---------------------------------------------------------------------------
// Pages
// ---------------------------------------------------------------------------

/// A page holds the results from the skipped ones on, in order, as many as were asked
/// for or as there are.
pub proof fn law_page_is_full<V>(scored: Seq<V>, skip: u64, top: Option<u64>, i: int)
    requires
        scored.len() <= usize::MAX,
    ensures
        ({
            let page = page_of(scored, skip, top);
            let there = if skip < scored.len() {
                scored.len() - skip
            } else {
                0
            };
            &&& page.len() == (match top {
                Some(t) => if t < there {
                    t as int
                } else {
                    there
                },
                None => there,
            })
            &&& 0 <= i < page.len() ==> page[i] == scored[skip + i]
        }),
{
}

proof fn lemma_page_scores(page: Seq<ScoredV>, i: int)
    requires
        0 <= i < page.len(),
        forall|j: int| i < j < page.len() ==> (#[trigger] page[j]).document.key != page[i].document.key,
    ensures
        keyed_find::<KeyScore>(page_scores(page), page[i].document.key) == Some(
            KeyScoreV { key: page[i].document.key, score: page[i].score },
        ),
    decreases page.len(),
{
    let rest = page.drop_last();
    let last = page.last();
    let item = KeyScoreV { key: last.document.key, score: last.score };
    law_put_item_is_found::<KeyScore>(page_scores(rest), item, page[i].document.key);
    if i < rest.len() {
        assert(rest[i] == page[i]);
        assert forall|j: int| i < j < rest.len() implies (#[trigger] rest[j]).document.key
            != rest[i].document.key by {
            assert(rest[j] == page[j]);
        }
        lemma_page_scores(rest, i);
        assert(page[page.len() - 1] == last);
    }
}

/// A search answers with the ordered results: it counts them all, shows the page of
/// them, each with its key and score, and tells whether and where there are more.
pub proof fn law_outcome(
    plan: PlanV,
    merged: Seq<KeyScoreV>,
    query: SearchQueryV,
    i: int,
)
    requires
        merged.len() <= usize::MAX,
    ensures
        ({
            let scored = sorted_by(
                scored_documents(merged, plan.documents),
                comes_before(plan.orderby),
            );
            let r = outcome_of(plan, merged, query);
            let n = scored.len() as int;
            let there = if plan.skip < n {
                n - plan.skip
            } else {
                0
            };
            let shown = match query.top {
                Some(t) => if t < there {
                    t as int
                } else {
                    there
                },
                None => there,
            };
            &&& r.total == n
            &&& r.documents.len() == shown
            &&& 0 <= i < shown ==> r.documents[i].key == scored[plan.skip + i].document.key
            &&& r.has_more == (shown > 0 && plan.skip + shown < n)
            &&& r.has_more ==> r.next_skip == plan.skip + shown
            &&& r.facets == (if query.facets.len() > 0 {
                Some(JsonV::Object(facet_members(scored, query.facets)))
            } else {
                None
            })
        }),
{
    let found = scored_documents(merged, plan.documents);
    law_sorting_keeps_items(found, comes_before(plan.orderby));
    let scored = sorted_by(found, comes_before(plan.orderby));
    if found.len() > 0 {
        law_results_are_stored(merged, plan.documents, 0);
    }
    law_page_is_full(scored, plan.skip, query.top, i);
}

/// The page tells the score of each of its results.
pub proof fn law_outcome_scores(plan: PlanV, merged: Seq<KeyScoreV>, query: SearchQueryV, i: int)
    requires
        ({
            let page = page_of(
                sorted_by(scored_documents(merged, plan.documents), comes_before(plan.orderby)),
                plan.skip,
                query.top,
            );
            0 <= i < page.len() && forall|j: int|
                0 <= j < page.len() && j != i ==> (#[trigger] page[j]).document.key
                    != page[i].document.key
        }),
    ensures
        ({
            let page = page_of(
                sorted_by(scored_documents(merged, plan.documents), comes_before(plan.orderby)),
                plan.skip,
                query.top,
            );
            keyed_find::<KeyScore>(
                outcome_of(plan, merged, query).scores,
                page[i].document.key,
            ) == Some(KeyScoreV { key: page[i].document.key, score: page[i].score })
        }),
{
    let page = page_of(
        sorted_by(scored_documents(merged, plan.documents), comes_before(plan.orderby)),
        plan.skip,
        query.top,
    );
    lemma_page_scores(page, i);
}

// ---------------------------------------------------------------------------
// Facets
// ---------------------------------------------------------------------------

/// How often a value stands in a list.
pub open spec fn times_in(items: Seq<JsonV>, x: JsonV) -> nat
    decreases items.len(),
{
    if items.len() == 0 {
        0
    } else {
        times_in(items.drop_last(), x) + if items.last() == x {
            1nat
        } else {
            0nat
        }
    }
}

/// How often a field of a document holds a value, alone or in a collection.
pub open spec fn times_held(d: DocumentV, field: Seq<char>, x: JsonV) -> nat {
    match member(d.fields, field) {
        None => 0,
        Some(JsonV::Array(items)) => times_in(items, x),
        Some(v) => if v == x {
            1
        } else {
            0
        },
    }
}

/// How often the results hold a value in a field.
pub open spec fn times_found(scored: Seq<ScoredV>, field: Seq<char>, x: JsonV) -> nat
    decreases scored.len(),
{
    if scored.len() == 0 {
        0
    } else {
        times_found(scored.drop_last(), field, x) + times_held(scored.last().document, field, x)
    }
}

proof fn lemma_keys_of_values(x: JsonV, y: JsonV)
    requires
        x is String || x is Bool,
    ensures
        facet_key(x) == facet_key(y) <==> x == y,
{
    reveal_strlit("s:");
    reveal_strlit("n:");
    reveal_strlit("b:");
    reveal_strlit("o:");
    reveal_strlit("true");
    reveal_strlit("false");
    if facet_key(x) == facet_key(y) {
        assert(facet_key(x)[0] == facet_key(y)[0]);
        match (x, y) {
            (JsonV::String(s), JsonV::String(t)) => {
                assert(facet_key(x).skip(2) =~= s);
                assert(facet_key(y).skip(2) =~= t);
            },
            (JsonV::Bool(b), JsonV::Bool(c)) => {
                assert(facet_key(x)[2] == facet_key(y)[2]);
            },
            _ => {},
        }
    }
}

proof fn lemma_present_times(items: Seq<JsonV>, x: JsonV)
    requires
        x is String || x is Bool,
    ensures
        occurrences(present_values(items), facet_key(x)) == times_in(items, x),
    decreases items.len(),
{
    if items.len() > 0 {
        lemma_present_times(items.drop_last(), x);
        lemma_keys_of_values(x, items.last());
        let rest = present_values(items.drop_last());
        assert(rest.push(items.last()).drop_last() =~= rest);
    }
}

proof fn lemma_occurrences_joined(a: Seq<JsonV>, b: Seq<JsonV>, key: Seq<char>)
    ensures
        occurrences(a + b, key) == occurrences(a, key) + occurrences(b, key),
    decreases b.len(),
{
    if b.len() == 0 {
        assert(a + b =~= a);
    } else {
        lemma_occurrences_joined(a, b.drop_last(), key);
        assert((a + b).drop_last() =~= a + b.drop_last());
        assert((a + b).last() == b.last());
    }
}

proof fn lemma_times_found(scored: Seq<ScoredV>, field: Seq<char>, x: JsonV)
    requires
        x is String || x is Bool,
    ensures
        occurrences(facet_values(scored, field), facet_key(x)) == times_found(scored, field, x),
    decreases scored.len(),
{
    if scored.len() > 0 {
        lemma_times_found(scored.drop_last(), field, x);
        let own = document_values(scored.last().document, field);
        lemma_occurrences_joined(
            facet_values(scored.drop_last(), field),
            own,
            facet_key(x),
        );
        match member(scored.last().document.fields, field) {
            Some(JsonV::Array(items)) => {
                lemma_present_times(items, x);
            },
            Some(JsonV::Null) => {},
            Some(v) => {
                lemma_keys_of_values(x, v);
                assert(seq![v].drop_last() =~= seq![]);
                assert(seq![v].last() == v);
                assert(occurrences(seq![], facet_key(x)) == 0);
            },
            None => {},
        }
    }
}

proof fn lemma_entry_value(values: Seq<JsonV>, key: Seq<char>)
    ensures
        keyed_find::<FacetCount>(counts_of(values), key) matches Some(e) ==> facet_key(e.value)
            == key,
    decreases values.len(),
{
    if values.len() > 0 {
        let counts = counts_of(values.drop_last());
        let v = values.last();
        let at = facet_key(v);
        lemma_entry_value(values.drop_last(), key);
        lemma_entry_value(values.drop_last(), at);
        law_found_item_has_key::<FacetCount>(counts, at);
        match keyed_find::<FacetCount>(counts, at) {
            Some(e) => {
                law_replaced_item_is_found::<FacetCount>(
                    counts,
                    at,
                    FacetCountV { count: e.count + 1, ..e },
                    key,
                );
            },
            None => {
                law_put_item_is_found::<FacetCount>(
                    counts,
                    FacetCountV { key: at, value: v, count: 1 },
                    key,
                );
            },
        }
    }
}

/// How an entry of a facet is shown: the value with its count.
pub open spec fn shown_entry(x: JsonV, n: nat) -> JsonV {
    JsonV::Object(
        seq![("count"@, JsonV::Number(Number::PosInt(n as u64))), ("value"@, x)],
    )
}

proof fn lemma_shown_entry(e: FacetCountV)
    ensures
        entry_value(e) == shown_entry(e.value, e.count),
{
    reveal_strlit("value");
    reveal_strlit("count");
    let none = Seq::<(Seq<char>, JsonV)>::empty();
    let one = with_member(none, "value"@, e.value);
    assert(one =~= seq![("value"@, e.value)]);
    assert("value"@[0] == 'v' && "count"@[0] == 'c');
    assert("value"@ != "count"@);
    assert(!text_less("value"@, "count"@));
    let n = JsonV::Number(Number::PosInt(e.count as u64));
    assert(with_member(one, "count"@, n) =~= seq![("count"@, n), ("value"@, e.value)]);
}

/// A facet without a limit shows each text and each boolean that the results hold in the
/// field, with how often they hold it, and none that they do not hold.
pub proof fn law_facet_counts_what_is_held(
    scored: Seq<ScoredV>,
    field: Seq<char>,
    x: JsonV,
    n: nat,
)
    requires
        field != "$count"@,
        x is String || x is Bool,
        times_found(scored, field, x) <= u64::MAX,
    ensures
        ({
            let shown = facet_value(scored, FacetV { field, limit: None });
            &&& shown is Array
            &&& 0 < n <= u64::MAX ==> (shown->Array_0.contains(shown_entry(x, n)) <==> n
                == times_found(scored, field, x))
        }),
{
    let values = facet_values(scored, field);
    let key = facet_key(x);
    let counts = counts_of(values);
    let before = more_frequent();
    let sorted = sorted_by(counts, before);
    let shown = entry_values(sorted);
    lemma_times_found(scored, field, x);
    law_facet_counts_are_occurrences(values, key);
    lemma_entry_value(values, key);
    law_found_item_has_key::<FacetCount>(counts, key);
    law_facet_entries_are_ordered(values);
    assert(limited(sorted, None) == sorted);
    if let Some(e) = keyed_find::<FacetCount>(counts, key) {
        lemma_keys_of_values(x, e.value);
        lemma_shown_entry(e);
        lemma_sorted_has(counts, sorted, e);
        let i = choose|i: int| 0 <= i < sorted.len() && sorted[i] == e;
        assert(shown[i] == shown_entry(x, e.count));
    }
    if shown.contains(shown_entry(x, n)) && 0 < n <= u64::MAX {
        let i = choose|i: int| 0 <= i < shown.len() && shown[i] == shown_entry(x, n);
        let e = sorted[i];
        lemma_shown_entry(e);
        assert(shown[i] == shown_entry(e.value, e.count));
        assert(shown_entry(e.value, e.count)->Object_0[1] == shown_entry(x, n)->Object_0[1]);
        assert(e.value == x);
        lemma_sorted_from(counts, sorted, e);
        let k = choose|k: int| 0 <= k < counts.len() && counts[k] == e;
        lemma_entries_by_key(values, k);
        assert(FacetCount::key_of_item(counts[k]) == key);
        assert(keyed_find::<FacetCount>(counts, key) is Some);
        lemma_entry_unique(values, k);
        assert(shown_entry(x, e.count)->Object_0[0] == shown_entry(x, n)->Object_0[0]);
        assert(e.count as u64 == n as u64);
    }
}

proof fn lemma_sorted_has(a: Seq<FacetCountV>, b: Seq<FacetCountV>, e: FacetCountV)
    requires
        b.to_multiset() == a.to_multiset(),
        a.contains(e),
    ensures
        b.contains(e),
{
    broadcast use vstd::seq_lib::group_to_multiset_ensures;

    assert(a.to_multiset().count(e) > 0);
    assert(b.to_multiset().count(e) > 0);
}

proof fn lemma_sorted_from(a: Seq<FacetCountV>, b: Seq<FacetCountV>, e: FacetCountV)
    requires
        b.to_multiset() == a.to_multiset(),
        b.contains(e),
    ensures
        a.contains(e),
{
    lemma_sorted_has(b, a, e);
}

proof fn lemma_counts_sorted(values: Seq<JsonV>)
    ensures
        keyed_sorted::<FacetCount>(counts_of(values)),
    decreases values.len(),
{
    if values.len() > 0 {
        let counts = counts_of(values.drop_last());
        let v = values.last();
        lemma_counts_sorted(values.drop_last());
        law_found_item_has_key::<FacetCount>(counts, facet_key(v));
        match keyed_find::<FacetCount>(counts, facet_key(v)) {
            Some(e) => {
                law_replace_keeps_order::<FacetCount>(
                    counts,
                    facet_key(v),
                    FacetCountV { count: e.count + 1, ..e },
                );
            },
            None => {
                law_put_keeps_order::<FacetCount>(
                    counts,
                    FacetCountV { key: facet_key(v), value: v, count: 1 },
                );
            },
        }
    }
}

/// An entry is the one that is found under its key.
proof fn lemma_entry_unique(values: Seq<JsonV>, k: int)
    requires
        0 <= k < counts_of(values).len(),
    ensures
        keyed_find::<FacetCount>(counts_of(values), counts_of(values)[k].key) == Some(
            counts_of(values)[k],
        ),
{
    let counts = counts_of(values);
    let e = counts[k];
    lemma_counts_sorted(values);
    law_found_item_has_key::<FacetCount>(counts, e.key);
    assert(FacetCount::key_of_item(counts[k]) == e.key);
    if let Some(x) = keyed_find::<FacetCount>(counts, e.key) {
        let j = choose|j: int| 0 <= j < counts.len() && counts[j] == x;
        assert(FacetCount::key_of_item(counts[j]) == e.key);
        lemma_text_less_irreflexive(e.key);
        if j < k {
            assert(text_less(FacetCount::key_of_item(counts[j]), FacetCount::key_of_item(counts[k])));
        } else if k < j {
            assert(text_less(FacetCount::key_of_item(counts[k]), FacetCount::key_of_item(counts[j])));
        }
    }
}

proof fn lemma_entries_by_key(values: Seq<JsonV>, k: int)
    requires
        0 <= k < counts_of(values).len(),
    ensures
        counts_of(values)[k].key == facet_key(counts_of(values)[k].value),
{
    lemma_entry_unique(values, k);
    lemma_entry_value(values, counts_of(values)[k].key);
}

/// The entries of a facet come by their counts, the greatest first, and those of one
/// count by their values; a limit keeps the first of them, and as many as it says.
pub proof fn law_facet_order(scored: Seq<ScoredV>, field: Seq<char>, limit: usize, i: int, j: int)
    requires
        field != "$count"@,
    ensures
        ({
            let all = sorted_by(counts_of(facet_values(scored, field)), more_frequent());
            let shown = facet_value(scored, FacetV { field, limit: None })->Array_0;
            let some = facet_value(scored, FacetV { field, limit: Some(limit) })->Array_0;
            &&& shown.len() == all.len()
            &&& 0 <= i < all.len() ==> shown[i] == shown_entry(all[i].value, all[i].count)
            &&& 0 <= i < j < all.len() ==> all[i].count > all[j].count || all[i].count
                == all[j].count && !value_ahead(all[j].value, all[i].value)
            &&& some.len() == if limit < shown.len() {
                limit as int
            } else {
                shown.len() as int
            }
            &&& 0 <= i < some.len() ==> some[i] == shown[i]
        }),
{
    let values = facet_values(scored, field);
    let all = sorted_by(counts_of(values), more_frequent());
    law_facet_entries_are_ordered(values);
    if 0 <= i < all.len() {
        lemma_shown_entry(all[i]);
    }
    if 0 <= i < j < all.len() {
        assert(!more_frequent()(all[j], all[i]));
        law_value_order(all[j].value, all[i].value);
    }
}

/// Each facet that was asked for is answered, the number of results among them.
pub proof fn law_every_facet_is_answered(scored: Seq<ScoredV>, facets: Seq<FacetV>, i: int)
    requires
        0 <= i < facets.len(),
        forall|j: int| i < j < facets.len() ==> (#[trigger] facets[j]).field != facets[i].field,
    ensures
        member(facet_members(scored, facets), facets[i].field) == Some(
            facet_value(scored, facets[i]),
        ),
        facets[i].field == "$count"@ ==> facet_value(scored, facets[i]) == JsonV::Number(
            Number::PosInt(scored.len() as u64),
        ),
    decreases facets.len(),
{
    let rest = facets.drop_last();
    let last = facets.last();
    let before = facet_members(scored, rest);
    law_inserted_member_is_found(before, last.field, facet_value(scored, last));
    if i < rest.len() {
        assert(rest[i] == facets[i]);
        assert forall|j: int| i < j < rest.len() implies (#[trigger] rest[j]).field
            != rest[i].field by {
            assert(rest[j] == facets[j]);
        }
        law_every_facet_is_answered(scored, rest, i);
        assert(facets[facets.len() - 1] == last);
        law_insert_keeps_other_members(
            before,
            last.field,
            facet_value(scored, last),
            facets[i].field,
        );
    }
}

} // verus!
