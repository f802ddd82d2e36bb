//! Facet computation.
use crate::json::{
    Json, JsonMap, JsonV, Number, group_json, json_text, member, ref_values, values, with_member,
};
use crate::service::ordering::{
    Scored, ScoredV, compare_values, lemma_value_order, scored_views, value_order,
};
use crate::service::types::{Facet, FacetV, facet_views};
use crate::sorting::{
    in_order, law_sorting_keeps_items, law_sorting_orders_items, sort_items, sorted_by, views_of,
};
use crate::storage::document::DocumentV;
use crate::storage::keyed::{
    CopyItem, Keyed, KeyedList, item_views, keyed_find, keyed_put, keyed_replace,
    law_put_item_is_found, law_replaced_item_is_found,
};
use crate::text::{
    cat2, lemma_text_less_irreflexive, lemma_text_less_total, lemma_text_less_transitive,
    same_text, text_before, text_less,
};
use vstd::prelude::*;

verus! {

// ---------------------------------------------------------------------------
// The values of a facet
// ---------------------------------------------------------------------------

/// The values that are not null.
pub open spec fn present_values(values: Seq<JsonV>) -> Seq<JsonV>
    decreases values.len(),
{
    if values.len() == 0 {
        seq![]
    } else if values.last() is Null {
        present_values(values.drop_last())
    } else {
        present_values(values.drop_last()).push(values.last())
    }
}

/// The values that a document has for a facet: the items of an array, or the
/// value itself; null counts for nothing.
pub open spec fn document_values(d: DocumentV, field: Seq<char>) -> Seq<JsonV> {
    match member(d.fields, field) {
        None => seq![],
        Some(JsonV::Array(items)) => present_values(items),
        Some(JsonV::Null) => seq![],
        Some(v) => seq![v],
    }
}

/// The values that results have for a facet.
pub open spec fn facet_values(scored: Seq<ScoredV>, field: Seq<char>) -> Seq<JsonV>
    decreases scored.len(),
{
    if scored.len() == 0 {
        seq![]
    } else {
        facet_values(scored.drop_last(), field) + document_values(scored.last().document, field)
    }
}

fn push_present<'a>(out: &mut Vec<&'a Json>, items: &'a Vec<Json>)
    ensures
        ref_values(final(out)@) == ref_values(old(out)@) + present_values(values(items@)),
{
    broadcast use group_json;

    let ghost start = ref_values(out@);
    let ghost all = values(items@);
    let mut i: usize = 0;
    assert(start + present_values(all.take(0)) =~= start);
    while i < items.len()
        invariant
            all == values(items@),
            i <= items@.len(),
            ref_values(out@) == start + present_values(all.take(i as int)),
        decreases items@.len() - i,
    {
        broadcast use group_json;

        assert(all.take(i + 1).drop_last() =~= all.take(i as int));
        assert(all[i as int] == items@[i as int]@);
        let ghost before = ref_values(out@);
        if !items[i].is_null() {
            out.push(&items[i]);
            assert(ref_values(out@) == before.push(all[i as int]));
            assert(ref_values(out@) =~= start + present_values(all.take(i + 1)));
        }
        i += 1;
    }
    assert(all.take(i as int) =~= all);
}

fn values_of_facet<'a>(scored: &'a Vec<Scored>, field: &str) -> (r: Vec<&'a Json>)
    ensures
        ref_values(r@) == facet_values(scored_views(scored@), field@),
{
    broadcast use group_json;

    let ghost all = scored_views(scored@);
    let mut out: Vec<&Json> = Vec::new();
    let mut i: usize = 0;
    assert(ref_values(out@) =~= facet_values(all.take(0), field@));
    while i < scored.len()
        invariant
            all == scored_views(scored@),
            i <= scored@.len(),
            ref_values(out@) == facet_values(all.take(i as int), field@),
        decreases scored@.len() - i,
    {
        broadcast use group_json;

        assert(all.take(i + 1).drop_last() =~= all.take(i as int));
        assert(all[i as int] == scored@[i as int]@);
        let ghost before = ref_values(out@);
        if let Some(v) = scored[i].document.fields.get(field) {
            match v {
                Json::Array(items) => {
                    push_present(&mut out, items);
                },
                _ => {
                    if !v.is_null() {
                        out.push(v);
                        assert(ref_values(out@) == before.push(v@));
                        assert(before.push(v@) =~= before + seq![v@]);
                    } else {
                        assert(before + Seq::<JsonV>::empty() =~= before);
                    }
                },
            }
        } else {
            assert(before + Seq::<JsonV>::empty() =~= before);
        }
        i += 1;
    }
    assert(all.take(i as int) =~= all);
    out
}

// ---------------------------------------------------------------------------
// Counting
// ---------------------------------------------------------------------------

/// The key of a facet value: its text behind a mark of its type, so that
/// distinct values are told apart and entries with equal counts have an order.
pub open spec fn facet_key(v: JsonV) -> Seq<char> {
    match v {
        JsonV::String(s) => "s:"@ + s,
        JsonV::Number(n) => "n:"@ + n.text_spec(),
        JsonV::Bool(b) => "b:"@ + (if b {
            "true"@
        } else {
            "false"@
        }),
        other => "o:"@ + json_text(other),
    }
}

fn key_of_value(v: &Json) -> (r: String)
    ensures
        r@ == facet_key(v@),
{
    match v {
        Json::String(s) => cat2("s:", s.as_str()),
        Json::Number(n) => cat2("n:", n.text().as_str()),
        Json::Bool(b) => cat2(
            "b:",
            if *b {
                "true"
            } else {
                "false"
            },
        ),
        _ => cat2("o:", v.to_text().as_str()),
    }
}

/// A distinct facet value and how often it occurs. The value is the first one
/// met, as it was: large integers keep their magnitude, and values that are no
/// scalars stay as they are.
pub struct FacetCount {
    pub key: String,
    pub value: Json,
    pub count: u64,
}

/// The mathematical value of a [`FacetCount`].
pub struct FacetCountV {
    pub key: Seq<char>,
    pub value: JsonV,
    pub count: nat,
}

impl View for FacetCount {
    type V = FacetCountV;

    open spec fn view(&self) -> FacetCountV {
        FacetCountV { key: self.key@, value: self.value@, count: self.count as nat }
    }
}

impl Keyed for FacetCount {
    open spec fn key_of_item(item: FacetCountV) -> Seq<char> {
        item.key
    }

    fn key(&self) -> (r: &str) {
        self.key.as_str()
    }
}

impl CopyItem for FacetCount {
    fn copy_item(&self) -> (r: FacetCount) {
        FacetCount { key: self.key.clone(), value: self.value.duplicate(), count: self.count }
    }
}

/// Counts with one more value.
pub open spec fn counted(counts: Seq<FacetCountV>, v: JsonV) -> Seq<FacetCountV> {
    let key = facet_key(v);
    match keyed_find::<FacetCount>(counts, key) {
        Some(e) => keyed_replace::<FacetCount>(
            counts,
            key,
            (FacetCountV { count: e.count + 1, ..e }),
        ),
        None => keyed_put::<FacetCount>(counts, (FacetCountV { key, value: v, count: 1 })),
    }
}

/// The counts of values.
pub open spec fn counts_of(values: Seq<JsonV>) -> Seq<FacetCountV>
    decreases values.len(),
{
    if values.len() == 0 {
        seq![]
    } else {
        counted(counts_of(values.drop_last()), values.last())
    }
}

/// How many values have a key.
pub open spec fn occurrences(values: Seq<JsonV>, key: Seq<char>) -> nat
    decreases values.len(),
{
    if values.len() == 0 {
        0
    } else {
        occurrences(values.drop_last(), key) + if facet_key(values.last()) == key {
            1nat
        } else {
            0nat
        }
    }
}

/// Each distinct value is counted as often as it occurs, and only values that
/// occur are counted.
pub proof fn law_facet_counts_are_occurrences(values: Seq<JsonV>, key: Seq<char>)
    ensures
        match keyed_find::<FacetCount>(counts_of(values), key) {
            Some(e) => e.key == key && e.count == occurrences(values, key) && e.count > 0,
            None => occurrences(values, key) == 0,
        },
        occurrences(values, key) <= values.len(),
    decreases values.len(),
{
    if values.len() > 0 {
        let counts = counts_of(values.drop_last());
        let v = values.last();
        let at = facet_key(v);
        law_facet_counts_are_occurrences(values.drop_last(), key);
        law_facet_counts_are_occurrences(values.drop_last(), at);
        match keyed_find::<FacetCount>(counts, at) {
            Some(e) => {
                law_replaced_item_is_found::<FacetCount>(
                    counts,
                    at,
                    FacetCountV { count: e.count + 1, ..e },
                    key,
                );
            },
            None => {
                law_put_item_is_found::<FacetCount>(
                    counts,
                    FacetCountV { key: at, value: v, count: 1 },
                    key,
                );
            },
        }
    }
}

fn count_values(items: &Vec<&Json>) -> (r: KeyedList<FacetCount>)
    ensures
        r@ == counts_of(ref_values(items@)),
{
    let ghost all = ref_values(items@);
    let mut counts: KeyedList<FacetCount> = KeyedList::new();
    let n: usize = items.len();
    let mut i: usize = 0;
    while i < n
        invariant
            all == ref_values(items@),
            n == items@.len(),
            i <= n,
            counts@ == counts_of(all.take(i as int)),
        decreases n - i,
    {
        assert(all.take(i + 1).drop_last() =~= all.take(i as int));
        assert(all[i as int] == items@[i as int]@);
        let key = key_of_value(items[i]);
        proof {
            law_facet_counts_are_occurrences(all.take(i as int), key@);
        }
        if counts.contains(key.as_str()) {
            if let Some(e) = counts.get_mut(key.as_str()) {
                e.count += 1;
            }
        } else {
            counts.put(FacetCount { key, value: items[i].duplicate(), count: 1 });
        }
        i += 1;
    }
    assert(all.take(i as int) =~= all);
    counts
}

// ---------------------------------------------------------------------------
// Facets
// ---------------------------------------------------------------------------

/// Whether an entry comes before another with the same count: the lesser value
/// first, and by key where neither is less.
pub open spec fn lesser_entry(a: FacetCountV, b: FacetCountV) -> bool {
    value_order(a.value, b.value) < 0 || (value_order(a.value, b.value) == 0 && text_less(
        a.key,
        b.key,
    ))
}

/// Entries come by count, greatest first, then by value, least first.
pub open spec fn more_frequent() -> spec_fn(FacetCountV, FacetCountV) -> bool {
    |a: FacetCountV, b: FacetCountV|
        a.count > b.count || (a.count == b.count && lesser_entry(a, b))
}

fn is_lesser_entry(a: &FacetCount, b: &FacetCount) -> (r: bool)
    ensures
        r == lesser_entry(a@, b@),
{
    let order = compare_values(&a.value, &b.value);
    order < 0 || (order == 0 && text_before(a.key.as_str(), b.key.as_str()))
}

/// How an entry is shown.
pub open spec fn entry_value(e: FacetCountV) -> JsonV {
    JsonV::Object(
        with_member(
            with_member(seq![], "value"@, e.value),
            "count"@,
            JsonV::Number(Number::PosInt(e.count as u64)),
        ),
    )
}

pub open spec fn entry_values(entries: Seq<FacetCountV>) -> Seq<JsonV> {
    entries.map_values(|e: FacetCountV| entry_value(e))
}

/// At most `limit` entries.
pub open spec fn limited<V>(entries: Seq<V>, limit: Option<usize>) -> Seq<V> {
    match limit {
        Some(n) => if n < entries.len() {
            entries.take(n as int)
        } else {
            entries
        },
        None => entries,
    }
}

/// The value of one facet.
pub open spec fn facet_value(scored: Seq<ScoredV>, facet: FacetV) -> JsonV {
    if facet.field == "$count"@ {
        JsonV::Number(Number::PosInt(scored.len() as u64))
    } else {
        JsonV::Array(
            entry_values(
                limited(
                    sorted_by(counts_of(facet_values(scored, facet.field)), more_frequent()),
                    facet.limit,
                ),
            ),
        )
    }
}

/// The facets of results.
pub open spec fn facet_members(scored: Seq<ScoredV>, facets: Seq<FacetV>) -> Seq<(Seq<char>, JsonV)>
    decreases facets.len(),
{
    if facets.len() == 0 {
        seq![]
    } else {
        with_member(
            facet_members(scored, facets.drop_last()),
            facets.last().field,
            facet_value(scored, facets.last()),
        )
    }
}

fn show_entry(e: &FacetCount) -> (r: Json)
    ensures
        r@ == entry_value(e@),
{
    broadcast use group_json;

    let mut m = JsonMap::new();
    m.insert("value".to_owned(), e.value.duplicate());
    m.insert("count".to_owned(), Json::Number(Number::PosInt(e.count)));
    Json::Object(m)
}

fn show_entries(entries: &Vec<FacetCount>, limit: Option<usize>) -> (r: Vec<Json>)
    ensures
        values(r@) == entry_values(limited(views_of(entries@), limit)),
{
    broadcast use group_json;

    let ghost all = views_of(entries@);
    let n: usize = match limit {
        Some(n) => if n < entries.len() {
            n
        } else {
            entries.len()
        },
        None => entries.len(),
    };
    let mut out: Vec<Json> = Vec::new();
    let mut i: usize = 0;
    assert(values(out@) =~= entry_values(all.take(0)));
    while i < n
        invariant
            n <= entries@.len(),
            all == views_of(entries@),
            i <= n,
            values(out@) == entry_values(all.take(i as int)),
        decreases n - i,
    {
        broadcast use group_json;

        let ghost before = values(out@);
        let item = show_entry(&entries[i]);
        out.push(item);
        assert(values(out@) == before.push(item@));
        assert(all[i as int] == entries@[i as int]@);
        i += 1;
        assert(values(out@) =~= entry_values(all.take(i as int)));
    }
    assert(limited(all, limit) =~= all.take(n as int));
    out
}

fn show_facet(scored: &Vec<Scored>, facet: &Facet) -> (r: Json)
    ensures
        r@ == facet_value(scored_views(scored@), facet@),
{
    broadcast use group_json;

    if same_text(facet.field.as_str(), "$count") {
        return Json::Number(Number::PosInt(scored.len() as u64));
    }
    let found = values_of_facet(scored, facet.field.as_str());
    let counts = count_values(&found).to_vec();
    let ghost before = more_frequent();
    let ghost all = counts@;
    let f = |a: &FacetCount, b: &FacetCount| -> (res: bool)
        ensures
            res == (more_frequent())(a@, b@),
        {
            a.count > b.count || (a.count == b.count && is_lesser_entry(a, b))
        };
    let sorted = sort_items(counts, f, Ghost(before));
    assert(views_of(all) =~= item_views(all));
    Json::Array(show_entries(&sorted, facet.limit))
}

/// Computes facet counts over all results: one entry per distinct value,
/// ordered by count descending then value ascending, truncated to the facet's
/// limit when one is given. The special `$count` facet reports the total number
/// of documents in the result set. Scores are ignored.
pub fn compute_facets(scored: &Vec<Scored>, facets: &Vec<Facet>) -> (r: Json)
    ensures
        r@ == JsonV::Object(facet_members(scored_views(scored@), facet_views(facets@))),
{
    broadcast use group_json;

    let ghost all = facet_views(facets@);
    let mut m = JsonMap::new();
    let mut i: usize = 0;
    while i < facets.len()
        invariant
            all == facet_views(facets@),
            i <= facets@.len(),
            m@ == facet_members(scored_views(scored@), all.take(i as int)),
        decreases facets@.len() - i,
    {
        assert(all.take(i + 1).drop_last() =~= all.take(i as int));
        assert(all[i as int] == facets@[i as int]@);
        let value = show_facet(scored, &facets[i]);
        m.insert(facets[i].field.clone(), value);
        i += 1;
    }
    assert(all.take(i as int) =~= all);
    Json::Object(m)
}

// ---------------------------------------------------------------------------
// Laws
// ---------------------------------------------------------------------------

/// The entries of a facet come with descending counts, and entries with the
/// same count in the order of their values; none is lost or added.
pub proof fn law_facet_entries_are_ordered(values: Seq<JsonV>)
    ensures
        in_order(sorted_by(counts_of(values), more_frequent()), more_frequent()),
        sorted_by(counts_of(values), more_frequent()).to_multiset()
            == counts_of(values).to_multiset(),
{
    let all = |e: FacetCountV| true;
    let before = more_frequent();
    assert forall|a: FacetCountV, b: FacetCountV| all(a) && all(b) && #[trigger] before(a, b) implies !before(
        b,
        a,
    ) by {
        lemma_value_order(a.value, b.value, a.value);
        if a.count == b.count && text_less(b.key, a.key) && text_less(a.key, b.key) {
            lemma_text_less_transitive(a.key, b.key, a.key);
            lemma_text_less_irreflexive(a.key);
        }
    }
    assert forall|a: FacetCountV, b: FacetCountV, c: FacetCountV|
        all(a) && all(b) && all(c) && #[trigger] before(a, b) && !(#[trigger] before(c, b)) implies before(
        a,
        c,
    ) by {
        if a.count == b.count && b.count == c.count {
            lemma_value_order(a.value, b.value, c.value);
            lemma_value_order(c.value, b.value, a.value);
            lemma_value_order(b.value, c.value, a.value);
            lemma_value_order(b.value, a.value, c.value);
            lemma_text_less_total(c.key, b.key);
            if text_less(a.key, b.key) && text_less(b.key, c.key) {
                lemma_text_less_transitive(a.key, b.key, c.key);
            }
        }
    }
    law_sorting_orders_items(counts_of(values), all, before);
    law_sorting_keeps_items(counts_of(values), before);
}

/// A facet with a limit shows at most that many entries, the first ones.
pub proof fn law_facet_limit<V>(entries: Seq<V>, limit: Option<usize>)
    ensures
        limited(entries, limit).is_prefix_of(entries),
        limit matches Some(n) ==> limited(entries, limit).len() <= n,
        limit is None ==> limited(entries, limit) == entries,
{
}

} // verus!
