//! What the options of a search ask for, from how they are written.
use crate::error::ApiErrorV;
use crate::json::{JsonV, ONE_RANK};
use crate::query::simple::SearchFieldV;
use crate::service::parsing::{
    array_items, capped, every_facet, facet_entries, facet_entry, facet_limit, facets_from,
    facets_of, highlight_fields_check, highlight_fields_of, is_facet_option, items_of,
    not_strings, order_clause, order_clauses, orderby_of, search_field_of, search_fields_from,
    search_fields_of, select_of, selected_from, suggester_field_problem, suggester_fields_check,
    suggester_search_fields_of, weight_rank,
};
use crate::service::types::{FacetV, OrderByV};
use crate::storage::definition::{FieldV, SuggesterV, field_at, field_by_path, field_named};
use crate::storage::index::IndexV;
use crate::text::{ascii_lowercase, has_part, items, pieces, trim, unsigned_value, words};
use crate::text_laws::{is_trimmed, lacks, law_cut, law_parts, law_pieces, law_trimming};
use vstd::prelude::*;

verus! {

// ---------------------------------------------------------------------------
// Fields
// ---------------------------------------------------------------------------

proof fn lemma_field_named(fields: Seq<FieldV>, name: Seq<char>, i: int, at: int)
    requires
        0 <= i <= at <= fields.len(),
        forall|k: int| i <= k < at ==> (#[trigger] fields[k]).name != name,
        at < fields.len() ==> fields[at].name == name,
    ensures
        field_named(fields, name, i) == (if at < fields.len() {
            Some(fields[at])
        } else {
            None
        }),
    decreases at - i,
{
    if i < at {
        assert(fields[i].name != name);
        lemma_field_named(fields, name, i + 1, at);
    }
}

proof fn lemma_field_behind(fields: Seq<FieldV>, x: Seq<Seq<char>>, y: Seq<Seq<char>>, i: int)
    requires
        0 <= i < y.len(),
    ensures
        field_at(fields, x + y, x.len() + i) == field_at(fields, y, i),
    decreases y.len() - i,
{
    let all = x + y;
    assert(all[x.len() as int + i] == y[i]);
    if i + 1 < y.len() {
        if let Some(f) = field_named(fields, y[i], 0) {
            lemma_field_behind(f.subfields, x, y, i + 1);
        }
    }
}

/// A name leads to the first field of that name; a path leads, behind its first name, to
/// the fields inside that one.
pub proof fn law_field_by_path(
    fields: Seq<FieldV>,
    name: Seq<char>,
    rest: Seq<char>,
    at: int,
)
    requires
        lacks(name, '/'),
        0 <= at <= fields.len(),
        forall|k: int| 0 <= k < at ==> (#[trigger] fields[k]).name != name,
        at < fields.len() ==> fields[at].name == name,
    ensures
        field_by_path(fields, name) == (if at < fields.len() {
            Some(fields[at])
        } else {
            None
        }),
        field_by_path(fields, name + seq!['/'] + rest) == (if at < fields.len() {
            field_by_path(fields[at].subfields, rest)
        } else {
            None
        }),
{
    law_pieces(name, '/', rest);
    lemma_field_named(fields, name, 0, at);
    let one = seq![name];
    let more = pieces(rest, '/');
    lemma_some_pieces(rest, '/');
    assert((one + more)[0] == name);
    if at < fields.len() {
        lemma_field_behind(fields[at].subfields, one, more, 0);
    }
}

proof fn lemma_some_pieces(s: Seq<char>, sep: char)
    ensures
        pieces(s, sep).len() >= 1,
{
}

// ---------------------------------------------------------------------------
// Lists
// ---------------------------------------------------------------------------

proof fn lemma_array_items(
    list: Seq<JsonV>,
    x: JsonV,
    i: int,
    done: Seq<Seq<char>>,
    name: Seq<char>,
)
    requires
        0 <= i <= list.len(),
    ensures
        array_items(list.push(x), i, done, name) == (match array_items(list, i, done, name) {
            Err(e) => Err(e),
            Ok(r) => match x {
                JsonV::String(s) => if trim(s).len() == 0 {
                    Ok(r)
                } else {
                    Ok(r.push(trim(s)))
                },
                _ => Err(not_strings(name)),
            },
        }),
    decreases list.len() - i,
{
    let all = list.push(x);
    if i < list.len() {
        assert(all[i] == list[i]);
        if let JsonV::String(s) = list[i] {
            if trim(s).len() == 0 {
                lemma_array_items(list, x, i + 1, done, name);
            } else {
                lemma_array_items(list, x, i + 1, done.push(trim(s)), name);
            }
        }
    } else {
        assert(all[i] == x);
        if let JsonV::String(s) = x {
            assert(array_items(all, i + 1, done, name) == Ok::<Seq<Seq<char>>, ApiErrorV>(done));
            assert(array_items(all, i + 1, done.push(trim(s)), name) == Ok::<
                Seq<Seq<char>>,
                ApiErrorV,
            >(done.push(trim(s))));
        }
    }
}

/// An option is a text, of which the items between commas count, or a list of texts, of
/// which each counts unless it is blank; nothing else is one.
pub proof fn law_option_items(
    list: Seq<JsonV>,
    x: JsonV,
    text: Seq<char>,
    other: JsonV,
    name: Seq<char>,
)
    ensures
        items_of(JsonV::Array(seq![]), name) == Ok::<Seq<Seq<char>>, ApiErrorV>(seq![]),
        items_of(JsonV::Array(list.push(x)), name) == (match items_of(JsonV::Array(list), name) {
            Err(e) => Err(e),
            Ok(r) => match x {
                JsonV::String(s) => if trim(s).len() == 0 {
                    Ok(r)
                } else {
                    Ok(r.push(trim(s)))
                },
                _ => Err(not_strings(name)),
            },
        }),
        items_of(JsonV::String(text), name) == Ok::<Seq<Seq<char>>, ApiErrorV>(items(text, ',')),
        !(other is String || other is Array) ==> items_of(other, name) is Err,
{
    lemma_array_items(list, x, 0, seq![], name);
}

// ---------------------------------------------------------------------------
// Order
// ---------------------------------------------------------------------------

/// Whether the results can be ordered by a field.
pub open spec fn can_order(d: IndexV, field: Seq<char>) -> bool {
    field == "@search.score"@ || match field_by_path(d.fields, field) {
        Some(f) => f.sortable,
        None => false,
    }
}

/// The clause of one item: a field that the results can be ordered by, alone or with a
/// direction, which is `asc` or `desc` in any case.
pub proof fn law_order_clause(part: Seq<char>, d: IndexV)
    ensures
        ({
            let w = words(part);
            let fine = (w.len() == 1 || w.len() == 2 && (ascii_lowercase(w[1]) == "asc"@
                || ascii_lowercase(w[1]) == "desc"@)) && can_order(d, w[0]);
            &&& order_clause(part, d) is Ok <==> fine
            &&& fine ==> order_clause(part, d)->Ok_0 == OrderByV {
                field: w[0],
                descending: w.len() == 2 && ascii_lowercase(w[1]) == "desc"@,
            }
        }),
{
    reveal_strlit("asc");
    reveal_strlit("desc");
    assert("asc"@.len() == 3 && "desc"@.len() == 4);
}

proof fn lemma_order_clauses(
    parts: Seq<Seq<char>>,
    x: Seq<char>,
    i: int,
    done: Seq<OrderByV>,
    d: IndexV,
)
    requires
        0 <= i <= parts.len(),
    ensures
        order_clauses(parts.push(x), i, done, d) == (match order_clauses(parts, i, done, d) {
            Err(e) => Err(e),
            Ok(r) => match order_clause(x, d) {
                Err(e) => Err(e),
                Ok(c) => Ok(r.push(c)),
            },
        }),
    decreases parts.len() - i,
{
    let all = parts.push(x);
    if i < parts.len() {
        assert(all[i] == parts[i]);
        if let Ok(c) = order_clause(parts[i], d) {
            lemma_order_clauses(parts, x, i + 1, done.push(c), d);
        }
    } else {
        assert(all[i] == x);
        if let Ok(c) = order_clause(x, d) {
            assert(order_clauses(all, i + 1, done.push(c), d) == Ok::<Seq<OrderByV>, ApiErrorV>(
                done.push(c),
            ));
        }
    }
}

/// Each item of an `orderby` is a clause, in its place; there must be one.
pub proof fn law_every_order_item_counts(
    parts: Seq<Seq<char>>,
    x: Seq<char>,
    value: JsonV,
    d: IndexV,
)
    ensures
        order_clauses(seq![], 0, seq![], d) == Ok::<Seq<OrderByV>, ApiErrorV>(seq![]),
        order_clauses(parts.push(x), 0, seq![], d) == (match order_clauses(parts, 0, seq![], d) {
            Err(e) => Err(e),
            Ok(r) => match order_clause(x, d) {
                Err(e) => Err(e),
                Ok(c) => Ok(r.push(c)),
            },
        }),
        match orderby_of(value, d) {
            Ok((clauses, text)) => clauses.len() > 0 && items_of(value, "orderby"@) is Ok
                && order_clauses(items_of(value, "orderby"@)->Ok_0, 0, seq![], d) == Ok::<
                Seq<OrderByV>,
                ApiErrorV,
            >(clauses),
            Err(_) => items_of(value, "orderby"@) is Err || order_clauses(
                items_of(value, "orderby"@)->Ok_0,
                0,
                seq![],
                d,
            ) is Err || order_clauses(items_of(value, "orderby"@)->Ok_0, 0, seq![], d)->Ok_0.len()
                == 0,
        },
{
    lemma_order_clauses(parts, x, 0, seq![], d);
}

// ---------------------------------------------------------------------------
// Selected, highlighted and suggested fields
// ---------------------------------------------------------------------------

proof fn lemma_selected(parts: Seq<Seq<char>>, i: int, d: IndexV)
    requires
        0 <= i <= parts.len(),
    ensures
        selected_from(parts, i, d) is Ok <==> forall|k: int|
            i <= k < parts.len() ==> field_by_path(d.fields, #[trigger] parts[k]) is Some,
    decreases parts.len() - i,
{
    if i < parts.len() {
        lemma_selected(parts, i + 1, d);
        assert(field_by_path(d.fields, parts[i]) is Some || field_by_path(d.fields, parts[i])
            is None);
    }
}

/// A selection names fields of the index, all of them; `*` selects every field.
pub proof fn law_selection(value: JsonV, parts: Seq<Seq<char>>, d: IndexV)
    requires
        items_of(value, "select"@) == Ok::<Seq<Seq<char>>, ApiErrorV>(parts),
    ensures
        parts.contains("*"@) ==> select_of(value, d) == Ok::<Seq<Seq<char>>, ApiErrorV>(seq![]),
        !parts.contains("*"@) ==> (select_of(value, d) is Ok <==> parts.len() > 0 && forall|k: int|
            0 <= k < parts.len() ==> field_by_path(d.fields, #[trigger] parts[k]) is Some),
        !parts.contains("*"@) && select_of(value, d) is Ok ==> select_of(value, d)->Ok_0 == parts,
{
    lemma_selected(parts, 0, d);
}

/// Whether a field of an index can be searched for text.
pub open spec fn can_search(d: IndexV, field: Seq<char>) -> bool {
    match field_by_path(d.fields, field) {
        Some(f) => f.searchable,
        None => false,
    }
}

proof fn lemma_highlight_fields(parts: Seq<Seq<char>>, i: int, d: IndexV)
    requires
        0 <= i <= parts.len(),
    ensures
        highlight_fields_check(parts, i, d) is None <==> forall|k: int|
            i <= k < parts.len() ==> can_search(d, #[trigger] parts[k]),
    decreases parts.len() - i,
{
    if i < parts.len() {
        lemma_highlight_fields(parts, i + 1, d);
        assert(can_search(d, parts[i]) || !can_search(d, parts[i]));
    }
}

/// Highlights are asked for of fields that can be searched, all of those named.
pub proof fn law_highlight_fields(value: JsonV, parts: Seq<Seq<char>>, d: IndexV)
    requires
        items_of(value, "highlight"@) == Ok::<Seq<Seq<char>>, ApiErrorV>(parts),
    ensures
        highlight_fields_of(Some(value), d) is Ok <==> parts.len() > 0 && forall|k: int|
            0 <= k < parts.len() ==> can_search(d, #[trigger] parts[k]),
        highlight_fields_of(Some(value), d) is Ok ==> highlight_fields_of(Some(value), d)->Ok_0
            == parts,
{
    lemma_highlight_fields(parts, 0, d);
}

/// Whether a field serves a suggester.
pub open spec fn can_suggest(d: IndexV, suggester: SuggesterV, field: Seq<char>) -> bool {
    lacks(field, '^') && can_search(d, field) && suggester.search_fields.contains(field)
}

proof fn lemma_caret(part: Seq<char>)
    ensures
        has_part(part, seq!['^']) == !lacks(part, '^'),
{
    let caret = seq!['^'];
    if has_part(part, caret) {
        law_parts(seq![], caret, seq![], part);
        let (x, y) = choose|x: Seq<char>, y: Seq<char>| part == #[trigger] (x + caret + y);
        assert((x + caret + y)[x.len() as int] == caret[0]);
        assert(part[x.len() as int] == '^');
    }
    if !lacks(part, '^') {
        let i = choose|i: int| 0 <= i < part.len() && #[trigger] part[i] == '^';
        let (a, b) = (part.take(i), part.skip(i + 1));
        law_parts(a, caret, b, part);
        assert(a + caret + b =~= part);
    }
}

proof fn lemma_suggester_fields(
    parts: Seq<Seq<char>>,
    i: int,
    d: IndexV,
    suggester: SuggesterV,
)
    requires
        0 <= i <= parts.len(),
    ensures
        suggester_fields_check(parts, i, d, suggester) is None <==> forall|k: int|
            i <= k < parts.len() ==> can_suggest(d, suggester, #[trigger] parts[k]),
    decreases parts.len() - i,
{
    if i < parts.len() {
        lemma_suggester_fields(parts, i + 1, d, suggester);
        lemma_caret(parts[i]);
        assert(suggester_field_problem(parts[i], d, suggester) is None == can_suggest(
            d,
            suggester,
            parts[i],
        ));
    }
}

/// Suggestions are asked for of fields of the suggester, all of those named.
pub proof fn law_suggester_fields(
    value: JsonV,
    parts: Seq<Seq<char>>,
    d: IndexV,
    suggester: SuggesterV,
)
    requires
        items_of(value, "searchFields"@) == Ok::<Seq<Seq<char>>, ApiErrorV>(parts),
    ensures
        ({
            let r = suggester_search_fields_of(Some(value), d, suggester);
            &&& r is Ok <==> parts.len() > 0 && forall|k: int|
                0 <= k < parts.len() ==> can_suggest(d, suggester, #[trigger] parts[k])
            &&& r is Ok ==> r->Ok_0 == Some(parts)
        }),
{
    lemma_suggester_fields(parts, 0, d, suggester);
}

// ---------------------------------------------------------------------------
// Search fields
// ---------------------------------------------------------------------------

/// A search field is named alone, and weighs one, or with a weight behind `^`, which is
/// positive and finite; it can be searched for text.
pub proof fn law_search_field(name: Seq<char>, weight: Seq<char>, d: IndexV)
    requires
        lacks(name, '^'),
    ensures
        ({
            let field = trim(name);
            let fine = can_search(d, field) && !field_by_path(d.fields, field)->Some_0.vector();
            let alone = search_field_of(name, d);
            let weighed = search_field_of(name + seq!['^'] + weight, d);
            let rank = weight_rank(trim(weight));
            let usable = rank is Some && 0x8000_0000_0000_0000 < rank->Some_0
                < 0xFFF0_0000_0000_0000;
            &&& alone is Ok <==> fine
            &&& fine ==> alone->Ok_0 == SearchFieldV { name: field, boost: ONE_RANK }
            &&& weighed is Ok <==> fine && usable
            &&& weighed is Ok ==> weighed->Ok_0 == SearchFieldV {
                name: field,
                boost: rank->Some_0,
            }
        }),
{
    law_cut(name, '^', weight);
}

proof fn lemma_search_fields(
    parts: Seq<Seq<char>>,
    x: Seq<char>,
    i: int,
    done: Seq<SearchFieldV>,
    d: IndexV,
)
    requires
        0 <= i <= parts.len(),
    ensures
        search_fields_from(parts.push(x), i, done, d) == (match search_fields_from(
            parts,
            i,
            done,
            d,
        ) {
            Err(e) => Err(e),
            Ok(r) => match search_field_of(x, d) {
                Err(e) => Err(e),
                Ok(c) => Ok(r.push(c)),
            },
        }),
    decreases parts.len() - i,
{
    let all = parts.push(x);
    if i < parts.len() {
        assert(all[i] == parts[i]);
        if let Ok(c) = search_field_of(parts[i], d) {
            lemma_search_fields(parts, x, i + 1, done.push(c), d);
        }
    } else {
        assert(all[i] == x);
        if let Ok(c) = search_field_of(x, d) {
            assert(search_fields_from(all, i + 1, done.push(c), d) == Ok::<
                Seq<SearchFieldV>,
                ApiErrorV,
            >(done.push(c)));
        }
    }
}

/// Each item of `searchFields` is a field, in its place; there must be one.
pub proof fn law_every_search_field_counts(
    parts: Seq<Seq<char>>,
    x: Seq<char>,
    value: JsonV,
    d: IndexV,
)
    ensures
        search_fields_from(seq![], 0, seq![], d) == Ok::<Seq<SearchFieldV>, ApiErrorV>(seq![]),
        search_fields_from(parts.push(x), 0, seq![], d) == (match search_fields_from(
            parts,
            0,
            seq![],
            d,
        ) {
            Err(e) => Err(e),
            Ok(r) => match search_field_of(x, d) {
                Err(e) => Err(e),
                Ok(c) => Ok(r.push(c)),
            },
        }),
        items_of(value, "searchFields"@) == Ok::<Seq<Seq<char>>, ApiErrorV>(parts) ==> (
        match search_fields_from(parts, 0, seq![], d) {
            Ok(fields) => if fields.len() > 0 {
                search_fields_of(value, d) == Ok::<Seq<SearchFieldV>, ApiErrorV>(fields)
            } else {
                search_fields_of(value, d) is Err
            },
            Err(_) => search_fields_of(value, d) is Err,
        }),
{
    lemma_search_fields(parts, x, 0, seq![], d);
}

// ---------------------------------------------------------------------------
// Facets
// ---------------------------------------------------------------------------

/// Whether a facet can be asked for of a field.
pub open spec fn can_facet(d: IndexV, field: Seq<char>) -> bool {
    match field_by_path(d.fields, field) {
        Some(f) => f.facetable,
        None => false,
    }
}

/// A facet is named alone, and shows all its values: a field that allows it, or the
/// number of results.
pub proof fn law_plain_facet(part: Seq<char>, d: IndexV)
    requires
        lacks(part, ','),
        trim(part) != "*"@,
    ensures
        ({
            let name = trim(part);
            let r = facet_entry(part, d);
            &&& r is Ok <==> name == "$count"@ || can_facet(d, name)
            &&& r is Ok ==> r->Ok_0 == seq![FacetV { field: name, limit: None }]
        }),
{
    law_pieces(part, ',', seq![]);
    let split = pieces(part, ',');
    assert(split == seq![part]);
    assert(split.skip(1) =~= seq![]);
}

/// A facet with one option shows as many values as the option says.
pub proof fn law_facet_with_limit(name: Seq<char>, key: Seq<char>, count: Seq<char>, d: IndexV)
    requires
        lacks(name, ','),
        lacks(count, ','),
        lacks(count, ':'),
        trim(name) != "*"@,
        trim(name) != "$count"@,
        is_trimmed(count),
        key == "count"@ || key == "top"@,
    ensures
        ({
            let n = unsigned_value(count, u64::MAX as nat);
            let r = facet_entry(name + seq![','] + (key + seq![':'] + count), d);
            &&& r is Ok <==> n is Some && can_facet(d, trim(name))
            &&& r is Ok ==> r->Ok_0 == seq![
                FacetV { field: trim(name), limit: Some(capped(n->Some_0 as int)) },
            ]
        }),
{
    reveal_strlit("count");
    reveal_strlit("top");
    let option = key + seq![':'] + count;
    let part = name + seq![','] + option;
    law_pieces(name, ',', option);
    assert(lacks(option, ',')) by {
        assert forall|i: int| 0 <= i < option.len() implies #[trigger] option[i] != ',' by {
            if i > key.len() {
                assert(option[i] == count[i - key.len() - 1]);
            } else if i < key.len() {
                assert(option[i] == key[i]);
            }
        }
    }
    law_pieces(option, ',', seq![]);
    let split = pieces(part, ',');
    assert(split =~= seq![name, option]);
    assert(split.skip(1) =~= seq![option]);
    assert(lacks(key, ':'));
    law_cut(key, ':', count);
    let none = Seq::<char>::empty();
    if count.len() == 0 {
        assert(option =~= key + seq![':']);
    }
    assert(is_trimmed(option)) by {
        assert(option[0] == key[0]);
        if count.len() > 0 {
            assert(option.last() == count.last());
        } else {
            assert(option.last() == ':');
        }
    }
    law_trimming(none, option, none);
    assert(none + option + none =~= option);
    law_trimming(none, count, none);
    assert(none + count + none =~= count);
    let options = split.skip(1);
    assert(options[0] == option);
    if let Some(n) = unsigned_value(count, u64::MAX as nat) {
        let limit = Some(capped(n as int));
        assert(facet_limit(options, 1, limit, part) == Ok::<Option<usize>, ApiErrorV>(limit));
    }
}

proof fn lemma_every_facet(fields: Seq<FieldV>, n: int, limit: Option<usize>, f: FacetV)
    requires
        0 <= n <= fields.len(),
    ensures
        every_facet(fields, n, limit).contains(f) <==> f.limit == limit && exists|i: int|
            0 <= i < n && (#[trigger] fields[i]).facetable && fields[i].name == f.field,
    decreases n,
{
    if n > 0 {
        lemma_every_facet(fields, n - 1, limit, f);
        let rest = every_facet(fields, n - 1, limit);
        let all = every_facet(fields, n, limit);
        if rest.contains(f) {
            let j = choose|j: int| 0 <= j < rest.len() && rest[j] == f;
            assert(all[j] == f);
        }
        if fields[n - 1].facetable && fields[n - 1].name == f.field && f.limit == limit {
            assert(all[rest.len() as int] == f);
        }
        if all.contains(f) {
            let j = choose|j: int| 0 <= j < all.len() && all[j] == f;
            if j < rest.len() {
                assert(rest[j] == f);
            } else {
                assert(fields[n - 1].name == f.field);
            }
        }
    }
}

/// `*` asks for a facet of each field of the index that allows it, and of no other.
pub proof fn law_every_facet(part: Seq<char>, d: IndexV, f: FacetV)
    requires
        lacks(part, ','),
        trim(part) == "*"@,
    ensures
        facet_entry(part, d) is Ok,
        facet_entry(part, d)->Ok_0.contains(f) <==> f.limit is None && exists|i: int|
            0 <= i < d.fields.len() && (#[trigger] d.fields[i]).facetable && d.fields[i].name
                == f.field,
{
    law_pieces(part, ',', seq![]);
    let split = pieces(part, ',');
    assert(split == seq![part]);
    assert(split.skip(1) =~= seq![]);
    lemma_every_facet(d.fields, d.fields.len() as int, None, f);
}

proof fn lemma_facets(
    entries: Seq<Seq<char>>,
    x: Seq<char>,
    i: int,
    done: Seq<FacetV>,
    d: IndexV,
)
    requires
        0 <= i <= entries.len(),
    ensures
        facets_from(entries.push(x), i, done, d) == (match facets_from(entries, i, done, d) {
            Err(e) => Err(e),
            Ok(r) => match facet_entry(x, d) {
                Err(e) => Err(e),
                Ok(more) => Ok(r + more),
            },
        }),
    decreases entries.len() - i,
{
    let all = entries.push(x);
    if i < entries.len() {
        assert(all[i] == entries[i]);
        if let Ok(more) = facet_entry(entries[i], d) {
            lemma_facets(entries, x, i + 1, done + more, d);
        }
    } else {
        assert(all[i] == x);
        if let Ok(more) = facet_entry(x, d) {
            assert(facets_from(all, i + 1, done + more, d) == Ok::<Seq<FacetV>, ApiErrorV>(
                done + more,
            ));
        }
    }
}

proof fn lemma_facet_entries(parts: Seq<Seq<char>>, x: Seq<char>, i: int, done: Seq<Seq<char>>)
    requires
        0 <= i <= parts.len(),
    ensures
        ({
            let r = facet_entries(parts, i, done);
            let part = trim(x);
            facet_entries(parts.push(x), i, done) == (if part.len() == 0 {
                r
            } else if is_facet_option(part) && r.len() > 0 {
                r.drop_last().push(r.last() + ", "@ + part)
            } else {
                r.push(part)
            })
        }),
    decreases parts.len() - i,
{
    let all = parts.push(x);
    if i < parts.len() {
        assert(all[i] == parts[i]);
        let part = trim(parts[i]);
        if part.len() == 0 {
            lemma_facet_entries(parts, x, i + 1, done);
        } else if is_facet_option(part) && done.len() > 0 {
            lemma_facet_entries(parts, x, i + 1, done.drop_last().push(done.last() + ", "@ + part));
        } else {
            lemma_facet_entries(parts, x, i + 1, done.push(part));
        }
    } else {
        assert(all[i] == x);
        let part = trim(x);
        let more = done.push(part);
        let longer = done.drop_last().push(done.last() + ", "@ + part);
        assert(facet_entries(all, i + 1, done) == done);
        assert(facet_entries(all, i + 1, more) == more);
        assert(facet_entries(all, i + 1, longer) == longer);
    }
}

/// Each entry of `facets` counts, in its place. In a text an option belongs to the entry
/// before it, and every other item that is not blank is an entry.
pub proof fn law_every_facet_entry_counts(
    entries: Seq<Seq<char>>,
    x: Seq<char>,
    value: JsonV,
    d: IndexV,
)
    ensures
        facets_from(seq![], 0, seq![], d) == Ok::<Seq<FacetV>, ApiErrorV>(seq![]),
        facets_from(entries.push(x), 0, seq![], d) == (match facets_from(entries, 0, seq![], d) {
            Err(e) => Err(e),
            Ok(r) => match facet_entry(x, d) {
                Err(e) => Err(e),
                Ok(more) => Ok(r + more),
            },
        }),
        facet_entries(seq![], 0, seq![]) == Seq::<Seq<char>>::empty(),
        ({
            let r = facet_entries(entries, 0, seq![]);
            let part = trim(x);
            facet_entries(entries.push(x), 0, seq![]) == (if part.len() == 0 {
                r
            } else if is_facet_option(part) && r.len() > 0 {
                r.drop_last().push(r.last() + ", "@ + part)
            } else {
                r.push(part)
            })
        }),
        value is Array && items_of(value, "facets"@) == Ok::<Seq<Seq<char>>, ApiErrorV>(entries)
            ==> (match facets_from(entries, 0, seq![], d) {
            Ok(facets) => if facets.len() > 0 {
                facets_of(value, d) == Ok::<Seq<FacetV>, ApiErrorV>(facets)
            } else {
                facets_of(value, d) is Err
            },
            Err(_) => facets_of(value, d) is Err,
        }),
{
    lemma_facets(entries, x, 0, seq![], d);
    lemma_facet_entries(entries, x, 0, seq![]);
}

} // verus!
