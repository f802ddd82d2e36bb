//! Search-option parsers.
use crate::error::{ApiError, ApiErrorV, invalid_query_v, unit_result};
use crate::filter::expr::{FilterExpr, FilterExprV};
use crate::filter::parser::{filter_of, parse_filter};
use crate::json::{
    Json, JsonMap, JsonV, Number, ONE_RANK, ZERO_RANK, group_json, member, member_bool, member_or,
    opt_value, rank_eq, rank_lt, ranks_equal, ranks_less, u64_of, values,
};
use crate::query::simple::{SearchField, SearchFieldV, SearchMode, opt_texts, search_mode_of};
use crate::service::types::{
    Facet, FacetV, OrderBy, OrderByV, facet_views, group_types, order_views, search_field_views,
};
use crate::storage::definition::{FieldV, Suggester, SuggesterV, field_by_path, field_views, flag};
use crate::storage::index::{IndexDefinition, IndexV};
use crate::text::{
    ascii_lowercase, cat2, cat3, cat5, contains_text, cut_once, debug_text, has_part, holds_text,
    items, join_texts, joined, lemma_texts_push, opt_text, parse_unsigned, pieces, quoted,
    same_text, split_items, split_on, split_once, split_words, texts, to_ascii_lowercase, trim,
    trimmed, unsigned_value, words,
};
use vstd::prelude::*;

verus! {

/// Maximum `vectorQueries` entries per search.
pub const MAX_VECTOR_QUERIES: usize = 5;

/// Maximum `k` per vector query.
pub const MAX_VECTOR_K: usize = 1000;

/// Default `k` when omitted.
pub const DEFAULT_VECTOR_K: usize = 3;

// ---------------------------------------------------------------------------
// Lists
// ---------------------------------------------------------------------------

pub open spec fn not_strings(name: Seq<char>) -> ApiErrorV {
    invalid_query_v(name + " must be a string or an array of strings."@)
}

/// The strings of a list from `i` on, trimmed and without the empty ones,
/// behind those in `done`.
pub open spec fn array_items(values: Seq<JsonV>, i: int, done: Seq<Seq<char>>, name: Seq<char>) -> Result<
    Seq<Seq<char>>,
    ApiErrorV,
>
    decreases values.len() - i,
{
    if i >= values.len() {
        Ok(done)
    } else {
        match values[i] {
            JsonV::String(s) => if trim(s).len() == 0 {
                array_items(values, i + 1, done, name)
            } else {
                array_items(values, i + 1, done.push(trim(s)), name)
            },
            _ => Err(not_strings(name)),
        }
    }
}

/// The items of an option: of a comma-separated string, or of an array of
/// strings, trimmed, without the empty ones.
pub open spec fn items_of(value: JsonV, name: Seq<char>) -> Result<Seq<Seq<char>>, ApiErrorV> {
    match value {
        JsonV::String(s) => Ok(items(s, ',')),
        JsonV::Array(v) => array_items(v, 0, seq![], name),
        _ => Err(not_strings(name)),
    }
}

pub open spec fn texts_result(r: Result<Vec<String>, ApiError>) -> Result<
    Seq<Seq<char>>,
    ApiErrorV,
> {
    match r {
        Ok(v) => Ok(texts(v@)),
        Err(e) => Err(e@),
    }
}

/// Extracts a list of comma-separated items from a search option value. The
/// REST API documents these as comma-separated strings, but SDKs may send JSON
/// arrays; both shapes are accepted.
pub fn string_items(value: &Json, name: &str) -> (r: Result<Vec<String>, ApiError>)
    ensures
        texts_result(r) == items_of(value@, name@),
{
    broadcast use {group_json, lemma_texts_push};

    match value {
        Json::String(text) => Ok(split_items(text.as_str(), ',')),
        Json::Array(list) => {
            let ghost all = values(list@);
            let mut out: Vec<String> = Vec::new();
            let mut i: usize = 0;
            assert(texts(out@) =~= seq![]);
            while i < list.len()
                invariant
                    all == values(list@),
                    value@ == JsonV::Array(all),
                    i <= list@.len(),
                    items_of(value@, name@) == array_items(all, i as int, texts(out@), name@),
                decreases list@.len() - i,
            {
                assert(all[i as int] == list@[i as int]@);
                match list[i].as_str() {
                    Some(text) => {
                        let t = trimmed(text);
                        if !t.as_str().is_empty() {
                            let ghost before = texts(out@);
                            out.push(t);
                            assert(texts(out@) == before.push(t@));
                        }
                    },
                    None => {
                        return Err(
                            ApiError::invalid_query(
                                cat2(name, " must be a string or an array of strings.").as_str(),
                            ),
                        );
                    },
                }
                i += 1;
            }
            Ok(out)
        },
        _ => Err(
            ApiError::invalid_query(
                cat2(name, " must be a string or an array of strings.").as_str(),
            ),
        ),
    }
}

// ---------------------------------------------------------------------------
// Filter
// ---------------------------------------------------------------------------

pub open spec fn filter_option_of(raw: Seq<char>) -> Result<FilterExprV, ApiErrorV> {
    match filter_of(raw) {
        Ok(e) => Ok(e),
        Err(m) => Err(invalid_query_v("Invalid filter: "@ + m)),
    }
}

pub fn parse_filter_option(raw: &str) -> (r: Result<FilterExpr, ApiError>)
    ensures
        match r {
            Ok(e) => filter_option_of(raw@) == Ok::<_, ApiErrorV>(e@),
            Err(e) => filter_option_of(raw@) == Err::<FilterExprV, _>(e@),
        },
{
    match parse_filter(raw) {
        Ok(e) => Ok(e),
        Err(m) => Err(ApiError::invalid_query(cat2("Invalid filter: ", m.as_str()).as_str())),
    }
}

// ---------------------------------------------------------------------------
// Order
// ---------------------------------------------------------------------------

/// The `orderby` clause of an item.
pub open spec fn order_clause(part: Seq<char>, d: IndexV) -> Result<OrderByV, ApiErrorV> {
    let tokens = words(part);
    if tokens.len() != 1 && tokens.len() != 2 {
        Err(
            invalid_query_v(
                "Invalid orderby clause "@ + debug_text(part)
                    + ": expected 'field' or 'field asc|desc'."@,
            ),
        )
    } else {
        let field = tokens[0];
        let direction = if tokens.len() == 2 {
            ascii_lowercase(tokens[1])
        } else {
            "asc"@
        };
        if direction != "asc"@ && direction != "desc"@ {
            Err(
                invalid_query_v(
                    "Invalid orderby clause "@ + debug_text(part)
                        + ": expected direction 'asc' or 'desc', found "@ + debug_text(direction)
                        + "."@,
                ),
            )
        } else {
            let clause = OrderByV { field, descending: direction == "desc"@ };
            if field == "@search.score"@ {
                Ok(clause)
            } else {
                match field_by_path(d.fields, field) {
                    None => Err(
                        invalid_query_v(
                            "orderby references unknown field "@ + debug_text(field) + "."@,
                        ),
                    ),
                    Some(f) => if f.sortable {
                        Ok(clause)
                    } else {
                        Err(
                            invalid_query_v(
                                "Field "@ + debug_text(field)
                                    + " is not sortable; mark it \"sortable\": true in the index schema."@,
                            ),
                        )
                    },
                }
            }
        }
    }
}

/// The `orderby` clauses of the items from `i` on, behind those in `done`.
pub open spec fn order_clauses(
    parts: Seq<Seq<char>>,
    i: int,
    done: Seq<OrderByV>,
    d: IndexV,
) -> Result<Seq<OrderByV>, ApiErrorV>
    decreases parts.len() - i,
{
    if i >= parts.len() {
        Ok(done)
    } else {
        match order_clause(parts[i], d) {
            Err(e) => Err(e),
            Ok(c) => order_clauses(parts, i + 1, done.push(c), d),
        }
    }
}

/// The clauses of an `orderby` value, and its canonical text.
pub open spec fn orderby_of(value: JsonV, d: IndexV) -> Result<
    (Seq<OrderByV>, Seq<char>),
    ApiErrorV,
> {
    match items_of(value, "orderby"@) {
        Err(e) => Err(e),
        Ok(parts) => match order_clauses(parts, 0, seq![], d) {
            Err(e) => Err(e),
            Ok(clauses) => if clauses.len() == 0 {
                Err(invalid_query_v("orderby is empty."@))
            } else {
                Ok((clauses, joined(parts, ", "@)))
            },
        },
    }
}

fn parse_order_clause(part: &str, definition: &IndexDefinition) -> (r: Result<OrderBy, ApiError>)
    ensures
        match r {
            Ok(c) => order_clause(part@, definition@) == Ok::<_, ApiErrorV>(c@),
            Err(e) => order_clause(part@, definition@) == Err::<OrderByV, _>(e@),
        },
{
    let tokens = split_words(part);
    let ghost all = texts(tokens@);
    if tokens.len() != 1 && tokens.len() != 2 {
        return Err(
            ApiError::invalid_query(
                cat3(
                    "Invalid orderby clause ",
                    quoted(part).as_str(),
                    ": expected 'field' or 'field asc|desc'.",
                ).as_str(),
            ),
        );
    }
    assert(all[0] == tokens@[0]@);
    let field = tokens[0].as_str();
    let direction = if tokens.len() == 2 {
        assert(all[1] == tokens@[1]@);
        to_ascii_lowercase(tokens[1].as_str())
    } else {
        "asc".to_owned()
    };
    let descending = same_text(direction.as_str(), "desc");
    if !descending && !same_text(direction.as_str(), "asc") {
        return Err(
            ApiError::invalid_query(
                cat5(
                    "Invalid orderby clause ",
                    quoted(part).as_str(),
                    ": expected direction 'asc' or 'desc', found ",
                    quoted(direction.as_str()).as_str(),
                    ".",
                ).as_str(),
            ),
        );
    }
    if !same_text(field, "@search.score") {
        match definition.field_path(field) {
            None => {
                return Err(
                    ApiError::invalid_query(
                        cat3(
                            "orderby references unknown field ",
                            quoted(field).as_str(),
                            ".",
                        ).as_str(),
                    ),
                );
            },
            Some(f) => {
                if !f.sortable {
                    return Err(
                        ApiError::invalid_query(
                            cat3(
                                "Field ",
                                quoted(field).as_str(),
                                " is not sortable; mark it \"sortable\": true in the index schema.",
                            ).as_str(),
                        ),
                    );
                }
            },
        }
    }
    Ok(OrderBy { field: field.to_owned(), descending })
}

/// Parses an `orderby` value: comma-separated `field [asc|desc]` clauses (or
/// a JSON array of clauses). Every field must exist and be marked `sortable`,
/// except the pseudo-field `@search.score`, which orders by relevance score.
/// Returns the parsed clauses and a canonical raw string for continuation
/// tokens.
pub fn parse_orderby(value: &Json, definition: &IndexDefinition) -> (r: Result<
    (Vec<OrderBy>, String),
    ApiError,
>)
    ensures
        match r {
            Ok((clauses, raw)) => orderby_of(value@, definition@) == Ok::<_, ApiErrorV>(
                (order_views(clauses@), raw@),
            ),
            Err(e) => orderby_of(value@, definition@) == Err::<(Seq<OrderByV>, Seq<char>), _>(e@),
        },
{
    broadcast use group_types;

    let parts = string_items(value, "orderby")?;
    let ghost all = texts(parts@);
    let mut clauses: Vec<OrderBy> = Vec::new();
    let mut i: usize = 0;
    assert(order_views(clauses@) =~= seq![]);
    while i < parts.len()
        invariant
            all == texts(parts@),
            items_of(value@, "orderby"@) == Ok::<_, ApiErrorV>(all),
            i <= parts@.len(),
            order_clauses(all, 0, seq![], definition@) == order_clauses(
                all,
                i as int,
                order_views(clauses@),
                definition@,
            ),
        decreases parts@.len() - i,
    {
        assert(all[i as int] == parts@[i as int]@);
        let clause = parse_order_clause(parts[i].as_str(), definition)?;
        let ghost before = order_views(clauses@);
        clauses.push(clause);
        assert(order_views(clauses@) == before.push(clause@));
        i += 1;
    }
    if clauses.len() == 0 {
        return Err(ApiError::invalid_query("orderby is empty."));
    }
    Ok((clauses, join_texts(&parts, ", ")))
}

// ---------------------------------------------------------------------------
// Selection
// ---------------------------------------------------------------------------

/// The names from `i` on, where all lead to fields.
pub open spec fn selected_from(parts: Seq<Seq<char>>, i: int, d: IndexV) -> Result<(), ApiErrorV>
    decreases parts.len() - i,
{
    if i >= parts.len() {
        Ok(())
    } else if field_by_path(d.fields, parts[i]) is None {
        Err(invalid_query_v("select references unknown field "@ + debug_text(parts[i]) + "."@))
    } else {
        selected_from(parts, i + 1, d)
    }
}

/// The field names of a `select` value; none for `*`, which selects every
/// field.
pub open spec fn select_of(value: JsonV, d: IndexV) -> Result<Seq<Seq<char>>, ApiErrorV> {
    match items_of(value, "select"@) {
        Err(e) => Err(e),
        Ok(parts) => if parts.contains("*"@) {
            Ok(seq![])
        } else {
            match selected_from(parts, 0, d) {
                Err(e) => Err(e),
                Ok(_) => if parts.len() == 0 {
                    Err(invalid_query_v("select is empty."@))
                } else {
                    Ok(parts)
                },
            }
        },
    }
}

/// Parses a `select` value: comma-separated field names or paths (or a JSON
/// array), each of which must resolve in the schema (nested complex-type
/// paths such as `Address/City` are supported). The special `*` selects
/// every field, exactly like omitting `select`.
pub fn parse_select(value: &Json, definition: &IndexDefinition) -> (r: Result<
    Vec<String>,
    ApiError,
>)
    ensures
        texts_result(r) == select_of(value@, definition@),
{
    let parts = string_items(value, "select")?;
    let ghost all = texts(parts@);
    if holds_text(&parts, "*") {
        let none: Vec<String> = Vec::new();
        assert(texts(none@) =~= seq![]);
        return Ok(none);
    }
    let mut i: usize = 0;
    while i < parts.len()
        invariant
            all == texts(parts@),
            !all.contains("*"@),
            items_of(value@, "select"@) == Ok::<_, ApiErrorV>(all),
            i <= parts@.len(),
            selected_from(all, 0, definition@) == selected_from(all, i as int, definition@),
        decreases parts@.len() - i,
    {
        assert(all[i as int] == parts@[i as int]@);
        if definition.field_path(parts[i].as_str()).is_none() {
            return Err(
                ApiError::invalid_query(
                    cat3(
                        "select references unknown field ",
                        quoted(parts[i].as_str()).as_str(),
                        ".",
                    ).as_str(),
                ),
            );
        }
        i += 1;
    }
    if parts.len() == 0 {
        return Err(ApiError::invalid_query("select is empty."));
    }
    Ok(parts)
}

// ---------------------------------------------------------------------------
// Facets
// ---------------------------------------------------------------------------

/// Whether a piece of a facet string is an option of the facet before it.
pub open spec fn is_facet_option(part: Seq<char>) -> bool {
    match cut_once(part, ':') {
        Some((key, _)) => trim(key) == "count"@ || trim(key) == "top"@,
        None => false,
    }
}

/// The entries of the pieces from `i` on, behind those in `done`: an option is
/// attached to the entry before it.
pub open spec fn facet_entries(parts: Seq<Seq<char>>, i: int, done: Seq<Seq<char>>) -> Seq<
    Seq<char>,
>
    decreases parts.len() - i,
{
    if i >= parts.len() {
        done
    } else {
        let part = trim(parts[i]);
        if part.len() == 0 {
            facet_entries(parts, i + 1, done)
        } else if is_facet_option(part) && done.len() > 0 {
            facet_entries(parts, i + 1, done.drop_last().push(done.last() + ", "@ + part))
        } else {
            facet_entries(parts, i + 1, done.push(part))
        }
    }
}

/// Splits a single-string `facets` value on commas, re-attaching `count:N` /
/// `top:N` fragments to the preceding facet entry. A leading option with no
/// facet passes through and is rejected as an unknown field downstream.
pub fn split_facet_string(text: &str) -> (r: Vec<String>)
    ensures
        texts(r@) == facet_entries(pieces(text@, ','), 0, seq![]),
{
    broadcast use lemma_texts_push;

    let parts = split_on(text, ',');
    let ghost all = texts(parts@);
    let mut entries: Vec<String> = Vec::new();
    let mut i: usize = 0;
    assert(texts(entries@) =~= seq![]);
    while i < parts.len()
        invariant
            all == texts(parts@),
            i <= parts@.len(),
            facet_entries(all, 0, seq![]) == facet_entries(all, i as int, texts(entries@)),
        decreases parts@.len() - i,
    {
        assert(all[i as int] == parts@[i as int]@);
        let part = trimmed(parts[i].as_str());
        if !part.as_str().is_empty() {
            let is_option = match split_once(part.as_str(), ':') {
                Some((key, _)) => {
                    let k = trimmed(key.as_str());
                    same_text(k.as_str(), "count") || same_text(k.as_str(), "top")
                },
                None => false,
            };
            let ghost before = texts(entries@);
            let attach = match entries.pop() {
                Some(last) => {
                    if is_option {
                        let joined_entry = cat3(last.as_str(), ", ", part.as_str());
                        entries.push(joined_entry);
                        assert(texts(entries@) =~= before.drop_last().push(
                            before.last() + ", "@ + part@,
                        ));
                        true
                    } else {
                        entries.push(last);
                        assert(texts(entries@) =~= before);
                        false
                    }
                },
                None => false,
            };
            if !attach {
                entries.push(part);
                assert(texts(entries@) == before.push(part@));
            }
        }
        i += 1;
    }
    entries
}

/// A count; what does not fit is the greatest one.
pub open spec fn capped(n: int) -> usize {
    if n <= usize::MAX {
        n as usize
    } else {
        usize::MAX
    }
}

/// The limit that the options from `i` on of a facet entry set.
pub open spec fn facet_limit(
    options: Seq<Seq<char>>,
    i: int,
    limit: Option<usize>,
    part: Seq<char>,
) -> Result<Option<usize>, ApiErrorV>
    decreases options.len() - i,
{
    if i >= options.len() {
        Ok(limit)
    } else {
        let option = trim(options[i]);
        match cut_once(option, ':') {
            None => Err(
                invalid_query_v(
                    "Invalid facet option "@ + debug_text(option) + " in "@ + debug_text(part)
                        + "; expected 'count:N' or 'top:N'."@,
                ),
            ),
            Some((key, arg)) => match unsigned_value(trim(arg), u64::MAX as nat) {
                None => Err(
                    invalid_query_v(
                        "Invalid facet option "@ + debug_text(option) + " in "@ + debug_text(part)
                            + "; the count must be a non-negative integer."@,
                    ),
                ),
                Some(n) => if key == "count"@ || key == "top"@ {
                    facet_limit(options, i + 1, Some(capped(n as int)), part)
                } else {
                    Err(
                        invalid_query_v(
                            "Unsupported facet option "@ + debug_text(key) + " in "@ + debug_text(
                                part,
                            ) + "; supported options: count:N, top:N."@,
                        ),
                    )
                },
            },
        }
    }
}

/// A facet with a limit for each of the first `n` fields that is facetable.
pub open spec fn every_facet(fields: Seq<FieldV>, n: int, limit: Option<usize>) -> Seq<FacetV>
    decreases n,
{
    if n <= 0 {
        seq![]
    } else {
        let rest = every_facet(fields, n - 1, limit);
        if fields[n - 1].facetable {
            rest.push(FacetV { field: fields[n - 1].name, limit })
        } else {
            rest
        }
    }
}

/// The facets of one entry: a field name, `$count`, or `*` for all facetable
/// fields, with its limit.
pub open spec fn facet_entry(part: Seq<char>, d: IndexV) -> Result<Seq<FacetV>, ApiErrorV> {
    let split = pieces(part, ',');
    let name = trim(split[0]);
    match facet_limit(split.skip(1), 0, None, part) {
        Err(e) => Err(e),
        Ok(limit) => if name == "*"@ {
            Ok(every_facet(d.fields, d.fields.len() as int, limit))
        } else if name == "$count"@ {
            if limit is Some {
                Err(
                    invalid_query_v(
                        "The $count facet does not take options (got "@ + debug_text(part) + ")."@,
                    ),
                )
            } else {
                Ok(seq![FacetV { field: "$count"@, limit: None }])
            }
        } else {
            match field_by_path(d.fields, name) {
                None => Err(
                    invalid_query_v("facets references unknown field "@ + debug_text(name) + "."@),
                ),
                Some(f) => if f.facetable {
                    Ok(seq![FacetV { field: name, limit }])
                } else {
                    Err(
                        invalid_query_v(
                            "Field "@ + debug_text(name)
                                + " is not facetable; mark it \"facetable\": true in the index schema."@,
                        ),
                    )
                },
            }
        },
    }
}

/// The facets of the entries from `i` on, behind those in `done`.
pub open spec fn facets_from(
    entries: Seq<Seq<char>>,
    i: int,
    done: Seq<FacetV>,
    d: IndexV,
) -> Result<Seq<FacetV>, ApiErrorV>
    decreases entries.len() - i,
{
    if i >= entries.len() {
        Ok(done)
    } else {
        match facet_entry(entries[i], d) {
            Err(e) => Err(e),
            Ok(more) => facets_from(entries, i + 1, done + more, d),
        }
    }
}

/// The facets of a `facets` value.
pub open spec fn facets_of(value: JsonV, d: IndexV) -> Result<Seq<FacetV>, ApiErrorV> {
    let entries = match value {
        JsonV::String(text) => Ok(facet_entries(pieces(text, ','), 0, seq![])),
        _ => items_of(value, "facets"@),
    };
    match entries {
        Err(e) => Err(e),
        Ok(entries) => match facets_from(entries, 0, seq![], d) {
            Err(e) => Err(e),
            Ok(facets) => if facets.len() == 0 {
                Err(invalid_query_v("facets is empty."@))
            } else {
                Ok(facets)
            },
        },
    }
}

fn parse_facet_limit(options: &Vec<String>, part: &str) -> (r: Result<Option<usize>, ApiError>)
    requires
        options@.len() > 0,
    ensures
        match r {
            Ok(limit) => facet_limit(texts(options@).skip(1), 0, None, part@) == Ok::<
                _,
                ApiErrorV,
            >(limit),
            Err(e) => facet_limit(texts(options@).skip(1), 0, None, part@) == Err::<
                Option<usize>,
                _,
            >(e@),
        },
{
    let ghost all = texts(options@).skip(1);
    let mut limit: Option<usize> = None;
    let mut i: usize = 1;
    while i < options.len()
        invariant
            all == texts(options@).skip(1),
            1 <= i <= options@.len(),
            facet_limit(all, 0, None, part@) == facet_limit(all, i - 1, limit, part@),
        decreases options@.len() - i,
    {
        assert(all[i - 1] == options@[i as int]@);
        let option = trimmed(options[i].as_str());
        match split_once(option.as_str(), ':') {
            None => {
                return Err(
                    ApiError::invalid_query(
                        cat5(
                            "Invalid facet option ",
                            quoted(option.as_str()).as_str(),
                            " in ",
                            quoted(part).as_str(),
                            "; expected 'count:N' or 'top:N'.",
                        ).as_str(),
                    ),
                );
            },
            Some((key, arg)) => match parse_unsigned(trimmed(arg.as_str()).as_str(), u64::MAX) {
                None => {
                    return Err(
                        ApiError::invalid_query(
                            cat5(
                                "Invalid facet option ",
                                quoted(option.as_str()).as_str(),
                                " in ",
                                quoted(part).as_str(),
                                "; the count must be a non-negative integer.",
                            ).as_str(),
                        ),
                    );
                },
                Some(n) => {
                    if !same_text(key.as_str(), "count") && !same_text(key.as_str(), "top") {
                        return Err(
                            ApiError::invalid_query(
                                cat5(
                                    "Unsupported facet option ",
                                    quoted(key.as_str()).as_str(),
                                    " in ",
                                    quoted(part).as_str(),
                                    "; supported options: count:N, top:N.",
                                ).as_str(),
                            ),
                        );
                    }
                    limit = Some(
                        if n <= usize::MAX as u64 {
                            n as usize
                        } else {
                            usize::MAX
                        },
                    );
                },
            },
        }
        i += 1;
    }
    Ok(limit)
}

/// Parses one facet entry (a field name, `$count`, or `*`, optionally with
/// `,count:N` / `,top:N` limits) against the index schema, putting its facets
/// behind those in `facets`.
pub fn parse_facet_entry(part: &str, definition: &IndexDefinition, facets: &mut Vec<Facet>) -> (r:
    Result<(), ApiError>)
    ensures
        match facet_entry(part@, definition@) {
            Ok(more) => r is Ok && facet_views(final(facets)@) == facet_views(old(facets)@)
                + more,
            Err(e) => r is Err && r->Err_0@ == e && final(facets)@ == old(facets)@,
        },
{
    broadcast use group_types;

    let split = split_on(part, ',');
    assert(texts(split@)[0] == split@[0]@);
    let name = trimmed(split[0].as_str());
    let limit = parse_facet_limit(&split, part)?;
    let ghost start = facet_views(facets@);
    if same_text(name.as_str(), "*") {
        let ghost all = field_views(definition.fields@);
        let mut i: usize = 0;
        assert(start + every_facet(all, 0, limit) =~= start);
        while i < definition.fields.len()
            invariant
                all == field_views(definition.fields@),
                i <= definition.fields@.len(),
                facet_views(facets@) == start + every_facet(all, i as int, limit),
            decreases definition.fields@.len() - i,
        {
            assert(all[i as int] == definition.fields@[i as int]@);
            if definition.fields[i].facetable {
                let ghost before = facet_views(facets@);
                let facet = Facet { field: definition.fields[i].name.clone(), limit };
                facets.push(facet);
                assert(facet_views(facets@) == before.push(facet@));
                assert(facet_views(facets@) =~= start + every_facet(all, i + 1, limit));
            }
            i += 1;
        }
        return Ok(());
    }
    let facet = if same_text(name.as_str(), "$count") {
        if limit.is_some() {
            return Err(
                ApiError::invalid_query(
                    cat3(
                        "The $count facet does not take options (got ",
                        quoted(part).as_str(),
                        ").",
                    ).as_str(),
                ),
            );
        }
        Facet { field: "$count".to_owned(), limit: None }
    } else {
        match definition.field_path(name.as_str()) {
            None => {
                return Err(
                    ApiError::invalid_query(
                        cat3(
                            "facets references unknown field ",
                            quoted(name.as_str()).as_str(),
                            ".",
                        ).as_str(),
                    ),
                );
            },
            Some(f) => {
                if !f.facetable {
                    return Err(
                        ApiError::invalid_query(
                            cat3(
                                "Field ",
                                quoted(name.as_str()).as_str(),
                                " is not facetable; mark it \"facetable\": true in the index schema.",
                            ).as_str(),
                        ),
                    );
                }
            },
        }
        Facet { field: name, limit }
    };
    let ghost one = facet@;
    facets.push(facet);
    assert(facet_views(facets@) == start.push(one));
    assert(start.push(one) =~= start + seq![one]);
    Ok(())
}

/// Parses a `facets` value: comma-separated entries (or a JSON array). Each
/// entry is a field name, the special `$count`, or `*` (all facetable fields),
/// optionally followed by `,count:N` (or `,top:N`) to limit the number of
/// returned facet values. Named fields must exist and be marked `facetable`.
pub fn parse_facets(value: &Json, definition: &IndexDefinition) -> (r: Result<
    Vec<Facet>,
    ApiError,
>)
    ensures
        match r {
            Ok(v) => facets_of(value@, definition@) == Ok::<_, ApiErrorV>(facet_views(v@)),
            Err(e) => facets_of(value@, definition@) == Err::<Seq<FacetV>, _>(e@),
        },
{
    broadcast use group_types;

    let entries = match value {
        Json::String(text) => split_facet_string(text.as_str()),
        _ => string_items(value, "facets")?,
    };
    let ghost all = texts(entries@);
    let mut facets: Vec<Facet> = Vec::new();
    let mut i: usize = 0;
    assert(facet_views(facets@) =~= seq![]);
    while i < entries.len()
        invariant
            all == texts(entries@),
            i <= entries@.len(),
            facets_of(value@, definition@) == (match facets_from(
                all,
                i as int,
                facet_views(facets@),
                definition@,
            ) {
                Err(e) => Err(e),
                Ok(list) => if list.len() == 0 {
                    Err(invalid_query_v("facets is empty."@))
                } else {
                    Ok(list)
                },
            }),
        decreases entries@.len() - i,
    {
        assert(all[i as int] == entries@[i as int]@);
        parse_facet_entry(entries[i].as_str(), definition, &mut facets)?;
        i += 1;
    }
    if facets.len() == 0 {
        return Err(ApiError::invalid_query("facets is empty."));
    }
    Ok(facets)
}

// ---------------------------------------------------------------------------
// Search mode and paging
// ---------------------------------------------------------------------------

pub open spec fn search_mode_option(m: Seq<(Seq<char>, JsonV)>) -> Result<SearchMode, ApiErrorV> {
    match member_or(m, "searchMode"@, "search_mode"@) {
        None => Ok(SearchMode::Any),
        Some(JsonV::Null) => Ok(SearchMode::Any),
        Some(JsonV::String(mode)) => match search_mode_of(mode) {
            Ok(mode) => Ok(mode),
            Err(e) => Err(invalid_query_v(e)),
        },
        Some(_) => Err(invalid_query_v("searchMode must be 'all' or 'any'."@)),
    }
}

/// Parses the `searchMode` option (`search_mode` SDK alias accepted): `any`
/// (OR, the default) or `all` (AND).
pub fn parse_search_mode(obj: &JsonMap) -> (r: Result<SearchMode, ApiError>)
    ensures
        match r {
            Ok(m) => search_mode_option(obj@) == Ok::<_, ApiErrorV>(m),
            Err(e) => search_mode_option(obj@) == Err::<SearchMode, _>(e@),
        },
{
    match obj.get_or("searchMode", "search_mode") {
        None => Ok(SearchMode::Any),
        Some(Json::Null) => Ok(SearchMode::Any),
        Some(Json::String(mode)) => match SearchMode::parse(mode.as_str()) {
            Ok(m) => Ok(m),
            Err(e) => Err(ApiError::invalid_query(e.as_str())),
        },
        Some(_) => Err(ApiError::invalid_query("searchMode must be 'all' or 'any'.")),
    }
}

/// The `count`, `top` and `skip` options.
pub open spec fn paging_of(m: Seq<(Seq<char>, JsonV)>) -> Result<
    (bool, Option<u64>, u64),
    ApiErrorV,
> {
    let count = flag(m, "count"@, false);
    let top = member(m, "top"@);
    let skip = member(m, "skip"@);
    if top is Some && u64_of(top->Some_0) is None {
        Err(invalid_query_v("\"top\" must be a non-negative integer."@))
    } else if skip is Some && u64_of(skip->Some_0) is None {
        Err(invalid_query_v("\"skip\" must be a non-negative integer."@))
    } else {
        Ok(
            (
                count,
                match top {
                    Some(v) => u64_of(v),
                    None => None,
                },
                match skip {
                    Some(v) => u64_of(v)->Some_0,
                    None => 0,
                },
            ),
        )
    }
}

/// Parses the `count`/`top`/`skip` paging options: `top`/`skip` must be
/// non-negative integers when present.
pub fn parse_paging_options(obj: &JsonMap) -> (r: Result<(bool, Option<u64>, u64), ApiError>)
    ensures
        match r {
            Ok(p) => paging_of(obj@) == Ok::<_, ApiErrorV>(p),
            Err(e) => paging_of(obj@) == Err::<(bool, Option<u64>, u64), _>(e@),
        },
{
    let count = match member_bool(obj.get("count")) {
        Some(b) => b,
        None => false,
    };
    let top = match obj.get("top") {
        None => None,
        Some(value) => match value.as_u64() {
            Some(n) => Some(n),
            None => {
                return Err(ApiError::invalid_query("\"top\" must be a non-negative integer."));
            },
        },
    };
    let skip = match obj.get("skip") {
        None => 0,
        Some(value) => match value.as_u64() {
            Some(n) => n,
            None => {
                return Err(ApiError::invalid_query("\"skip\" must be a non-negative integer."));
            },
        },
    };
    Ok((count, top, skip))
}

// ---------------------------------------------------------------------------
// Search fields
// ---------------------------------------------------------------------------

/// The rank of the binary64 number that equals the binary32 number nearest to
/// what a text writes.
pub uninterp spec fn weight_rank(text: Seq<char>) -> Option<u64>;

/// `str::parse` to `tantivy::Score`, a binary32 number, by its binary64 rank.
#[verifier::external_body]
fn parse_weight(text: &str) -> (r: Option<u64>)
    ensures
        r == weight_rank(text@),
{
    match text.parse::<tantivy::Score>() {
        Ok(weight) => Some(tantivy::f64_to_u64(weight.into())),
        Err(_) => None,
    }
}

/// Whether a binary64 number is finite and positive.
pub open spec fn is_positive_rank(rank: u64) -> bool {
    0x8000_0000_0000_0000 < rank < 0xFFF0_0000_0000_0000
}

/// Whether a weight is usable: a finite positive number.
pub fn is_finite_positive(rank: u64) -> (r: bool)
    ensures
        r == is_positive_rank(rank),
{
    0x8000_0000_0000_0000 < rank && rank < 0xFFF0_0000_0000_0000
}

/// The weight of a search field item: behind `^`, or one.
pub open spec fn item_weight(part: Seq<char>) -> Result<u64, ApiErrorV> {
    match cut_once(part, '^') {
        None => Ok(ONE_RANK),
        Some((_, raw)) => match weight_rank(trim(raw)) {
            None => Err(
                invalid_query_v(
                    "Invalid searchFields weight in "@ + debug_text(part)
                        + "; expected a positive number (e.g. 'field^2')."@,
                ),
            ),
            Some(rank) => if is_positive_rank(rank) {
                Ok(rank)
            } else {
                Err(
                    invalid_query_v(
                        "Invalid searchFields weight in "@ + debug_text(part)
                            + "; expected a finite positive number."@,
                    ),
                )
            },
        },
    }
}

pub open spec fn item_name(part: Seq<char>) -> Seq<char> {
    match cut_once(part, '^') {
        None => trim(part),
        Some((name, _)) => trim(name),
    }
}

pub open spec fn search_field_of(part: Seq<char>, d: IndexV) -> Result<SearchFieldV, ApiErrorV> {
    let name = item_name(part);
    match item_weight(part) {
        Err(e) => Err(e),
        Ok(boost) => match field_by_path(d.fields, name) {
            None => Err(
                invalid_query_v(
                    "searchFields references unknown field "@ + debug_text(name) + "."@,
                ),
            ),
            Some(f) => if !f.searchable {
                Err(
                    invalid_query_v(
                        "Field "@ + debug_text(name)
                            + " is not searchable; mark it \"searchable\": true in the index schema."@,
                    ),
                )
            } else if f.vector() {
                Err(
                    invalid_query_v(
                        "Field "@ + debug_text(name)
                            + " is a vector field and cannot be used in searchFields."@,
                    ),
                )
            } else {
                Ok(SearchFieldV { name, boost })
            },
        },
    }
}

pub open spec fn search_fields_from(
    parts: Seq<Seq<char>>,
    i: int,
    done: Seq<SearchFieldV>,
    d: IndexV,
) -> Result<Seq<SearchFieldV>, ApiErrorV>
    decreases parts.len() - i,
{
    if i >= parts.len() {
        Ok(done)
    } else {
        match search_field_of(parts[i], d) {
            Err(e) => Err(e),
            Ok(f) => search_fields_from(parts, i + 1, done.push(f), d),
        }
    }
}

/// The fields of a `searchFields` value.
pub open spec fn search_fields_of(value: JsonV, d: IndexV) -> Result<
    Seq<SearchFieldV>,
    ApiErrorV,
> {
    match items_of(value, "searchFields"@) {
        Err(e) => Err(e),
        Ok(parts) => match search_fields_from(parts, 0, seq![], d) {
            Err(e) => Err(e),
            Ok(fields) => if fields.len() == 0 {
                Err(invalid_query_v("searchFields is empty."@))
            } else {
                Ok(fields)
            },
        },
    }
}

fn parse_search_field(part: &str, definition: &IndexDefinition) -> (r: Result<
    SearchField,
    ApiError,
>)
    ensures
        match r {
            Ok(f) => search_field_of(part@, definition@) == Ok::<_, ApiErrorV>(f@),
            Err(e) => search_field_of(part@, definition@) == Err::<SearchFieldV, _>(e@),
        },
{
    let (name, boost) = match split_once(part, '^') {
        None => (trimmed(part), ONE_RANK),
        Some((name, raw)) => match parse_weight(trimmed(raw.as_str()).as_str()) {
            None => {
                return Err(
                    ApiError::invalid_query(
                        cat3(
                            "Invalid searchFields weight in ",
                            quoted(part).as_str(),
                            "; expected a positive number (e.g. 'field^2').",
                        ).as_str(),
                    ),
                );
            },
            Some(rank) => {
                if !is_finite_positive(rank) {
                    return Err(
                        ApiError::invalid_query(
                            cat3(
                                "Invalid searchFields weight in ",
                                quoted(part).as_str(),
                                "; expected a finite positive number.",
                            ).as_str(),
                        ),
                    );
                }
                (trimmed(name.as_str()), rank)
            },
        },
    };
    let shown_name = quoted(name.as_str());
    match definition.field_path(name.as_str()) {
        None => Err(
            ApiError::invalid_query(
                cat3(
                    "searchFields references unknown field ",
                    shown_name.as_str(),
                    ".",
                ).as_str(),
            ),
        ),
        Some(f) => {
            if !f.searchable {
                Err(
                    ApiError::invalid_query(
                        cat3(
                            "Field ",
                            shown_name.as_str(),
                            " is not searchable; mark it \"searchable\": true in the index schema.",
                        ).as_str(),
                    ),
                )
            } else if f.is_vector_field() {
                Err(
                    ApiError::invalid_query(
                        cat3(
                            "Field ",
                            shown_name.as_str(),
                            " is a vector field and cannot be used in searchFields.",
                        ).as_str(),
                    ),
                )
            } else {
                Ok(SearchField { name, boost })
            }
        },
    }
}

/// Parses a `searchFields` value: comma-separated field names (or a JSON
/// array), optionally weighted (`field^2`). Fields must exist and be marked
/// `searchable`. Weights must be finite positive numbers and scale the
/// field's contribution to `@search.score`.
pub fn parse_search_fields(value: &Json, definition: &IndexDefinition) -> (r: Result<
    Vec<SearchField>,
    ApiError,
>)
    ensures
        match r {
            Ok(v) => search_fields_of(value@, definition@) == Ok::<_, ApiErrorV>(
                search_field_views(v@),
            ),
            Err(e) => search_fields_of(value@, definition@) == Err::<Seq<SearchFieldV>, _>(e@),
        },
{
    broadcast use group_types;

    let parts = string_items(value, "searchFields")?;
    let ghost all = texts(parts@);
    let mut fields: Vec<SearchField> = Vec::new();
    let mut i: usize = 0;
    assert(search_field_views(fields@) =~= seq![]);
    while i < parts.len()
        invariant
            all == texts(parts@),
            items_of(value@, "searchFields"@) == Ok::<_, ApiErrorV>(all),
            i <= parts@.len(),
            search_fields_from(all, 0, seq![], definition@) == search_fields_from(
                all,
                i as int,
                search_field_views(fields@),
                definition@,
            ),
        decreases parts@.len() - i,
    {
        assert(all[i as int] == parts@[i as int]@);
        let field = parse_search_field(parts[i].as_str(), definition)?;
        let ghost before = search_field_views(fields@);
        fields.push(field);
        assert(search_field_views(fields@) == before.push(field@));
        i += 1;
    }
    if fields.len() == 0 {
        return Err(ApiError::invalid_query("searchFields is empty."));
    }
    Ok(fields)
}

// ---------------------------------------------------------------------------
// Suggest and autocomplete
// ---------------------------------------------------------------------------

pub open spec fn suggester_field_problem(
    part: Seq<char>,
    d: IndexV,
    suggester: SuggesterV,
) -> Option<Seq<char>> {
    if has_part(part, seq!['^']) {
        Some(
            "Invalid searchFields entry "@ + debug_text(part)
                + " on suggest/autocomplete; weights ('field^N') are only supported on the search route."@,
        )
    } else {
        match field_by_path(d.fields, part) {
            None => Some("searchFields references unknown field "@ + debug_text(part) + "."@),
            Some(f) => if !f.searchable {
                Some(
                    "Field "@ + debug_text(part)
                        + " is not searchable; only searchable fields can be used in searchFields."@,
                )
            } else if !suggester.search_fields.contains(part) {
                Some(
                    "Field "@ + debug_text(part)
                        + " is not part of the suggester; searchFields must be a subset of the suggester's search fields."@,
                )
            } else {
                None
            },
        }
    }
}

pub open spec fn suggester_fields_check(
    parts: Seq<Seq<char>>,
    i: int,
    d: IndexV,
    suggester: SuggesterV,
) -> Option<Seq<char>>
    decreases parts.len() - i,
{
    if i >= parts.len() {
        None
    } else {
        match suggester_field_problem(parts[i], d, suggester) {
            Some(e) => Some(e),
            None => suggester_fields_check(parts, i + 1, d, suggester),
        }
    }
}

/// The fields of a `searchFields` value on the suggest and autocomplete routes.
pub open spec fn suggester_search_fields_of(
    value: Option<JsonV>,
    d: IndexV,
    suggester: SuggesterV,
) -> Result<Option<Seq<Seq<char>>>, ApiErrorV> {
    match value {
        None => Ok(None),
        Some(value) => match items_of(value, "searchFields"@) {
            Err(e) => Err(e),
            Ok(parts) => match suggester_fields_check(parts, 0, d, suggester) {
                Some(e) => Err(invalid_query_v(e)),
                None => if parts.len() == 0 {
                    Err(invalid_query_v("searchFields is empty."@))
                } else {
                    Ok(Some(parts))
                },
            },
        },
    }
}

fn check_suggester_field(part: &str, definition: &IndexDefinition, suggester: &Suggester) -> (r:
    Option<String>)
    ensures
        opt_text(r) == suggester_field_problem(part@, definition@, suggester@),
{
    let mut caret = String::new();
    caret.push('^');
    assert(caret@ =~= seq!['^']);
    if contains_text(part, caret.as_str()) {
        return Some(
            cat3(
                "Invalid searchFields entry ",
                quoted(part).as_str(),
                " on suggest/autocomplete; weights ('field^N') are only supported on the search route.",
            ),
        );
    }
    match definition.field_path(part) {
        None => Some(
            cat3("searchFields references unknown field ", quoted(part).as_str(), "."),
        ),
        Some(f) => {
            if !f.searchable {
                Some(
                    cat3(
                        "Field ",
                        quoted(part).as_str(),
                        " is not searchable; only searchable fields can be used in searchFields.",
                    ),
                )
            } else if !holds_text(&suggester.search_fields, part) {
                Some(
                    cat3(
                        "Field ",
                        quoted(part).as_str(),
                        " is not part of the suggester; searchFields must be a subset of the suggester's search fields.",
                    ),
                )
            } else {
                None
            }
        },
    }
}

/// Parses `searchFields` for the suggest/autocomplete routes: each entry must
/// be a searchable field of the index (weights are not supported here; a
/// `field^N` entry is rejected) and must belong to the suggester's configured
/// fields. Returns `None` when absent (all of the suggester's fields apply).
#[verifier::loop_isolation(false)]
pub fn parse_suggester_search_fields(
    value: Option<&Json>,
    definition: &IndexDefinition,
    suggester: &Suggester,
) -> (r: Result<Option<Vec<String>>, ApiError>)
    ensures
        match r {
            Ok(o) => suggester_search_fields_of(opt_value(value), definition@, suggester@) == Ok::<
                _,
                ApiErrorV,
            >(opt_texts(o)),
            Err(e) => suggester_search_fields_of(opt_value(value), definition@, suggester@)
                == Err::<Option<Seq<Seq<char>>>, _>(e@),
        },
{
    let value = match value {
        Some(value) => value,
        None => {
            return Ok(None);
        },
    };
    let parts = string_items(value, "searchFields")?;
    let ghost all = texts(parts@);
    let mut i: usize = 0;
    while i < parts.len()
        invariant
            all == texts(parts@),
            items_of(value@, "searchFields"@) == Ok::<_, ApiErrorV>(all),
            i <= parts@.len(),
            suggester_fields_check(all, 0, definition@, suggester@) == suggester_fields_check(
                all,
                i as int,
                definition@,
                suggester@,
            ),
        decreases parts@.len() - i,
    {
        assert(all[i as int] == parts@[i as int]@);
        if let Some(m) = check_suggester_field(parts[i].as_str(), definition, suggester) {
            return Err(ApiError::invalid_query(m.as_str()));
        }
        i += 1;
    }
    if parts.len() == 0 {
        return Err(ApiError::invalid_query("searchFields is empty."));
    }
    Ok(Some(parts))
}

pub open spec fn orders_by_score(clauses: Seq<OrderByV>) -> bool {
    exists|i: int| 0 <= i < clauses.len() && (#[trigger] clauses[i]).field == "@search.score"@
}

/// The `orderby` clauses on the suggest and autocomplete routes, which have no
/// score to order by.
pub open spec fn suggester_orderby_of(value: Option<JsonV>, d: IndexV) -> Result<
    Seq<OrderByV>,
    ApiErrorV,
> {
    match value {
        None => Ok(seq![]),
        Some(value) => match orderby_of(value, d) {
            Err(e) => Err(e),
            Ok((clauses, _)) => if orders_by_score(clauses) {
                Err(
                    invalid_query_v(
                        "orderby references \"@search.score\", which is not available on the suggest/autocomplete routes."@,
                    ),
                )
            } else {
                Ok(clauses)
            },
        },
    }
}

/// Parses `orderby` for the suggest/autocomplete routes: same validation as
/// the search route (fields must exist and be `sortable`), except the
/// pseudo-field `@search.score` is rejected (these routes compute no score).
#[verifier::loop_isolation(false)]
pub fn parse_suggester_orderby(value: Option<&Json>, definition: &IndexDefinition) -> (r: Result<
    Vec<OrderBy>,
    ApiError,
>)
    ensures
        match r {
            Ok(v) => suggester_orderby_of(opt_value(value), definition@) == Ok::<_, ApiErrorV>(
                order_views(v@),
            ),
            Err(e) => suggester_orderby_of(opt_value(value), definition@) == Err::<
                Seq<OrderByV>,
                _,
            >(e@),
        },
{
    let value = match value {
        Some(value) => value,
        None => {
            let none: Vec<OrderBy> = Vec::new();
            assert(order_views(none@) =~= seq![]);
            return Ok(none);
        },
    };
    let (clauses, _) = parse_orderby(value, definition)?;
    let ghost all = order_views(clauses@);
    let mut i: usize = 0;
    while i < clauses.len()
        invariant
            all == order_views(clauses@),
            orderby_of(value@, definition@) is Ok,
            orderby_of(value@, definition@)->Ok_0.0 == all,
            i <= clauses@.len(),
            forall|k: int| 0 <= k < i ==> (#[trigger] all[k]).field != "@search.score"@,
        decreases clauses@.len() - i,
    {
        assert(all[i as int] == clauses@[i as int]@);
        if same_text(clauses[i].field.as_str(), "@search.score") {
            return Err(
                ApiError::invalid_query(
                    "orderby references \"@search.score\", which is not available on the suggest/autocomplete routes.",
                ),
            );
        }
        i += 1;
    }
    Ok(clauses)
}

pub open spec fn fuzzy_of(value: Option<JsonV>) -> Result<bool, ApiErrorV> {
    match value {
        None => Ok(false),
        Some(JsonV::Null) => Ok(false),
        Some(JsonV::Bool(b)) => Ok(b),
        Some(_) => Err(invalid_query_v("fuzzy must be a boolean."@)),
    }
}

/// Parses the `fuzzy` flag for the suggest/autocomplete routes: a boolean
/// enabling 1-edit typo-tolerant matching. Absent means exact matching.
pub fn parse_suggester_fuzzy(value: Option<&Json>) -> (r: Result<bool, ApiError>)
    ensures
        match r {
            Ok(b) => fuzzy_of(opt_value(value)) == Ok::<_, ApiErrorV>(b),
            Err(e) => fuzzy_of(opt_value(value)) == Err::<bool, _>(e@),
        },
{
    match value {
        None => Ok(false),
        Some(Json::Null) => Ok(false),
        Some(Json::Bool(b)) => Ok(*b),
        Some(_) => Err(ApiError::invalid_query("fuzzy must be a boolean.")),
    }
}

pub open spec fn coverage_check(value: Option<JsonV>) -> Result<(), ApiErrorV> {
    match value {
        None => Ok(()),
        Some(JsonV::Null) => Ok(()),
        Some(JsonV::Number(_)) => Ok(()),
        Some(_) => Err(invalid_query_v("minimumCoverage must be a number."@)),
    }
}

/// Validates `minimumCoverage` on the suggest/autocomplete routes: it must be
/// a number when present, and is otherwise ignored (prefix/infix matching is
/// not coverage-based).
pub fn validate_suggester_minimum_coverage(value: Option<&Json>) -> (r: Result<(), ApiError>)
    ensures
        unit_result(r) == coverage_check(opt_value(value)),
{
    match value {
        None => Ok(()),
        Some(Json::Null) => Ok(()),
        Some(Json::Number(_)) => Ok(()),
        Some(_) => Err(ApiError::invalid_query("minimumCoverage must be a number.")),
    }
}

// ---------------------------------------------------------------------------
// Highlights, coverage, debug
// ---------------------------------------------------------------------------

pub open spec fn highlight_fields_check(parts: Seq<Seq<char>>, i: int, d: IndexV) -> Option<
    Seq<char>,
>
    decreases parts.len() - i,
{
    if i >= parts.len() {
        None
    } else {
        match field_by_path(d.fields, parts[i]) {
            None => Some("highlight references unknown field "@ + debug_text(parts[i]) + "."@),
            Some(f) => if f.searchable {
                highlight_fields_check(parts, i + 1, d)
            } else {
                Some(
                    "Field "@ + debug_text(parts[i])
                        + " is not searchable; only searchable fields can be highlighted."@,
                )
            },
        }
    }
}

pub open spec fn highlight_fields_of(value: Option<JsonV>, d: IndexV) -> Result<
    Seq<Seq<char>>,
    ApiErrorV,
> {
    match value {
        None => Ok(seq![]),
        Some(JsonV::Null) => Ok(seq![]),
        Some(value) => match items_of(value, "highlight"@) {
            Err(e) => Err(e),
            Ok(parts) => match highlight_fields_check(parts, 0, d) {
                Some(e) => Err(invalid_query_v(e)),
                None => if parts.len() == 0 {
                    Err(invalid_query_v("highlight is empty."@))
                } else {
                    Ok(parts)
                },
            },
        },
    }
}

pub open spec fn tag_of(m: Seq<(Seq<char>, JsonV)>, key: Seq<char>, default: Seq<char>) -> Result<
    Seq<char>,
    ApiErrorV,
> {
    match member(m, key) {
        None => Ok(default),
        Some(JsonV::Null) => Ok(default),
        Some(JsonV::String(tag)) => Ok(tag),
        Some(_) => Err(invalid_query_v(key + " must be a string."@)),
    }
}

/// The highlight fields and the two tags.
pub open spec fn highlight_of(m: Seq<(Seq<char>, JsonV)>, d: IndexV) -> Result<
    (Seq<Seq<char>>, Seq<char>, Seq<char>),
    ApiErrorV,
> {
    match highlight_fields_of(member(m, "highlight"@), d) {
        Err(e) => Err(e),
        Ok(fields) => match tag_of(m, "highlightPreTag"@, "<em>"@) {
            Err(e) => Err(e),
            Ok(pre) => match tag_of(m, "highlightPostTag"@, "</em>"@) {
                Err(e) => Err(e),
                Ok(post) => Ok((fields, pre, post)),
            },
        },
    }
}

#[verifier::loop_isolation(false)]
fn parse_highlight_fields(value: Option<&Json>, definition: &IndexDefinition) -> (r: Result<
    Vec<String>,
    ApiError,
>)
    ensures
        texts_result(r) == highlight_fields_of(opt_value(value), definition@),
{
    let value = match value {
        None => {
            let none: Vec<String> = Vec::new();
            assert(texts(none@) =~= seq![]);
            return Ok(none);
        },
        Some(Json::Null) => {
            let none: Vec<String> = Vec::new();
            assert(texts(none@) =~= seq![]);
            return Ok(none);
        },
        Some(value) => value,
    };
    let parts = string_items(value, "highlight")?;
    let ghost all = texts(parts@);
    let mut i: usize = 0;
    while i < parts.len()
        invariant
            all == texts(parts@),
            value@ != JsonV::Null,
            items_of(value@, "highlight"@) == Ok::<_, ApiErrorV>(all),
            i <= parts@.len(),
            highlight_fields_check(all, 0, definition@) == highlight_fields_check(
                all,
                i as int,
                definition@,
            ),
        decreases parts@.len() - i,
    {
        assert(all[i as int] == parts@[i as int]@);
        let part = parts[i].as_str();
        match definition.field_path(part) {
            None => {
                return Err(
                    ApiError::invalid_query(
                        cat3(
                            "highlight references unknown field ",
                            quoted(part).as_str(),
                            ".",
                        ).as_str(),
                    ),
                );
            },
            Some(f) => {
                if !f.searchable {
                    return Err(
                        ApiError::invalid_query(
                            cat3(
                                "Field ",
                                quoted(part).as_str(),
                                " is not searchable; only searchable fields can be highlighted.",
                            ).as_str(),
                        ),
                    );
                }
            },
        }
        i += 1;
    }
    if parts.len() == 0 {
        return Err(ApiError::invalid_query("highlight is empty."));
    }
    Ok(parts)
}

fn parse_tag(obj: &JsonMap, key: &str, default: &str) -> (r: Result<String, ApiError>)
    ensures
        match r {
            Ok(t) => tag_of(obj@, key@, default@) == Ok::<_, ApiErrorV>(t@),
            Err(e) => tag_of(obj@, key@, default@) == Err::<Seq<char>, _>(e@),
        },
{
    match obj.get(key) {
        None => Ok(default.to_owned()),
        Some(Json::Null) => Ok(default.to_owned()),
        Some(Json::String(tag)) => Ok(tag.clone()),
        Some(_) => Err(ApiError::invalid_query(cat2(key, " must be a string.").as_str())),
    }
}

/// Parses the `highlight` / `highlightPreTag` / `highlightPostTag` options.
/// Highlight fields must exist and be marked `searchable`. Tags default to
/// `<em>` / `</em>`.
pub fn parse_highlight_options(obj: &JsonMap, definition: &IndexDefinition) -> (r: Result<
    (Vec<String>, String, String),
    ApiError,
>)
    ensures
        match r {
            Ok((fields, pre, post)) => highlight_of(obj@, definition@) == Ok::<_, ApiErrorV>(
                (texts(fields@), pre@, post@),
            ),
            Err(e) => highlight_of(obj@, definition@) == Err::<
                (Seq<Seq<char>>, Seq<char>, Seq<char>),
                _,
            >(e@),
        },
{
    let fields = parse_highlight_fields(obj.get("highlight"), definition)?;
    let pre = parse_tag(obj, "highlightPreTag", "<em>")?;
    let post = parse_tag(obj, "highlightPostTag", "</em>")?;
    Ok((fields, pre, post))
}

/// The `minimumCoverage` option: a number from zero to one, by its rank.
pub open spec fn minimum_coverage_of(m: Seq<(Seq<char>, JsonV)>) -> Result<u64, ApiErrorV> {
    match member(m, "minimumCoverage"@) {
        None => Ok(ZERO_RANK),
        Some(JsonV::Null) => Ok(ZERO_RANK),
        Some(JsonV::Number(n)) => {
            let rank = n.rank_spec();
            if (rank_lt(ZERO_RANK, rank) || rank_eq(ZERO_RANK, rank)) && (rank_lt(
                rank,
                ONE_RANK,
            ) || rank_eq(rank, ONE_RANK)) {
                Ok(rank)
            } else {
                Err(invalid_query_v("minimumCoverage must be between 0.0 and 1.0."@))
            }
        },
        Some(_) => Err(invalid_query_v("minimumCoverage must be a number."@)),
    }
}

/// Parses the `minimumCoverage` option: a number from zero to one (default
/// zero), given by its binary64 rank.
pub fn parse_minimum_coverage(obj: &JsonMap) -> (r: Result<u64, ApiError>)
    ensures
        match r {
            Ok(v) => minimum_coverage_of(obj@) == Ok::<_, ApiErrorV>(v),
            Err(e) => minimum_coverage_of(obj@) == Err::<u64, _>(e@),
        },
{
    match obj.get("minimumCoverage") {
        None => Ok(ZERO_RANK),
        Some(Json::Null) => Ok(ZERO_RANK),
        Some(Json::Number(n)) => {
            let rank = n.rank();
            if (ranks_less(ZERO_RANK, rank) || ranks_equal(ZERO_RANK, rank)) && (ranks_less(
                rank,
                ONE_RANK,
            ) || ranks_equal(rank, ONE_RANK)) {
                Ok(rank)
            } else {
                Err(ApiError::invalid_query("minimumCoverage must be between 0.0 and 1.0."))
            }
        },
        Some(_) => Err(ApiError::invalid_query("minimumCoverage must be a number.")),
    }
}

pub open spec fn debug_of(m: Seq<(Seq<char>, JsonV)>) -> Result<bool, ApiErrorV> {
    match member(m, "debug"@) {
        None => Ok(false),
        Some(JsonV::Null) => Ok(false),
        Some(JsonV::Bool(b)) => Ok(b),
        Some(JsonV::String(mode)) => Ok(mode != "disabled"@),
        Some(_) => Err(invalid_query_v("debug must be a boolean or a string."@)),
    }
}

/// Parses the `debug` option. The SDK wire format is a string (`disabled`,
/// `semantic`, `vector`, `queryRewrites`, `innerHits`, `all`, or
/// pipe-combinations); a boolean is also accepted. Debug is enabled for `true`
/// or any string other than `disabled`.
pub fn parse_debug(obj: &JsonMap) -> (r: Result<bool, ApiError>)
    ensures
        match r {
            Ok(b) => debug_of(obj@) == Ok::<_, ApiErrorV>(b),
            Err(e) => debug_of(obj@) == Err::<bool, _>(e@),
        },
{
    match obj.get("debug") {
        None => Ok(false),
        Some(Json::Null) => Ok(false),
        Some(Json::Bool(b)) => Ok(*b),
        Some(Json::String(mode)) => Ok(!same_text(mode.as_str(), "disabled")),
        Some(_) => Err(ApiError::invalid_query("debug must be a boolean or a string.")),
    }
}

/// A page size that is written comes back as it is, and without one there is no
/// limit.
pub proof fn law_paging_options(m: Seq<(Seq<char>, JsonV)>, top: u64, skip: u64)
    requires
        member(m, "top"@) == Some(JsonV::Number(Number::PosInt(top))),
        member(m, "skip"@) == Some(JsonV::Number(Number::PosInt(skip))),
    ensures
        paging_of(m) is Ok,
        paging_of(m)->Ok_0.1 == Some(top),
        paging_of(m)->Ok_0.2 == skip,
{
}

} // verus!
