//! What a filter expression says of a document.
use crate::filter::date::date_operand_value;
use crate::filter::expr::{
    FilterExpr, FilterExprV, FilterOp, FilterValue, FilterValueV, StringFunc, expr_views,
    filter_values, group_filter, reversed,
};
use crate::json::{
    Json, JsonMap, JsonV, Number, group_json, member, member_array, rank_eq, rank_lt, ranks_equal,
    ranks_less, ref_values, values,
};
use crate::storage::document::{path_values, resolve_field_path};
use crate::text::{
    contains_text, cut_once, ends_with, has_part, lemma_text_less_irreflexive,
    lemma_text_less_total, lowercase, same_text, split_once, starts_with, text_before, text_less,
    to_lowercase,
};
use vstd::prelude::*;

verus! {

/// Resolved path values, one level flattened: a single collection field
/// becomes its elements; anything else stays as it is.
pub open spec fn flattened(values: Seq<JsonV>) -> Seq<JsonV> {
    if values.len() == 1 {
        match values[0] {
            JsonV::Array(items) => items,
            _ => values,
        }
    } else {
        values
    }
}

pub(crate) fn flatten_values<'a>(found: &Vec<&'a Json>) -> (r: Vec<&'a Json>)
    ensures
        ref_values(r@) == flattened(ref_values(found@)),
{
    broadcast use group_json;

    let mut out: Vec<&'a Json> = Vec::new();
    let mut i: usize = 0;
    if found.len() == 1 {
        assert(ref_values(found@)[0] == found@[0]@);
        let only: &'a Json = found[0];
        if let Json::Array(items) = only {
            while i < items.len()
                invariant
                    i <= items@.len(),
                    ref_values(out@) == values(items@).take(i as int),
                decreases items@.len() - i,
            {
                let ghost before = out@;
                out.push(&items[i]);
                assert(ref_values(out@) == ref_values(before).push(items@[i as int]@));
                i += 1;
                assert(ref_values(out@) =~= values(items@).take(i as int));
            }
            assert(values(items@).take(items@.len() as int) =~= values(items@));
            return out;
        }
    }
    while i < found.len()
        invariant
            i <= found@.len(),
            ref_values(out@) == ref_values(found@).take(i as int),
        decreases found@.len() - i,
    {
        let ghost before = out@;
        out.push(found[i]);
        assert(ref_values(out@) == ref_values(before).push(found@[i as int]@));
        i += 1;
        assert(ref_values(out@) =~= ref_values(found@).take(i as int));
    }
    assert(ref_values(found@).take(found@.len() as int) =~= ref_values(found@));
    out
}

// ---------------------------------------------------------------------------
// Comparisons
// ---------------------------------------------------------------------------

/// What an operator says of two things of which it is known whether they are
/// equal and whether the first is less than the second or greater.
pub open spec fn op_holds(op: FilterOp, equal: bool, less: bool, greater: bool) -> bool {
    match op {
        FilterOp::Eq => equal,
        FilterOp::Ne => !equal,
        FilterOp::Gt => greater,
        FilterOp::Ge => greater || equal,
        FilterOp::Lt => less,
        FilterOp::Le => less || equal,
    }
}

pub open spec fn text_op(op: FilterOp, a: Seq<char>, b: Seq<char>) -> bool {
    op_holds(op, a == b, text_less(a, b), text_less(b, a))
}

pub open spec fn rank_op(op: FilterOp, a: u64, b: u64) -> bool {
    op_holds(op, rank_eq(a, b), rank_lt(a, b), rank_lt(b, a))
}

fn compare_texts(op: FilterOp, a: &str, b: &str) -> (r: bool)
    ensures
        r == text_op(op, a@, b@),
{
    match op {
        FilterOp::Eq => same_text(a, b),
        FilterOp::Ne => !same_text(a, b),
        FilterOp::Gt => text_before(b, a),
        FilterOp::Ge => text_before(b, a) || same_text(a, b),
        FilterOp::Lt => text_before(a, b),
        FilterOp::Le => text_before(a, b) || same_text(a, b),
    }
}

fn compare_ranks(op: FilterOp, a: u64, b: u64) -> (r: bool)
    ensures
        r == rank_op(op, a, b),
{
    match op {
        FilterOp::Eq => ranks_equal(a, b),
        FilterOp::Ne => !ranks_equal(a, b),
        FilterOp::Gt => ranks_less(b, a),
        FilterOp::Ge => ranks_less(b, a) || ranks_equal(a, b),
        FilterOp::Lt => ranks_less(a, b),
        FilterOp::Le => ranks_less(a, b) || ranks_equal(a, b),
    }
}

/// Whether a `null` (or missing) value satisfies a comparison.
pub open spec fn null_satisfies(op: FilterOp, expected: FilterValueV) -> bool {
    match op {
        FilterOp::Eq => expected is Null,
        FilterOp::Ne => !(expected is Null),
        _ => false,
    }
}

fn null_matches(op: FilterOp, value: &FilterValue) -> (r: bool)
    ensures
        r == null_satisfies(op, value@),
{
    match op {
        FilterOp::Eq => value_is_null(value),
        FilterOp::Ne => !value_is_null(value),
        _ => false,
    }
}

fn value_is_null(value: &FilterValue) -> (r: bool)
    ensures
        r == (value@ is Null),
{
    matches!(value, FilterValue::Null)
}

/// Whether a value that is present and not `null` satisfies a comparison:
/// values of another type than the literal never do.
pub open spec fn value_satisfies(actual: JsonV, op: FilterOp, expected: FilterValueV) -> bool {
    match (expected, actual) {
        (FilterValueV::Null, _) => op is Ne,
        (FilterValueV::String(text), JsonV::String(s)) => text_op(op, s, text),
        (FilterValueV::Number(n), JsonV::Number(m)) => rank_op(op, m.rank_spec(), n),
        (FilterValueV::Bool(flag), JsonV::Bool(b)) => match op {
            FilterOp::Eq => b == flag,
            FilterOp::Ne => b != flag,
            _ => false,
        },
        _ => false,
    }
}

fn compare(actual: &Json, op: FilterOp, expected: &FilterValue) -> (r: bool)
    ensures
        r == value_satisfies(actual@, op, expected@),
{
    match expected {
        FilterValue::Null => matches!(op, FilterOp::Ne),
        FilterValue::String(text) => match actual.as_str() {
            Some(s) => compare_texts(op, s, text.as_str()),
            None => false,
        },
        FilterValue::Number(number) => match actual.as_rank() {
            Some(rank) => compare_ranks(op, rank, *number),
            None => false,
        },
        FilterValue::Bool(flag) => match actual.as_bool() {
            Some(b) => match op {
                FilterOp::Eq => b == *flag,
                FilterOp::Ne => b != *flag,
                _ => false,
            },
            None => false,
        },
    }
}

/// Whether the result of a date function satisfies a comparison.
pub open spec fn date_value_satisfies(
    actual: FilterValueV,
    op: FilterOp,
    expected: FilterValueV,
) -> bool {
    match (actual, expected) {
        (FilterValueV::Number(a), FilterValueV::Number(b)) => rank_op(op, a, b),
        (FilterValueV::String(a), FilterValueV::String(b)) => text_op(op, a, b),
        (FilterValueV::Number(_), FilterValueV::Null) => op is Ne,
        (FilterValueV::String(_), FilterValueV::Null) => op is Ne,
        _ => false,
    }
}

fn compare_filter_values(actual: &FilterValue, op: FilterOp, expected: &FilterValue) -> (r: bool)
    ensures
        r == date_value_satisfies(actual@, op, expected@),
{
    match actual {
        FilterValue::Number(a) => match expected {
            FilterValue::Number(b) => compare_ranks(op, *a, *b),
            FilterValue::Null => matches!(op, FilterOp::Ne),
            _ => false,
        },
        FilterValue::String(a) => match expected {
            FilterValue::String(b) => compare_texts(op, a.as_str(), b.as_str()),
            FilterValue::Null => matches!(op, FilterOp::Ne),
            _ => false,
        },
        FilterValue::Bool(_) => false,
        FilterValue::Null => false,
    }
}

/// Whether a value equals a literal.
pub open spec fn equals_literal(item: JsonV, expected: FilterValueV) -> bool {
    match (expected, item) {
        (FilterValueV::Null, JsonV::Null) => true,
        (FilterValueV::String(text), JsonV::String(s)) => s == text,
        (FilterValueV::Number(n), JsonV::Number(m)) => rank_eq(m.rank_spec(), n),
        (FilterValueV::Bool(flag), JsonV::Bool(b)) => b == flag,
        _ => false,
    }
}

fn values_equal(item: &Json, expected: &FilterValue) -> (r: bool)
    ensures
        r == equals_literal(item@, expected@),
{
    match expected {
        FilterValue::Null => item.is_null(),
        FilterValue::String(text) => match item.as_str() {
            Some(s) => same_text(s, text.as_str()),
            None => false,
        },
        FilterValue::Number(number) => match item.as_rank() {
            Some(rank) => ranks_equal(rank, *number),
            None => false,
        },
        FilterValue::Bool(flag) => match item.as_bool() {
            Some(b) => b == *flag,
            None => false,
        },
    }
}

/// Whether one of the values is `null`.
pub open spec fn some_null(flat: Seq<JsonV>) -> bool {
    exists|i: int| 0 <= i < flat.len() && #[trigger] flat[i] == JsonV::Null
}

/// Whether one of the values equals a literal.
pub open spec fn some_equal(flat: Seq<JsonV>, expected: FilterValueV) -> bool {
    exists|i: int| 0 <= i < flat.len() && equals_literal(#[trigger] flat[i], expected)
}

/// Whether one of the values that are not `null` satisfies a comparison.
pub open spec fn some_satisfies(flat: Seq<JsonV>, op: FilterOp, expected: FilterValueV) -> bool {
    exists|i: int|
        0 <= i < flat.len() && #[trigger] flat[i] != JsonV::Null && value_satisfies(
            flat[i],
            op,
            expected,
        )
}

/// Whether the values that a field path leads to satisfy a comparison:
/// - none (a missing field): as `null` does;
/// - one that is no array: as it does;
/// - otherwise (a collection): `eq` when one equals the literal, `ne` when none
///   does, and an ordering operator when one satisfies it.
pub open spec fn values_satisfy(found: Seq<JsonV>, op: FilterOp, expected: FilterValueV) -> bool {
    if found.len() == 0 {
        null_satisfies(op, expected)
    } else if found.len() == 1 && !(found[0] is Array) {
        if found[0] == JsonV::Null {
            null_satisfies(op, expected)
        } else {
            value_satisfies(found[0], op, expected)
        }
    } else {
        let flat = flattened(found);
        match op {
            FilterOp::Eq => some_equal(flat, expected),
            FilterOp::Ne => !some_equal(flat, expected),
            _ => if expected is Null {
                false
            } else {
                some_satisfies(flat, op, expected)
            },
        }
    }
}

fn any_equal(flat: &Vec<&Json>, expected: &FilterValue) -> (r: bool)
    ensures
        r == some_equal(ref_values(flat@), expected@),
{
    let mut i: usize = 0;
    while i < flat.len()
        invariant
            i <= flat@.len(),
            forall|k: int| 0 <= k < i ==> !equals_literal(#[trigger] ref_values(flat@)[k], expected@),
        decreases flat@.len() - i,
    {
        assert(ref_values(flat@)[i as int] == flat@[i as int]@);
        if values_equal(flat[i], expected) {
            return true;
        }
        i += 1;
    }
    false
}

#[verifier::loop_isolation(false)]
fn compare_field_values(found: &Vec<&Json>, op: FilterOp, expected: &FilterValue) -> (r: bool)
    ensures
        r == values_satisfy(ref_values(found@), op, expected@),
{
    if found.len() == 0 {
        return null_matches(op, expected);
    }
    assert(ref_values(found@)[0] == found@[0]@);
    if found.len() == 1 && found[0].as_array().is_none() {
        if found[0].is_null() {
            return null_matches(op, expected);
        }
        return compare(found[0], op, expected);
    }
    let flat = flatten_values(found);
    match op {
        FilterOp::Eq => any_equal(&flat, expected),
        FilterOp::Ne => !any_equal(&flat, expected),
        _ => {
            if value_is_null(expected) {
                return false;
            }
            let mut i: usize = 0;
            while i < flat.len()
                invariant
                    i <= flat@.len(),
                    forall|k: int|
                        0 <= k < i ==> !(#[trigger] ref_values(flat@)[k] != JsonV::Null
                            && value_satisfies(ref_values(flat@)[k], op, expected@)),
                decreases flat@.len() - i,
            {
                assert(ref_values(flat@)[i as int] == flat@[i as int]@);
                if !flat[i].is_null() && compare(flat[i], op, expected) {
                    return true;
                }
                i += 1;
            }
            false
        },
    }
}

// ---------------------------------------------------------------------------
// Expressions
// ---------------------------------------------------------------------------

/// Whether one of the values equals one of the literals.
pub open spec fn some_listed(flat: Seq<JsonV>, literals: Seq<FilterValueV>) -> bool {
    exists|i: int, k: int|
        0 <= i < flat.len() && 0 <= k < literals.len() && equals_literal(
            #[trigger] flat[i],
            #[trigger] literals[k],
        )
}

/// Whether a field's values satisfy a membership test: a missing field is in a
/// list that holds `null`.
pub open spec fn in_list(found: Seq<JsonV>, literals: Seq<FilterValueV>) -> bool {
    if found.len() == 0 {
        exists|k: int| 0 <= k < literals.len() && #[trigger] literals[k] is Null
    } else {
        some_listed(flattened(found), literals)
    }
}

pub open spec fn text_func_holds(func: StringFunc, text: Seq<char>, arg: Seq<char>) -> bool {
    match func {
        StringFunc::StartsWith => arg.is_prefix_of(text),
        StringFunc::EndsWith => arg.is_suffix_of(text),
        StringFunc::Contains => has_part(text, arg),
    }
}

/// Whether one of the texts among the values satisfies a string function.
pub open spec fn some_text_holds(flat: Seq<JsonV>, func: StringFunc, arg: Seq<char>) -> bool {
    exists|i: int|
        0 <= i < flat.len() && #[trigger] flat[i] is String && text_func_holds(
            func,
            flat[i]->String_0,
            arg,
        )
}

/// Whether one of the texts among the values contains the pattern, whatever
/// the case of either.
pub open spec fn some_text_contains(flat: Seq<JsonV>, pattern: Seq<char>) -> bool {
    exists|i: int|
        0 <= i < flat.len() && #[trigger] flat[i] is String && has_part(
            lowercase(flat[i]->String_0),
            lowercase(pattern),
        )
}

/// Whether a value is `null`, the empty text, or the empty array.
pub open spec fn is_empty_value(v: JsonV) -> bool {
    match v {
        JsonV::Null => true,
        JsonV::String(s) => s.len() == 0,
        JsonV::Array(items) => items.len() == 0,
        _ => false,
    }
}

/// Whether all of the values are empty; there may be none.
pub open spec fn all_empty(found: Seq<JsonV>) -> bool {
    forall|i: int| 0 <= i < found.len() ==> is_empty_value(#[trigger] found[i])
}

/// Whether a collection element satisfies the comparison of an `any`/`all`: it is
/// compared itself, or what a path through the variable leads to in it.
pub open spec fn element_satisfies(inner: FilterExprV, element: JsonV) -> bool {
    match inner {
        FilterExprV::Compare { field, op, value } => match (cut_once(field, '/'), element) {
            (Some((_, path)), JsonV::Object(m)) => values_satisfy(path_values(m, path), op, value),
            (Some(_), _) => null_satisfies(op, value),
            (None, JsonV::Null) => null_satisfies(op, value),
            (None, _) => value_satisfies(element, op, value),
        },
        _ => false,
    }
}

pub open spec fn some_element(items: Seq<JsonV>, inner: FilterExprV) -> bool {
    exists|i: int| 0 <= i < items.len() && element_satisfies(inner, #[trigger] items[i])
}

pub open spec fn every_element(items: Seq<JsonV>, inner: FilterExprV) -> bool {
    forall|i: int| 0 <= i < items.len() ==> element_satisfies(inner, #[trigger] items[i])
}

/// Whether a document with the given fields satisfies an expression.
pub open spec fn satisfies(e: FilterExprV, fields: Seq<(Seq<char>, JsonV)>) -> bool
    decreases e,
{
    match e {
        FilterExprV::And(clauses) => forall|i: int|
            0 <= i < clauses.len() ==> satisfies(#[trigger] clauses[i], fields),
        FilterExprV::Or(clauses) => exists|i: int|
            0 <= i < clauses.len() && satisfies(#[trigger] clauses[i], fields),
        FilterExprV::Not(inner) => !satisfies(*inner, fields),
        FilterExprV::Compare { field, op, value } => values_satisfy(
            path_values(fields, field),
            op,
            value,
        ),
        FilterExprV::In { field, values } => in_list(path_values(fields, field), values),
        FilterExprV::StringFunc { func, field, arg } => some_text_holds(
            flattened(path_values(fields, field)),
            func,
            arg,
        ),
        FilterExprV::Any { field, inner } => match member(fields, field) {
            Some(JsonV::Array(items)) => some_element(items, *inner),
            _ => false,
        },
        FilterExprV::All { field, inner } => match member(fields, field) {
            Some(JsonV::Array(items)) => every_element(items, *inner),
            _ => false,
        },
        FilterExprV::DateCompare { left, op, value } => match date_operand_value(left, fields) {
            Some(actual) => date_value_satisfies(actual, op, value),
            None => false,
        },
        FilterExprV::IsMatch { field, pattern } => some_text_contains(
            flattened(path_values(fields, field)),
            pattern,
        ),
        FilterExprV::IsEmpty { field } => all_empty(path_values(fields, field)),
        FilterExprV::IsNull { field } => {
            let found = path_values(fields, field);
            found.len() == 0 || some_null(found)
        },
    }
}

fn element_matches(inner: &FilterExpr, element: &Json) -> (r: bool)
    ensures
        r == element_satisfies(inner@, element@),
{
    broadcast use group_json;

    match inner {
        FilterExpr::Compare { field, op, value } => {
            if let Some((_, path)) = split_once(field.as_str(), '/') {
                return match element {
                    Json::Object(m) => compare_field_values(
                        &resolve_field_path(m, path.as_str()),
                        *op,
                        value,
                    ),
                    _ => null_matches(*op, value),
                };
            }
            if element.is_null() {
                return null_matches(*op, value);
            }
            compare(element, *op, value)
        },
        _ => false,
    }
}

fn value_is_empty(v: &Json) -> (r: bool)
    ensures
        r == is_empty_value(v@),
{
    broadcast use group_json;

    match v {
        Json::Null => true,
        Json::String(s) => s.as_str().is_empty(),
        Json::Array(items) => {
            assert(values(items@).len() == items@.len());
            items.len() == 0
        },
        _ => false,
    }
}

fn any_element(items: &Vec<Json>, inner: &FilterExpr) -> (r: bool)
    ensures
        r == some_element(values(items@), inner@),
{
    let mut i: usize = 0;
    while i < items.len()
        invariant
            i <= items@.len(),
            forall|k: int| 0 <= k < i ==> !element_satisfies(inner@, #[trigger] values(items@)[k]),
        decreases items@.len() - i,
    {
        assert(values(items@)[i as int] == items@[i as int]@);
        if element_matches(inner, &items[i]) {
            return true;
        }
        i += 1;
    }
    false
}

fn all_elements(items: &Vec<Json>, inner: &FilterExpr) -> (r: bool)
    ensures
        r == every_element(values(items@), inner@),
{
    let mut i: usize = 0;
    while i < items.len()
        invariant
            i <= items@.len(),
            forall|k: int| 0 <= k < i ==> element_satisfies(inner@, #[trigger] values(items@)[k]),
        decreases items@.len() - i,
    {
        assert(values(items@)[i as int] == items@[i as int]@);
        if !element_matches(inner, &items[i]) {
            return false;
        }
        i += 1;
    }
    true
}

fn any_listed(flat: &Vec<&Json>, literals: &Vec<FilterValue>) -> (r: bool)
    ensures
        r == some_listed(ref_values(flat@), filter_values(literals@)),
{
    let mut k: usize = 0;
    while k < literals.len()
        invariant
            k <= literals@.len(),
            forall|i: int, m: int|
                0 <= i < flat@.len() && 0 <= m < k ==> !equals_literal(
                    #[trigger] ref_values(flat@)[i],
                    #[trigger] filter_values(literals@)[m],
                ),
        decreases literals@.len() - k,
    {
        assert(filter_values(literals@)[k as int] == literals@[k as int]@);
        if any_equal(flat, &literals[k]) {
            return true;
        }
        k += 1;
    }
    false
}

fn any_text_holds(flat: &Vec<&Json>, func: StringFunc, arg: &str) -> (r: bool)
    ensures
        r == some_text_holds(ref_values(flat@), func, arg@),
{
    let mut i: usize = 0;
    while i < flat.len()
        invariant
            i <= flat@.len(),
            forall|k: int|
                0 <= k < i ==> !(#[trigger] ref_values(flat@)[k] is String && text_func_holds(
                    func,
                    ref_values(flat@)[k]->String_0,
                    arg@,
                )),
        decreases flat@.len() - i,
    {
        assert(ref_values(flat@)[i as int] == flat@[i as int]@);
        if let Some(text) = flat[i].as_str() {
            let holds = match func {
                StringFunc::StartsWith => starts_with(text, arg),
                StringFunc::EndsWith => ends_with(text, arg),
                StringFunc::Contains => contains_text(text, arg),
            };
            if holds {
                return true;
            }
        }
        i += 1;
    }
    false
}

fn any_text_contains(flat: &Vec<&Json>, pattern: &str) -> (r: bool)
    ensures
        r == some_text_contains(ref_values(flat@), pattern@),
{
    let lowered = to_lowercase(pattern);
    let mut i: usize = 0;
    while i < flat.len()
        invariant
            i <= flat@.len(),
            lowered@ == lowercase(pattern@),
            forall|k: int|
                0 <= k < i ==> !(#[trigger] ref_values(flat@)[k] is String && has_part(
                    lowercase(ref_values(flat@)[k]->String_0),
                    lowercase(pattern@),
                )),
        decreases flat@.len() - i,
    {
        assert(ref_values(flat@)[i as int] == flat@[i as int]@);
        if let Some(text) = flat[i].as_str() {
            let small = to_lowercase(text);
            if contains_text(small.as_str(), lowered.as_str()) {
                return true;
            }
        }
        i += 1;
    }
    false
}

impl FilterExpr {
    /// Evaluates the expression against a document's field map.
    ///
    /// Type mismatches and missing fields never match (they evaluate to
    /// `false`); they are not errors.
    #[verifier::loop_isolation(false)]
    pub fn matches(&self, fields: &JsonMap) -> (r: bool)
        ensures
            r == satisfies(self@, fields@),
        decreases self,
    {
        broadcast use {group_filter, group_json};

        match self {
            FilterExpr::And(clauses) => {
                let mut i: usize = 0;
                while i < clauses.len()
                    invariant
                        i <= clauses@.len(),
                        self is And,
                        clauses == self->And_0,
                        forall|k: int|
                            0 <= k < i ==> satisfies(#[trigger] expr_views(clauses@)[k], fields@),
                    decreases clauses@.len() - i,
                {
                    assert(expr_views(clauses@)[i as int] == clauses@[i as int]@);
                    if !clauses[i].matches(fields) {
                        assert(!satisfies(self@->And_0[i as int], fields@));
                        return false;
                    }
                    i += 1;
                }
                true
            },
            FilterExpr::Or(clauses) => {
                let mut i: usize = 0;
                while i < clauses.len()
                    invariant
                        i <= clauses@.len(),
                        self is Or,
                        clauses == self->Or_0,
                        forall|k: int|
                            0 <= k < i ==> !satisfies(#[trigger] expr_views(clauses@)[k], fields@),
                    decreases clauses@.len() - i,
                {
                    assert(expr_views(clauses@)[i as int] == clauses@[i as int]@);
                    if clauses[i].matches(fields) {
                        assert(satisfies(self@->Or_0[i as int], fields@));
                        return true;
                    }
                    i += 1;
                }
                false
            },
            FilterExpr::Not(inner) => !inner.matches(fields),
            FilterExpr::Compare { field, op, value } => compare_field_values(
                &resolve_field_path(fields, field.as_str()),
                *op,
                value,
            ),
            FilterExpr::In { field, values } => {
                let found = resolve_field_path(fields, field.as_str());
                if found.len() == 0 {
                    let mut k: usize = 0;
                    while k < values.len()
                        invariant
                            k <= values@.len(),
                            forall|m: int|
                                0 <= m < k ==> !(#[trigger] filter_values(values@)[m] is Null),
                        decreases values@.len() - k,
                    {
                        assert(filter_values(values@)[k as int] == values@[k as int]@);
                        if value_is_null(&values[k]) {
                            return true;
                        }
                        k += 1;
                    }
                    return false;
                }
                any_listed(&flatten_values(&found), values)
            },
            FilterExpr::StringFunc { func, field, arg } => {
                let found = resolve_field_path(fields, field.as_str());
                any_text_holds(&flatten_values(&found), *func, arg.as_str())
            },
            FilterExpr::Any { field, inner } => match member_array(fields.get(field.as_str())) {
                Some(items) => any_element(items, inner),
                None => false,
            },
            FilterExpr::All { field, inner } => match member_array(fields.get(field.as_str())) {
                Some(items) => all_elements(items, inner),
                None => false,
            },
            FilterExpr::DateCompare { left, op, value } => match left.evaluate(fields) {
                Some(actual) => compare_filter_values(&actual, *op, value),
                None => false,
            },
            FilterExpr::IsMatch { field, pattern } => {
                let found = resolve_field_path(fields, field.as_str());
                any_text_contains(&flatten_values(&found), pattern.as_str())
            },
            FilterExpr::IsEmpty { field } => {
                let found = resolve_field_path(fields, field.as_str());
                let mut i: usize = 0;
                while i < found.len()
                    invariant
                        i <= found@.len(),
                        forall|k: int|
                            0 <= k < i ==> is_empty_value(#[trigger] ref_values(found@)[k]),
                    decreases found@.len() - i,
                {
                    assert(ref_values(found@)[i as int] == found@[i as int]@);
                    if !value_is_empty(found[i]) {
                        return false;
                    }
                    i += 1;
                }
                true
            },
            FilterExpr::IsNull { field } => {
                let found = resolve_field_path(fields, field.as_str());
                if found.len() == 0 {
                    return true;
                }
                let mut i: usize = 0;
                while i < found.len()
                    invariant
                        i <= found@.len(),
                        forall|k: int|
                            0 <= k < i ==> #[trigger] ref_values(found@)[k] != JsonV::Null,
                    decreases found@.len() - i,
                {
                    assert(ref_values(found@)[i as int] == found@[i as int]@);
                    if found[i].is_null() {
                        return true;
                    }
                    i += 1;
                }
                false
            },
        }
    }
}

// ---------------------------------------------------------------------------
// Laws
// ---------------------------------------------------------------------------

/// A comparison holds when the reversed one holds with its sides swapped.
pub proof fn law_reversed_comparison(op: FilterOp, a: Seq<char>, b: Seq<char>, m: u64, n: u64)
    ensures
        text_op(op, a, b) == text_op(reversed(op), b, a),
        rank_op(op, m, n) == rank_op(reversed(op), n, m),
{
}

/// For texts exactly one of `lt`, `eq` and `gt` holds, and each of the other
/// operators is the negation of one of them.
pub proof fn law_text_operators(a: Seq<char>, b: Seq<char>)
    ensures
        text_op(FilterOp::Ne, a, b) == !text_op(FilterOp::Eq, a, b),
        text_op(FilterOp::Ge, a, b) == !text_op(FilterOp::Lt, a, b),
        text_op(FilterOp::Le, a, b) == !text_op(FilterOp::Gt, a, b),
        text_op(FilterOp::Eq, a, b) ==> !text_op(FilterOp::Lt, a, b) && !text_op(
            FilterOp::Gt,
            a,
            b,
        ),
{
    lemma_text_less_total(a, b);
    lemma_text_less_irreflexive(a);
}

/// `any` over an empty collection never holds, and `all` always does; over a
/// field that is missing neither does.
pub proof fn law_empty_collections(
    field: Seq<char>,
    inner: FilterExprV,
    fields: Seq<(Seq<char>, JsonV)>,
)
    ensures
        member(fields, field) == Some(JsonV::Array(seq![])) ==> !satisfies(
            FilterExprV::Any { field, inner: Box::new(inner) },
            fields,
        ) && satisfies(FilterExprV::All { field, inner: Box::new(inner) }, fields),
        member(fields, field) is None ==> !satisfies(
            FilterExprV::Any { field, inner: Box::new(inner) },
            fields,
        ) && !satisfies(FilterExprV::All { field, inner: Box::new(inner) }, fields),
{
}

/// A field that is missing compares as `null` does: it equals `null` and
/// differs from every other literal, and no ordering comparison holds of it.
pub proof fn law_missing_field(
    field: Seq<char>,
    op: FilterOp,
    value: FilterValueV,
    fields: Seq<(Seq<char>, JsonV)>,
)
    requires
        path_values(fields, field).len() == 0,
    ensures
        satisfies(FilterExprV::Compare { field, op, value }, fields) == (match op {
            FilterOp::Eq => value is Null,
            FilterOp::Ne => !(value is Null),
            _ => false,
        }),
        satisfies(FilterExprV::IsNull { field }, fields),
        satisfies(FilterExprV::IsEmpty { field }, fields),
{
}

/// A value of another type than the literal satisfies no comparison with a
/// literal that is not `null`.
pub proof fn law_type_mismatch(actual: JsonV, op: FilterOp, expected: FilterValueV)
    requires
        expected is String ==> !(actual is String),
        expected is Number ==> !(actual is Number),
        expected is Bool ==> !(actual is Bool),
        !(expected is Null),
    ensures
        !value_satisfies(actual, op, expected),
{
}

/// `ne` holds of a document's field exactly when `eq` does not, where the field
/// holds a single value of the literal's type, a collection, or nothing.
pub proof fn law_ne_negates_eq(
    field: Seq<char>,
    value: FilterValueV,
    fields: Seq<(Seq<char>, JsonV)>,
)
    requires
        ({
            let found = path_values(fields, field);
            found.len() == 1 && !(found[0] is Array) && found[0] != JsonV::Null ==> match value {
                FilterValueV::String(_) => found[0] is String,
                FilterValueV::Number(_) => found[0] is Number,
                FilterValueV::Bool(_) => found[0] is Bool,
                FilterValueV::Null => true,
            }
        }),
    ensures
        satisfies(FilterExprV::Compare { field, op: FilterOp::Ne, value }, fields) == !satisfies(
            FilterExprV::Compare { field, op: FilterOp::Eq, value },
            fields,
        ),
{
}

/// `search.isempty` holds of a field exactly where it is missing, `null`, the empty
/// text, or the empty array; `search.isnull` where it is missing or `null`.
pub proof fn law_empty_and_null(field: Seq<char>, fields: Seq<(Seq<char>, JsonV)>)
    requires
        path_values(fields, field).len() <= 1,
    ensures
        satisfies(FilterExprV::IsEmpty { field }, fields) == (path_values(fields, field).len() == 0
            || is_empty_value(path_values(fields, field)[0])),
        satisfies(FilterExprV::IsNull { field }, fields) == (path_values(fields, field).len() == 0
            || path_values(fields, field)[0] == JsonV::Null),
{
}

} // verus!
