//! Validation of filter expressions against an index schema.
use crate::filter::date::operand_fields;
use crate::filter::expr::{
    FilterExpr, FilterExprV, FilterOp, FilterValue, FilterValueV, expr_views, group_filter,
};
use crate::storage::definition::{
    FieldDefinition, FieldV, field_by_path, field_named, field_views, find_named, group_fields,
};
use crate::storage::field_type::{FieldType, FieldTypeV};
use crate::storage::index::{IndexDefinition, IndexV};
use crate::text::{
    cat3, cat5, cat7, debug_text, join_texts, joined, pieces, quoted, split_on, texts,
};
use vstd::prelude::*;

verus! {

pub open spec fn unknown_field(field: Seq<char>) -> Seq<char> {
    "Filter references unknown field "@ + debug_text(field) + "."@
}

pub open spec fn not_filterable(field: Seq<char>) -> Seq<char> {
    "Field "@ + debug_text(field)
        + " is not filterable; mark it \"filterable\": true in the index schema."@
}

/// The field that a filter names, where it can be filtered.
pub open spec fn filterable_field(field: Seq<char>, d: IndexV) -> Result<FieldV, Seq<char>> {
    match field_by_path(d.fields, field) {
        None => Err(unknown_field(field)),
        Some(f) => if f.filterable {
            Ok(f)
        } else {
            Err(not_filterable(field))
        },
    }
}

/// What is wrong with an operator on values of a type: ordering comparisons are
/// refused on booleans and collections.
pub open spec fn order_problem(
    field: Seq<char>,
    t: FieldTypeV,
    op: FilterOp,
    value: FilterValueV,
) -> Option<Seq<char>> {
    if !op.orders() {
        None
    } else if value is Bool || t is Boolean {
        Some(
            "Filter operator "@ + op.name_spec()
                + " is not supported for boolean values in field "@ + debug_text(field) + "."@,
        )
    } else if t.inner() is Some {
        Some(
            "Filter operator "@ + op.name_spec()
                + " is not supported for collection field "@ + debug_text(field)
                + "; use any/all for collection filtering."@,
        )
    } else {
        None
    }
}

/// What is wrong with a comparison of a field: it must be filterable, and ordering
/// comparisons are refused on booleans, collections, and types that only know
/// equality.
pub open spec fn compare_problem(
    field: Seq<char>,
    op: FilterOp,
    value: FilterValueV,
    d: IndexV,
) -> Option<Seq<char>> {
    match filterable_field(field, d) {
        Err(e) => Some(e),
        Ok(f) => if order_problem(field, f.field_type, op, value) is Some {
            order_problem(field, f.field_type, op, value)
        } else if op.orders() && f.field_type.equality_only() {
            Some(
                "Filter operator "@ + op.name_spec() + " is not supported for field "@
                    + debug_text(field) + " of type "@ + debug_text(f.field_type.name())
                    + "; only eq/ne comparisons are supported."@,
            )
        } else {
            None
        },
    }
}

/// What is wrong with a text function on a field: it needs a string field.
pub open spec fn text_field_problem(name: Seq<char>, field: Seq<char>, d: IndexV) -> Option<
    Seq<char>,
> {
    match filterable_field(field, d) {
        Err(e) => Some(e),
        Ok(f) => if f.field_type is String || f.field_type is CollectionString {
            None
        } else {
            Some(
                "Filter function "@ + name + " on field "@ + debug_text(field)
                    + " requires a string field; field type is "@ + debug_text(f.field_type.name())
                    + "."@,
            )
        },
    }
}

/// What is wrong with the first bad field from `i` on of a date comparison.
pub open spec fn date_fields_problem(fields: Seq<Seq<char>>, i: int, d: IndexV) -> Option<Seq<char>>
    decreases fields.len() - i,
{
    if i >= fields.len() {
        None
    } else {
        match filterable_field(fields[i], d) {
            Err(e) => Some(e),
            Ok(f) => if f.field_type is DateTimeOffset {
                date_fields_problem(fields, i + 1, d)
            } else {
                Some(
                    "Date filter on field "@ + debug_text(fields[i])
                        + " requires an Edm.DateTimeOffset field; field type is "@ + debug_text(
                        f.field_type.name(),
                    ) + "."@,
                )
            },
        }
    }
}

/// What is wrong with the subfield path from segment `i` on of a lambda:
/// every segment but the last leads through a complex subfield, and the last
/// leads to one that can be filtered with the operator.
pub open spec fn lambda_path_problem(
    subfields: Seq<FieldV>,
    segs: Seq<Seq<char>>,
    i: int,
    field: Seq<char>,
    op: FilterOp,
    value: FilterValueV,
) -> Option<Seq<char>>
    decreases segs.len() - i,
{
    if i >= segs.len() {
        None
    } else {
        match field_named(subfields, segs[i], 0) {
            None => Some(
                "any/all on field "@ + debug_text(field) + " references unknown subfield "@
                    + debug_text(segs[i]) + "."@,
            ),
            Some(f) => {
                let last = i == segs.len() - 1;
                if !last && !f.field_type.complex() {
                    Some(
                        "any/all on field "@ + debug_text(field)
                            + " traverses non-complex subfield "@ + debug_text(segs[i]) + "."@,
                    )
                } else if last && !f.filterable {
                    Some(
                        "Subfield "@ + debug_text(segs[i]) + " of field "@ + debug_text(field)
                            + " is not filterable; mark it \"filterable\": true in the index schema."@,
                    )
                } else if last {
                    order_problem(field, f.field_type, op, value)
                } else {
                    lambda_path_problem(f.subfields, segs, i + 1, field, op, value)
                }
            },
        }
    }
}

/// What is wrong with an `any`/`all`: the field must be a collection, and the
/// body a single comparison on the variable or on a subfield path through it.
pub open spec fn lambda_problem(field: Seq<char>, inner: FilterExprV, d: IndexV) -> Option<
    Seq<char>,
> {
    match field_by_path(d.fields, field) {
        None => Some(unknown_field(field)),
        Some(f) => if f.field_type.inner() is None {
            Some(
                "Field "@ + debug_text(field)
                    + " is not a collection; any/all require a collection field."@,
            )
        } else {
            match inner {
                FilterExprV::Compare { field: inner_field, op, value } => {
                    let path = pieces(inner_field, '/').skip(1);
                    if path.len() == 0 {
                        if f.filterable {
                            order_problem(field, f.field_type.inner()->Some_0, op, value)
                        } else {
                            Some(not_filterable(field))
                        }
                    } else if !(f.field_type is CollectionComplexType) {
                        Some(
                            "any/all on field "@ + debug_text(field) + " addresses subfield "@
                                + debug_text(joined(path, "/"@)) + ", but field "@ + debug_text(
                                field,
                            ) + " is not a collection of complex objects."@,
                        )
                    } else {
                        lambda_path_problem(f.subfields, path, 0, field, op, value)
                    }
                },
                _ => Some(
                    "any/all on field "@ + debug_text(field)
                        + " must contain a single comparison on the lambda variable."@,
                ),
            }
        },
    }
}

/// What is wrong with an expression under an index schema.
pub open spec fn filter_problem(e: FilterExprV, d: IndexV) -> Option<Seq<char>>
    decreases e, 0int,
{
    match e {
        FilterExprV::And(clauses) => clauses_problem(clauses, 0, d),
        FilterExprV::Or(clauses) => clauses_problem(clauses, 0, d),
        FilterExprV::Not(inner) => filter_problem(*inner, d),
        FilterExprV::Compare { field, op, value } => compare_problem(field, op, value, d),
        FilterExprV::In { field, values: _ } => match filterable_field(field, d) {
            Err(e) => Some(e),
            Ok(_) => None,
        },
        FilterExprV::IsEmpty { field } => match filterable_field(field, d) {
            Err(e) => Some(e),
            Ok(_) => None,
        },
        FilterExprV::IsNull { field } => match filterable_field(field, d) {
            Err(e) => Some(e),
            Ok(_) => None,
        },
        FilterExprV::StringFunc { func, field, arg: _ } => text_field_problem(
            func.name_spec(),
            field,
            d,
        ),
        FilterExprV::IsMatch { field, pattern: _ } => text_field_problem(
            "search.ismatch"@,
            field,
            d,
        ),
        FilterExprV::Any { field, inner } => lambda_problem(field, *inner, d),
        FilterExprV::All { field, inner } => lambda_problem(field, *inner, d),
        FilterExprV::DateCompare { left, op: _, value: _ } => date_fields_problem(
            operand_fields(left),
            0,
            d,
        ),
    }
}

/// What is wrong with the first bad clause from `i` on.
pub open spec fn clauses_problem(clauses: Seq<FilterExprV>, i: int, d: IndexV) -> Option<Seq<char>>
    decreases clauses, clauses.len() - i,
{
    if i < 0 || i >= clauses.len() {
        None
    } else {
        match filter_problem(clauses[i], d) {
            Some(e) => Some(e),
            None => clauses_problem(clauses, i + 1, d),
        }
    }
}

/// The problem that a check found, where it found one.
pub open spec fn problem(r: Result<(), String>) -> Option<Seq<char>> {
    match r {
        Ok(()) => None,
        Err(m) => Some(m@),
    }
}

fn require_filterable<'a>(field: &str, definition: &'a IndexDefinition) -> (r: Result<
    &'a FieldDefinition,
    String,
>)
    ensures
        match r {
            Ok(f) => filterable_field(field@, definition@) == Ok::<_, Seq<char>>(f@),
            Err(m) => filterable_field(field@, definition@) == Err::<FieldV, _>(m@),
        },
{
    match definition.field_path(field) {
        None => Err(cat3("Filter references unknown field ", quoted(field).as_str(), ".")),
        Some(f) => {
            if f.filterable {
                Ok(f)
            } else {
                Err(
                    cat3(
                        "Field ",
                        quoted(field).as_str(),
                        " is not filterable; mark it \"filterable\": true in the index schema.",
                    ),
                )
            }
        },
    }
}

fn validate_order(field: &str, t: &FieldType, op: FilterOp, value: &FilterValue) -> (r: Result<
    (),
    String,
>)
    ensures
        problem(r) == order_problem(field@, t@, op, value@),
{
    if !op.is_ordering() {
        return Ok(());
    }
    if matches!(value, FilterValue::Bool(_)) || matches!(t, FieldType::Boolean) {
        return Err(
            cat5(
                "Filter operator ",
                op.name(),
                " is not supported for boolean values in field ",
                quoted(field).as_str(),
                ".",
            ),
        );
    }
    if t.is_collection() {
        return Err(
            cat5(
                "Filter operator ",
                op.name(),
                " is not supported for collection field ",
                quoted(field).as_str(),
                "; use any/all for collection filtering.",
            ),
        );
    }
    Ok(())
}

/// Validates one comparison: the field must be filterable, and ordering
/// operators are rejected on booleans, collections, and equality-only
/// (`Edm.Duration`/`Edm.Binary`) types.
fn validate_compare(
    field: &str,
    op: FilterOp,
    value: &FilterValue,
    definition: &IndexDefinition,
) -> (r: Result<(), String>)
    ensures
        problem(r) == compare_problem(field@, op, value@, definition@),
{
    let f = require_filterable(field, definition)?;
    validate_order(field, &f.field_type, op, value)?;
    if op.is_ordering() && f.field_type.is_equality_only() {
        return Err(
            cat7(
                "Filter operator ",
                op.name(),
                " is not supported for field ",
                quoted(field).as_str(),
                " of type ",
                quoted(f.field_type.name()).as_str(),
                "; only eq/ne comparisons are supported.",
            ),
        );
    }
    Ok(())
}

fn validate_text_field(name: &str, field: &str, definition: &IndexDefinition) -> (r: Result<
    (),
    String,
>)
    ensures
        problem(r) == text_field_problem(name@, field@, definition@),
{
    let f = require_filterable(field, definition)?;
    if matches!(f.field_type, FieldType::String | FieldType::CollectionString) {
        return Ok(());
    }
    Err(
        cat7(
            "Filter function ",
            name,
            " on field ",
            quoted(field).as_str(),
            " requires a string field; field type is ",
            quoted(f.field_type.name()).as_str(),
            ".",
        ),
    )
}

/// Validates an `any`/`all` collection filter: the field must be a
/// collection, and the lambda body must be a single comparison on the lambda
/// variable, optionally addressing (possibly nested) subfields
/// (`var/Subfield`, `var/A/B`, ...) through the variable.
fn validate_lambda(field: &str, inner: &FilterExpr, definition: &IndexDefinition) -> (r: Result<
    (),
    String,
>)
    ensures
        problem(r) == lambda_problem(field@, inner@, definition@),
{
    broadcast use group_fields;

    let f = match definition.field_path(field) {
        Some(f) => f,
        None => {
            return Err(cat3("Filter references unknown field ", quoted(field).as_str(), "."));
        },
    };
    if !f.is_collection() {
        return Err(
            cat3(
                "Field ",
                quoted(field).as_str(),
                " is not a collection; any/all require a collection field.",
            ),
        );
    }
    let (inner_field, op, value) = match inner {
        FilterExpr::Compare { field: inner_field, op, value } => (inner_field, *op, value),
        _ => {
            return Err(
                cat3(
                    "any/all on field ",
                    quoted(field).as_str(),
                    " must contain a single comparison on the lambda variable.",
                ),
            );
        },
    };
    let mut segments = split_on(inner_field.as_str(), '/');
    let ghost all = texts(segments@);
    segments.remove(0);
    let path = segments;
    assert(texts(path@) =~= all.skip(1));
    let ghost segs = texts(path@);
    if path.len() == 0 {
        if f.filterable {
            return match f.field_type.inner_type() {
                Some(t) => validate_order(field, &t, op, value),
                None => Ok(()),
            };
        }
        return Err(
            cat3(
                "Field ",
                quoted(field).as_str(),
                " is not filterable; mark it \"filterable\": true in the index schema.",
            ),
        );
    }
    if !matches!(f.field_type, FieldType::CollectionComplexType) {
        return Err(
            cat7(
                "any/all on field ",
                quoted(field).as_str(),
                " addresses subfield ",
                quoted(join_texts(&path, "/").as_str()).as_str(),
                ", but field ",
                quoted(field).as_str(),
                " is not a collection of complex objects.",
            ),
        );
    }
    let mut current: &Vec<FieldDefinition> = &f.subfields;
    let n: usize = path.len();
    let mut i: usize = 0;
    assert(f@.subfields == field_views(f.subfields@));
    while i < n
        invariant
            n == path@.len(),
            segs == texts(path@),
            i <= n,
            lambda_problem(field@, inner@, definition@) == lambda_path_problem(
                field_views(current@),
                segs,
                i as int,
                field@,
                op,
                value@,
            ),
        decreases n - i,
    {
        assert(segs[i as int] == path@[i as int]@);
        let segment = path[i].as_str();
        let sub = match find_named(current, segment) {
            Some(sub) => sub,
            None => {
                return Err(
                    cat5(
                        "any/all on field ",
                        quoted(field).as_str(),
                        " references unknown subfield ",
                        quoted(segment).as_str(),
                        ".",
                    ),
                );
            },
        };
        let last = i == n - 1;
        if !last && !sub.is_complex_type() {
            return Err(
                cat5(
                    "any/all on field ",
                    quoted(field).as_str(),
                    " traverses non-complex subfield ",
                    quoted(segment).as_str(),
                    ".",
                ),
            );
        }
        if last && !sub.filterable {
            return Err(
                cat5(
                    "Subfield ",
                    quoted(segment).as_str(),
                    " of field ",
                    quoted(field).as_str(),
                    " is not filterable; mark it \"filterable\": true in the index schema.",
                ),
            );
        }
        if last {
            return validate_order(field, &sub.field_type, op, value);
        }
        assert(sub@.subfields == field_views(sub.subfields@));
        current = &sub.subfields;
        i += 1;
    }
    Ok(())
}

fn validate_clauses(clauses: &Vec<FilterExpr>, definition: &IndexDefinition) -> (r: Result<
    (),
    String,
>)
    ensures
        problem(r) == clauses_problem(expr_views(clauses@), 0, definition@),
    decreases clauses, 0int,
{
    let ghost all = expr_views(clauses@);
    let mut i: usize = 0;
    while i < clauses.len()
        invariant
            all == expr_views(clauses@),
            i <= clauses@.len(),
            clauses_problem(all, 0, definition@) == clauses_problem(all, i as int, definition@),
        decreases clauses@.len() - i,
    {
        assert(all[i as int] == clauses@[i as int]@);
        validate(&clauses[i], definition)?;
        i += 1;
    }
    Ok(())
}

/// Validates a parsed filter expression against an index schema.
///
/// Returns an error string when a referenced field is missing, not marked
/// `filterable`, or used with an incompatible operator (ordering comparisons
/// on booleans or collections).
pub fn validate(expr: &FilterExpr, definition: &IndexDefinition) -> (r: Result<(), String>)
    ensures
        problem(r) == filter_problem(expr@, definition@),
    decreases expr, 1int,
{
    broadcast use group_filter;

    match expr {
        FilterExpr::And(clauses) => validate_clauses(clauses, definition),
        FilterExpr::Or(clauses) => validate_clauses(clauses, definition),
        FilterExpr::Not(inner) => validate(inner, definition),
        FilterExpr::Compare { field, op, value } => validate_compare(
            field.as_str(),
            *op,
            value,
            definition,
        ),
        FilterExpr::In { field, values: _ } => {
            require_filterable(field.as_str(), definition)?;
            Ok(())
        },
        FilterExpr::IsEmpty { field } => {
            require_filterable(field.as_str(), definition)?;
            Ok(())
        },
        FilterExpr::IsNull { field } => {
            require_filterable(field.as_str(), definition)?;
            Ok(())
        },
        FilterExpr::StringFunc { func, field, arg: _ } => validate_text_field(
            func.name(),
            field.as_str(),
            definition,
        ),
        FilterExpr::IsMatch { field, pattern: _ } => validate_text_field(
            "search.ismatch",
            field.as_str(),
            definition,
        ),
        FilterExpr::Any { field, inner } => validate_lambda(field.as_str(), inner, definition),
        FilterExpr::All { field, inner } => validate_lambda(field.as_str(), inner, definition),
        FilterExpr::DateCompare { left, op: _, value: _ } => {
            let fields = left.referenced_fields();
            let ghost all = texts(fields@);
            let mut i: usize = 0;
            while i < fields.len()
                invariant
                    all == texts(fields@),
                    i <= fields@.len(),
                    filter_problem(expr@, definition@) == date_fields_problem(
                        all,
                        i as int,
                        definition@,
                    ),
                decreases fields@.len() - i,
            {
                assert(all[i as int] == fields@[i as int]@);
                let field = fields[i].as_str();
                let f = require_filterable(field, definition)?;
                if !matches!(f.field_type, FieldType::DateTimeOffset) {
                    return Err(
                        cat5(
                            "Date filter on field ",
                            quoted(field).as_str(),
                            " requires an Edm.DateTimeOffset field; field type is ",
                            quoted(f.field_type.name()).as_str(),
                            ".",
                        ),
                    );
                }
                i += 1;
            }
            Ok(())
        },
    }
}

/// A conjunction or a disjunction is valid when all its clauses are.
pub proof fn law_valid_clauses(clauses: Seq<FilterExprV>, d: IndexV)
    ensures
        filter_problem(FilterExprV::And(clauses), d) is None <==> forall|i: int|
            0 <= i < clauses.len() ==> filter_problem(#[trigger] clauses[i], d) is None,
        filter_problem(FilterExprV::Or(clauses), d) == filter_problem(FilterExprV::And(clauses), d),
{
    lemma_valid_clauses(clauses, 0, d);
}

proof fn lemma_valid_clauses(clauses: Seq<FilterExprV>, i: int, d: IndexV)
    requires
        0 <= i <= clauses.len(),
    ensures
        clauses_problem(clauses, i, d) is None <==> forall|k: int|
            i <= k < clauses.len() ==> filter_problem(#[trigger] clauses[k], d) is None,
    decreases clauses.len() - i,
{
    if i < clauses.len() {
        lemma_valid_clauses(clauses, i + 1, d);
    }
}

} // verus!
