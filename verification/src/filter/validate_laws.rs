//! Which filters an index accepts.
use crate::filter::date::{DateExprV, DateOperandV, DateRefV, operand_fields};
use crate::filter::expr::{FilterExprV, FilterOp, FilterValueV, StringFunc};
use crate::filter::validate::{date_fields_problem, filter_problem, lambda_problem};
use crate::storage::definition::{field_by_path, field_named};
use crate::storage::field_type::FieldTypeV;
use crate::storage::index::IndexV;
use crate::text::pieces;
use crate::text_laws::{lacks, law_pieces};
use vstd::prelude::*;

verus! {

/// Whether a field of an index can be filtered.
pub open spec fn can_filter(d: IndexV, field: Seq<char>) -> bool {
    match field_by_path(d.fields, field) {
        Some(f) => f.filterable,
        None => false,
    }
}

/// Whether values of a type can be compared by order with a value.
pub open spec fn has_order(t: FieldTypeV, value: FilterValueV) -> bool {
    !(value is Bool) && !(t is Boolean) && t.inner() is None
}

/// Whether an operator asks for an order.
pub open spec fn asks_order(op: FilterOp) -> bool {
    !(op is Eq) && !(op is Ne)
}

/// A comparison is accepted of a field that can be filtered; one by order only where the
/// values of the field have one.
pub proof fn law_accepted_comparisons(
    d: IndexV,
    field: Seq<char>,
    op: FilterOp,
    value: FilterValueV,
)
    ensures
        filter_problem(FilterExprV::Compare { field, op, value }, d) is None <==> can_filter(d, field)
            && (asks_order(op) ==> {
            let t = field_by_path(d.fields, field)->Some_0.field_type;
            has_order(t, value) && !(t is Duration) && !(t is Binary) && !(t is CollectionBinary)
        }),
{
}

/// Lists and tests for what is missing are accepted of any field that can be filtered;
/// tests on texts only where the field holds texts. A negation is accepted where what it
/// negates is.
pub proof fn law_accepted_tests(
    d: IndexV,
    field: Seq<char>,
    values: Seq<FilterValueV>,
    func: StringFunc,
    arg: Seq<char>,
    e: FilterExprV,
)
    ensures
        filter_problem(FilterExprV::In { field, values }, d) is None <==> can_filter(d, field),
        filter_problem(FilterExprV::IsEmpty { field }, d) is None <==> can_filter(d, field),
        filter_problem(FilterExprV::IsNull { field }, d) is None <==> can_filter(d, field),
        filter_problem(FilterExprV::StringFunc { func, field, arg }, d) is None <==> can_filter(
            d,
            field,
        ) && (field_by_path(d.fields, field)->Some_0.field_type is String || field_by_path(
            d.fields,
            field,
        )->Some_0.field_type is CollectionString),
        filter_problem(FilterExprV::IsMatch { field, pattern: arg }, d) is None <==> can_filter(
            d,
            field,
        ) && (field_by_path(d.fields, field)->Some_0.field_type is String || field_by_path(
            d.fields,
            field,
        )->Some_0.field_type is CollectionString),
        filter_problem(FilterExprV::Not(Box::new(e)), d) is None <==> filter_problem(e, d) is None,
{
    let not = FilterExprV::Not(Box::new(e));
    assert(*not->Not_0 == e);
}

proof fn lemma_date_fields(fields: Seq<Seq<char>>, i: int, d: IndexV)
    requires
        0 <= i <= fields.len(),
    ensures
        date_fields_problem(fields, i, d) is None <==> forall|k: int|
            i <= k < fields.len() ==> holds_dates(d, #[trigger] fields[k]),
    decreases fields.len() - i,
{
    if i < fields.len() {
        lemma_date_fields(fields, i + 1, d);
        assert(holds_dates(d, fields[i]) || !holds_dates(d, fields[i]));
    }
}

/// Whether a field holds dates and can be filtered.
pub open spec fn holds_dates(d: IndexV, field: Seq<char>) -> bool {
    can_filter(d, field) && field_by_path(d.fields, field)->Some_0.field_type is DateTimeOffset
}

/// A comparison of dates is accepted where each field in it holds dates and can be
/// filtered.
pub proof fn law_accepted_date_comparisons(
    d: IndexV,
    left: DateOperandV,
    op: FilterOp,
    value: FilterValueV,
)
    ensures
        filter_problem(FilterExprV::DateCompare { left, op, value }, d) is None <==> (match left {
            DateOperandV::Field(field) => holds_dates(d, field),
            DateOperandV::Expr(DateExprV::DatePart { part, field }) => holds_dates(d, field),
            DateOperandV::Expr(DateExprV::DateAdd { unit, interval, field }) => holds_dates(
                d,
                field,
            ),
            DateOperandV::Expr(DateExprV::DateDiff { unit, start, end }) => {
                &&& start matches DateRefV::Field(field) ==> holds_dates(d, field)
                &&& end matches DateRefV::Field(field) ==> holds_dates(d, field)
            },
            DateOperandV::Expr(DateExprV::UtcDateTime(_)) => true,
        }),
{
    let fields = operand_fields(left);
    lemma_date_fields(fields, 0, d);
    match left {
        DateOperandV::Field(field) => {
            assert(fields =~= seq![field]);
            assert(fields[0] == field);
        },
        DateOperandV::Expr(DateExprV::DatePart { part, field }) => {
            assert(fields =~= seq![field]);
            assert(fields[0] == field);
        },
        DateOperandV::Expr(DateExprV::DateAdd { unit, interval, field }) => {
            assert(fields =~= seq![field]);
            assert(fields[0] == field);
        },
        DateOperandV::Expr(DateExprV::DateDiff { unit, start, end }) => {
            match (start, end) {
                (DateRefV::Field(a), DateRefV::Field(b)) => {
                    assert(fields =~= seq![a, b]);
                    assert(fields[0] == a && fields[1] == b);
                },
                (DateRefV::Field(a), _) => {
                    assert(fields =~= seq![a]);
                    assert(fields[0] == a);
                },
                (_, DateRefV::Field(b)) => {
                    assert(fields =~= seq![b]);
                    assert(fields[0] == b);
                },
                _ => {
                    assert(fields =~= seq![]);
                },
            }
        },
        DateOperandV::Expr(DateExprV::UtcDateTime(_)) => {
            assert(fields =~= seq![]);
        },
    }
}

/// A lambda over the items of a field is accepted where the field is a collection that
/// can be filtered, and one by order where its items have one. The body compares the
/// variable.
pub proof fn law_accepted_lambdas(
    d: IndexV,
    field: Seq<char>,
    variable: Seq<char>,
    op: FilterOp,
    value: FilterValueV,
    other: FilterExprV,
)
    requires
        lacks(variable, '/'),
    ensures
        ({
            let inner = FilterExprV::Compare { field: variable, op, value };
            let any = FilterExprV::Any { field, inner: Box::new(inner) };
            let all = FilterExprV::All { field, inner: Box::new(inner) };
            let wrong = FilterExprV::Any { field, inner: Box::new(other) };
            let f = field_by_path(d.fields, field);
            &&& filter_problem(any, d) is None <==> can_filter(d, field)
                && f->Some_0.field_type.inner() is Some && (asks_order(op) ==> has_order(
                f->Some_0.field_type.inner()->Some_0,
                value,
            ))
            &&& filter_problem(all, d) is None <==> filter_problem(any, d) is None
            &&& !(other is Compare) ==> filter_problem(wrong, d) is Some
        }),
{
    let inner = FilterExprV::Compare { field: variable, op, value };
    let any = FilterExprV::Any { field, inner: Box::new(inner) };
    let all = FilterExprV::All { field, inner: Box::new(inner) };
    let wrong = FilterExprV::Any { field, inner: Box::new(other) };
    law_pieces(variable, '/', seq![]);
    assert(pieces(variable, '/').skip(1) =~= seq![]);
    assert(*any->Any_inner == inner);
    assert(*all->All_inner == inner);
    assert(*wrong->Any_inner == other);
    assert(filter_problem(any, d) == lambda_problem(field, inner, d));
    assert(filter_problem(all, d) == lambda_problem(field, inner, d));
    assert(filter_problem(wrong, d) == lambda_problem(field, other, d));
}

/// A lambda over objects may compare a member of the variable: a field inside the
/// collection, which can be filtered.
pub proof fn law_accepted_member_lambdas(
    d: IndexV,
    field: Seq<char>,
    variable: Seq<char>,
    name: Seq<char>,
    op: FilterOp,
    value: FilterValueV,
)
    requires
        lacks(variable, '/'),
        lacks(name, '/'),
        field_by_path(d.fields, field) is Some,
        field_by_path(d.fields, field)->Some_0.field_type is CollectionComplexType,
    ensures
        ({
            let inner = FilterExprV::Compare { field: variable + seq!['/'] + name, op, value };
            let f = field_by_path(d.fields, field)->Some_0;
            let sub = field_by_path(f.subfields, name);
            lambda_problem(field, inner, d) is None <==> sub is Some && sub->Some_0.filterable && (
            asks_order(op) ==> has_order(sub->Some_0.field_type, value))
        }),
{
    law_pieces(variable, '/', name);
    law_pieces(name, '/', seq![]);
    let path = pieces(variable + seq!['/'] + name, '/').skip(1);
    assert(path =~= seq![name]);
    let f = field_by_path(d.fields, field)->Some_0;
    assert(pieces(name, '/') == seq![name]);
    assert(seq![name][0] == name);
    assert(field_by_path(f.subfields, name) == field_named(f.subfields, name, 0));
    assert(path[0] == name);
}

} // verus!
