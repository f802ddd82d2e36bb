//! The filter expression tree.
use crate::filter::date::{DateOperand, DateOperandV};
use crate::json::Number;
use crate::text::same_text;
use vstd::prelude::*;

verus! {

/// Comparison operators supported in filter expressions.
#[derive(Debug, Clone, Copy, PartialEq, Eq, Structural)]
pub enum FilterOp {
    Eq,
    Ne,
    Gt,
    Ge,
    Lt,
    Le,
}

pub open spec fn op_named(name: Seq<char>) -> Option<FilterOp> {
    if name == "eq"@ {
        Some(FilterOp::Eq)
    } else if name == "ne"@ {
        Some(FilterOp::Ne)
    } else if name == "gt"@ {
        Some(FilterOp::Gt)
    } else if name == "ge"@ {
        Some(FilterOp::Ge)
    } else if name == "lt"@ {
        Some(FilterOp::Lt)
    } else if name == "le"@ {
        Some(FilterOp::Le)
    } else {
        None
    }
}

impl FilterOp {
    pub fn parse(token: &str) -> (r: Option<FilterOp>)
        ensures
            r == op_named(token@),
    {
        if same_text(token, "eq") {
            Some(FilterOp::Eq)
        } else if same_text(token, "ne") {
            Some(FilterOp::Ne)
        } else if same_text(token, "gt") {
            Some(FilterOp::Gt)
        } else if same_text(token, "ge") {
            Some(FilterOp::Ge)
        } else if same_text(token, "lt") {
            Some(FilterOp::Lt)
        } else if same_text(token, "le") {
            Some(FilterOp::Le)
        } else {
            None
        }
    }

    /// Whether the operator compares by order.
    pub open spec fn orders(self) -> bool {
        self is Gt || self is Ge || self is Lt || self is Le
    }

    pub fn is_ordering(self) -> (r: bool)
        ensures
            r == self.orders(),
    {
        matches!(self, FilterOp::Gt | FilterOp::Ge | FilterOp::Lt | FilterOp::Le)
    }

    /// The operator's variant name.
    pub open spec fn name_spec(self) -> Seq<char> {
        match self {
            FilterOp::Eq => "Eq"@,
            FilterOp::Ne => "Ne"@,
            FilterOp::Gt => "Gt"@,
            FilterOp::Ge => "Ge"@,
            FilterOp::Lt => "Lt"@,
            FilterOp::Le => "Le"@,
        }
    }

    pub fn name(self) -> (r: &'static str)
        ensures
            r@ == self.name_spec(),
    {
        match self {
            FilterOp::Eq => "Eq",
            FilterOp::Ne => "Ne",
            FilterOp::Gt => "Gt",
            FilterOp::Ge => "Ge",
            FilterOp::Lt => "Lt",
            FilterOp::Le => "Le",
        }
    }
}

/// The operator with its two sides swapped.
pub open spec fn reversed(op: FilterOp) -> FilterOp {
    match op {
        FilterOp::Eq => FilterOp::Eq,
        FilterOp::Ne => FilterOp::Ne,
        FilterOp::Gt => FilterOp::Lt,
        FilterOp::Ge => FilterOp::Le,
        FilterOp::Lt => FilterOp::Gt,
        FilterOp::Le => FilterOp::Ge,
    }
}

/// Reverses a comparison operator: `a op b` holds when `b reverse(op) a` does.
pub fn reverse_op(op: FilterOp) -> (r: FilterOp)
    ensures
        r == reversed(op),
{
    match op {
        FilterOp::Eq => FilterOp::Eq,
        FilterOp::Ne => FilterOp::Ne,
        FilterOp::Gt => FilterOp::Lt,
        FilterOp::Ge => FilterOp::Le,
        FilterOp::Lt => FilterOp::Gt,
        FilterOp::Le => FilterOp::Ge,
    }
}

/// A literal value in a filter expression. A number is held by its binary64
/// rank (see [`crate::json::Number`]).
#[derive(Debug, PartialEq)]
pub enum FilterValue {
    String(String),
    Number(u64),
    Bool(bool),
    Null,
}

/// The mathematical value of a [`FilterValue`].
pub enum FilterValueV {
    String(Seq<char>),
    Number(u64),
    Bool(bool),
    Null,
}

impl View for FilterValue {
    type V = FilterValueV;

    open spec fn view(&self) -> FilterValueV {
        match self {
            FilterValue::String(s) => FilterValueV::String(s@),
            FilterValue::Number(n) => FilterValueV::Number(*n),
            FilterValue::Bool(b) => FilterValueV::Bool(*b),
            FilterValue::Null => FilterValueV::Null,
        }
    }
}

impl FilterValue {
    pub fn duplicate(&self) -> (r: FilterValue)
        ensures
            r@ == self@,
    {
        match self {
            FilterValue::String(s) => FilterValue::String(s.clone()),
            FilterValue::Number(n) => FilterValue::Number(*n),
            FilterValue::Bool(b) => FilterValue::Bool(*b),
            FilterValue::Null => FilterValue::Null,
        }
    }
}

pub open spec fn filter_values(v: Seq<FilterValue>) -> Seq<FilterValueV> {
    v.map_values(|x: FilterValue| x@)
}

pub broadcast proof fn lemma_filter_values_push(v: Seq<FilterValue>, x: FilterValue)
    ensures
        #[trigger] filter_values(v.push(x)) == filter_values(v).push(x@),
{
    assert(filter_values(v.push(x)) =~= filter_values(v).push(x@));
}

pub open spec fn opt_filter_value(o: Option<FilterValue>) -> Option<FilterValueV> {
    match o {
        Some(v) => Some(v@),
        None => None,
    }
}

/// A string function supported in filter expressions.
#[derive(Debug, Clone, Copy, PartialEq, Eq, Structural)]
pub enum StringFunc {
    StartsWith,
    EndsWith,
    Contains,
}

pub open spec fn string_func_named(name: Seq<char>) -> Option<StringFunc> {
    if name == "startswith"@ {
        Some(StringFunc::StartsWith)
    } else if name == "endswith"@ {
        Some(StringFunc::EndsWith)
    } else if name == "contains"@ {
        Some(StringFunc::Contains)
    } else {
        None
    }
}

impl StringFunc {
    pub fn parse(name: &str) -> (r: Option<StringFunc>)
        ensures
            r == string_func_named(name@),
    {
        if same_text(name, "startswith") {
            Some(StringFunc::StartsWith)
        } else if same_text(name, "endswith") {
            Some(StringFunc::EndsWith)
        } else if same_text(name, "contains") {
            Some(StringFunc::Contains)
        } else {
            None
        }
    }

    pub open spec fn name_spec(self) -> Seq<char> {
        match self {
            StringFunc::StartsWith => "startswith"@,
            StringFunc::EndsWith => "endswith"@,
            StringFunc::Contains => "contains"@,
        }
    }

    /// The name of the function in filter text.
    pub fn name(self) -> (r: &'static str)
        ensures
            r@ == self.name_spec(),
    {
        match self {
            StringFunc::StartsWith => "startswith",
            StringFunc::EndsWith => "endswith",
            StringFunc::Contains => "contains",
        }
    }
}

/// The internal filter expression tree.
#[derive(Debug, PartialEq)]
pub enum FilterExpr {
    And(Vec<FilterExpr>),
    Or(Vec<FilterExpr>),
    Not(Box<FilterExpr>),
    Compare { field: String, op: FilterOp, value: FilterValue },
    /// `field in (value, ...)` membership test.
    In { field: String, values: Vec<FilterValue> },
    /// `startswith(field, 'prefix')` / `endswith(field, 'suffix')` /
    /// `contains(field, 'substring')` (ordinal, case-sensitive).
    StringFunc { func: StringFunc, field: String, arg: String },
    Any { field: String, inner: Box<FilterExpr> },
    All { field: String, inner: Box<FilterExpr> },
    /// A date comparison: the left side evaluates to a number or to a
    /// normalized ISO-8601 string; unparseable dates and type mismatches never
    /// match.
    DateCompare { left: DateOperand, op: FilterOp, value: FilterValue },
    /// `search.ismatch('pattern', field)`: case-insensitive substring match of
    /// the pattern against the field's string values.
    IsMatch { field: String, pattern: String },
    /// `search.isempty(field)`: the field is missing, null, an empty string, or
    /// an empty array.
    IsEmpty { field: String },
    /// `search.isnull(field)`: the field is missing or null.
    IsNull { field: String },
}

/// The mathematical value of a [`FilterExpr`].
pub enum FilterExprV {
    And(Seq<FilterExprV>),
    Or(Seq<FilterExprV>),
    Not(Box<FilterExprV>),
    Compare { field: Seq<char>, op: FilterOp, value: FilterValueV },
    In { field: Seq<char>, values: Seq<FilterValueV> },
    StringFunc { func: StringFunc, field: Seq<char>, arg: Seq<char> },
    Any { field: Seq<char>, inner: Box<FilterExprV> },
    All { field: Seq<char>, inner: Box<FilterExprV> },
    DateCompare { left: DateOperandV, op: FilterOp, value: FilterValueV },
    IsMatch { field: Seq<char>, pattern: Seq<char> },
    IsEmpty { field: Seq<char> },
    IsNull { field: Seq<char> },
}

/// The value that a [`FilterExpr`] holds.
pub open spec fn expr_view(e: FilterExpr) -> FilterExprV
    decreases e,
{
    match e {
        FilterExpr::And(v) => FilterExprV::And(
            Seq::new(
                v@.len(),
                |i: int|
                    if 0 <= i < v@.len() {
                        expr_view(v@[i])
                    } else {
                        FilterExprV::IsNull { field: seq![] }
                    },
            ),
        ),
        FilterExpr::Or(v) => FilterExprV::Or(
            Seq::new(
                v@.len(),
                |i: int|
                    if 0 <= i < v@.len() {
                        expr_view(v@[i])
                    } else {
                        FilterExprV::IsNull { field: seq![] }
                    },
            ),
        ),
        FilterExpr::Not(inner) => FilterExprV::Not(Box::new(expr_view(*inner))),
        FilterExpr::Compare { field, op, value } => FilterExprV::Compare {
            field: field@,
            op,
            value: value@,
        },
        FilterExpr::In { field, values } => FilterExprV::In {
            field: field@,
            values: filter_values(values@),
        },
        FilterExpr::StringFunc { func, field, arg } => FilterExprV::StringFunc {
            func,
            field: field@,
            arg: arg@,
        },
        FilterExpr::Any { field, inner } => FilterExprV::Any {
            field: field@,
            inner: Box::new(expr_view(*inner)),
        },
        FilterExpr::All { field, inner } => FilterExprV::All {
            field: field@,
            inner: Box::new(expr_view(*inner)),
        },
        FilterExpr::DateCompare { left, op, value } => FilterExprV::DateCompare {
            left: left@,
            op,
            value: value@,
        },
        FilterExpr::IsMatch { field, pattern } => FilterExprV::IsMatch {
            field: field@,
            pattern: pattern@,
        },
        FilterExpr::IsEmpty { field } => FilterExprV::IsEmpty { field: field@ },
        FilterExpr::IsNull { field } => FilterExprV::IsNull { field: field@ },
    }
}

impl View for FilterExpr {
    type V = FilterExprV;

    open spec fn view(&self) -> FilterExprV {
        expr_view(*self)
    }
}

/// The values of a list of expressions.
pub open spec fn expr_views(v: Seq<FilterExpr>) -> Seq<FilterExprV> {
    v.map_values(|e: FilterExpr| e@)
}

pub broadcast proof fn lemma_expr_views_push(v: Seq<FilterExpr>, e: FilterExpr)
    ensures
        #[trigger] expr_views(v.push(e)) == expr_views(v).push(e@),
{
    assert(expr_views(v.push(e)) =~= expr_views(v).push(e@));
}

pub broadcast proof fn lemma_and_view(e: FilterExpr)
    ensures
        e is And ==> #[trigger] e@ == FilterExprV::And(expr_views(e->And_0@)),
{
    if e is And {
        let v = e->And_0@;
        assert forall|i: int| 0 <= i < v.len() implies e@->And_0[i] == #[trigger] expr_views(v)[i] by {
            assert(expr_views(v)[i] == v[i]@);
        }
        assert(e@->And_0 =~= expr_views(v));
    }
}

pub broadcast proof fn lemma_or_view(e: FilterExpr)
    ensures
        e is Or ==> #[trigger] e@ == FilterExprV::Or(expr_views(e->Or_0@)),
{
    if e is Or {
        let v = e->Or_0@;
        assert forall|i: int| 0 <= i < v.len() implies e@->Or_0[i] == #[trigger] expr_views(v)[i] by {
            assert(expr_views(v)[i] == v[i]@);
        }
        assert(e@->Or_0 =~= expr_views(v));
    }
}

pub broadcast group group_filter {
    lemma_filter_values_push,
    lemma_expr_views_push,
    lemma_and_view,
    lemma_or_view,
}

impl FilterExpr {
    pub fn duplicate(&self) -> (r: FilterExpr)
        ensures
            r@ == self@,
        decreases self,
    {
        broadcast use group_filter;

        match self {
            FilterExpr::And(v) => {
                let mut out: Vec<FilterExpr> = Vec::new();
                let mut i: usize = 0;
                while i < v.len()
                    invariant
                        i <= v@.len(),
                        self is And,
                        v == self->And_0,
                        expr_views(out@) == expr_views(v@).take(i as int),
                    decreases v@.len() - i,
                {
                    let ghost old_out = out@;
                    let item = v[i].duplicate();
                    out.push(item);
                    assert(expr_views(out@) == expr_views(old_out).push(item@));
                    i += 1;
                    assert(expr_views(out@) =~= expr_views(v@).take(i as int));
                }
                assert(expr_views(v@).take(v@.len() as int) =~= expr_views(v@));
                FilterExpr::And(out)
            },
            FilterExpr::Or(v) => {
                let mut out: Vec<FilterExpr> = Vec::new();
                let mut i: usize = 0;
                while i < v.len()
                    invariant
                        i <= v@.len(),
                        self is Or,
                        v == self->Or_0,
                        expr_views(out@) == expr_views(v@).take(i as int),
                    decreases v@.len() - i,
                {
                    let ghost old_out = out@;
                    let item = v[i].duplicate();
                    out.push(item);
                    assert(expr_views(out@) == expr_views(old_out).push(item@));
                    i += 1;
                    assert(expr_views(out@) =~= expr_views(v@).take(i as int));
                }
                assert(expr_views(v@).take(v@.len() as int) =~= expr_views(v@));
                FilterExpr::Or(out)
            },
            FilterExpr::Not(inner) => FilterExpr::Not(Box::new((*inner).duplicate())),
            FilterExpr::Compare { field, op, value } => FilterExpr::Compare {
                field: field.clone(),
                op: *op,
                value: value.duplicate(),
            },
            FilterExpr::In { field, values } => {
                let mut out: Vec<FilterValue> = Vec::new();
                let mut i: usize = 0;
                while i < values.len()
                    invariant
                        i <= values@.len(),
                        filter_values(out@) == filter_values(values@).take(i as int),
                    decreases values@.len() - i,
                {
                    let ghost old_out = out@;
                    let item = values[i].duplicate();
                    out.push(item);
                    assert(filter_values(out@) == filter_values(old_out).push(item@));
                    i += 1;
                    assert(filter_values(out@) =~= filter_values(values@).take(i as int));
                }
                assert(filter_values(values@).take(values@.len() as int) =~= filter_values(values@));
                FilterExpr::In { field: field.clone(), values: out }
            },
            FilterExpr::StringFunc { func, field, arg } => FilterExpr::StringFunc {
                func: *func,
                field: field.clone(),
                arg: arg.clone(),
            },
            FilterExpr::Any { field, inner } => FilterExpr::Any {
                field: field.clone(),
                inner: Box::new((*inner).duplicate()),
            },
            FilterExpr::All { field, inner } => FilterExpr::All {
                field: field.clone(),
                inner: Box::new((*inner).duplicate()),
            },
            FilterExpr::DateCompare { left, op, value } => FilterExpr::DateCompare {
                left: left.duplicate(),
                op: *op,
                value: value.duplicate(),
            },
            FilterExpr::IsMatch { field, pattern } => FilterExpr::IsMatch {
                field: field.clone(),
                pattern: pattern.clone(),
            },
            FilterExpr::IsEmpty { field } => FilterExpr::IsEmpty { field: field.clone() },
            FilterExpr::IsNull { field } => FilterExpr::IsNull { field: field.clone() },
        }
    }
}

/// Reversing an operator twice gives it back.
pub proof fn law_reverse_is_involution(op: FilterOp)
    ensures
        reversed(reversed(op)) == op,
{
}

} // verus!
