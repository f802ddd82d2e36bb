//! How filter expressions are written, and that what is written reads back.
use crate::filter::date::{
    DateExprV, DateOperandV, DatePart, DateRefV, DateUnit, date_part_named, date_unit_named,
    normalized,
};
use crate::filter::expr::{
    FilterExprV, FilterOp, FilterValueV, StringFunc, op_named, reversed, string_func_named,
};
use crate::filter::parser::{
    and_at, and_rest_at, comparison_at, dateadd_args_at, datediff_args_at, datepart_args_at,
    filter_of, in_values_at, is_date_function, is_word, ismatch_args_at, ismatch_exprs,
    lambda_expr, lambda_field, listed_fields, maybe_utc_at, not_at, options_end, or_at,
    or_rest_at, primary_at, tok, value_at, value_or_utc_at,
};
use crate::filter::token::{TokenV, tokens};
use crate::filter::token_laws::{law_spaced_tokens_read_back, spaced, spells};
use crate::json::{Number, integer_of_rank};
use crate::text::{pieces, trim};
use vstd::prelude::*;

verus! {

// ---------------------------------------------------------------------------
// Writing an expression
// ---------------------------------------------------------------------------

/// The token of a word.
pub open spec fn word(text: Seq<char>) -> TokenV {
    TokenV::Ident(text)
}

/// How an operator is written.
pub open spec fn op_text(op: FilterOp) -> Seq<char> {
    match op {
        FilterOp::Eq => "eq"@,
        FilterOp::Ne => "ne"@,
        FilterOp::Gt => "gt"@,
        FilterOp::Ge => "ge"@,
        FilterOp::Lt => "lt"@,
        FilterOp::Le => "le"@,
    }
}

/// How a function on texts is written.
pub open spec fn func_text(func: StringFunc) -> Seq<char> {
    match func {
        StringFunc::StartsWith => "startswith"@,
        StringFunc::EndsWith => "endswith"@,
        StringFunc::Contains => "contains"@,
    }
}

/// How a value is written.
pub open spec fn value_token(value: FilterValueV) -> TokenV {
    match value {
        FilterValueV::String(s) => TokenV::String(s),
        FilterValueV::Number(r) => TokenV::Number(r),
        FilterValueV::Bool(true) => word("true"@),
        FilterValueV::Bool(false) => word("false"@),
        FilterValueV::Null => word("null"@),
    }
}

/// The values of a list from one on, with a comma before each but the first and a
/// closing parenthesis behind the last.
pub open spec fn listed_tokens(values: Seq<FilterValueV>, i: int) -> Seq<TokenV>
    decreases values.len() - i,
{
    if i >= values.len() {
        seq![]
    } else if i + 1 == values.len() {
        seq![value_token(values[i]), TokenV::RParen]
    } else {
        seq![value_token(values[i]), TokenV::Comma] + listed_tokens(values, i + 1)
    }
}

/// How an expression is written where others may stand beside it: `outer` is 0 where
/// nothing else stands, 1 between `or`s, and 2 between `and`s or behind `not`. `or`
/// binds less than `and`, and `and` less than `not`; parentheses stand where one is
/// inside another that binds more.
pub open spec fn written(e: FilterExprV, outer: nat) -> Seq<TokenV>
    decreases e, 1int,
{
    match e {
        FilterExprV::Or(cs) => if cs.len() == 0 {
            seq![]
        } else if outer == 0 {
            written(cs[0], 1) + written_rest(cs, 1, "or"@, 1)
        } else {
            seq![TokenV::LParen] + (written(cs[0], 1) + written_rest(cs, 1, "or"@, 1)) + seq![
                TokenV::RParen,
            ]
        },
        FilterExprV::And(cs) => if cs.len() == 0 {
            seq![]
        } else if outer <= 1 {
            written(cs[0], 2) + written_rest(cs, 1, "and"@, 2)
        } else {
            seq![TokenV::LParen] + (written(cs[0], 2) + written_rest(cs, 1, "and"@, 2)) + seq![
                TokenV::RParen,
            ]
        },
        FilterExprV::Not(inner) => seq![word("not"@)] + written(*inner, 2),
        FilterExprV::Compare { field, op, value } => seq![
            word(field),
            word(op_text(op)),
            value_token(value),
        ],
        FilterExprV::In { field, values } => seq![word(field), word("in"@), TokenV::LParen]
            + listed_tokens(values, 0),
        FilterExprV::StringFunc { func, field, arg } => seq![
            word(func_text(func)),
            TokenV::LParen,
            word(field),
            TokenV::Comma,
            TokenV::String(arg),
            TokenV::RParen,
        ],
        FilterExprV::Any { field, inner } => seq![
            word(field + "/any"@),
            TokenV::LParen,
            word("x"@),
            TokenV::Colon,
        ] + written(*inner, 2) + seq![TokenV::RParen],
        FilterExprV::All { field, inner } => seq![
            word(field + "/all"@),
            TokenV::LParen,
            word("x"@),
            TokenV::Colon,
        ] + written(*inner, 2) + seq![TokenV::RParen],
        FilterExprV::IsMatch { field, pattern } => seq![
            word("search"@),
            TokenV::Dot,
            word("ismatch"@),
            TokenV::LParen,
            TokenV::String(pattern),
            TokenV::Comma,
            word(field),
            TokenV::RParen,
        ],
        FilterExprV::IsEmpty { field } => seq![
            word("search"@),
            TokenV::Dot,
            word("isempty"@),
            TokenV::LParen,
            word(field),
            TokenV::RParen,
        ],
        FilterExprV::IsNull { field } => seq![
            word("search"@),
            TokenV::Dot,
            word("isnull"@),
            TokenV::LParen,
            word(field),
            TokenV::RParen,
        ],
        FilterExprV::DateCompare { .. } => seq![],
    }
}

/// Clauses from one on, with a word before each.
pub open spec fn written_rest(
    cs: Seq<FilterExprV>,
    i: int,
    between: Seq<char>,
    outer: nat,
) -> Seq<TokenV>
    decreases cs, cs.len() - i,
{
    if 0 <= i < cs.len() {
        seq![word(between)] + written(cs[i], outer) + written_rest(cs, i + 1, between, outer)
    } else {
        seq![]
    }
}

/// Whether an expression is a test of its own, not one made of others.
pub open spec fn is_test(e: FilterExprV) -> bool {
    !(e is And || e is Or || e is Not || e is DateCompare)
}

/// Whether an expression can be written: clauses come in twos or more, lists are not
/// empty, a field's name is not `not`, and the body of a lambda is a test.
pub open spec fn writable(e: FilterExprV) -> bool
    decreases e,
{
    match e {
        FilterExprV::Or(cs) => cs.len() >= 2 && forall|i: int|
            0 <= i < cs.len() ==> writable(#[trigger] cs[i]),
        FilterExprV::And(cs) => cs.len() >= 2 && forall|i: int|
            0 <= i < cs.len() ==> writable(#[trigger] cs[i]),
        FilterExprV::Not(inner) => writable(*inner),
        FilterExprV::Compare { field, .. } => field != "not"@,
        FilterExprV::In { field, values } => field != "not"@ && values.len() > 0,
        FilterExprV::Any { field, inner } => is_test(*inner) && writable(*inner),
        FilterExprV::All { field, inner } => is_test(*inner) && writable(*inner),
        FilterExprV::DateCompare { .. } => false,
        _ => true,
    }
}

/// Whether tokens stand at a place.
pub open spec fn stands(t: Seq<TokenV>, p: int, w: Seq<TokenV>) -> bool {
    0 <= p && p + w.len() <= t.len() && forall|i: int|
        p <= i < p + w.len() ==> #[trigger] t[i] == w[i - p]
}

proof fn lemma_stands_split(t: Seq<TokenV>, p: int, a: Seq<TokenV>, b: Seq<TokenV>)
    requires
        stands(t, p, a + b),
    ensures
        stands(t, p, a),
        stands(t, p + a.len(), b),
{
    let w = a + b;
    assert forall|i: int| p <= i < p + a.len() implies #[trigger] t[i] == a[i - p] by {
        assert(w[i - p] == a[i - p]);
    }
    assert forall|i: int| p + a.len() <= i < p + a.len() + b.len() implies #[trigger] t[i] == b[i
        - (p + a.len())] by {
        assert(w[i - p] == b[i - p - a.len()]);
    }
}

// ---------------------------------------------------------------------------
// Names
// ---------------------------------------------------------------------------

proof fn lemma_op_text(op: FilterOp)
    ensures
        op_named(op_text(op)) == Some(op),
        op_text(op) != "any"@,
        op_text(op) != "all"@,
        op_text(op) != "in"@,
{
    reveal_strlit("eq");
    reveal_strlit("ne");
    reveal_strlit("gt");
    reveal_strlit("ge");
    reveal_strlit("lt");
    reveal_strlit("le");
    reveal_strlit("any");
    reveal_strlit("all");
    reveal_strlit("in");
    assert("eq"@[0] == 'e' && "ne"@[0] == 'n' && "gt"@[1] == 't' && "ge"@[1] == 'e');
    assert("gt"@[0] == 'g' && "ge"@[0] == 'g' && "lt"@[0] == 'l' && "le"@[0] == 'l');
    assert("lt"@[1] == 't' && "le"@[1] == 'e' && "in"@[0] == 'i');
}

proof fn lemma_value_token(t: Seq<TokenV>, p: int, value: FilterValueV)
    requires
        tok(t, p) == Some(value_token(value)),
    ensures
        value_at(t, p) == Ok::<(FilterValueV, int), Seq<char>>((value, p + 1)),
        !is_word(t, p, "utcdatetime"@),
{
    reveal_strlit("true");
    reveal_strlit("false");
    reveal_strlit("null");
    reveal_strlit("utcdatetime");
    assert("true"@[0] == 't' && "null"@[0] == 'n');
    assert("true"@.len() == 4 && "false"@.len() == 5 && "null"@.len() == 4);
    assert("utcdatetime"@.len() == 11);
}

proof fn lemma_no_lambda(name: Seq<char>)
    requires
        name.len() == 0 || name.last() != 'y' && name.last() != 'l',
    ensures
        lambda_field(name) is None,
{
    reveal_strlit("/any");
    reveal_strlit("/all");
    if "/any"@.is_suffix_of(name) {
        assert("/any"@[3] == name.subrange(name.len() - 4, name.len() as int)[3]);
    }
    if "/all"@.is_suffix_of(name) {
        assert("/all"@[3] == name.subrange(name.len() - 4, name.len() as int)[3]);
    }
}

proof fn lemma_lambda(field: Seq<char>)
    ensures
        lambda_field(field + "/any"@) == Some((field, "any"@)),
        lambda_field(field + "/all"@) == Some((field, "all"@)),
        "any"@ != "all"@,
        field + "/any"@ != "not"@,
        field + "/all"@ != "not"@,
{
    reveal_strlit("/any");
    reveal_strlit("/all");
    reveal_strlit("any");
    reveal_strlit("all");
    reveal_strlit("not");
    let a = field + "/any"@;
    let b = field + "/all"@;
    assert(a.take(a.len() - 4) =~= field);
    assert(b.take(b.len() - 4) =~= field);
    assert(a.subrange(a.len() - 4, a.len() as int) =~= "/any"@);
    assert(b.subrange(b.len() - 4, b.len() as int) =~= "/all"@);
    assert(b.last() == 'l');
    assert("any"@[1] == 'n' && "all"@[1] == 'l');
}

// ---------------------------------------------------------------------------
// Tests
// ---------------------------------------------------------------------------

proof fn lemma_values_read(
    t: Seq<TokenV>,
    p: int,
    values: Seq<FilterValueV>,
    i: int,
)
    requires
        0 <= i < values.len(),
        stands(t, p, listed_tokens(values, i)),
    ensures
        in_values_at(t, p, values.take(i)) == Ok::<(Seq<FilterValueV>, int), Seq<char>>(
            (values, p + listed_tokens(values, i).len()),
        ),
    decreases values.len() - i,
{
    let w = listed_tokens(values, i);
    assert(t[p] == w[0]);
    assert(t[p + 1] == w[1]);
    lemma_value_token(t, p, values[i]);
    assert(values.take(i).push(values[i]) =~= values.take(i + 1));
    if i + 1 == values.len() {
        assert(values.take(i + 1) =~= values);
    } else {
        let head = seq![value_token(values[i]), TokenV::Comma];
        lemma_stands_split(t, p, head, listed_tokens(values, i + 1));
        lemma_values_read(t, p + 2, values, i + 1);
    }
}

proof fn lemma_compare_reads_back(t: Seq<TokenV>, p: int, e: FilterExprV)
    requires
        e is Compare,
        writable(e),
        stands(t, p, written(e, 2)),
    ensures
        comparison_at(t, p) == Ok::<(FilterExprV, int), Seq<char>>(
            (e, p + written(e, 2).len()),
        ),
        written(e, 2).len() > 0,
        t[p] is Ident,
        t[p] != word("not"@),
{
    let w = written(e, 2);
    let op = e->Compare_op;
    let value = e->Compare_value;
    assert(t[p] == w[0] && t[p + 1] == w[1] && t[p + 2] == w[2]);
    lemma_op_text(op);
    lemma_value_token(t, p + 2, value);
    assert(maybe_utc_at(t, p + 2) == Ok::<(Option<Seq<char>>, int), Seq<char>>((None, p + 2)));
}

proof fn lemma_in_reads_back(t: Seq<TokenV>, p: int, e: FilterExprV)
    requires
        e is In,
        writable(e),
        stands(t, p, written(e, 2)),
    ensures
        comparison_at(t, p) == Ok::<(FilterExprV, int), Seq<char>>(
            (e, p + written(e, 2).len()),
        ),
        written(e, 2).len() > 0,
        t[p] is Ident,
        t[p] != word("not"@),
{
    let w = written(e, 2);
    let field = e->In_field;
    let values = e->values;
    let head = seq![word(field), word("in"@), TokenV::LParen];
    lemma_stands_split(t, p, head, listed_tokens(values, 0));
    assert(t[p] == head[0] && t[p + 1] == head[1] && t[p + 2] == head[2]);
    reveal_strlit("in");
    reveal_strlit("any");
    reveal_strlit("all");
    assert("in"@.len() == 2 && "any"@.len() == 3 && "all"@.len() == 3);
    lemma_values_read(t, p + 3, values, 0);
    assert(values.take(0) =~= seq![]);
}

proof fn lemma_function_reads_back(t: Seq<TokenV>, p: int, e: FilterExprV)
    requires
        e is StringFunc,
        writable(e),
        stands(t, p, written(e, 2)),
    ensures
        comparison_at(t, p) == Ok::<(FilterExprV, int), Seq<char>>(
            (e, p + written(e, 2).len()),
        ),
        written(e, 2).len() > 0,
        t[p] is Ident,
        t[p] != word("not"@),
{
    let w = written(e, 2);
    assert(t[p] == w[0] && t[p + 1] == w[1] && t[p + 2] == w[2]);
    assert(t[p + 3] == w[3] && t[p + 4] == w[4] && t[p + 5] == w[5]);
    lemma_func_text(e->func);
}

proof fn lemma_match_reads_back(t: Seq<TokenV>, p: int, e: FilterExprV)
    requires
        e is IsMatch,
        writable(e),
        stands(t, p, written(e, 2)),
    ensures
        comparison_at(t, p) == Ok::<(FilterExprV, int), Seq<char>>(
            (e, p + written(e, 2).len()),
        ),
        written(e, 2).len() > 0,
        t[p] is Ident,
        t[p] != word("not"@),
{
    let w = written(e, 2);
    assert(t[p] == w[0] && t[p + 1] == w[1] && t[p + 2] == w[2] && t[p + 3] == w[3]);
    assert(t[p + 4] == w[4] && t[p + 5] == w[5] && t[p + 6] == w[6] && t[p + 7] == w[7]);
    lemma_search_word();
    let exprs = ismatch_exprs(seq![e->IsMatch_field], e->pattern);
    assert(exprs =~= seq![e]);
    assert(options_end(t, p + 7, "ismatch"@) == Ok::<int, Seq<char>>(p + 7));
    assert(ismatch_args_at(t, p + 4, "ismatch"@) == Ok::<(Seq<FilterExprV>, int), Seq<char>>(
        (exprs, p + 8),
    ));
}

proof fn lemma_empty_reads_back(t: Seq<TokenV>, p: int, e: FilterExprV)
    requires
        e is IsEmpty,
        writable(e),
        stands(t, p, written(e, 2)),
    ensures
        comparison_at(t, p) == Ok::<(FilterExprV, int), Seq<char>>(
            (e, p + written(e, 2).len()),
        ),
        written(e, 2).len() > 0,
        t[p] is Ident,
        t[p] != word("not"@),
{
    let w = written(e, 2);
    assert(t[p] == w[0] && t[p + 1] == w[1] && t[p + 2] == w[2]);
    assert(t[p + 3] == w[3] && t[p + 4] == w[4] && t[p + 5] == w[5]);
    lemma_search_word();
}

proof fn lemma_null_reads_back(t: Seq<TokenV>, p: int, e: FilterExprV)
    requires
        e is IsNull,
        writable(e),
        stands(t, p, written(e, 2)),
    ensures
        comparison_at(t, p) == Ok::<(FilterExprV, int), Seq<char>>(
            (e, p + written(e, 2).len()),
        ),
        written(e, 2).len() > 0,
        t[p] is Ident,
        t[p] != word("not"@),
{
    let w = written(e, 2);
    assert(t[p] == w[0] && t[p + 1] == w[1] && t[p + 2] == w[2]);
    assert(t[p + 3] == w[3] && t[p + 4] == w[4] && t[p + 5] == w[5]);
    lemma_search_word();
}

proof fn lemma_any_reads_back(t: Seq<TokenV>, p: int, e: FilterExprV)
    requires
        e is Any,
        writable(e),
        stands(t, p, written(e, 2)),
    ensures
        comparison_at(t, p) == Ok::<(FilterExprV, int), Seq<char>>(
            (e, p + written(e, 2).len()),
        ),
        written(e, 2).len() > 0,
        t[p] is Ident,
        t[p] != word("not"@),
    decreases e, 0int,
{
    let field = e->Any_field;
    let inner = *e->Any_inner;
    lemma_lambda(field);
    lemma_lambda_reads_back(t, p, "any"@, field, inner, word(field + "/any"@));
    assert(lambda_expr("any"@, field, inner) == e);
}

proof fn lemma_all_reads_back(t: Seq<TokenV>, p: int, e: FilterExprV)
    requires
        e is All,
        writable(e),
        stands(t, p, written(e, 2)),
    ensures
        comparison_at(t, p) == Ok::<(FilterExprV, int), Seq<char>>(
            (e, p + written(e, 2).len()),
        ),
        written(e, 2).len() > 0,
        t[p] is Ident,
        t[p] != word("not"@),
    decreases e, 0int,
{
    let field = e->All_field;
    let inner = *e->All_inner;
    lemma_lambda(field);
    lemma_lambda_reads_back(t, p, "all"@, field, inner, word(field + "/all"@));
    assert(lambda_expr("all"@, field, inner) == e);
}

/// A test, written at a place, reads back from there.
proof fn lemma_test_reads_back(t: Seq<TokenV>, p: int, e: FilterExprV)
    requires
        is_test(e),
        writable(e),
        stands(t, p, written(e, 2)),
    ensures
        comparison_at(t, p) == Ok::<(FilterExprV, int), Seq<char>>(
            (e, p + written(e, 2).len()),
        ),
        written(e, 2).len() > 0,
        t[p] is Ident,
        t[p] != word("not"@),
    decreases e, 1int,
{
    match e {
        FilterExprV::Compare { .. } => lemma_compare_reads_back(t, p, e),
        FilterExprV::In { .. } => lemma_in_reads_back(t, p, e),
        FilterExprV::StringFunc { .. } => lemma_function_reads_back(t, p, e),
        FilterExprV::Any { .. } => lemma_any_reads_back(t, p, e),
        FilterExprV::All { .. } => lemma_all_reads_back(t, p, e),
        FilterExprV::IsMatch { .. } => lemma_match_reads_back(t, p, e),
        FilterExprV::IsEmpty { .. } => lemma_empty_reads_back(t, p, e),
        FilterExprV::IsNull { .. } => lemma_null_reads_back(t, p, e),
        _ => {},
    }
}

proof fn lemma_func_text(func: StringFunc)
    ensures
        string_func_named(func_text(func)) == Some(func),
        lambda_field(func_text(func)) is None,
        !is_date_function(func_text(func)),
        func_text(func) != "not"@,
{
    reveal_strlit("startswith");
    reveal_strlit("endswith");
    reveal_strlit("contains");
    reveal_strlit("datepart");
    reveal_strlit("dateadd");
    reveal_strlit("datediff");
    reveal_strlit("utcdatetime");
    reveal_strlit("not");
    assert("startswith"@[0] == 's' && "endswith"@[0] == 'e' && "contains"@[0] == 'c');
    assert("datepart"@[0] == 'd' && "dateadd"@[0] == 'd' && "datediff"@[0] == 'd');
    assert("endswith"@[0] == 'e' && "utcdatetime"@[0] == 'u');
    lemma_no_lambda(func_text(func));
}

proof fn lemma_search_word()
    ensures
        "search"@ != "not"@,
        !is_date_function("search"@),
        "isempty"@ != "ismatch"@,
        "isempty"@ != "ismatchscoring"@,
        "isnull"@ != "isempty"@,
        "isnull"@ != "ismatch"@,
        "isnull"@ != "ismatchscoring"@,
{
    reveal_strlit("not");
    reveal_strlit("search");
    reveal_strlit("datepart");
    reveal_strlit("dateadd");
    reveal_strlit("datediff");
    reveal_strlit("utcdatetime");
    reveal_strlit("isempty");
    reveal_strlit("isnull");
    reveal_strlit("ismatch");
    reveal_strlit("ismatchscoring");
    assert("isempty"@[2] == 'e' && "ismatch"@[2] == 'm');
    assert("search"@.len() == 6 && "not"@.len() == 3);
    assert("datepart"@.len() == 8 && "dateadd"@.len() == 7 && "datediff"@.len() == 8);
    assert("utcdatetime"@.len() == 11 && "isnull"@.len() == 6 && "isempty"@.len() == 7);
    assert("ismatch"@.len() == 7 && "ismatchscoring"@.len() == 14);
}

proof fn lemma_lambda_reads_back(
    t: Seq<TokenV>,
    p: int,
    kind: Seq<char>,
    field: Seq<char>,
    inner: FilterExprV,
    first: TokenV,
)
    requires
        is_test(inner),
        writable(inner),
        first is Ident,
        lambda_field(first->Ident_0) == Some((field, kind)),
        stands(
            t,
            p,
            seq![first, TokenV::LParen, word("x"@), TokenV::Colon] + written(inner, 2) + seq![
                TokenV::RParen,
            ],
        ),
    ensures
        comparison_at(t, p) == Ok::<(FilterExprV, int), Seq<char>>(
            (lambda_expr(kind, field, inner), p + 5 + written(inner, 2).len()),
        ),
        t[p] == first,
    decreases inner, 2int,
{
    let head = seq![first, TokenV::LParen, word("x"@), TokenV::Colon];
    lemma_stands_split(t, p, head + written(inner, 2), seq![TokenV::RParen]);
    lemma_stands_split(t, p, head, written(inner, 2));
    lemma_test_reads_back(t, p + 4, inner);
    assert(t[p] == head[0] && t[p + 1] == head[1] && t[p + 2] == head[2] && t[p + 3] == head[3]);
    let end = p + 4 + written(inner, 2).len();
    assert(t[end] == seq![TokenV::RParen][0]);
}

// ---------------------------------------------------------------------------
// Expressions
// ---------------------------------------------------------------------------

/// Where what an expression is written between ends: nothing that would join it stands
/// behind it.
pub open spec fn ends_at(t: Seq<TokenV>, q: int, outer: nat) -> bool {
    (outer <= 1 ==> !is_word(t, q, "and"@)) && (outer == 0 ==> !is_word(t, q, "or"@))
}

/// The reading of an expression between others of a kind.
pub open spec fn read_at(t: Seq<TokenV>, p: int, outer: nat) -> Result<
    (FilterExprV, int),
    Seq<char>,
> {
    if outer == 0 {
        or_at(t, p)
    } else if outer == 1 {
        and_at(t, p)
    } else {
        not_at(t, p)
    }
}

/// In which turn the writings of one expression are shown to read back.
spec fn turn(e: FilterExprV, outer: nat) -> int {
    match e {
        FilterExprV::Or(_) => if outer == 0 {
            0
        } else if outer == 2 {
            1
        } else {
            2
        },
        FilterExprV::And(_) => if outer == 1 {
            0
        } else if outer == 0 {
            1
        } else {
            2
        },
        _ => 2 - outer,
    }
}

proof fn lemma_joining_words()
    ensures
        "and"@ != "or"@,
{
    reveal_strlit("and");
    reveal_strlit("or");
    assert("and"@.len() == 3 && "or"@.len() == 2);
}

proof fn lemma_and_rest(t: Seq<TokenV>, p: int, cs: Seq<FilterExprV>, i: int)
    requires
        1 <= i <= cs.len(),
        forall|k: int| 0 <= k < cs.len() ==> writable(#[trigger] cs[k]),
        stands(t, p, written_rest(cs, i, "and"@, 2)),
        !is_word(t, p + written_rest(cs, i, "and"@, 2).len(), "and"@),
    ensures
        and_rest_at(t, p, cs.take(i)) == Ok::<(FilterExprV, int), Seq<char>>(
            (FilterExprV::And(cs), p + written_rest(cs, i, "and"@, 2).len()),
        ),
    decreases cs, cs.len() - i,
{
    if i == cs.len() {
        assert(cs.take(i) =~= cs);
    } else {
        let clause = written(cs[i], 2);
        let rest = written_rest(cs, i + 1, "and"@, 2);
        lemma_stands_split(t, p, seq![word("and"@)] + clause, rest);
        lemma_stands_split(t, p, seq![word("and"@)], clause);
        assert(t[p] == seq![word("and"@)][0]);
        lemma_reads_back(t, p + 1, cs[i], 2);
        lemma_and_rest(t, p + 1 + clause.len(), cs, i + 1);
        assert(cs.take(i).push(cs[i]) =~= cs.take(i + 1));
    }
}

proof fn lemma_or_rest(t: Seq<TokenV>, p: int, cs: Seq<FilterExprV>, i: int)
    requires
        1 <= i <= cs.len(),
        forall|k: int| 0 <= k < cs.len() ==> writable(#[trigger] cs[k]),
        stands(t, p, written_rest(cs, i, "or"@, 1)),
        !is_word(t, p + written_rest(cs, i, "or"@, 1).len(), "or"@),
        !is_word(t, p + written_rest(cs, i, "or"@, 1).len(), "and"@),
    ensures
        or_rest_at(t, p, cs.take(i)) == Ok::<(FilterExprV, int), Seq<char>>(
            (FilterExprV::Or(cs), p + written_rest(cs, i, "or"@, 1).len()),
        ),
    decreases cs, cs.len() - i,
{
    if i == cs.len() {
        assert(cs.take(i) =~= cs);
    } else {
        let clause = written(cs[i], 1);
        let rest = written_rest(cs, i + 1, "or"@, 1);
        let next = p + 1 + clause.len();
        lemma_stands_split(t, p, seq![word("or"@)] + clause, rest);
        lemma_stands_split(t, p, seq![word("or"@)], clause);
        assert(t[p] == seq![word("or"@)][0]);
        lemma_joining_words();
        if i + 1 < cs.len() {
            assert(rest[0] == word("or"@));
            assert(t[next] == rest[0]);
        }
        lemma_reads_back(t, p + 1, cs[i], 1);
        lemma_or_rest(t, next, cs, i + 1);
        assert(cs.take(i).push(cs[i]) =~= cs.take(i + 1));
    }
}

proof fn lemma_clauses_writable(e: FilterExprV)
    requires
        writable(e),
    ensures
        e matches FilterExprV::And(cs) ==> cs.len() >= 2 && forall|k: int|
            0 <= k < cs.len() ==> writable(#[trigger] cs[k]),
        e matches FilterExprV::Or(cs) ==> cs.len() >= 2 && forall|k: int|
            0 <= k < cs.len() ==> writable(#[trigger] cs[k]),
{
}

/// An expression that nothing joins to another reads the same further out.
proof fn lemma_unjoined(t: Seq<TokenV>, p: int, e: FilterExprV, q: int, outer: nat)
    requires
        outer <= 1,
        read_at(t, p, outer + 1) == Ok::<(FilterExprV, int), Seq<char>>((e, q)),
        ends_at(t, q, outer),
    ensures
        read_at(t, p, outer) == Ok::<(FilterExprV, int), Seq<char>>((e, q)),
{
}

proof fn lemma_test_alone(t: Seq<TokenV>, p: int, e: FilterExprV, q: int)
    requires
        comparison_at(t, p) == Ok::<(FilterExprV, int), Seq<char>>((e, q)),
        0 <= p < t.len(),
        t[p] is Ident,
        t[p] != word("not"@),
    ensures
        not_at(t, p) == Ok::<(FilterExprV, int), Seq<char>>((e, q)),
{
    assert(primary_at(t, p) == comparison_at(t, p));
}

proof fn lemma_or_reads_back(t: Seq<TokenV>, p: int, e: FilterExprV, cs: Seq<FilterExprV>)
    requires
        e == FilterExprV::Or(cs),
        writable(e),
        stands(t, p, written(e, 0)),
        ends_at(t, p + written(e, 0).len(), 0),
    ensures
        or_at(t, p) == Ok::<(FilterExprV, int), Seq<char>>((e, p + written(e, 0).len())),
        written(e, 0).len() > 0,
    decreases cs, cs.len(),
{
    lemma_clauses_writable(e);
    lemma_joining_words();
    assert(e->Or_0 == cs);
    let first = written(cs[0], 1);
    let rest = written_rest(cs, 1, "or"@, 1);
    lemma_stands_split(t, p, first, rest);
    assert(rest[0] == word("or"@));
    let q = p + first.len();
    assert(t[q] == rest[0]);
    lemma_reads_back(t, p, cs[0], 1);
    lemma_or_rest(t, q, cs, 1);
    assert(cs.take(1) =~= seq![cs[0]]);
    assert(and_at(t, p) == Ok::<(FilterExprV, int), Seq<char>>((cs[0], q)));
}

proof fn lemma_and_reads_back(t: Seq<TokenV>, p: int, e: FilterExprV, cs: Seq<FilterExprV>)
    requires
        e == FilterExprV::And(cs),
        writable(e),
        stands(t, p, written(e, 1)),
        ends_at(t, p + written(e, 1).len(), 1),
    ensures
        and_at(t, p) == Ok::<(FilterExprV, int), Seq<char>>((e, p + written(e, 1).len())),
        written(e, 1).len() > 0,
    decreases cs, cs.len(),
{
    lemma_clauses_writable(e);
    assert(e->And_0 == cs);
    let first = written(cs[0], 2);
    let rest = written_rest(cs, 1, "and"@, 2);
    lemma_stands_split(t, p, first, rest);
    assert(rest[0] == word("and"@));
    let q = p + first.len();
    assert(t[q] == rest[0]);
    lemma_reads_back(t, p, cs[0], 2);
    lemma_and_rest(t, q, cs, 1);
    assert(cs.take(1) =~= seq![cs[0]]);
    assert(not_at(t, p) == Ok::<(FilterExprV, int), Seq<char>>((cs[0], q)));
}

/// An expression, written at a place, reads back from there.
proof fn lemma_reads_back(t: Seq<TokenV>, p: int, e: FilterExprV, outer: nat)
    requires
        outer <= 2,
        writable(e),
        stands(t, p, written(e, outer)),
        ends_at(t, p + written(e, outer).len(), outer),
    ensures
        read_at(t, p, outer) == Ok::<(FilterExprV, int), Seq<char>>(
            (e, p + written(e, outer).len()),
        ),
        written(e, outer).len() > 0,
    decreases e, turn(e, outer),
{
    let q = p + written(e, outer).len();
    if e is Or && outer == 0 {
        lemma_or_reads_back(t, p, e, e->Or_0);
    } else if e is And && outer == 1 {
        lemma_and_reads_back(t, p, e, e->And_0);
    } else if outer <= 1 {
        assert(written(e, outer + 1) == written(e, outer));
        lemma_reads_back(t, p, e, outer + 1);
        lemma_unjoined(t, p, e, q, outer);
    } else if e is Or || e is And {
        lemma_parenthesized(t, p, e);
    } else if e is Not {
        lemma_not_reads_back(t, p, e, *e->Not_0);
    } else {
        lemma_test_reads_back(t, p, e);
        lemma_test_alone(t, p, e, q);
    }
}

proof fn lemma_not_reads_back(t: Seq<TokenV>, p: int, e: FilterExprV, inner: FilterExprV)
    requires
        e == FilterExprV::Not(Box::new(inner)),
        writable(e),
        stands(t, p, written(e, 2)),
    ensures
        not_at(t, p) == Ok::<(FilterExprV, int), Seq<char>>((e, p + written(e, 2).len())),
    decreases inner, 3int,
{
    assert(written(e, 2) == seq![word("not"@)] + written(inner, 2));
    lemma_stands_split(t, p, seq![word("not"@)], written(inner, 2));
    assert(t[p] == seq![word("not"@)][0]);
    lemma_reads_back(t, p + 1, inner, 2);
}

proof fn lemma_parenthesized(t: Seq<TokenV>, p: int, e: FilterExprV)
    requires
        e is And || e is Or,
        writable(e),
        stands(t, p, written(e, 2)),
    ensures
        not_at(t, p) == Ok::<(FilterExprV, int), Seq<char>>((e, p + written(e, 2).len())),
        written(e, 2).len() > 0,
    decreases e, turn(e, 2), 0int,
{
    let inside = written(e, 0);
    assert(written(e, 2) == seq![TokenV::LParen] + inside + seq![TokenV::RParen]);
    lemma_stands_split(t, p, seq![TokenV::LParen] + inside, seq![TokenV::RParen]);
    lemma_stands_split(t, p, seq![TokenV::LParen], inside);
    let q = p + 1 + inside.len();
    assert(t[p] == seq![TokenV::LParen][0]);
    assert(t[q] == seq![TokenV::RParen][0]);
    lemma_reads_back(t, p + 1, e, 0);
    assert(or_at(t, p + 1) == Ok::<(FilterExprV, int), Seq<char>>((e, q)));
    lemma_in_parentheses(t, p, e, q);
}

proof fn lemma_in_parentheses(t: Seq<TokenV>, p: int, e: FilterExprV, q: int)
    requires
        tok(t, p) == Some(TokenV::LParen),
        or_at(t, p + 1) == Ok::<(FilterExprV, int), Seq<char>>((e, q)),
        tok(t, q) == Some(TokenV::RParen),
    ensures
        not_at(t, p) == Ok::<(FilterExprV, int), Seq<char>>((e, q + 1)),
{
    assert(primary_at(t, p) == Ok::<(FilterExprV, int), Seq<char>>((e, q + 1)));
}

/// What is written of an expression reads back as the expression: `and` binds more than
/// `or`, `not` more than both, and all clauses and list items are kept in their order.
/// The same holds in parentheses; a text that goes on behind an expression is refused.
pub proof fn law_written_filter_reads_back(e: FilterExprV, more: TokenV, s: Seq<char>)
    requires
        writable(e),
    ensures
        or_at(written(e, 0), 0) == Ok::<(FilterExprV, int), Seq<char>>(
            (e, written(e, 0).len() as int),
        ),
        tokens(s) == Ok::<Seq<TokenV>, Seq<char>>(written(e, 0)) ==> filter_of(s) == Ok::<
            FilterExprV,
            Seq<char>,
        >(e),
        tokens(s) == Ok::<Seq<TokenV>, Seq<char>>(
            seq![TokenV::LParen] + written(e, 0) + seq![TokenV::RParen],
        ) ==> filter_of(s) == Ok::<FilterExprV, Seq<char>>(e),
        tokens(s) == Ok::<Seq<TokenV>, Seq<char>>(written(e, 0).push(more)) && more != word("and"@)
            && more != word("or"@) ==> filter_of(s) is Err,
{
    let w = written(e, 0);
    lemma_reads_back(w, 0, e, 0);
    let t = w.push(more);
    if more != word("and"@) && more != word("or"@) {
        lemma_reads_back(t, 0, e, 0);
    }
    let u = seq![TokenV::LParen] + w + seq![TokenV::RParen];
    assert(stands(u, 1, w));
    assert(u[w.len() as int + 1] == TokenV::RParen);
    lemma_reads_back(u, 1, e, 0);
    assert(u[0] == TokenV::LParen);
}

/// The text of an expression, token by token, reads back as the expression.
pub proof fn law_filter_text_reads_back(e: FilterExprV, parts: Seq<Seq<char>>)
    requires
        writable(e),
        parts.len() == written(e, 0).len(),
        forall|i: int| 0 <= i < parts.len() ==> spells(#[trigger] parts[i], written(e, 0)[i]),
    ensures
        filter_of(spaced(parts)) == Ok::<FilterExprV, Seq<char>>(e),
{
    law_spaced_tokens_read_back(parts, written(e, 0));
    law_written_filter_reads_back(e, TokenV::Dot, spaced(parts));
}

/// A text without tokens is refused, and so is one that starts with what starts no
/// expression.
pub proof fn law_no_expression_is_refused(s: Seq<char>, t: Seq<TokenV>)
    requires
        tokens(s) == Ok::<Seq<TokenV>, Seq<char>>(t),
        t.len() == 0 || !(t[0] is Ident || t[0] is LParen),
    ensures
        filter_of(s) is Err,
{
    if t.len() > 0 {
        assert(comparison_at(t, 0) is Err);
        assert(primary_at(t, 0) is Err);
        assert(not_at(t, 0) is Err);
        assert(and_at(t, 0) is Err);
    }
}

/// A field is followed by an operator, and that by a value.
pub proof fn law_broken_comparison_is_refused(
    t: Seq<TokenV>,
    p: int,
    field: Seq<char>,
    op: FilterOp,
    second: TokenV,
    third: TokenV,
)
    ensures
        stands(t, p, seq![word(field), second]) && !(second is Ident || second is LParen || second
            is Dot) ==> comparison_at(t, p) is Err,
        stands(t, p, seq![word(field), word(op_text(op)), third]) && !(third is Ident
            || third is String || third is Number) ==> comparison_at(t, p) is Err,
        t.len() == p + 1 && stands(t, p, seq![word(field)]) ==> comparison_at(t, p) is Err,
{
    lemma_op_text(op);
    if stands(t, p, seq![word(field), second]) {
        assert(t[p] == seq![word(field), second][0]);
        assert(t[p + 1] == seq![word(field), second][1]);
    }
    if stands(t, p, seq![word(field), word(op_text(op)), third]) {
        let w = seq![word(field), word(op_text(op)), third];
        assert(t[p] == w[0]);
        assert(t[p + 1] == w[1]);
        assert(t[p + 2] == w[2]);
    }
    if stands(t, p, seq![word(field)]) {
        assert(t[p] == seq![word(field)][0]);
    }
}

/// Whether an operator holds of two integers.
pub open spec fn holds_of(op: FilterOp, a: int, b: int) -> bool {
    match op {
        FilterOp::Eq => a == b,
        FilterOp::Ne => a != b,
        FilterOp::Gt => a > b,
        FilterOp::Ge => a >= b,
        FilterOp::Lt => a < b,
        FilterOp::Le => a <= b,
    }
}

/// A reversed operator holds of two sides exactly where the operator holds of them
/// swapped.
pub proof fn law_reversed_operator(op: FilterOp, a: int, b: int)
    ensures
        holds_of(reversed(op), a, b) == holds_of(op, b, a),
{
}

// ---------------------------------------------------------------------------
// Dates
// ---------------------------------------------------------------------------

/// How a part of a date is written.
pub open spec fn part_text(part: DatePart) -> Seq<char> {
    match part {
        DatePart::Year => "year"@,
        DatePart::Quarter => "quarter"@,
        DatePart::Month => "month"@,
        DatePart::Week => "week"@,
        DatePart::Day => "day"@,
        DatePart::Hour => "hour"@,
        DatePart::Minute => "minute"@,
        DatePart::Second => "second"@,
        DatePart::DayOfWeek => "dayofweek"@,
        DatePart::DayOfYear => "dayofyear"@,
    }
}

/// How a unit of time is written.
pub open spec fn unit_text(unit: DateUnit) -> Seq<char> {
    match unit {
        DateUnit::Year => "year"@,
        DateUnit::Quarter => "quarter"@,
        DateUnit::Month => "month"@,
        DateUnit::Week => "week"@,
        DateUnit::Day => "day"@,
        DateUnit::Hour => "hour"@,
        DateUnit::Minute => "minute"@,
        DateUnit::Second => "second"@,
    }
}

proof fn lemma_part_text(part: DatePart, unit: DateUnit)
    ensures
        date_part_named(part_text(part)) == Some(part),
        date_unit_named(unit_text(unit)) == Some(unit),
{
    reveal_strlit("year");
    reveal_strlit("quarter");
    reveal_strlit("month");
    reveal_strlit("week");
    reveal_strlit("day");
    reveal_strlit("hour");
    reveal_strlit("minute");
    reveal_strlit("second");
    reveal_strlit("dayofweek");
    reveal_strlit("dayofyear");
    assert("year"@[0] == 'y' && "quarter"@[0] == 'q' && "week"@[0] == 'w' && "day"@[0] == 'd');
    assert("month"@[1] == 'o' && "minute"@[1] == 'i' && "hour"@[0] == 'h' && "second"@[0] == 's');
    assert("month"@[0] == 'm' && "minute"@[0] == 'm' && "day"@.len() == 3);
    assert("dayofweek"@[5] == 'w' && "dayofyear"@[5] == 'y');
    assert("dayofweek"@[0] == 'd' && "dayofyear"@[0] == 'd');
    assert("dayofweek"@.len() == 9 && "dayofyear"@.len() == 9);
}

proof fn lemma_date_words()
    ensures
        lambda_field("datepart"@) is None,
        lambda_field("dateadd"@) is None,
        lambda_field("datediff"@) is None,
        lambda_field("utcdatetime"@) is None,
        "dateadd"@ != "datepart"@,
        "datediff"@ != "datepart"@,
        "datediff"@ != "dateadd"@,
        "utcdatetime"@ != "datepart"@,
        "datepart"@ != "utcdatetime"@,
        "dateadd"@ != "utcdatetime"@,
        "datediff"@ != "utcdatetime"@,
{
    reveal_strlit("datepart");
    reveal_strlit("dateadd");
    reveal_strlit("datediff");
    reveal_strlit("utcdatetime");
    assert("datepart"@.len() == 8 && "dateadd"@.len() == 7 && "utcdatetime"@.len() == 11);
    assert("datepart"@[4] == 'p' && "datediff"@[4] == 'd' && "datediff"@.len() == 8);
    lemma_no_lambda("datepart"@);
    lemma_no_lambda("dateadd"@);
    lemma_no_lambda("datediff"@);
    lemma_no_lambda("utcdatetime"@);
}

/// `datepart(part, field) op value` compares that part of the field.
pub proof fn law_datepart_reads_back(
    t: Seq<TokenV>,
    p: int,
    part: DatePart,
    field: Seq<char>,
    op: FilterOp,
    value: FilterValueV,
)
    requires
        stands(
            t,
            p,
            seq![
                word("datepart"@),
                TokenV::LParen,
                word(part_text(part)),
                TokenV::Comma,
                word(field),
                TokenV::RParen,
                word(op_text(op)),
                value_token(value),
            ],
        ),
    ensures
        comparison_at(t, p) == Ok::<(FilterExprV, int), Seq<char>>(
            (
                FilterExprV::DateCompare {
                    left: DateOperandV::Expr(DateExprV::DatePart { part, field }),
                    op,
                    value,
                },
                p + 8,
            ),
        ),
{
    let w = seq![
        word("datepart"@),
        TokenV::LParen,
        word(part_text(part)),
        TokenV::Comma,
        word(field),
        TokenV::RParen,
        word(op_text(op)),
        value_token(value),
    ];
    assert(t[p] == w[0] && t[p + 1] == w[1] && t[p + 2] == w[2] && t[p + 3] == w[3]);
    assert(t[p + 4] == w[4] && t[p + 5] == w[5] && t[p + 6] == w[6] && t[p + 7] == w[7]);
    lemma_date_words();
    lemma_part_text(part, DateUnit::Day);
    lemma_op_text(op);
    lemma_value_token(t, p + 7, value);
    assert(datepart_args_at(t, p + 2) == Ok::<(DateExprV, int), Seq<char>>(
        (DateExprV::DatePart { part, field }, p + 6),
    ));
    assert(value_or_utc_at(t, p + 7) == Ok::<(FilterValueV, int), Seq<char>>((value, p + 8)));
}

/// `dateadd(unit, n, field) op value` compares the field's date moved on by so many
/// units.
pub proof fn law_dateadd_reads_back(
    t: Seq<TokenV>,
    p: int,
    unit: DateUnit,
    rank: u64,
    interval: i64,
    field: Seq<char>,
    op: FilterOp,
    value: FilterValueV,
)
    requires
        integer_of_rank(rank) == Some(interval as int),
        stands(
            t,
            p,
            seq![
                word("dateadd"@),
                TokenV::LParen,
                word(unit_text(unit)),
                TokenV::Comma,
                TokenV::Number(rank),
                TokenV::Comma,
                word(field),
                TokenV::RParen,
                word(op_text(op)),
                value_token(value),
            ],
        ),
    ensures
        comparison_at(t, p) == Ok::<(FilterExprV, int), Seq<char>>(
            (
                FilterExprV::DateCompare {
                    left: DateOperandV::Expr(DateExprV::DateAdd { unit, interval, field }),
                    op,
                    value,
                },
                p + 10,
            ),
        ),
{
    let w = seq![
        word("dateadd"@),
        TokenV::LParen,
        word(unit_text(unit)),
        TokenV::Comma,
        TokenV::Number(rank),
        TokenV::Comma,
        word(field),
        TokenV::RParen,
        word(op_text(op)),
        value_token(value),
    ];
    assert(t[p] == w[0] && t[p + 1] == w[1] && t[p + 2] == w[2] && t[p + 3] == w[3]);
    assert(t[p + 4] == w[4] && t[p + 5] == w[5] && t[p + 6] == w[6] && t[p + 7] == w[7]);
    assert(t[p + 8] == w[8] && t[p + 9] == w[9]);
    lemma_date_words();
    lemma_part_text(DatePart::Day, unit);
    lemma_op_text(op);
    lemma_value_token(t, p + 9, value);
    assert(dateadd_args_at(t, p + 2) == Ok::<(DateExprV, int), Seq<char>>(
        (DateExprV::DateAdd { unit, interval, field }, p + 8),
    ));
    assert(value_or_utc_at(t, p + 9) == Ok::<(FilterValueV, int), Seq<char>>((value, p + 10)));
}

/// `datediff(unit, from, to) op value` compares the units between two fields.
pub proof fn law_datediff_reads_back(
    t: Seq<TokenV>,
    p: int,
    unit: DateUnit,
    from: Seq<char>,
    to: Seq<char>,
    op: FilterOp,
    value: FilterValueV,
)
    requires
        stands(
            t,
            p,
            seq![
                word("datediff"@),
                TokenV::LParen,
                word(unit_text(unit)),
                TokenV::Comma,
                word(from),
                TokenV::Comma,
                word(to),
                TokenV::RParen,
                word(op_text(op)),
                value_token(value),
            ],
        ),
    ensures
        comparison_at(t, p) == Ok::<(FilterExprV, int), Seq<char>>(
            (
                FilterExprV::DateCompare {
                    left: DateOperandV::Expr(
                        DateExprV::DateDiff {
                            unit,
                            start: DateRefV::Field(from),
                            end: DateRefV::Field(to),
                        },
                    ),
                    op,
                    value,
                },
                p + 10,
            ),
        ),
{
    let w = seq![
        word("datediff"@),
        TokenV::LParen,
        word(unit_text(unit)),
        TokenV::Comma,
        word(from),
        TokenV::Comma,
        word(to),
        TokenV::RParen,
        word(op_text(op)),
        value_token(value),
    ];
    assert(t[p] == w[0] && t[p + 1] == w[1] && t[p + 2] == w[2] && t[p + 3] == w[3]);
    assert(t[p + 4] == w[4] && t[p + 5] == w[5] && t[p + 6] == w[6] && t[p + 7] == w[7]);
    assert(t[p + 8] == w[8] && t[p + 9] == w[9]);
    lemma_date_words();
    lemma_part_text(DatePart::Day, unit);
    lemma_op_text(op);
    lemma_value_token(t, p + 9, value);
    assert(datediff_args_at(t, p + 2) == Ok::<(DateExprV, int), Seq<char>>(
        (
            DateExprV::DateDiff { unit, start: DateRefV::Field(from), end: DateRefV::Field(to) },
            p + 8,
        ),
    ));
    assert(value_or_utc_at(t, p + 9) == Ok::<(FilterValueV, int), Seq<char>>((value, p + 10)));
}

/// A field is compared with a moment in time, on either side of the operator.
pub proof fn law_moment_reads_back(
    t: Seq<TokenV>,
    p: int,
    field: Seq<char>,
    op: FilterOp,
    literal: Seq<char>,
    iso: Seq<char>,
)
    requires
        normalized(literal) == Some(iso),
    ensures
        stands(
            t,
            p,
            seq![
                word(field),
                word(op_text(op)),
                word("utcdatetime"@),
                TokenV::LParen,
                TokenV::String(literal),
                TokenV::RParen,
            ],
        ) ==> comparison_at(t, p) == Ok::<(FilterExprV, int), Seq<char>>(
            (
                FilterExprV::DateCompare {
                    left: DateOperandV::Field(field),
                    op,
                    value: FilterValueV::String(iso),
                },
                p + 6,
            ),
        ),
        stands(
            t,
            p,
            seq![
                word("utcdatetime"@),
                TokenV::LParen,
                TokenV::String(literal),
                TokenV::RParen,
                word(op_text(op)),
                word(field),
            ],
        ) ==> comparison_at(t, p) == Ok::<(FilterExprV, int), Seq<char>>(
            (
                FilterExprV::DateCompare {
                    left: DateOperandV::Field(field),
                    op: reversed(op),
                    value: FilterValueV::String(iso),
                },
                p + 6,
            ),
        ),
{
    lemma_date_words();
    lemma_op_text(op);
    let w = seq![
        word(field),
        word(op_text(op)),
        word("utcdatetime"@),
        TokenV::LParen,
        TokenV::String(literal),
        TokenV::RParen,
    ];
    if stands(t, p, w) {
        assert(t[p] == w[0] && t[p + 1] == w[1] && t[p + 2] == w[2]);
        assert(t[p + 3] == w[3] && t[p + 4] == w[4] && t[p + 5] == w[5]);
    }
    let v = seq![
        word("utcdatetime"@),
        TokenV::LParen,
        TokenV::String(literal),
        TokenV::RParen,
        word(op_text(op)),
        word(field),
    ];
    if stands(t, p, v) {
        assert(t[p] == v[0] && t[p + 1] == v[1] && t[p + 2] == v[2]);
        assert(t[p + 3] == v[3] && t[p + 4] == v[4] && t[p + 5] == v[5]);
    }
}

// ---------------------------------------------------------------------------
// Matches
// ---------------------------------------------------------------------------

proof fn lemma_listed_fields(
    parts: Seq<Seq<char>>,
    i: int,
    done: Seq<Seq<char>>,
    name: Seq<char>,
    list: Seq<char>,
)
    requires
        0 <= i <= parts.len(),
        done.len() == i,
    ensures
        match listed_fields(parts, i, done, name, list) {
            Ok(r) => r.len() == parts.len() && forall|k: int|
                0 <= k < r.len() ==> #[trigger] r[k] == (if k < i {
                    done[k]
                } else {
                    trim(parts[k])
                }) && (k >= i ==> trim(parts[k]).len() > 0),
            Err(_) => exists|k: int| i <= k < parts.len() && trim(#[trigger] parts[k]).len() == 0,
        },
    decreases parts.len() - i,
{
    if i < parts.len() && trim(parts[i]).len() > 0 {
        lemma_listed_fields(parts, i + 1, done.push(trim(parts[i])), name, list);
    }
}

/// A match over a list of fields is one match for each field in the list, in order, any
/// of which will do; it is refused where a name is missing.
pub proof fn law_match_over_fields(
    t: Seq<TokenV>,
    p: int,
    name: Seq<char>,
    pattern: Seq<char>,
    list: Seq<char>,
    k: int,
)
    requires
        name == "ismatch"@ || name == "ismatchscoring"@,
        stands(
            t,
            p,
            seq![
                word("search"@),
                TokenV::Dot,
                word(name),
                TokenV::LParen,
                TokenV::String(pattern),
                TokenV::Comma,
                TokenV::String(list),
                TokenV::RParen,
            ],
        ),
    ensures
        ({
            let parts = pieces(list, ',');
            let r = comparison_at(t, p);
            let all = forall|i: int| 0 <= i < parts.len() ==> trim(#[trigger] parts[i]).len() > 0;
            &&& r is Ok <==> all
            &&& r matches Ok((e, q)) ==> q == p + 8 && (0 <= k < parts.len() ==> (if parts.len()
                == 1 {
                e == FilterExprV::IsMatch { field: trim(parts[k]), pattern }
            } else {
                e is Or && e->Or_0.len() == parts.len() && e->Or_0[k] == FilterExprV::IsMatch {
                    field: trim(parts[k]),
                    pattern,
                }
            }))
        }),
{
    let w = seq![
        word("search"@),
        TokenV::Dot,
        word(name),
        TokenV::LParen,
        TokenV::String(pattern),
        TokenV::Comma,
        TokenV::String(list),
        TokenV::RParen,
    ];
    let parts = pieces(list, ',');
    assert(t[p] == w[0] && t[p + 1] == w[1] && t[p + 2] == w[2] && t[p + 3] == w[3]);
    assert(t[p + 4] == w[4] && t[p + 5] == w[5] && t[p + 6] == w[6] && t[p + 7] == w[7]);
    lemma_search_word();
    lemma_listed_fields(parts, 0, seq![], name, list);
    assert(options_end(t, p + 7, name) == Ok::<int, Seq<char>>(p + 7));
    match listed_fields(parts, 0, seq![], name, list) {
        Ok(fields) => {
            assert(ismatch_args_at(t, p + 4, name) == Ok::<(Seq<FilterExprV>, int), Seq<char>>(
                (ismatch_exprs(fields, pattern), p + 8),
            ));
            assert forall|i: int| 0 <= i < parts.len() implies trim(#[trigger] parts[i]).len()
                > 0 by {
                assert(fields[i] == trim(parts[i]));
            }
            if 0 <= k < parts.len() {
                assert(fields[k] == trim(parts[k]));
            }
        },
        Err(m) => {
            assert(ismatch_args_at(t, p + 4, name) is Err);
        },
    }
}

} // verus!
