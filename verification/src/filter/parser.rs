//! The grammar of filter text.
//!
//! The model of the parser is a family of functions from a token sequence and
//! a place in it to what stands there and the place behind it, or to the
//! message that says what is wrong.
use crate::filter::date::{
    DateExpr, DateExprV, DateOperand, DateOperandV, DatePart, DateRef, DateRefV, DateUnit,
    date_part_named, date_unit_named, normalize_datetime, normalized,
};
use crate::filter::expr::{
    FilterExpr, FilterExprV, FilterOp, FilterValue, FilterValueV, StringFunc, expr_views,
    filter_values, group_filter, op_named, reverse_op, reversed, string_func_named,
};
use crate::filter::token::{
    Token, TokenV, describe_token, described, display_number, float_display, left, opt_token,
    past, token_views, tokenize, tokens,
};
use crate::json::{IntegerOf, Number, integer_of_rank, rank_integer};
use crate::text::{
    before_suffix, cat2, cat3, cat5, debug_text, lemma_texts_push, opt_pair, opt_text, pieces,
    quoted, same_text, split_on, strip_suffix, texts, trim, trimmed,
};
use vstd::prelude::*;

verus! {

// ---------------------------------------------------------------------------
// Single tokens
// ---------------------------------------------------------------------------

pub open spec fn tok(t: Seq<TokenV>, p: int) -> Option<TokenV> {
    if 0 <= p < t.len() {
        Some(t[p])
    } else {
        None
    }
}

/// The message for a token that stands where another thing is expected.
pub open spec fn unexpected(what: Seq<char>, found: Option<TokenV>) -> Seq<char> {
    "Expected "@ + what + ", found "@ + described(found) + "."@
}

pub open spec fn ident_at(t: Seq<TokenV>, p: int, what: Seq<char>) -> Result<
    (Seq<char>, int),
    Seq<char>,
> {
    match tok(t, p) {
        Some(TokenV::Ident(name)) => Ok((name, p + 1)),
        other => Err(unexpected(what, other)),
    }
}

pub open spec fn string_at(t: Seq<TokenV>, p: int, what: Seq<char>) -> Result<
    (Seq<char>, int),
    Seq<char>,
> {
    match tok(t, p) {
        Some(TokenV::String(text)) => Ok((text, p + 1)),
        other => Err(unexpected(what, other)),
    }
}

pub open spec fn expect_at(t: Seq<TokenV>, p: int, expected: TokenV, what: Seq<char>) -> Result<
    int,
    Seq<char>,
> {
    if tok(t, p) == Some(expected) {
        Ok(p + 1)
    } else {
        Err(unexpected(what, tok(t, p)))
    }
}

pub open spec fn is_word(t: Seq<TokenV>, p: int, word: Seq<char>) -> bool {
    tok(t, p) == Some(TokenV::Ident(word))
}

pub open spec fn op_at(t: Seq<TokenV>, p: int) -> Result<(FilterOp, int), Seq<char>> {
    match tok(t, p) {
        Some(TokenV::Ident(name)) => match op_named(name) {
            Some(op) => Ok((op, p + 1)),
            None => Err(
                "Expected a filter operator (eq, ne, gt, ge, lt, le), found "@ + debug_text(name)
                    + "."@,
            ),
        },
        other => Err(unexpected("a filter operator (eq, ne, gt, ge, lt, le)"@, other)),
    }
}

pub open spec fn value_at(t: Seq<TokenV>, p: int) -> Result<(FilterValueV, int), Seq<char>> {
    match tok(t, p) {
        Some(TokenV::String(text)) => Ok((FilterValueV::String(text), p + 1)),
        Some(TokenV::Number(rank)) => Ok((FilterValueV::Number(rank), p + 1)),
        Some(TokenV::Ident(name)) => if name == "true"@ {
            Ok((FilterValueV::Bool(true), p + 1))
        } else if name == "false"@ {
            Ok((FilterValueV::Bool(false), p + 1))
        } else if name == "null"@ {
            Ok((FilterValueV::Null, p + 1))
        } else {
            Err(
                "Expected a filter value (string, number, true, false, null), found "@ + debug_text(
                    name,
                ) + "."@,
            )
        },
        other => Err(unexpected("a filter value (string, number, true, false, null)"@, other)),
    }
}

// ---------------------------------------------------------------------------
// Dates
// ---------------------------------------------------------------------------

/// A `utcdatetime` literal from its opening parenthesis on, normalized.
pub open spec fn utc_literal_at(t: Seq<TokenV>, p: int) -> Result<(Seq<char>, int), Seq<char>> {
    match string_at(t, p + 1, "a date string literal in utcdatetime"@) {
        Err(m) => Err(m),
        Ok((literal, q)) => match expect_at(
            t,
            q,
            TokenV::RParen,
            "')' to close utcdatetime arguments"@,
        ) {
            Err(m) => Err(m),
            Ok(r) => match normalized(literal) {
                Some(iso) => Ok((iso, r)),
                None => Err(
                    "Invalid date "@ + debug_text(literal)
                        + " in utcdatetime; expected ISO-8601 (e.g. '2024-01-15T10:30:00Z')."@,
                ),
            },
        },
    }
}

/// A `utcdatetime('...')` literal, where one stands.
pub open spec fn maybe_utc_at(t: Seq<TokenV>, p: int) -> Result<
    (Option<Seq<char>>, int),
    Seq<char>,
> {
    if is_word(t, p, "utcdatetime"@) && tok(t, p + 1) == Some(TokenV::LParen) {
        match utc_literal_at(t, p + 1) {
            Ok((iso, q)) => Ok((Some(iso), q)),
            Err(m) => Err(m),
        }
    } else {
        Ok((None, p))
    }
}

pub open spec fn value_or_utc_at(t: Seq<TokenV>, p: int) -> Result<
    (FilterValueV, int),
    Seq<char>,
> {
    match maybe_utc_at(t, p) {
        Err(m) => Err(m),
        Ok((Some(iso), q)) => Ok((FilterValueV::String(iso), q)),
        Ok((None, _)) => value_at(t, p),
    }
}

pub open spec fn date_ref_at(t: Seq<TokenV>, p: int) -> Result<(DateRefV, int), Seq<char>> {
    match maybe_utc_at(t, p) {
        Err(m) => Err(m),
        Ok((Some(iso), q)) => Ok((DateRefV::Literal(iso), q)),
        Ok((None, _)) => match ident_at(t, p, "datediff date field"@) {
            Ok((field, q)) => Ok((DateRefV::Field(field), q)),
            Err(m) => Err(m),
        },
    }
}

pub open spec fn datepart_args_at(t: Seq<TokenV>, p: int) -> Result<(DateExprV, int), Seq<char>> {
    match ident_at(t, p, "date part"@) {
        Err(m) => Err(m),
        Ok((name, p1)) => match date_part_named(name) {
            None => Err(
                "Unknown datepart "@ + debug_text(name)
                    + "; supported parts: year, quarter, month, week, day, hour, minute, second, dayofweek, dayofyear."@,
            ),
            Some(part) => match expect_at(t, p1, TokenV::Comma, "',' in datepart arguments"@) {
                Err(m) => Err(m),
                Ok(p2) => match ident_at(t, p2, "field name"@) {
                    Err(m) => Err(m),
                    Ok((field, p3)) => match expect_at(
                        t,
                        p3,
                        TokenV::RParen,
                        "')' to close datepart arguments"@,
                    ) {
                        Err(m) => Err(m),
                        Ok(p4) => Ok((DateExprV::DatePart { part, field }, p4)),
                    },
                },
            },
        },
    }
}

/// The interval of a `dateadd`: a number that is an integer and fits.
pub open spec fn interval_at(t: Seq<TokenV>, p: int) -> Result<(i64, int), Seq<char>> {
    match tok(t, p) {
        Some(TokenV::Number(rank)) => match integer_of_rank(rank) {
            Some(n) => if i64::MIN <= n <= i64::MAX {
                Ok((n as i64, p + 1))
            } else {
                Err(
                    "dateadd interval "@ + float_display(rank)
                        + " is out of range; expected an integer."@,
                )
            },
            None => Err(unexpected("an integer interval in dateadd"@, tok(t, p))),
        },
        other => Err(unexpected("an integer interval in dateadd"@, other)),
    }
}

pub open spec fn dateadd_args_at(t: Seq<TokenV>, p: int) -> Result<(DateExprV, int), Seq<char>> {
    match ident_at(t, p, "date unit"@) {
        Err(m) => Err(m),
        Ok((name, p1)) => match date_unit_named(name) {
            None => Err(
                "Unknown dateadd unit "@ + debug_text(name)
                    + "; supported units: year, quarter, month, week, day, hour, minute, second."@,
            ),
            Some(unit) => match expect_at(t, p1, TokenV::Comma, "',' in dateadd arguments"@) {
                Err(m) => Err(m),
                Ok(p2) => match interval_at(t, p2) {
                    Err(m) => Err(m),
                    Ok((interval, p3)) => match expect_at(
                        t,
                        p3,
                        TokenV::Comma,
                        "',' in dateadd arguments"@,
                    ) {
                        Err(m) => Err(m),
                        Ok(p4) => match ident_at(t, p4, "field name"@) {
                            Err(m) => Err(m),
                            Ok((field, p5)) => match expect_at(
                                t,
                                p5,
                                TokenV::RParen,
                                "')' to close dateadd arguments"@,
                            ) {
                                Err(m) => Err(m),
                                Ok(p6) => Ok((DateExprV::DateAdd { unit, interval, field }, p6)),
                            },
                        },
                    },
                },
            },
        },
    }
}

pub open spec fn datediff_args_at(t: Seq<TokenV>, p: int) -> Result<(DateExprV, int), Seq<char>> {
    match ident_at(t, p, "date unit"@) {
        Err(m) => Err(m),
        Ok((name, p1)) => match date_unit_named(name) {
            None => Err(
                "Unknown datediff unit "@ + debug_text(name)
                    + "; supported units: year, quarter, month, week, day, hour, minute, second."@,
            ),
            Some(unit) => match expect_at(t, p1, TokenV::Comma, "',' in datediff arguments"@) {
                Err(m) => Err(m),
                Ok(p2) => match date_ref_at(t, p2) {
                    Err(m) => Err(m),
                    Ok((start, p3)) => match expect_at(
                        t,
                        p3,
                        TokenV::Comma,
                        "',' in datediff arguments"@,
                    ) {
                        Err(m) => Err(m),
                        Ok(p4) => match date_ref_at(t, p4) {
                            Err(m) => Err(m),
                            Ok((end, p5)) => match expect_at(
                                t,
                                p5,
                                TokenV::RParen,
                                "')' to close datediff arguments"@,
                            ) {
                                Err(m) => Err(m),
                                Ok(p6) => Ok((DateExprV::DateDiff { unit, start, end }, p6)),
                            },
                        },
                    },
                },
            },
        },
    }
}

/// The arguments of a date function of the given name, from behind the
/// opening parenthesis on.
pub open spec fn date_args_at(t: Seq<TokenV>, p: int, name: Seq<char>) -> Result<
    (DateExprV, int),
    Seq<char>,
> {
    if name == "datepart"@ {
        datepart_args_at(t, p)
    } else if name == "dateadd"@ {
        dateadd_args_at(t, p)
    } else {
        datediff_args_at(t, p)
    }
}

pub open spec fn is_date_function(name: Seq<char>) -> bool {
    name == "datepart"@ || name == "dateadd"@ || name == "datediff"@ || name == "utcdatetime"@
}

/// A date comparison from behind the function name on.
pub open spec fn date_compare_at(t: Seq<TokenV>, p: int, name: Seq<char>) -> Result<
    (FilterExprV, int),
    Seq<char>,
> {
    if name == "utcdatetime"@ {
        match utc_literal_at(t, p) {
            Err(m) => Err(m),
            Ok((iso, p1)) => match op_at(t, p1) {
                Err(m) => Err(m),
                Ok((op, p2)) => match ident_at(t, p2, "field name"@) {
                    Err(m) => Err(m),
                    Ok((field, p3)) => Ok(
                        (
                            FilterExprV::DateCompare {
                                left: DateOperandV::Field(field),
                                op: reversed(op),
                                value: FilterValueV::String(iso),
                            },
                            p3,
                        ),
                    ),
                },
            },
        }
    } else {
        match date_args_at(t, p + 1, name) {
            Err(m) => Err(m),
            Ok((expr, p1)) => match op_at(t, p1) {
                Err(m) => Err(m),
                Ok((op, p2)) => match value_or_utc_at(t, p2) {
                    Err(m) => Err(m),
                    Ok((value, p3)) => Ok(
                        (
                            FilterExprV::DateCompare { left: DateOperandV::Expr(expr), op, value },
                            p3,
                        ),
                    ),
                },
            },
        }
    }
}

// ---------------------------------------------------------------------------
// Functions and lists
// ---------------------------------------------------------------------------

/// A string-function call from behind the function name on.
pub open spec fn function_call_at(t: Seq<TokenV>, p: int, name: Seq<char>) -> Result<
    (FilterExprV, int),
    Seq<char>,
> {
    match string_func_named(name) {
        None => Err(
            "Unsupported filter function "@ + debug_text(name)
                + "; supported functions: startswith, endswith, contains."@,
        ),
        Some(func) => match ident_at(t, p + 1, "field name"@) {
            Err(m) => Err(m),
            Ok((field, p1)) => match expect_at(
                t,
                p1,
                TokenV::Comma,
                "',' after filter function field name"@,
            ) {
                Err(m) => Err(m),
                Ok(p2) => match string_at(
                    t,
                    p2,
                    "a string literal as the filter function argument"@,
                ) {
                    Err(m) => Err(m),
                    Ok((arg, p3)) => match expect_at(
                        t,
                        p3,
                        TokenV::RParen,
                        "')' after filter function argument"@,
                    ) {
                        Err(m) => Err(m),
                        Ok(p4) => Ok((FilterExprV::StringFunc { func, field, arg }, p4)),
                    },
                },
            },
        },
    }
}

/// The field names of a list, trimmed, from piece `i` on behind those in
/// `done`.
pub open spec fn listed_fields(
    parts: Seq<Seq<char>>,
    i: int,
    done: Seq<Seq<char>>,
    name: Seq<char>,
    list: Seq<char>,
) -> Result<Seq<Seq<char>>, Seq<char>>
    decreases parts.len() - i,
{
    if i >= parts.len() {
        Ok(done)
    } else if trim(parts[i]).len() == 0 {
        Err("Empty field name in search."@ + name + " field list "@ + debug_text(list) + "."@)
    } else {
        listed_fields(parts, i + 1, done.push(trim(parts[i])), name, list)
    }
}

pub open spec fn ismatch_fields_at(t: Seq<TokenV>, p: int, name: Seq<char>) -> Result<
    Seq<Seq<char>>,
    Seq<char>,
> {
    match tok(t, p) {
        Some(TokenV::Ident(field)) => Ok(seq![field]),
        Some(TokenV::String(list)) => listed_fields(pieces(list, ','), 0, seq![], name, list),
        other => Err(unexpected("a field name in search."@ + name, other)),
    }
}

/// The place behind the options of an `ismatch`, which are read and ignored.
pub open spec fn options_end(t: Seq<TokenV>, p: int, name: Seq<char>) -> Result<int, Seq<char>>
    decreases left(t.len(), p),
{
    if tok(t, p) == Some(TokenV::Comma) {
        match tok(t, p + 1) {
            Some(TokenV::String(_)) => options_end(t, p + 2, name),
            Some(TokenV::Ident(_)) => options_end(t, p + 2, name),
            other => Err(unexpected("a string in search."@ + name + " options"@, other)),
        }
    } else {
        Ok(p)
    }
}

/// One match expression for each field.
pub open spec fn ismatch_exprs(fields: Seq<Seq<char>>, pattern: Seq<char>) -> Seq<FilterExprV> {
    fields.map_values(|field: Seq<char>| FilterExprV::IsMatch { field, pattern })
}

pub open spec fn ismatch_args_at(t: Seq<TokenV>, p: int, name: Seq<char>) -> Result<
    (Seq<FilterExprV>, int),
    Seq<char>,
> {
    match string_at(t, p, "a search pattern string in search."@ + name) {
        Err(m) => Err(m),
        Ok((pattern, p1)) => match expect_at(
            t,
            p1,
            TokenV::Comma,
            "',' in search."@ + name + " arguments"@,
        ) {
            Err(m) => Err(m),
            Ok(p2) => match ismatch_fields_at(t, p2, name) {
                Err(m) => Err(m),
                Ok(fields) => match options_end(t, p2 + 1, name) {
                    Err(m) => Err(m),
                    Ok(p3) => match expect_at(
                        t,
                        p3,
                        TokenV::RParen,
                        "')' to close search."@ + name + " arguments"@,
                    ) {
                        Err(m) => Err(m),
                        Ok(p4) => Ok((ismatch_exprs(fields, pattern), p4)),
                    },
                },
            },
        },
    }
}

pub open spec fn isempty_isnull_at(t: Seq<TokenV>, p: int, name: Seq<char>) -> Result<
    (FilterExprV, int),
    Seq<char>,
> {
    match ident_at(t, p, "field name"@) {
        Err(m) => Err(m),
        Ok((field, p1)) => match expect_at(
            t,
            p1,
            TokenV::RParen,
            "')' to close search."@ + name + " arguments"@,
        ) {
            Err(m) => Err(m),
            Ok(p2) => if name == "isempty"@ {
                Ok((FilterExprV::IsEmpty { field }, p2))
            } else {
                Ok((FilterExprV::IsNull { field }, p2))
            },
        },
    }
}

/// A `search.*` call from behind the function name on. A pattern over several
/// fields matches where it matches in one of them.
pub open spec fn search_function_at(t: Seq<TokenV>, p: int, name: Seq<char>) -> Result<
    (FilterExprV, int),
    Seq<char>,
> {
    if name == "ismatch"@ || name == "ismatchscoring"@ {
        match ismatch_args_at(t, p + 1, name) {
            Err(m) => Err(m),
            Ok((exprs, p1)) => if exprs.len() == 1 {
                Ok((exprs[0], p1))
            } else {
                Ok((FilterExprV::Or(exprs), p1))
            },
        }
    } else if name == "isempty"@ || name == "isnull"@ {
        isempty_isnull_at(t, p + 1, name)
    } else {
        Err(
            "Unsupported search function 'search."@ + name
                + "'; supported functions: ismatch, ismatchscoring, isempty, isnull."@,
        )
    }
}

/// The values of an `in` list from one value on, behind those in `done`.
pub open spec fn in_values_at(t: Seq<TokenV>, p: int, done: Seq<FilterValueV>) -> Result<
    (Seq<FilterValueV>, int),
    Seq<char>,
>
    decreases left(t.len(), p),
{
    match value_at(t, p) {
        Err(m) => Err(m),
        Ok((value, _)) => match tok(t, p + 1) {
            Some(TokenV::Comma) => in_values_at(t, p + 2, done.push(value)),
            Some(TokenV::RParen) => Ok((done.push(value), p + 2)),
            other => Err(unexpected("',' or ')' in 'in' value list"@, other)),
        },
    }
}

/// An `in` list from behind the `in` on.
pub open spec fn in_list_at(t: Seq<TokenV>, p: int, field: Seq<char>) -> Result<
    (FilterExprV, int),
    Seq<char>,
> {
    match expect_at(t, p, TokenV::LParen, "'(' after 'in'"@) {
        Err(m) => Err(m),
        Ok(p1) => match in_values_at(t, p1, seq![]) {
            Err(m) => Err(m),
            Ok((values, p2)) => Ok((FilterExprV::In { field, values }, p2)),
        },
    }
}

/// The collection field and the operator of a lambda reference (`Tags/any`,
/// `Tags/all`).
pub open spec fn lambda_field(name: Seq<char>) -> Option<(Seq<char>, Seq<char>)> {
    match before_suffix(name, "/any"@) {
        Some(field) => Some((field, "any"@)),
        None => match before_suffix(name, "/all"@) {
            Some(field) => Some((field, "all"@)),
            None => None,
        },
    }
}

pub open spec fn lambda_expr(kind: Seq<char>, field: Seq<char>, inner: FilterExprV) -> FilterExprV {
    if kind == "any"@ {
        FilterExprV::Any { field, inner: Box::new(inner) }
    } else {
        FilterExprV::All { field, inner: Box::new(inner) }
    }
}

/// `any var op value` or `all var op value` behind a field name.
pub open spec fn keyword_lambda_at(
    t: Seq<TokenV>,
    p: int,
    kind: Seq<char>,
    field: Seq<char>,
) -> Result<(FilterExprV, int), Seq<char>> {
    match ident_at(t, p, "lambda variable"@) {
        Err(m) => Err(m),
        Ok((variable, p1)) => match op_at(t, p1) {
            Err(m) => Err(m),
            Ok((op, p2)) => match value_at(t, p2) {
                Err(m) => Err(m),
                Ok((value, p3)) => Ok(
                    (
                        lambda_expr(
                            kind,
                            field,
                            FilterExprV::Compare { field: variable, op, value },
                        ),
                        p3,
                    ),
                ),
            },
        },
    }
}

/// A plain comparison from the operator on.
pub open spec fn plain_compare_at(t: Seq<TokenV>, p: int, field: Seq<char>) -> Result<
    (FilterExprV, int),
    Seq<char>,
> {
    match op_at(t, p) {
        Err(m) => Err(m),
        Ok((op, p1)) => match maybe_utc_at(t, p1) {
            Err(m) => Err(m),
            Ok((Some(iso), p2)) => Ok(
                (
                    FilterExprV::DateCompare {
                        left: DateOperandV::Field(field),
                        op,
                        value: FilterValueV::String(iso),
                    },
                    p2,
                ),
            ),
            Ok((None, _)) => match value_at(t, p1) {
                Err(m) => Err(m),
                Ok((value, p2)) => Ok((FilterExprV::Compare { field, op, value }, p2)),
            },
        },
    }
}

// ---------------------------------------------------------------------------
// Expressions
// ---------------------------------------------------------------------------

/// A comparison, a lambda, or a function call.
pub open spec fn comparison_at(t: Seq<TokenV>, p: int) -> Result<(FilterExprV, int), Seq<char>>
    decreases left(t.len(), p), 0int,
{
    match tok(t, p) {
        Some(TokenV::Ident(first)) => {
            let p1 = p + 1;
            let opens = tok(t, p1) == Some(TokenV::LParen);
            if lambda_field(first) is Some && opens {
                let (field, kind) = lambda_field(first)->Some_0;
                match ident_at(t, p1 + 1, "lambda variable"@) {
                    Err(m) => Err(m),
                    Ok((_, p2)) => match expect_at(
                        t,
                        p1 + 2,
                        TokenV::Colon,
                        "':' after lambda variable"@,
                    ) {
                        Err(m) => Err(m),
                        Ok(_) => match comparison_at(t, p1 + 3) {
                            Err(m) => Err(m),
                            Ok((inner, p4)) => match expect_at(
                                t,
                                p4,
                                TokenV::RParen,
                                "')' after lambda body"@,
                            ) {
                                Err(m) => Err(m),
                                Ok(p5) => Ok((lambda_expr(kind, field, inner), p5)),
                            },
                        },
                    },
                }
            } else if is_word(t, p1, "any"@) {
                keyword_lambda_at(t, p1 + 1, "any"@, first)
            } else if is_word(t, p1, "all"@) {
                keyword_lambda_at(t, p1 + 1, "all"@, first)
            } else if is_date_function(first) && opens {
                date_compare_at(t, p1, first)
            } else if first == "search"@ && tok(t, p1) == Some(TokenV::Dot) {
                match ident_at(t, p1 + 1, "search function name"@) {
                    Err(m) => Err(m),
                    Ok((func, p2)) => if tok(t, p2) == Some(TokenV::LParen) {
                        search_function_at(t, p2, func)
                    } else {
                        Err(
                            "Expected '(' after 'search."@ + func
                                + "'; supported search functions: ismatch, ismatchscoring, isempty, isnull."@,
                        )
                    },
                }
            } else if opens {
                function_call_at(t, p1, first)
            } else if is_word(t, p1, "in"@) {
                in_list_at(t, p1 + 1, first)
            } else {
                plain_compare_at(t, p1, first)
            }
        },
        other => Err(unexpected("field name"@, other)),
    }
}

/// A comparison, or an expression in parentheses.
pub open spec fn primary_at(t: Seq<TokenV>, p: int) -> Result<(FilterExprV, int), Seq<char>>
    decreases left(t.len(), p), 1int,
{
    if tok(t, p) == Some(TokenV::LParen) {
        match or_at(t, p + 1) {
            Err(m) => Err(m),
            Ok((expr, p1)) => match expect_at(
                t,
                p1,
                TokenV::RParen,
                "')' after filter sub-expression"@,
            ) {
                Err(m) => Err(m),
                Ok(p2) => Ok((expr, p2)),
            },
        }
    } else {
        comparison_at(t, p)
    }
}

/// An expression with any number of `not` before it.
pub open spec fn not_at(t: Seq<TokenV>, p: int) -> Result<(FilterExprV, int), Seq<char>>
    decreases left(t.len(), p), 2int,
{
    if is_word(t, p, "not"@) {
        match not_at(t, p + 1) {
            Err(m) => Err(m),
            Ok((expr, p1)) => Ok((FilterExprV::Not(Box::new(expr)), p1)),
        }
    } else {
        primary_at(t, p)
    }
}

/// What follows the clauses in `done` of an `and`.
pub open spec fn and_rest_at(t: Seq<TokenV>, p: int, done: Seq<FilterExprV>) -> Result<
    (FilterExprV, int),
    Seq<char>,
>
    decreases left(t.len(), p), 3int,
{
    if is_word(t, p, "and"@) {
        match not_at(t, p + 1) {
            Err(m) => Err(m),
            Ok((clause, p1)) => and_rest_at(t, past(p, p1), done.push(clause)),
        }
    } else {
        Ok((FilterExprV::And(done), p))
    }
}

/// Expressions joined by `and`.
pub open spec fn and_at(t: Seq<TokenV>, p: int) -> Result<(FilterExprV, int), Seq<char>>
    decreases left(t.len(), p), 4int,
{
    match not_at(t, p) {
        Err(m) => Err(m),
        Ok((first, p1)) => if is_word(t, p1, "and"@) {
            and_rest_at(t, past(p, p1), seq![first])
        } else {
            Ok((first, p1))
        },
    }
}

/// What follows the clauses in `done` of an `or`.
pub open spec fn or_rest_at(t: Seq<TokenV>, p: int, done: Seq<FilterExprV>) -> Result<
    (FilterExprV, int),
    Seq<char>,
>
    decreases left(t.len(), p), 5int,
{
    if is_word(t, p, "or"@) {
        match and_at(t, p + 1) {
            Err(m) => Err(m),
            Ok((clause, p1)) => or_rest_at(t, past(p, p1), done.push(clause)),
        }
    } else {
        Ok((FilterExprV::Or(done), p))
    }
}

/// Expressions joined by `or`.
pub open spec fn or_at(t: Seq<TokenV>, p: int) -> Result<(FilterExprV, int), Seq<char>>
    decreases left(t.len(), p), 6int,
{
    match and_at(t, p) {
        Err(m) => Err(m),
        Ok((first, p1)) => if is_word(t, p1, "or"@) {
            or_rest_at(t, past(p, p1), seq![first])
        } else {
            Ok((first, p1))
        },
    }
}

/// The expression that filter text writes, or what is wrong with it.
pub open spec fn filter_of(input: Seq<char>) -> Result<FilterExprV, Seq<char>> {
    match tokens(input) {
        Err(m) => Err(m),
        Ok(t) => if t.len() == 0 {
            Err("Filter expression is empty."@)
        } else {
            match or_at(t, 0) {
                Err(m) => Err(m),
                Ok((expr, p)) => match tok(t, p) {
                    Some(found) => Err(
                        "Unexpected "@ + described(Some(found)) + " after filter expression."@,
                    ),
                    None => Ok(expr),
                },
            }
        },
    }
}

// ---------------------------------------------------------------------------
// The parser
// ---------------------------------------------------------------------------

pub open spec fn expr_at(r: Result<(FilterExpr, usize), String>) -> Result<
    (FilterExprV, int),
    Seq<char>,
> {
    match r {
        Ok((e, p)) => Ok((e@, p as int)),
        Err(m) => Err(m@),
    }
}

pub open spec fn exprs_at(r: Result<(Vec<FilterExpr>, usize), String>) -> Result<
    (Seq<FilterExprV>, int),
    Seq<char>,
> {
    match r {
        Ok((e, p)) => Ok((expr_views(e@), p as int)),
        Err(m) => Err(m@),
    }
}

pub open spec fn date_expr_at(r: Result<(DateExpr, usize), String>) -> Result<
    (DateExprV, int),
    Seq<char>,
> {
    match r {
        Ok((e, p)) => Ok((e@, p as int)),
        Err(m) => Err(m@),
    }
}

pub open spec fn date_ref_result(r: Result<(DateRef, usize), String>) -> Result<
    (DateRefV, int),
    Seq<char>,
> {
    match r {
        Ok((e, p)) => Ok((e@, p as int)),
        Err(m) => Err(m@),
    }
}

pub open spec fn text_at(r: Result<(String, usize), String>) -> Result<
    (Seq<char>, int),
    Seq<char>,
> {
    match r {
        Ok((s, p)) => Ok((s@, p as int)),
        Err(m) => Err(m@),
    }
}

pub open spec fn opt_text_at(r: Result<(Option<String>, usize), String>) -> Result<
    (Option<Seq<char>>, int),
    Seq<char>,
> {
    match r {
        Ok((s, p)) => Ok((opt_text(s), p as int)),
        Err(m) => Err(m@),
    }
}

pub open spec fn filter_value_at(r: Result<(FilterValue, usize), String>) -> Result<
    (FilterValueV, int),
    Seq<char>,
> {
    match r {
        Ok((v, p)) => Ok((v@, p as int)),
        Err(m) => Err(m@),
    }
}

pub open spec fn place(r: Result<usize, String>) -> Result<int, Seq<char>> {
    match r {
        Ok(p) => Ok(p as int),
        Err(m) => Err(m@),
    }
}

fn unexpected_token(what: &str, found: Option<&Token>) -> (r: String)
    ensures
        r@ == unexpected(what@, opt_token(found)),
{
    cat5("Expected ", what, ", found ", describe_token(found).as_str(), ".")
}

struct Parser {
    tokens: Vec<Token>,
}

impl Parser {
    spec fn t(&self) -> Seq<TokenV> {
        token_views(self.tokens@)
    }

    fn token(&self, pos: usize) -> (r: Option<&Token>)
        ensures
            opt_token(r) == tok(self.t(), pos as int),
            r is Some ==> pos < self.tokens@.len() <= usize::MAX,
    {
        if pos < self.tokens.len() {
            assert(self.t()[pos as int] == self.tokens@[pos as int]@);
            Some(&self.tokens[pos])
        } else {
            None
        }
    }

    fn expect_ident(&self, pos: usize, what: &str) -> (r: Result<(String, usize), String>)
        ensures
            text_at(r) == ident_at(self.t(), pos as int, what@),
            r is Ok ==> r->Ok_0.1 == pos + 1 && pos < self.tokens@.len(),
    {
        let found = self.token(pos);
        match found {
            Some(Token::Ident(name)) => Ok((name.clone(), pos + 1)),
            other => Err(unexpected_token(what, other)),
        }
    }

    fn expect_string(&self, pos: usize, what: &str) -> (r: Result<(String, usize), String>)
        ensures
            text_at(r) == string_at(self.t(), pos as int, what@),
            r is Ok ==> r->Ok_0.1 == pos + 1 && pos < self.tokens@.len(),
    {
        let found = self.token(pos);
        match found {
            Some(Token::String(text)) => Ok((text.clone(), pos + 1)),
            other => Err(unexpected_token(what, other)),
        }
    }

    fn is_token(&self, pos: usize, expected: &Token) -> (r: bool)
        requires
            !(expected@ is Ident || expected@ is String || expected@ is Number),
        ensures
            r == (tok(self.t(), pos as int) == Some(expected@)),
            r ==> pos < self.tokens@.len(),
    {
        match (self.token(pos), expected) {
            (Some(Token::LParen), Token::LParen) => true,
            (Some(Token::RParen), Token::RParen) => true,
            (Some(Token::Dot), Token::Dot) => true,
            (Some(Token::Comma), Token::Comma) => true,
            (Some(Token::Colon), Token::Colon) => true,
            _ => false,
        }
    }

    /// Expects a specific token, naming what is expected when another is
    /// found.
    fn expect_token(&self, pos: usize, expected: &Token, what: &str) -> (r: Result<usize, String>)
        requires
            !(expected@ is Ident || expected@ is String || expected@ is Number),
        ensures
            place(r) == expect_at(self.t(), pos as int, expected@, what@),
            r is Ok ==> r->Ok_0 == pos + 1 && pos < self.tokens@.len(),
    {
        let n: usize = self.tokens.len();
        if self.is_token(pos, expected) {
            Ok(pos + 1)
        } else {
            Err(unexpected_token(what, self.token(pos)))
        }
    }

    fn peek_ident_is(&self, pos: usize, name: &str) -> (r: bool)
        ensures
            r == is_word(self.t(), pos as int, name@),
            r ==> pos < self.tokens@.len(),
    {
        match self.token(pos) {
            Some(Token::Ident(text)) => same_text(text.as_str(), name),
            _ => false,
        }
    }

    fn parse_op(&self, pos: usize) -> (r: Result<(FilterOp, usize), String>)
        ensures
            match r {
                Ok((op, p)) => op_at(self.t(), pos as int) == Ok::<_, Seq<char>>((op, p as int))
                    && p == pos + 1 && pos < self.tokens@.len(),
                Err(m) => op_at(self.t(), pos as int) == Err::<(FilterOp, int), _>(m@),
            },
    {
        let found = self.token(pos);
        match found {
            Some(Token::Ident(name)) => match FilterOp::parse(name.as_str()) {
                Some(op) => Ok((op, pos + 1)),
                None => Err(
                    cat3(
                        "Expected a filter operator (eq, ne, gt, ge, lt, le), found ",
                        quoted(name.as_str()).as_str(),
                        ".",
                    ),
                ),
            },
            other => Err(unexpected_token("a filter operator (eq, ne, gt, ge, lt, le)", other)),
        }
    }

    fn parse_value(&self, pos: usize) -> (r: Result<(FilterValue, usize), String>)
        ensures
            filter_value_at(r) == value_at(self.t(), pos as int),
            r is Ok ==> r->Ok_0.1 == pos + 1 && pos < self.tokens@.len(),
    {
        let found = self.token(pos);
        match found {
            Some(Token::String(text)) => Ok((FilterValue::String(text.clone()), pos + 1)),
            Some(Token::Number(rank)) => Ok((FilterValue::Number(*rank), pos + 1)),
            Some(Token::Ident(name)) => {
                if same_text(name.as_str(), "true") {
                    Ok((FilterValue::Bool(true), pos + 1))
                } else if same_text(name.as_str(), "false") {
                    Ok((FilterValue::Bool(false), pos + 1))
                } else if same_text(name.as_str(), "null") {
                    Ok((FilterValue::Null, pos + 1))
                } else {
                    Err(
                        cat3(
                            "Expected a filter value (string, number, true, false, null), found ",
                            quoted(name.as_str()).as_str(),
                            ".",
                        ),
                    )
                }
            },
            other => Err(
                unexpected_token("a filter value (string, number, true, false, null)", other),
            ),
        }
    }

    /// Parses a `utcdatetime('...')` literal from its opening parenthesis on,
    /// returning the normalized ISO-8601 string.
    fn parse_utcdatetime_literal(&self, pos: usize) -> (r: Result<(String, usize), String>)
        requires
            pos < self.tokens@.len(),
        ensures
            text_at(r) == utc_literal_at(self.t(), pos as int),
            r is Ok ==> pos < r->Ok_0.1 <= self.tokens@.len(),
    {
        let n: usize = self.tokens.len();
        let (literal, p1) = self.expect_string(pos + 1, "a date string literal in utcdatetime")?;
        let p2 = self.expect_token(p1, &Token::RParen, "')' to close utcdatetime arguments")?;
        match normalize_datetime(literal.as_str()) {
            Some(iso) => Ok((iso, p2)),
            None => Err(
                cat3(
                    "Invalid date ",
                    quoted(literal.as_str()).as_str(),
                    " in utcdatetime; expected ISO-8601 (e.g. '2024-01-15T10:30:00Z').",
                ),
            ),
        }
    }

    /// If a `utcdatetime('...')` literal stands at `pos`, reads it and returns
    /// the normalized ISO-8601 string.
    fn try_parse_utcdatetime(&self, pos: usize) -> (r: Result<(Option<String>, usize), String>)
        ensures
            opt_text_at(r) == maybe_utc_at(self.t(), pos as int),
            r is Ok ==> (r->Ok_0.0 is Some ==> pos < r->Ok_0.1 <= self.tokens@.len()) && (
            r->Ok_0.0 is None ==> r->Ok_0.1 == pos),
    {
        let n: usize = self.tokens.len();
        if self.peek_ident_is(pos, "utcdatetime") && self.is_token(pos + 1, &Token::LParen) {
            let (iso, p) = self.parse_utcdatetime_literal(pos + 1)?;
            Ok((Some(iso), p))
        } else {
            Ok((None, pos))
        }
    }

    /// Parses a comparison right-hand value: a `utcdatetime('...')` literal
    /// (normalized to ISO-8601) or a plain literal value.
    fn parse_value_or_utcdatetime(&self, pos: usize) -> (r: Result<(FilterValue, usize), String>)
        ensures
            filter_value_at(r) == value_or_utc_at(self.t(), pos as int),
            r is Ok ==> pos < r->Ok_0.1 <= self.tokens@.len(),
    {
        let (utc, p) = self.try_parse_utcdatetime(pos)?;
        match utc {
            Some(iso) => Ok((FilterValue::String(iso), p)),
            None => self.parse_value(pos),
        }
    }

    /// Parses a `datediff` endpoint: a field name or a `utcdatetime('...')`
    /// literal.
    fn parse_date_ref(&self, pos: usize) -> (r: Result<(DateRef, usize), String>)
        ensures
            date_ref_result(r) == date_ref_at(self.t(), pos as int),
            r is Ok ==> pos < r->Ok_0.1 <= self.tokens@.len(),
    {
        let (utc, p) = self.try_parse_utcdatetime(pos)?;
        match utc {
            Some(iso) => Ok((DateRef::Literal(iso), p)),
            None => {
                let (field, q) = self.expect_ident(pos, "datediff date field")?;
                Ok((DateRef::Field(field), q))
            },
        }
    }

    /// Parses `datepart(part, field)` after `(`: the date part and the field.
    fn parse_datepart_args(&self, pos: usize) -> (r: Result<(DateExpr, usize), String>)
        ensures
            date_expr_at(r) == datepart_args_at(self.t(), pos as int),
            r is Ok ==> pos < r->Ok_0.1 <= self.tokens@.len(),
    {
        let (name, p1) = self.expect_ident(pos, "date part")?;
        let part = match DatePart::parse(name.as_str()) {
            Some(part) => part,
            None => {
                return Err(
                    cat3(
                        "Unknown datepart ",
                        quoted(name.as_str()).as_str(),
                        "; supported parts: year, quarter, month, week, day, hour, minute, second, dayofweek, dayofyear.",
                    ),
                );
            },
        };
        let p2 = self.expect_token(p1, &Token::Comma, "',' in datepart arguments")?;
        let (field, p3) = self.expect_ident(p2, "field name")?;
        let p4 = self.expect_token(p3, &Token::RParen, "')' to close datepart arguments")?;
        Ok((DateExpr::DatePart { part, field }, p4))
    }

    fn parse_interval(&self, pos: usize) -> (r: Result<(i64, usize), String>)
        ensures
            match r {
                Ok((n, p)) => interval_at(self.t(), pos as int) == Ok::<_, Seq<char>>((n, p as int))
                    && p == pos + 1 && pos < self.tokens@.len(),
                Err(m) => interval_at(self.t(), pos as int) == Err::<(i64, int), _>(m@),
            },
    {
        let found = self.token(pos);
        match found {
            Some(Token::Number(rank)) => match rank_integer(*rank) {
                IntegerOf::Value(n) => Ok((n, pos + 1)),
                IntegerOf::OutOfRange => Err(
                    cat3(
                        "dateadd interval ",
                        display_number(*rank).as_str(),
                        " is out of range; expected an integer.",
                    ),
                ),
                IntegerOf::NoInteger => Err(
                    unexpected_token("an integer interval in dateadd", found),
                ),
            },
            other => Err(unexpected_token("an integer interval in dateadd", other)),
        }
    }

    /// Parses `dateadd(unit, interval, field)` after `(`: the unit, an
    /// integer interval, and the field.
    fn parse_dateadd_args(&self, pos: usize) -> (r: Result<(DateExpr, usize), String>)
        ensures
            date_expr_at(r) == dateadd_args_at(self.t(), pos as int),
            r is Ok ==> pos < r->Ok_0.1 <= self.tokens@.len(),
    {
        let (name, p1) = self.expect_ident(pos, "date unit")?;
        let unit = match DateUnit::parse(name.as_str()) {
            Some(unit) => unit,
            None => {
                return Err(
                    cat3(
                        "Unknown dateadd unit ",
                        quoted(name.as_str()).as_str(),
                        "; supported units: year, quarter, month, week, day, hour, minute, second.",
                    ),
                );
            },
        };
        let p2 = self.expect_token(p1, &Token::Comma, "',' in dateadd arguments")?;
        let (interval, p3) = self.parse_interval(p2)?;
        let p4 = self.expect_token(p3, &Token::Comma, "',' in dateadd arguments")?;
        let (field, p5) = self.expect_ident(p4, "field name")?;
        let p6 = self.expect_token(p5, &Token::RParen, "')' to close dateadd arguments")?;
        Ok((DateExpr::DateAdd { unit, interval, field }, p6))
    }

    /// Parses `datediff(unit, start, end)` after `(`: the unit and the two
    /// endpoints (each a field or a `utcdatetime` literal).
    fn parse_datediff_args(&self, pos: usize) -> (r: Result<(DateExpr, usize), String>)
        ensures
            date_expr_at(r) == datediff_args_at(self.t(), pos as int),
            r is Ok ==> pos < r->Ok_0.1 <= self.tokens@.len(),
    {
        let (name, p1) = self.expect_ident(pos, "date unit")?;
        let unit = match DateUnit::parse(name.as_str()) {
            Some(unit) => unit,
            None => {
                return Err(
                    cat3(
                        "Unknown datediff unit ",
                        quoted(name.as_str()).as_str(),
                        "; supported units: year, quarter, month, week, day, hour, minute, second.",
                    ),
                );
            },
        };
        let p2 = self.expect_token(p1, &Token::Comma, "',' in datediff arguments")?;
        let (start, p3) = self.parse_date_ref(p2)?;
        let p4 = self.expect_token(p3, &Token::Comma, "',' in datediff arguments")?;
        let (end, p5) = self.parse_date_ref(p4)?;
        let p6 = self.expect_token(p5, &Token::RParen, "')' to close datediff arguments")?;
        Ok((DateExpr::DateDiff { unit, start, end }, p6))
    }

    /// Parses a date comparison after the function name (`datepart`,
    /// `dateadd`, `datediff`, or a leading `utcdatetime`), with `(` at `pos`:
    /// `(args) op value`.
    fn parse_date_compare(&self, pos: usize, name: &str) -> (r: Result<(FilterExpr, usize), String>)
        requires
            pos < self.tokens@.len(),
            is_date_function(name@),
        ensures
            expr_at(r) == date_compare_at(self.t(), pos as int, name@),
            r is Ok ==> pos < r->Ok_0.1 <= self.tokens@.len(),
    {
        let n: usize = self.tokens.len();
        if same_text(name, "utcdatetime") {
            let (iso, p1) = self.parse_utcdatetime_literal(pos)?;
            let (op, p2) = self.parse_op(p1)?;
            let (field, p3) = self.expect_ident(p2, "field name")?;
            return Ok(
                (
                    FilterExpr::DateCompare {
                        left: DateOperand::Field(field),
                        op: reverse_op(op),
                        value: FilterValue::String(iso),
                    },
                    p3,
                ),
            );
        }
        let (expr, p1) = if same_text(name, "datepart") {
            self.parse_datepart_args(pos + 1)?
        } else if same_text(name, "dateadd") {
            self.parse_dateadd_args(pos + 1)?
        } else {
            self.parse_datediff_args(pos + 1)?
        };
        let (op, p2) = self.parse_op(p1)?;
        let (value, p3) = self.parse_value_or_utcdatetime(p2)?;
        Ok((FilterExpr::DateCompare { left: DateOperand::Expr(expr), op, value }, p3))
    }

    /// Parses a string-function call after the function name: `(field,
    /// 'literal')`.
    fn parse_function_call(&self, pos: usize, name: &str) -> (r: Result<
        (FilterExpr, usize),
        String,
    >)
        requires
            pos < self.tokens@.len(),
        ensures
            expr_at(r) == function_call_at(self.t(), pos as int, name@),
            r is Ok ==> pos < r->Ok_0.1 <= self.tokens@.len(),
    {
        let n: usize = self.tokens.len();
        let func = match StringFunc::parse(name) {
            Some(func) => func,
            None => {
                return Err(
                    cat3(
                        "Unsupported filter function ",
                        quoted(name).as_str(),
                        "; supported functions: startswith, endswith, contains.",
                    ),
                );
            },
        };
        let (field, p1) = self.expect_ident(pos + 1, "field name")?;
        let p2 = self.expect_token(p1, &Token::Comma, "',' after filter function field name")?;
        let (arg, p3) = self.expect_string(
            p2,
            "a string literal as the filter function argument",
        )?;
        let p4 = self.expect_token(p3, &Token::RParen, "')' after filter function argument")?;
        Ok((FilterExpr::StringFunc { func, field, arg }, p4))
    }

    fn parse_ismatch_fields(&self, pos: usize, name: &str) -> (r: Result<Vec<String>, String>)
        ensures
            match r {
                Ok(fields) => ismatch_fields_at(self.t(), pos as int, name@) == Ok::<_, Seq<char>>(
                    texts(fields@),
                ) && pos < self.tokens@.len(),
                Err(m) => ismatch_fields_at(self.t(), pos as int, name@) == Err::<
                    Seq<Seq<char>>,
                    _,
                >(m@),
            },
    {
        broadcast use lemma_texts_push;

        let mut fields: Vec<String> = Vec::new();
        let found = self.token(pos);
        match found {
            Some(Token::Ident(field)) => {
                fields.push(field.clone());
                assert(texts(fields@) =~= seq![field@]);
                Ok(fields)
            },
            Some(Token::String(list)) => {
                let parts = split_on(list.as_str(), ',');
                let mut i: usize = 0;
                assert(texts(fields@) =~= seq![]);
                while i < parts.len()
                    invariant
                        i <= parts@.len(),
                        pos < self.tokens@.len(),
                        tok(self.t(), pos as int) == Some(TokenV::String(list@)),
                        texts(parts@) == pieces(list@, ','),
                        listed_fields(texts(parts@), 0, seq![], name@, list@) == listed_fields(
                            texts(parts@),
                            i as int,
                            texts(fields@),
                            name@,
                            list@,
                        ),
                    decreases parts@.len() - i,
                {
                    let field = trimmed(parts[i].as_str());
                    assert(texts(parts@)[i as int] == parts@[i as int]@);
                    if field.as_str().is_empty() {
                        return Err(
                            cat5(
                                "Empty field name in search.",
                                name,
                                " field list ",
                                quoted(list.as_str()).as_str(),
                                ".",
                            ),
                        );
                    }
                    let ghost before = texts(fields@);
                    fields.push(field);
                    assert(texts(fields@) == before.push(field@));
                    i += 1;
                }
                Ok(fields)
            },
            other => Err(
                unexpected_token(cat2("a field name in search.", name).as_str(), other),
            ),
        }
    }

    fn skip_options(&self, pos: usize, name: &str) -> (r: Result<usize, String>)
        requires
            pos <= self.tokens@.len(),
        ensures
            place(r) == options_end(self.t(), pos as int, name@),
            r is Ok ==> pos <= r->Ok_0 <= self.tokens@.len(),
    {
        let n: usize = self.tokens.len();
        let mut p: usize = pos;
        while self.is_token(p, &Token::Comma)
            invariant
                n == self.tokens@.len(),
                pos <= p <= n,
                options_end(self.t(), pos as int, name@) == options_end(
                    self.t(),
                    p as int,
                    name@,
                ),
            decreases n - p,
        {
            match self.token(p + 1) {
                Some(Token::String(_)) => {},
                Some(Token::Ident(_)) => {},
                other => {
                    return Err(
                        unexpected_token(
                            cat3("a string in search.", name, " options").as_str(),
                            other,
                        ),
                    );
                },
            }
            p += 2;
        }
        Ok(p)
    }

    /// Parses `ismatch('pattern', field[, ...])` / `ismatchscoring(...)`
    /// after `(`: the pattern, the field list, and any inert extra options.
    /// Returns one `IsMatch` expression per listed field.
    fn parse_ismatch_args(&self, pos: usize, name: &str) -> (r: Result<
        (Vec<FilterExpr>, usize),
        String,
    >)
        ensures
            exprs_at(r) == ismatch_args_at(self.t(), pos as int, name@),
            r is Ok ==> pos < r->Ok_0.1 <= self.tokens@.len(),
    {
        broadcast use group_filter;

        let (pattern, p1) = self.expect_string(
            pos,
            cat2("a search pattern string in search.", name).as_str(),
        )?;
        let p2 = self.expect_token(
            p1,
            &Token::Comma,
            cat3("',' in search.", name, " arguments").as_str(),
        )?;
        let fields = self.parse_ismatch_fields(p2, name)?;
        let n: usize = self.tokens.len();
        let p3 = self.skip_options(p2 + 1, name)?;
        let p4 = self.expect_token(
            p3,
            &Token::RParen,
            cat3("')' to close search.", name, " arguments").as_str(),
        )?;
        let mut exprs: Vec<FilterExpr> = Vec::new();
        let mut i: usize = 0;
        let ghost all = ismatch_exprs(texts(fields@), pattern@);
        while i < fields.len()
            invariant
                i <= fields@.len(),
                all == ismatch_exprs(texts(fields@), pattern@),
                expr_views(exprs@) == all.take(i as int),
            decreases fields@.len() - i,
        {
            let ghost before = exprs@;
            let expr = FilterExpr::IsMatch { field: fields[i].clone(), pattern: pattern.clone() };
            exprs.push(expr);
            assert(expr_views(exprs@) == expr_views(before).push(expr@));
            assert(all[i as int] == expr@);
            i += 1;
            assert(expr_views(exprs@) =~= all.take(i as int));
        }
        assert(all.take(all.len() as int) =~= all);
        Ok((exprs, p4))
    }

    /// Parses `isempty(field)` / `isnull(field)` after `(`.
    fn parse_isempty_isnull(&self, pos: usize, name: &str) -> (r: Result<
        (FilterExpr, usize),
        String,
    >)
        ensures
            expr_at(r) == isempty_isnull_at(self.t(), pos as int, name@),
            r is Ok ==> pos < r->Ok_0.1 <= self.tokens@.len(),
    {
        let (field, p1) = self.expect_ident(pos, "field name")?;
        let p2 = self.expect_token(
            p1,
            &Token::RParen,
            cat3("')' to close search.", name, " arguments").as_str(),
        )?;
        if same_text(name, "isempty") {
            Ok((FilterExpr::IsEmpty { field }, p2))
        } else {
            Ok((FilterExpr::IsNull { field }, p2))
        }
    }

    /// Parses a `search.*` function call after the function name, with `(` at
    /// `pos`: `search.ismatch('pattern', field)`,
    /// `search.ismatchscoring('pattern', field)`, `search.isempty(field)`,
    /// `search.isnull(field)`.
    fn parse_search_function(&self, pos: usize, name: &str) -> (r: Result<
        (FilterExpr, usize),
        String,
    >)
        requires
            pos < self.tokens@.len(),
        ensures
            expr_at(r) == search_function_at(self.t(), pos as int, name@),
            r is Ok ==> pos < r->Ok_0.1 <= self.tokens@.len(),
    {
        broadcast use group_filter;

        let n: usize = self.tokens.len();
        if same_text(name, "ismatch") || same_text(name, "ismatchscoring") {
            let (mut exprs, p1) = self.parse_ismatch_args(pos + 1, name)?;
            if exprs.len() == 1 {
                assert(expr_views(exprs@)[0] == exprs@[0]@);
                let only = exprs.swap_remove(0);
                Ok((only, p1))
            } else {
                Ok((FilterExpr::Or(exprs), p1))
            }
        } else if same_text(name, "isempty") || same_text(name, "isnull") {
            self.parse_isempty_isnull(pos + 1, name)
        } else {
            Err(
                cat3(
                    "Unsupported search function 'search.",
                    name,
                    "'; supported functions: ismatch, ismatchscoring, isempty, isnull.",
                ),
            )
        }
    }

    /// Parses an `in` value list after the field name and `in` keyword:
    /// `(value, ...)`.
    #[verifier::loop_isolation(false)]
    fn parse_in_list(&self, pos: usize, field: &str) -> (r: Result<(FilterExpr, usize), String>)
        ensures
            expr_at(r) == in_list_at(self.t(), pos as int, field@),
            r is Ok ==> pos < r->Ok_0.1 <= self.tokens@.len(),
    {
        broadcast use group_filter;

        let n: usize = self.tokens.len();
        let first = self.expect_token(pos, &Token::LParen, "'(' after 'in'")?;
        let mut p: usize = first;
        let mut values: Vec<FilterValue> = Vec::new();
        assert(filter_values(values@) =~= seq![]);
        loop
            invariant
                pos < p <= n,
                n == self.tokens@.len(),
                in_values_at(self.t(), first as int, seq![]) == in_values_at(
                    self.t(),
                    p as int,
                    filter_values(values@),
                ),
            decreases n - p,
        {
            let (value, p1) = self.parse_value(p)?;
            let ghost before = filter_values(values@);
            values.push(value);
            assert(filter_values(values@) == before.push(value@));
            match self.token(p1) {
                Some(Token::Comma) => {},
                Some(Token::RParen) => {
                    return Ok((FilterExpr::In { field: field.to_owned(), values }, p1 + 1));
                },
                other => {
                    return Err(unexpected_token("',' or ')' in 'in' value list", other));
                },
            }
            p = p1 + 1;
        }
    }

    fn parse_keyword_lambda(&self, pos: usize, kind: &str, field: String) -> (r: Result<
        (FilterExpr, usize),
        String,
    >)
        ensures
            expr_at(r) == keyword_lambda_at(self.t(), pos as int, kind@, field@),
            r is Ok ==> pos < r->Ok_0.1 <= self.tokens@.len(),
    {
        let (variable, p1) = self.expect_ident(pos, "lambda variable")?;
        let (op, p2) = self.parse_op(p1)?;
        let (value, p3) = self.parse_value(p2)?;
        let inner = FilterExpr::Compare { field: variable, op, value };
        assert(inner@ == (FilterExprV::Compare { field: variable@, op, value: value@ }));
        if same_text(kind, "any") {
            Ok((FilterExpr::Any { field, inner: Box::new(inner) }, p3))
        } else {
            Ok((FilterExpr::All { field, inner: Box::new(inner) }, p3))
        }
    }

    fn parse_plain_compare(&self, pos: usize, field: String) -> (r: Result<
        (FilterExpr, usize),
        String,
    >)
        ensures
            expr_at(r) == plain_compare_at(self.t(), pos as int, field@),
            r is Ok ==> pos < r->Ok_0.1 <= self.tokens@.len(),
    {
        let (op, p1) = self.parse_op(pos)?;
        let (utc, p2) = self.try_parse_utcdatetime(p1)?;
        if let Some(iso) = utc {
            return Ok(
                (
                    FilterExpr::DateCompare {
                        left: DateOperand::Field(field),
                        op,
                        value: FilterValue::String(iso),
                    },
                    p2,
                ),
            );
        }
        let (value, p3) = self.parse_value(p1)?;
        Ok((FilterExpr::Compare { field, op, value }, p3))
    }

    fn parse_comparison(&self, pos: usize) -> (r: Result<(FilterExpr, usize), String>)
        ensures
            expr_at(r) == comparison_at(self.t(), pos as int),
            r is Ok ==> pos < r->Ok_0.1 <= self.tokens@.len(),
        decreases left(self.tokens@.len(), pos as int), 0int,
    {
        let n: usize = self.tokens.len();
        let (first, p1) = self.expect_ident(pos, "field name")?;
        let opens = self.is_token(p1, &Token::LParen);
        if opens {
            if let Some((field, kind)) = split_lambda_field(first.as_str()) {
                let (_variable, p2) = self.expect_ident(p1 + 1, "lambda variable")?;
                let p3 = self.expect_token(p2, &Token::Colon, "':' after lambda variable")?;
                let (inner, p4) = self.parse_comparison(p3)?;
                let p5 = self.expect_token(p4, &Token::RParen, "')' after lambda body")?;
                if same_text(kind.as_str(), "any") {
                    return Ok((FilterExpr::Any { field, inner: Box::new(inner) }, p5));
                } else {
                    return Ok((FilterExpr::All { field, inner: Box::new(inner) }, p5));
                }
            }
        }
        if self.peek_ident_is(p1, "any") {
            return self.parse_keyword_lambda(p1 + 1, "any", first);
        }
        if self.peek_ident_is(p1, "all") {
            return self.parse_keyword_lambda(p1 + 1, "all", first);
        }
        let name = first.as_str();
        if opens && (same_text(name, "datepart") || same_text(name, "dateadd") || same_text(
            name,
            "datediff",
        ) || same_text(name, "utcdatetime")) {
            return self.parse_date_compare(p1, name);
        }
        if same_text(name, "search") && self.is_token(p1, &Token::Dot) {
            let (func, p2) = self.expect_ident(p1 + 1, "search function name")?;
            if self.is_token(p2, &Token::LParen) {
                return self.parse_search_function(p2, func.as_str());
            }
            return Err(
                cat3(
                    "Expected '(' after 'search.",
                    func.as_str(),
                    "'; supported search functions: ismatch, ismatchscoring, isempty, isnull.",
                ),
            );
        }
        if opens {
            return self.parse_function_call(p1, name);
        }
        if self.peek_ident_is(p1, "in") {
            return self.parse_in_list(p1 + 1, name);
        }
        self.parse_plain_compare(p1, first)
    }

    fn parse_primary(&self, pos: usize) -> (r: Result<(FilterExpr, usize), String>)
        ensures
            expr_at(r) == primary_at(self.t(), pos as int),
            r is Ok ==> pos < r->Ok_0.1 <= self.tokens@.len(),
        decreases left(self.tokens@.len(), pos as int), 1int,
    {
        let n: usize = self.tokens.len();
        if self.is_token(pos, &Token::LParen) {
            let (expr, p1) = self.parse_or(pos + 1)?;
            let p2 = self.expect_token(p1, &Token::RParen, "')' after filter sub-expression")?;
            Ok((expr, p2))
        } else {
            self.parse_comparison(pos)
        }
    }

    fn parse_not(&self, pos: usize) -> (r: Result<(FilterExpr, usize), String>)
        ensures
            expr_at(r) == not_at(self.t(), pos as int),
            r is Ok ==> pos < r->Ok_0.1 <= self.tokens@.len(),
        decreases left(self.tokens@.len(), pos as int), 2int,
    {
        let n: usize = self.tokens.len();
        if self.peek_ident_is(pos, "not") {
            let (expr, p1) = self.parse_not(pos + 1)?;
            return Ok((FilterExpr::Not(Box::new(expr)), p1));
        }
        self.parse_primary(pos)
    }

    #[verifier::loop_isolation(false)]
    fn parse_and(&self, pos: usize) -> (r: Result<(FilterExpr, usize), String>)
        ensures
            expr_at(r) == and_at(self.t(), pos as int),
            r is Ok ==> pos < r->Ok_0.1 <= self.tokens@.len(),
        decreases left(self.tokens@.len(), pos as int), 4int,
    {
        broadcast use group_filter;

        let n: usize = self.tokens.len();
        let (first, start) = self.parse_not(pos)?;
        if !self.peek_ident_is(start, "and") {
            return Ok((first, start));
        }
        let mut p: usize = start;
        let mut clauses: Vec<FilterExpr> = Vec::new();
        clauses.push(first);
        assert(expr_views(clauses@) =~= seq![first@]);
        while self.peek_ident_is(p, "and")
            invariant
                pos < start <= p <= n,
                n == self.tokens@.len(),
                and_at(self.t(), pos as int) == and_rest_at(
                    self.t(),
                    p as int,
                    expr_views(clauses@),
                ),
            decreases n - p,
        {
            let (clause, p1) = self.parse_not(p + 1)?;
            let ghost before = expr_views(clauses@);
            clauses.push(clause);
            assert(expr_views(clauses@) == before.push(clause@));
            p = p1;
        }
        Ok((FilterExpr::And(clauses), p))
    }

    #[verifier::loop_isolation(false)]
    fn parse_or(&self, pos: usize) -> (r: Result<(FilterExpr, usize), String>)
        ensures
            expr_at(r) == or_at(self.t(), pos as int),
            r is Ok ==> pos < r->Ok_0.1 <= self.tokens@.len(),
        decreases left(self.tokens@.len(), pos as int), 6int,
    {
        broadcast use group_filter;

        let n: usize = self.tokens.len();
        let (first, start) = self.parse_and(pos)?;
        if !self.peek_ident_is(start, "or") {
            return Ok((first, start));
        }
        let mut p: usize = start;
        let mut clauses: Vec<FilterExpr> = Vec::new();
        clauses.push(first);
        assert(expr_views(clauses@) =~= seq![first@]);
        while self.peek_ident_is(p, "or")
            invariant
                pos < start <= p <= n,
                n == self.tokens@.len(),
                or_at(self.t(), pos as int) == or_rest_at(
                    self.t(),
                    p as int,
                    expr_views(clauses@),
                ),
            decreases n - p,
        {
            let (clause, p1) = self.parse_and(p + 1)?;
            let ghost before = expr_views(clauses@);
            clauses.push(clause);
            assert(expr_views(clauses@) == before.push(clause@));
            p = p1;
        }
        Ok((FilterExpr::Or(clauses), p))
    }
}

/// Splits a collection-lambda field reference (`Tags/any`, `Tags/all`) into
/// the collection field and the lambda operator. Returns `None` for plain
/// field names and complex paths that do not end in `/any` or `/all`.
pub fn split_lambda_field(name: &str) -> (r: Option<(String, String)>)
    ensures
        opt_pair(r) == lambda_field(name@),
{
    if let Some(field) = strip_suffix(name, "/any") {
        return Some((field, "any".to_owned()));
    }
    if let Some(field) = strip_suffix(name, "/all") {
        return Some((field, "all".to_owned()));
    }
    None
}

pub open spec fn filter_result(r: Result<FilterExpr, String>) -> Result<FilterExprV, Seq<char>> {
    match r {
        Ok(e) => Ok(e@),
        Err(m) => Err(m@),
    }
}

/// Parses a `$filter` expression into an internal expression tree, or returns
/// a message describing the first syntax problem found.
pub fn parse_filter(input: &str) -> (r: Result<FilterExpr, String>)
    ensures
        filter_result(r) == filter_of(input@),
{
    let tokens = tokenize(input)?;
    if tokens.len() == 0 {
        return Err("Filter expression is empty.".to_owned());
    }
    let parser = Parser { tokens };
    let (expr, p) = parser.parse_or(0)?;
    match parser.token(p) {
        Some(token) => Err(
            cat3("Unexpected ", describe_token(Some(token)).as_str(), " after filter expression."),
        ),
        None => Ok(expr),
    }
}

} // verus!
