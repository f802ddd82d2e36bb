//! The order of search results.
use crate::json::{Json, JsonV, Number, is_nan_rank, member, rank_lt, ranks_less};
use crate::service::types::{OrderBy, OrderByV, order_views};
use crate::sorting::{
    all_among, in_order, law_sorting_keeps_items, law_sorting_orders_items, sort_items, sorted_by,
    views_of,
};
use crate::storage::document::{Document, DocumentV};
use crate::text::{
    lemma_text_less_irreflexive, lemma_text_less_total, lemma_text_less_transitive, same_text,
    text_before, text_less,
};
use vstd::prelude::*;

verus! {

/// A document with its score. The score is a binary64 number, by its rank (see
/// [`crate::json::Number`]).
#[derive(Debug, PartialEq)]
pub struct Scored {
    pub document: Document,
    pub score: u64,
}

/// The mathematical value of a [`Scored`].
pub struct ScoredV {
    pub document: DocumentV,
    pub score: u64,
}

impl View for Scored {
    type V = ScoredV;

    open spec fn view(&self) -> ScoredV {
        ScoredV { document: self.document@, score: self.score }
    }
}

pub open spec fn scored_views(v: Seq<Scored>) -> Seq<ScoredV> {
    v.map_values(|s: Scored| s@)
}

pub broadcast proof fn lemma_scored_views_push(v: Seq<Scored>, s: Scored)
    ensures
        #[trigger] scored_views(v.push(s)) == scored_views(v).push(s@),
{
    assert(scored_views(v.push(s)) =~= scored_views(v).push(s@));
}

// ---------------------------------------------------------------------------
// Comparison: negative, zero, or positive
// ---------------------------------------------------------------------------

pub open spec fn int_order(a: int, b: int) -> int {
    if a < b {
        -1
    } else if a > b {
        1
    } else {
        0
    }
}

pub open spec fn text_order(a: Seq<char>, b: Seq<char>) -> int {
    if text_less(a, b) {
        -1
    } else if text_less(b, a) {
        1
    } else {
        0
    }
}

pub open spec fn bool_order(a: bool, b: bool) -> int {
    if a == b {
        0
    } else if b {
        -1
    } else {
        1
    }
}

/// The order of numbers: by their binary64 value, and where that is the same, by
/// the integer, what is none first. Large integers that round to the same
/// binary64 number still order exactly.
pub open spec fn number_order(a: Number, b: Number) -> int {
    let by_value = int_order(a.rank_spec() as int, b.rank_spec() as int);
    if by_value != 0 {
        by_value
    } else {
        match (a.int_spec(), b.int_spec()) {
            (Some(x), Some(y)) => int_order(x, y),
            (None, Some(_)) => -1,
            (Some(_), None) => 1,
            (None, None) => 0,
        }
    }
}

/// The place of a value's type in mixed comparisons: null, boolean, number,
/// string, array, object.
pub open spec fn type_place(v: JsonV) -> int {
    match v {
        JsonV::Null => 0,
        JsonV::Bool(_) => 1,
        JsonV::Number(_) => 2,
        JsonV::String(_) => 3,
        JsonV::Array(_) => 4,
        JsonV::Object(_) => 5,
    }
}

/// The order of values: by type, and within a type by value.
pub open spec fn value_order(a: JsonV, b: JsonV) -> int {
    match (a, b) {
        (JsonV::Bool(x), JsonV::Bool(y)) => bool_order(x, y),
        (JsonV::Number(x), JsonV::Number(y)) => number_order(x, y),
        (JsonV::String(x), JsonV::String(y)) => text_order(x, y),
        _ => int_order(type_place(a), type_place(b)),
    }
}

/// The order of field values: what is missing comes first.
pub open spec fn field_order(a: Option<JsonV>, b: Option<JsonV>) -> int {
    match (a, b) {
        (Some(x), Some(y)) => value_order(x, y),
        (None, Some(_)) => -1,
        (Some(_), None) => 1,
        (None, None) => 0,
    }
}

/// The order of scores.
pub open spec fn score_order(a: u64, b: u64) -> int {
    if rank_lt(a, b) {
        -1
    } else if rank_lt(b, a) {
        1
    } else {
        0
    }
}

/// The order that one clause gives.
pub open spec fn clause_order(clause: OrderByV, a: ScoredV, b: ScoredV) -> int {
    let ascending = if clause.field == "@search.score"@ {
        score_order(a.score, b.score)
    } else {
        field_order(member(a.document.fields, clause.field), member(b.document.fields, clause.field))
    };
    if clause.descending {
        -ascending
    } else {
        ascending
    }
}

/// The order that the clauses from `i` on give, and the key after them.
pub open spec fn clauses_order(orderby: Seq<OrderByV>, i: int, a: ScoredV, b: ScoredV) -> int
    decreases orderby.len() - i,
{
    if i >= orderby.len() {
        text_order(a.document.key, b.document.key)
    } else {
        let c = clause_order(orderby[i], a, b);
        if c != 0 {
            c
        } else {
            clauses_order(orderby, i + 1, a, b)
        }
    }
}

/// The order of results: by the clauses, or without any by the score, greatest
/// first; by the key where that decides nothing.
pub open spec fn result_order(orderby: Seq<OrderByV>, a: ScoredV, b: ScoredV) -> int {
    if orderby.len() == 0 {
        let c = -score_order(a.score, b.score);
        if c != 0 {
            c
        } else {
            text_order(a.document.key, b.document.key)
        }
    } else {
        clauses_order(orderby, 0, a, b)
    }
}

/// Whether one result comes before another.
pub open spec fn comes_before(orderby: Seq<OrderByV>) -> spec_fn(ScoredV, ScoredV) -> bool {
    |a: ScoredV, b: ScoredV| result_order(orderby, a, b) < 0
}

fn compare_text(a: &str, b: &str) -> (r: i8)
    ensures
        r == text_order(a@, b@),
{
    if text_before(a, b) {
        -1
    } else if text_before(b, a) {
        1
    } else {
        0
    }
}

fn compare_integer(a: i128, b: i128) -> (r: i8)
    ensures
        r == int_order(a as int, b as int),
{
    if a < b {
        -1
    } else if a > b {
        1
    } else {
        0
    }
}

fn integer_of(n: Number) -> (r: Option<i128>)
    ensures
        match r {
            Some(i) => n.int_spec() == Some(i as int),
            None => n.int_spec() is None,
        },
{
    match n {
        Number::PosInt(v) => Some(v as i128),
        Number::NegInt(v) => Some(v as i128),
        Number::Float(_) => None,
    }
}

fn compare_numbers(a: Number, b: Number) -> (r: i8)
    ensures
        r == number_order(a, b),
{
    let by_value = compare_integer(a.rank() as i128, b.rank() as i128);
    if by_value != 0 {
        return by_value;
    }
    match (integer_of(a), integer_of(b)) {
        (Some(x), Some(y)) => compare_integer(x, y),
        (None, Some(_)) => -1,
        (Some(_), None) => 1,
        (None, None) => 0,
    }
}

fn place_of(v: &Json) -> (r: i8)
    ensures
        r == type_place(v@),
{
    match v {
        Json::Null => 0,
        Json::Bool(_) => 1,
        Json::Number(_) => 2,
        Json::String(_) => 3,
        Json::Array(_) => 4,
        Json::Object(_) => 5,
    }
}

pub(crate) fn compare_values(a: &Json, b: &Json) -> (r: i8)
    ensures
        r == value_order(a@, b@),
{
    match (a, b) {
        (Json::Bool(x), Json::Bool(y)) => {
            if *x == *y {
                0
            } else if *y {
                -1
            } else {
                1
            }
        },
        (Json::Number(x), Json::Number(y)) => compare_numbers(*x, *y),
        (Json::String(x), Json::String(y)) => compare_text(x.as_str(), y.as_str()),
        _ => {
            let p = place_of(a);
            let q = place_of(b);
            if p < q {
                -1
            } else if p > q {
                1
            } else {
                0
            }
        },
    }
}

/// Compares two documents on `field`. A missing value sorts first in ascending
/// order and last in descending order.
fn compare_field(a: &Document, b: &Document, field: &str) -> (r: i8)
    ensures
        r == field_order(member(a@.fields, field@), member(b@.fields, field@)),
{
    match (a.fields.get(field), b.fields.get(field)) {
        (Some(x), Some(y)) => compare_values(x, y),
        (None, Some(_)) => -1,
        (Some(_), None) => 1,
        (None, None) => 0,
    }
}

fn compare_scores(a: u64, b: u64) -> (r: i8)
    ensures
        r == score_order(a, b),
{
    if ranks_less(a, b) {
        -1
    } else if ranks_less(b, a) {
        1
    } else {
        0
    }
}

/// Compares two scored documents by the `orderby` clauses, with the key as the
/// final tie-breaker so ordering is deterministic; without clauses by score,
/// greatest first.
fn compare_scored(a: &Scored, b: &Scored, orderby: &Vec<OrderBy>) -> (r: i8)
    ensures
        r == result_order(order_views(orderby@), a@, b@),
        -1 <= r <= 1,
{
    if orderby.len() == 0 {
        let by_score = compare_scores(a.score, b.score);
        if by_score != 0 {
            return -by_score;
        }
        return compare_text(a.document.key.as_str(), b.document.key.as_str());
    }
    let ghost all = order_views(orderby@);
    let mut i: usize = 0;
    while i < orderby.len()
        invariant
            all == order_views(orderby@),
            all.len() > 0,
            i <= orderby@.len(),
            clauses_order(all, 0, a@, b@) == clauses_order(all, i as int, a@, b@),
        decreases orderby@.len() - i,
    {
        assert(all[i as int] == orderby@[i as int]@);
        let clause = &orderby[i];
        let ascending = if same_text(clause.field.as_str(), "@search.score") {
            compare_scores(a.score, b.score)
        } else {
            compare_field(&a.document, &b.document, clause.field.as_str())
        };
        if ascending != 0 {
            if clause.descending {
                return -ascending;
            }
            return ascending;
        }
        i += 1;
    }
    compare_text(a.document.key.as_str(), b.document.key.as_str())
}

/// Orders scored documents: by `orderby` when given, otherwise by score
/// descending with the key field as tie-breaker so ranking is deterministic.
/// Match-all (unscored) queries carry equal scores, so they stay in key order
/// via the tie-breaker.
pub fn order_scored(scored: Vec<Scored>, orderby: &Vec<OrderBy>) -> (r: Vec<Scored>)
    ensures
        scored_views(r@) == sorted_by(
            scored_views(scored@),
            comes_before(order_views(orderby@)),
        ),
{
    let ghost before = comes_before(order_views(orderby@));
    let ghost all = scored@;
    let f = |a: &Scored, b: &Scored| -> (res: bool)
        ensures
            res == (result_order(order_views(orderby@), a@, b@) < 0),
        { compare_scored(a, b, orderby) < 0 };
    let r = sort_items(scored, f, Ghost(before));
    assert(views_of(all) =~= scored_views(all));
    assert(views_of(r@) =~= scored_views(r@));
    r
}

// ---------------------------------------------------------------------------
// Laws
// ---------------------------------------------------------------------------

/// Whether a comparison is that of a total preorder at three items.
pub open spec fn coherent(ab: int, ba: int, bc: int, ac: int) -> bool {
    ab == -ba && (ab <= 0 && bc <= 0 ==> ac <= 0) && (ab < 0 && bc <= 0 ==> ac < 0) && (ab <= 0 && bc
        < 0 ==> ac < 0)
}

proof fn lemma_text_order(a: Seq<char>, b: Seq<char>, c: Seq<char>)
    ensures
        coherent(text_order(a, b), text_order(b, a), text_order(b, c), text_order(a, c)),
{
    lemma_text_less_total(a, b);
    lemma_text_less_total(b, c);
    lemma_text_less_total(a, c);
    lemma_text_less_irreflexive(a);
    lemma_text_less_irreflexive(b);
    if text_less(a, b) && text_less(b, c) {
        lemma_text_less_transitive(a, b, c);
    }
    if text_less(c, b) && text_less(b, a) {
        lemma_text_less_transitive(c, b, a);
    }
    if text_less(c, a) && text_less(a, b) {
        lemma_text_less_transitive(c, a, b);
    }
    if text_less(b, c) && text_less(c, a) {
        lemma_text_less_transitive(b, c, a);
    }
}

pub proof fn lemma_value_order(a: JsonV, b: JsonV, c: JsonV)
    ensures
        coherent(value_order(a, b), value_order(b, a), value_order(b, c), value_order(a, c)),
{
    if a is String && b is String && c is String {
        lemma_text_order(a->String_0, b->String_0, c->String_0);
    } else if a is String && b is String {
        lemma_text_order(a->String_0, b->String_0, b->String_0);
    } else if b is String && c is String {
        lemma_text_order(b->String_0, c->String_0, c->String_0);
    } else if a is String && c is String {
        lemma_text_order(a->String_0, c->String_0, c->String_0);
    }
}

proof fn lemma_field_order(a: Option<JsonV>, b: Option<JsonV>, c: Option<JsonV>)
    ensures
        coherent(field_order(a, b), field_order(b, a), field_order(b, c), field_order(a, c)),
{
    match (a, b, c) {
        (Some(x), Some(y), Some(z)) => {
            lemma_value_order(x, y, z);
        },
        (Some(x), Some(y), None) => {
            lemma_value_order(x, y, y);
        },
        (None, Some(y), Some(z)) => {
            lemma_value_order(y, z, z);
        },
        (Some(x), None, Some(z)) => {
            lemma_value_order(x, z, z);
        },
        _ => {},
    }
}

/// Whether the scores of results are numbers.
pub open spec fn scores_are_numbers(a: ScoredV, b: ScoredV, c: ScoredV) -> bool {
    !is_nan_rank(a.score) && !is_nan_rank(b.score) && !is_nan_rank(c.score)
}

proof fn lemma_clause_order(clause: OrderByV, a: ScoredV, b: ScoredV, c: ScoredV)
    requires
        scores_are_numbers(a, b, c),
    ensures
        coherent(
            clause_order(clause, a, b),
            clause_order(clause, b, a),
            clause_order(clause, b, c),
            clause_order(clause, a, c),
        ),
{
    if clause.field != "@search.score"@ {
        let x = member(a.document.fields, clause.field);
        let y = member(b.document.fields, clause.field);
        let z = member(c.document.fields, clause.field);
        lemma_field_order(x, y, z);
        lemma_field_order(z, y, x);
        lemma_field_order(x, z, y);
    }
}

proof fn lemma_clauses_order(
    orderby: Seq<OrderByV>,
    i: int,
    a: ScoredV,
    b: ScoredV,
    c: ScoredV,
)
    requires
        scores_are_numbers(a, b, c),
    ensures
        coherent(
            clauses_order(orderby, i, a, b),
            clauses_order(orderby, i, b, a),
            clauses_order(orderby, i, b, c),
            clauses_order(orderby, i, a, c),
        ),
    decreases orderby.len() - i,
{
    if i >= orderby.len() {
        lemma_text_order(a.document.key, b.document.key, c.document.key);
    } else {
        lemma_clause_order(orderby[i], a, b, c);
        lemma_clause_order(orderby[i], c, b, a);
        lemma_clause_order(orderby[i], b, c, a);
        lemma_clauses_order(orderby, i + 1, a, b, c);
    }
}

/// The order of results is coherent: swapping two results reverses it, and it
/// carries over from pair to pair. Scores that are no numbers are left out.
pub proof fn law_result_order_is_coherent(
    orderby: Seq<OrderByV>,
    a: ScoredV,
    b: ScoredV,
    c: ScoredV,
)
    requires
        scores_are_numbers(a, b, c),
    ensures
        coherent(
            result_order(orderby, a, b),
            result_order(orderby, b, a),
            result_order(orderby, b, c),
            result_order(orderby, a, c),
        ),
{
    lemma_text_order(a.document.key, b.document.key, c.document.key);
    lemma_clauses_order(orderby, 0, a, b, c);
}

/// Results with different keys are never alike, so the order leaves nothing
/// open.
pub proof fn law_result_order_is_total(orderby: Seq<OrderByV>, a: ScoredV, b: ScoredV)
    requires
        a.document.key != b.document.key,
    ensures
        result_order(orderby, a, b) != 0,
{
    lemma_text_less_total(a.document.key, b.document.key);
    lemma_clauses_total(orderby, 0, a, b);
}

proof fn lemma_clauses_total(orderby: Seq<OrderByV>, i: int, a: ScoredV, b: ScoredV)
    requires
        a.document.key != b.document.key,
    ensures
        clauses_order(orderby, i, a, b) != 0,
    decreases orderby.len() - i,
{
    lemma_text_less_total(a.document.key, b.document.key);
    if i < orderby.len() {
        lemma_clauses_total(orderby, i + 1, a, b);
    }
}

/// Ordering results keeps them: each occurs as often as before.
pub proof fn law_ordering_keeps_results(scored: Seq<ScoredV>, orderby: Seq<OrderByV>)
    ensures
        sorted_by(scored, comes_before(orderby)).to_multiset() == scored.to_multiset(),
        sorted_by(scored, comes_before(orderby)).len() == scored.len(),
{
    law_sorting_keeps_items(scored, comes_before(orderby));
}

/// Whether the score of a result is a number.
pub open spec fn number_score(s: ScoredV) -> bool {
    !is_nan_rank(s.score)
}

/// Ordered results stand in order: none comes before one ahead of it. Results
/// whose score is no number are left out.
pub proof fn law_ordered_results_stand_in_order(scored: Seq<ScoredV>, orderby: Seq<OrderByV>)
    requires
        all_among(scored, |s: ScoredV| number_score(s)),
    ensures
        in_order(sorted_by(scored, comes_before(orderby)), comes_before(orderby)),
{
    let among = |s: ScoredV| number_score(s);
    let before = comes_before(orderby);
    assert forall|a: ScoredV, b: ScoredV| among(a) && among(b) && #[trigger] before(a, b) implies !before(b, a) by {
        law_result_order_is_coherent(orderby, a, b, a);
    }
    assert forall|a: ScoredV, b: ScoredV, c: ScoredV|
        among(a) && among(b) && among(c) && #[trigger] before(a, b) && !(#[trigger] before(c, b)) implies before(
        a,
        c,
    ) by {
        law_result_order_is_coherent(orderby, a, b, c);
        law_result_order_is_coherent(orderby, c, b, a);
    }
    law_sorting_orders_items(scored, among, before);
}

} // verus!
