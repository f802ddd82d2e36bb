//! In what order results stand, from what their documents hold.
use crate::json::{JsonV, Number, member, rank_eq, rank_lt};
use crate::service::ordering::{
    ScoredV, clause_order, clauses_order, comes_before, law_ordered_results_stand_in_order,
    law_ordering_keeps_results, number_score, result_order, text_order, value_order,
};
use crate::service::types::OrderByV;
use crate::sorting::{all_among, sorted_by};
use crate::text::{lemma_text_less_irreflexive, lemma_text_less_total};
use crate::text_laws::{law_text_order_is_lexicographic, precedes};
use vstd::prelude::*;

verus! {

/// Whether a number is less than another: by its value, or, where the values are the
/// same to the precision of the numbers, by the exact integer, what is none first.
pub open spec fn number_ahead(a: Number, b: Number) -> bool {
    ||| a.rank_spec() < b.rank_spec()
    ||| a.rank_spec() == b.rank_spec() && match (a, b) {
        (Number::Float(_), Number::Float(_)) => false,
        (Number::Float(_), _) => true,
        (_, Number::Float(_)) => false,
        (Number::PosInt(x), Number::PosInt(y)) => x < y,
        (Number::PosInt(x), Number::NegInt(y)) => x < y,
        (Number::NegInt(x), Number::PosInt(y)) => x < y,
        (Number::NegInt(x), Number::NegInt(y)) => x < y,
    }
}

/// Whether a value comes ahead of another: texts as in a dictionary, numbers by size,
/// false ahead of true; and of different types null, boolean, number, text, collection,
/// and object, in this order.
pub open spec fn value_ahead(a: JsonV, b: JsonV) -> bool {
    match (a, b) {
        (JsonV::String(x), JsonV::String(y)) => precedes(x, y),
        (JsonV::Number(x), JsonV::Number(y)) => number_ahead(x, y),
        (JsonV::Bool(x), JsonV::Bool(y)) => !x && y,
        (JsonV::Null, _) => !(b is Null),
        (JsonV::Bool(_), _) => b is Number || b is String || b is Array || b is Object,
        (JsonV::Number(_), _) => b is String || b is Array || b is Object,
        (JsonV::String(_), _) => b is Array || b is Object,
        (JsonV::Array(_), _) => b is Object,
        (JsonV::Object(_), _) => false,
    }
}

/// Whether a field's value comes ahead of another's: what is missing comes first.
pub open spec fn field_ahead(a: Option<JsonV>, b: Option<JsonV>) -> bool {
    match (a, b) {
        (Some(x), Some(y)) => value_ahead(x, y),
        (None, Some(_)) => true,
        _ => false,
    }
}

/// Whether one clause puts a result ahead of another.
pub open spec fn clause_ahead(clause: OrderByV, a: ScoredV, b: ScoredV) -> bool {
    let (x, y) = if clause.descending {
        (b, a)
    } else {
        (a, b)
    };
    if clause.field == "@search.score"@ {
        rank_lt(x.score, y.score)
    } else {
        field_ahead(
            member(x.document.fields, clause.field),
            member(y.document.fields, clause.field),
        )
    }
}

/// Whether a clause leaves the order of two results open.
pub open spec fn clause_open(clause: OrderByV, a: ScoredV, b: ScoredV) -> bool {
    !clause_ahead(clause, a, b) && !clause_ahead(clause, b, a)
}

/// Whether a result comes ahead of another: by the first clause that does not leave it
/// open, or by the key where they all do. Without clauses the greater score decides.
pub open spec fn result_ahead(orderby: Seq<OrderByV>, a: ScoredV, b: ScoredV) -> bool {
    if orderby.len() == 0 {
        ||| rank_lt(b.score, a.score)
        ||| !rank_lt(a.score, b.score) && precedes(a.document.key, b.document.key)
    } else {
        ||| exists|k: int|
            0 <= k < orderby.len() && clause_ahead(#[trigger] orderby[k], a, b) && forall|m: int|
                0 <= m < k ==> clause_open(#[trigger] orderby[m], a, b)
        ||| (forall|m: int| 0 <= m < orderby.len() ==> clause_open(#[trigger] orderby[m], a, b))
            && precedes(a.document.key, b.document.key)
    }
}

proof fn lemma_texts(a: Seq<char>, b: Seq<char>)
    ensures
        text_order(a, b) < 0 <==> precedes(a, b),
        text_order(a, b) > 0 <==> precedes(b, a),
        text_order(a, b) == 0 <==> a == b,
{
    law_text_order_is_lexicographic(a, b);
    law_text_order_is_lexicographic(b, a);
    lemma_text_less_total(a, b);
    lemma_text_less_irreflexive(a);
}

/// The order of values is that in which they come ahead of one another; no two different
/// texts, booleans, or exact integers are alike in it.
pub proof fn law_value_order(a: JsonV, b: JsonV)
    ensures
        value_order(a, b) < 0 <==> value_ahead(a, b),
        value_order(a, b) > 0 <==> value_ahead(b, a),
        a is String && b is String ==> (value_order(a, b) == 0 <==> a == b),
        a is Bool && b is Bool ==> (value_order(a, b) == 0 <==> a == b),
{
    if let (JsonV::String(x), JsonV::String(y)) = (a, b) {
        lemma_texts(x, y);
    }
}

/// The order that a clause gives is that in which it puts results ahead.
pub proof fn law_clause_order(clause: OrderByV, a: ScoredV, b: ScoredV)
    ensures
        clause_order(clause, a, b) < 0 <==> clause_ahead(clause, a, b),
        clause_order(clause, a, b) > 0 <==> clause_ahead(clause, b, a),
{
    let x = member(a.document.fields, clause.field);
    let y = member(b.document.fields, clause.field);
    if let (Some(v), Some(w)) = (x, y) {
        law_value_order(v, w);
    }
}

proof fn lemma_clauses_ahead(orderby: Seq<OrderByV>, i: int, a: ScoredV, b: ScoredV)
    requires
        0 <= i <= orderby.len(),
        forall|m: int| 0 <= m < i ==> clause_open(#[trigger] orderby[m], a, b),
    ensures
        clauses_order(orderby, i, a, b) < 0 <==> {
            ||| exists|k: int|
                0 <= k < orderby.len() && clause_ahead(#[trigger] orderby[k], a, b) && forall|
                    m: int,
                | 0 <= m < k ==> clause_open(#[trigger] orderby[m], a, b)
            ||| (forall|m: int|
                0 <= m < orderby.len() ==> clause_open(#[trigger] orderby[m], a, b)) && precedes(
                a.document.key,
                b.document.key,
            )
        },
    decreases orderby.len() - i,
{
    if i >= orderby.len() {
        lemma_texts(a.document.key, b.document.key);
    } else {
        law_clause_order(orderby[i], a, b);
        let c = clause_order(orderby[i], a, b);
        if c == 0 {
            assert(clause_open(orderby[i], a, b));
            lemma_clauses_ahead(orderby, i + 1, a, b);
        } else if c < 0 {
            assert(clause_ahead(orderby[i], a, b));
        } else {
            assert(!clause_open(orderby[i], a, b));
            assert forall|k: int| 0 <= k < orderby.len() && clause_ahead(
                #[trigger] orderby[k],
                a,
                b,
            ) implies !(forall|m: int| 0 <= m < k ==> clause_open(#[trigger] orderby[m], a, b)) by {
                if k < i {
                    assert(clause_open(orderby[k], a, b));
                } else if k == i {
                    lemma_not_both(orderby[i], a, b);
                }
            }
        }
    }
}

proof fn lemma_not_both(clause: OrderByV, a: ScoredV, b: ScoredV)
    ensures
        !(clause_ahead(clause, a, b) && clause_ahead(clause, b, a)),
{
    law_clause_order(clause, a, b);
}

/// The order of results is that in which they come ahead of one another.
pub proof fn law_result_order(orderby: Seq<OrderByV>, a: ScoredV, b: ScoredV)
    ensures
        result_order(orderby, a, b) < 0 <==> result_ahead(orderby, a, b),
{
    lemma_texts(a.document.key, b.document.key);
    if orderby.len() > 0 {
        lemma_clauses_ahead(orderby, 0, a, b);
    }
}

/// Ordered results are those that there were, each as often, and none of them stands
/// behind one that it comes ahead of. Scores that are no numbers are left out.
pub proof fn law_results_are_ordered(scored: Seq<ScoredV>, orderby: Seq<OrderByV>, i: int, j: int)
    requires
        all_among(scored, |s: ScoredV| number_score(s)),
        0 <= i < j < scored.len(),
    ensures
        ({
            let r = sorted_by(scored, comes_before(orderby));
            &&& r.to_multiset() == scored.to_multiset()
            &&& r.len() == scored.len()
            &&& !result_ahead(orderby, r[j], r[i])
        }),
{
    law_ordered_results_stand_in_order(scored, orderby);
    law_ordering_keeps_results(scored, orderby);
    let r = sorted_by(scored, comes_before(orderby));
    law_result_order(orderby, r[j], r[i]);
    assert(!comes_before(orderby)(r[j], r[i]));
}

/// By one clause on a field that holds texts, no result's text comes in the dictionary
/// before that of one ahead of it, or behind it where the clause is descending; results
/// with the same text stand by their keys. Scores that are no numbers are left out.
pub proof fn law_texts_are_ordered(
    scored: Seq<ScoredV>,
    clause: OrderByV,
    i: int,
    j: int,
    s: Seq<char>,
    t: Seq<char>,
)
    requires
        all_among(scored, |x: ScoredV| number_score(x)),
        0 <= i < j < scored.len(),
        clause.field != "@search.score"@,
        ({
            let r = sorted_by(scored, comes_before(seq![clause]));
            &&& member(r[i].document.fields, clause.field) == Some(JsonV::String(s))
            &&& member(r[j].document.fields, clause.field) == Some(JsonV::String(t))
        }),
    ensures
        !clause.descending ==> !precedes(t, s),
        clause.descending ==> !precedes(s, t),
        ({
            let r = sorted_by(scored, comes_before(seq![clause]));
            s == t ==> !precedes(r[j].document.key, r[i].document.key)
        }),
{
    let orderby = seq![clause];
    let r = sorted_by(scored, comes_before(orderby));
    law_results_are_ordered(scored, orderby, i, j);
    assert(orderby[0] == clause);
    if clause_ahead(clause, r[j], r[i]) {
        assert(clause_ahead(orderby[0], r[j], r[i]));
        assert(forall|m: int| 0 <= m < 0 ==> clause_open(#[trigger] orderby[m], r[j], r[i]));
    }
    if s == t {
        lemma_texts(s, t);
        assert(forall|m: int|
            0 <= m < orderby.len() ==> clause_open(#[trigger] orderby[m], r[j], r[i])) by {
            assert forall|m: int| 0 <= m < orderby.len() implies clause_open(
                #[trigger] orderby[m],
                r[j],
                r[i],
            ) by {
                assert(m == 0);
            }
        }
    }
}

/// Without clauses the results stand by their scores, the greatest first, and by their
/// keys where the scores are the same. Scores that are no numbers are left out.
pub proof fn law_scores_are_ordered(scored: Seq<ScoredV>, i: int, j: int)
    requires
        all_among(scored, |x: ScoredV| number_score(x)),
        0 <= i < j < scored.len(),
    ensures
        ({
            let r = sorted_by(scored, comes_before(seq![]));
            &&& !rank_lt(r[i].score, r[j].score)
            &&& r[i].score == r[j].score ==> !precedes(r[j].document.key, r[i].document.key)
        }),
{
    law_results_are_ordered(scored, seq![], i, j);
}

/// Numbers are compared by their ranks, which lie in the order of the numbers; only the
/// two zeros are equal with different ranks.
pub proof fn law_ranks(a: u64, b: u64)
    requires
        0x000f_ffff_ffff_ffff <= a <= 0xfff0_0000_0000_0000,
        0x000f_ffff_ffff_ffff <= b <= 0xfff0_0000_0000_0000,
        a == b || !(0x7fff_ffff_ffff_ffff <= a <= 0x8000_0000_0000_0000),
    ensures
        rank_lt(a, b) == (a < b),
        rank_eq(a, b) == (a == b),
{
}

} // verus!
