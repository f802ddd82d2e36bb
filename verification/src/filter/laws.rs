//! What filter expressions say of a document, from what its fields hold.
use crate::filter::eval::{
    element_satisfies, equals_literal, every_element, flattened, satisfies, some_element,
    some_equal, some_listed, some_text_contains, some_text_holds, text_func_holds,
    value_satisfies,
};
use crate::filter::expr::{FilterExprV, FilterOp, FilterValueV, StringFunc};
use crate::json::{JsonV, Number, member};
use crate::storage::document::{item_members, path_values, step_values, sub_values, walk_values};
use crate::text::{has_part, lowercase, pieces, pieces_from};
use crate::text_laws::{
    lacks, law_cut, law_parts, law_pieces, law_text_order_is_lexicographic, precedes,
};
use vstd::prelude::*;

verus! {

// ---------------------------------------------------------------------------
// Combining
// ---------------------------------------------------------------------------

/// A conjunction holds exactly where each of its expressions does: one more expression
/// is one more condition, whatever the others are, and none is no condition.
pub proof fn law_conjunction(
    cs: Seq<FilterExprV>,
    e: FilterExprV,
    fields: Seq<(Seq<char>, JsonV)>,
)
    ensures
        satisfies(FilterExprV::And(cs), fields) <==> forall|i: int|
            0 <= i < cs.len() ==> satisfies(#[trigger] cs[i], fields),
        satisfies(FilterExprV::And(cs.push(e)), fields) == (satisfies(FilterExprV::And(cs), fields)
            && satisfies(e, fields)),
        satisfies(FilterExprV::And(seq![]), fields),
{
    let all = cs.push(e);
    lemma_conjunction(cs, fields);
    lemma_conjunction(all, fields);
    lemma_conjunction(seq![], fields);
    assert(all[cs.len() as int] == e);
    if satisfies(FilterExprV::And(all), fields) {
        assert forall|i: int| 0 <= i < cs.len() implies satisfies(#[trigger] cs[i], fields) by {
            assert(all[i] == cs[i]);
        }
    }
    if satisfies(FilterExprV::And(cs), fields) && satisfies(e, fields) {
        assert forall|i: int| 0 <= i < all.len() implies satisfies(#[trigger] all[i], fields) by {
            if i < cs.len() {
                assert(all[i] == cs[i]);
            }
        }
    }
}

proof fn lemma_conjunction(cs: Seq<FilterExprV>, fields: Seq<(Seq<char>, JsonV)>)
    ensures
        satisfies(FilterExprV::And(cs), fields) <==> forall|i: int|
            0 <= i < cs.len() ==> satisfies(#[trigger] cs[i], fields),
{
    let e = FilterExprV::And(cs);
    assert(e->And_0 == cs);
    if satisfies(e, fields) {
        assert forall|i: int| 0 <= i < cs.len() implies satisfies(#[trigger] cs[i], fields) by {
            assert(satisfies(e->And_0[i], fields));
        }
    }
}

proof fn lemma_disjunction(cs: Seq<FilterExprV>, fields: Seq<(Seq<char>, JsonV)>)
    ensures
        satisfies(FilterExprV::Or(cs), fields) <==> exists|i: int|
            0 <= i < cs.len() && satisfies(#[trigger] cs[i], fields),
{
    let e = FilterExprV::Or(cs);
    assert(e->Or_0 == cs);
    if exists|i: int| 0 <= i < cs.len() && satisfies(#[trigger] cs[i], fields) {
        let i = choose|i: int| 0 <= i < cs.len() && satisfies(#[trigger] cs[i], fields);
        assert(satisfies(e->Or_0[i], fields));
    }
}

/// A disjunction holds exactly where one of its expressions does: one more expression
/// is one more way to hold, whatever the others are, and none is no way.
pub proof fn law_disjunction(
    cs: Seq<FilterExprV>,
    e: FilterExprV,
    fields: Seq<(Seq<char>, JsonV)>,
)
    ensures
        satisfies(FilterExprV::Or(cs), fields) <==> exists|i: int|
            0 <= i < cs.len() && satisfies(#[trigger] cs[i], fields),
        satisfies(FilterExprV::Or(cs.push(e)), fields) == (satisfies(FilterExprV::Or(cs), fields)
            || satisfies(e, fields)),
        !satisfies(FilterExprV::Or(seq![]), fields),
{
    let all = cs.push(e);
    lemma_disjunction(cs, fields);
    lemma_disjunction(all, fields);
    lemma_disjunction(seq![], fields);
    assert(all[cs.len() as int] == e);
    if satisfies(FilterExprV::Or(all), fields) {
        let i = choose|i: int| 0 <= i < all.len() && satisfies(#[trigger] all[i], fields);
        if i < cs.len() {
            assert(all[i] == cs[i]);
        }
    }
    if satisfies(FilterExprV::Or(cs), fields) {
        let i = choose|i: int| 0 <= i < cs.len() && satisfies(#[trigger] cs[i], fields);
        assert(all[i] == cs[i]);
    }
}

/// A negation holds exactly where its expression does not.
pub proof fn law_negation(e: FilterExprV, fields: Seq<(Seq<char>, JsonV)>)
    ensures
        satisfies(FilterExprV::Not(Box::new(e)), fields) == !satisfies(e, fields),
{
}

// ---------------------------------------------------------------------------
// Paths
// ---------------------------------------------------------------------------

/// Whether a name is that of one member, and of no other.
pub open spec fn holds(fields: Seq<(Seq<char>, JsonV)>, name: Seq<char>, v: JsonV) -> bool {
    exists|i: int|
        0 <= i < fields.len() && #[trigger] fields[i] == (name, v) && forall|j: int|
            0 <= j < fields.len() && j != i ==> (#[trigger] fields[j]).0 != name
}

/// Whether no member has a name.
pub open spec fn lacks_member(fields: Seq<(Seq<char>, JsonV)>, name: Seq<char>) -> bool {
    forall|i: int| 0 <= i < fields.len() ==> (#[trigger] fields[i]).0 != name
}

/// The member with a name is found, wherever it stands; where there is none, none is.
pub proof fn law_members_are_found(fields: Seq<(Seq<char>, JsonV)>, name: Seq<char>, v: JsonV)
    ensures
        holds(fields, name, v) ==> member(fields, name) == Some(v),
        lacks_member(fields, name) ==> member(fields, name) is None,
        member(fields, name) is None ==> lacks_member(fields, name),
        member(fields, name) matches Some(x) ==> exists|i: int|
            0 <= i < fields.len() && #[trigger] fields[i] == (name, x),
    decreases fields.len(),
{
    if fields.len() > 0 {
        let rest = fields.drop_first();
        law_members_are_found(rest, name, v);
        if fields[0].0 != name {
            if holds(fields, name, v) {
                let i = choose|i: int|
                    0 <= i < fields.len() && #[trigger] fields[i] == (name, v) && forall|j: int|
                        0 <= j < fields.len() && j != i ==> (#[trigger] fields[j]).0 != name;
                assert(rest[i - 1] == (name, v));
                assert forall|j: int| 0 <= j < rest.len() && j != i - 1 implies (
                #[trigger] rest[j]).0 != name by {
                    assert(rest[j] == fields[j + 1]);
                }
                assert(holds(rest, name, v));
            }
            if lacks_member(fields, name) {
                assert forall|j: int| 0 <= j < rest.len() implies (#[trigger] rest[j]).0
                    != name by {
                    assert(rest[j] == fields[j + 1]);
                }
            }
            if let Some(x) = member(fields, name) {
                let i = choose|i: int| 0 <= i < rest.len() && #[trigger] rest[i] == (name, x);
                assert(fields[i + 1] == (name, x));
            } else {
                assert forall|j: int| 0 <= j < fields.len() implies (#[trigger] fields[j]).0
                    != name by {
                    if j > 0 {
                        assert(rest[j - 1] == fields[j]);
                    }
                }
            }
        } else {
            if holds(fields, name, v) {
                let i = choose|i: int|
                    0 <= i < fields.len() && #[trigger] fields[i] == (name, v) && forall|j: int|
                        0 <= j < fields.len() && j != i ==> (#[trigger] fields[j]).0 != name;
                assert(i == 0) by {
                    if i != 0 {
                        assert(fields[0].0 != name);
                    }
                }
            }
            assert(fields[0] == (name, fields[0].1));
        }
    }
}

/// A plain field name leads to the field's value, and to nothing where the document
/// lacks the field.
pub proof fn law_plain_path(fields: Seq<(Seq<char>, JsonV)>, name: Seq<char>, v: JsonV)
    requires
        lacks(name, '/'),
    ensures
        holds(fields, name, v) ==> path_values(fields, name) == seq![v],
        lacks_member(fields, name) ==> path_values(fields, name) == Seq::<JsonV>::empty(),
{
    law_pieces(name, '/', seq![]);
    law_members_are_found(fields, name, v);
    assert(seq![name][0] == name);
}

proof fn lemma_items_joined(a: Seq<JsonV>, b: Seq<JsonV>, seg: Seq<char>)
    ensures
        item_members(a + b, seg) == item_members(a, seg) + item_members(b, seg),
    decreases b.len(),
{
    if b.len() == 0 {
        assert(a + b =~= a);
        assert(item_members(a, seg) + item_members(b, seg) =~= item_members(a, seg));
    } else {
        lemma_items_joined(a, b.drop_last(), seg);
        assert((a + b).drop_last() =~= a + b.drop_last());
        assert((a + b).last() == b.last());
        assert(item_members(a + b, seg) =~= item_members(a, seg) + item_members(b, seg));
    }
}

proof fn lemma_steps_joined(a: Seq<JsonV>, b: Seq<JsonV>, seg: Seq<char>)
    ensures
        step_values(a + b, seg) == step_values(a, seg) + step_values(b, seg),
    decreases b.len(),
{
    if b.len() == 0 {
        assert(a + b =~= a);
        assert(step_values(a, seg) + step_values(b, seg) =~= step_values(a, seg));
    } else {
        lemma_steps_joined(a, b.drop_last(), seg);
        assert((a + b).drop_last() =~= a + b.drop_last());
        assert((a + b).last() == b.last());
        assert(step_values(a + b, seg) =~= step_values(a, seg) + step_values(b, seg));
    }
}

proof fn lemma_walks_joined(a: Seq<JsonV>, b: Seq<JsonV>, segs: Seq<Seq<char>>, i: int)
    ensures
        walk_values(a + b, segs, i) == walk_values(a, segs, i) + walk_values(b, segs, i),
    decreases segs.len() - i,
{
    if i < segs.len() {
        lemma_steps_joined(a, b, segs[i]);
        lemma_walks_joined(step_values(a, segs[i]), step_values(b, segs[i]), segs, i + 1);
    }
}

proof fn lemma_walk_of_none(segs: Seq<Seq<char>>, i: int)
    ensures
        walk_values(seq![], segs, i) == Seq::<JsonV>::empty(),
    decreases segs.len() - i,
{
    if i < segs.len() {
        assert(step_values(seq![], segs[i]) =~= seq![]);
        lemma_walk_of_none(segs, i + 1);
    }
}

proof fn lemma_walk_shifted(current: Seq<JsonV>, name: Seq<char>, segs: Seq<Seq<char>>, i: int)
    requires
        0 <= i,
    ensures
        walk_values(current, seq![name] + segs, i + 1) == walk_values(current, segs, i),
    decreases segs.len() - i,
{
    let all = seq![name] + segs;
    if i < segs.len() {
        assert(all[i + 1] == segs[i]);
        lemma_walk_shifted(step_values(current, segs[i]), name, segs, i + 1);
    }
}

/// What a path leads to from one value behind the first segment.
pub open spec fn values_below(v: JsonV, path: Seq<char>) -> Seq<JsonV> {
    match v {
        JsonV::Object(m) => path_values(m, path),
        _ => seq![],
    }
}

/// What a path leads to from each of some values, one behind the other.
pub open spec fn all_below(items: Seq<JsonV>, path: Seq<char>) -> Seq<JsonV>
    decreases items.len(),
{
    if items.len() == 0 {
        seq![]
    } else {
        all_below(items.drop_last(), path) + values_below(items.last(), path)
    }
}

proof fn lemma_below(items: Seq<JsonV>, path: Seq<char>)
    ensures
        walk_values(item_members(items, pieces(path, '/')[0]), pieces(path, '/'), 1) == all_below(
            items,
            path,
        ),
    decreases items.len(),
{
    let segs = pieces(path, '/');
    if items.len() == 0 {
        lemma_walk_of_none(segs, 1);
        assert(item_members(items, segs[0]) =~= seq![]);
    } else {
        let rest = items.drop_last();
        lemma_below(rest, path);
        let one = seq![items.last()];
        lemma_items_joined(rest, one, segs[0]);
        assert(rest + one =~= items);
        lemma_walks_joined(item_members(rest, segs[0]), item_members(one, segs[0]), segs, 1);
        assert(one.drop_last() =~= seq![]);
        assert(one.last() == items.last());
        let none = Seq::<JsonV>::empty();
        assert(item_members(none, segs[0]) =~= none);
        lemma_walk_of_none(segs, 1);
        match items.last() {
            JsonV::Object(m) => {
                if let Some(v) = member(m, segs[0]) {
                    assert(none.push(v) =~= seq![v]);
                    assert(item_members(one, segs[0]) == none.push(v));
                }
            },
            _ => {},
        }
    }
}

/// A path leads into an object by its first name, and goes on from there; into each
/// object of a collection alike, in order; and no further than that.
pub proof fn law_nested_path(
    fields: Seq<(Seq<char>, JsonV)>,
    name: Seq<char>,
    v: JsonV,
    rest: Seq<char>,
)
    requires
        lacks(name, '/'),
        holds(fields, name, v),
    ensures
        ({
            let found = path_values(fields, name + seq!['/'] + rest);
            match v {
                JsonV::Object(m) => found == path_values(m, rest),
                JsonV::Array(items) => found == all_below(items, rest),
                _ => found == Seq::<JsonV>::empty(),
            }
        }),
{
    let segs = pieces(rest, '/');
    law_pieces(name, '/', rest);
    law_members_are_found(fields, name, v);
    let all = seq![name] + segs;
    assert(all[0] == name);
    lemma_some_piece(rest, 0);
    assert(all[1] == segs[0]);
    let first = sub_values(v, segs[0]);
    assert(seq![v].drop_last() =~= seq![]);
    assert(step_values(seq![], segs[0]) =~= seq![]);
    assert(step_values(seq![v], segs[0]) =~= first);
    lemma_walk_shifted(first, name, segs, 1);
    match v {
        JsonV::Array(items) => {
            lemma_below(items, rest);
        },
        _ => {
            let one = seq![v];
            lemma_below(one, rest);
            assert(one.drop_last() =~= seq![]);
            assert(all_below(seq![], rest) =~= seq![]);
            assert(all_below(one, rest) =~= values_below(v, rest));
        },
    }
}

proof fn lemma_some_piece(s: Seq<char>, i: int)
    ensures
        pieces_from(s, '/', i).len() > 0,
{
}

// ---------------------------------------------------------------------------
// Comparisons
// ---------------------------------------------------------------------------

/// A comparison of a field that holds a text with a text is that of the two texts in
/// the order of a dictionary.
pub proof fn law_text_comparison(
    fields: Seq<(Seq<char>, JsonV)>,
    field: Seq<char>,
    s: Seq<char>,
    t: Seq<char>,
    op: FilterOp,
)
    requires
        lacks(field, '/'),
        holds(fields, field, JsonV::String(s)),
    ensures
        satisfies(
            FilterExprV::Compare { field, op, value: FilterValueV::String(t) },
            fields,
        ) == (match op {
            FilterOp::Eq => s == t,
            FilterOp::Ne => s != t,
            FilterOp::Lt => precedes(s, t),
            FilterOp::Le => precedes(s, t) || s == t,
            FilterOp::Gt => precedes(t, s),
            FilterOp::Ge => precedes(t, s) || s == t,
        }),
{
    law_plain_path(fields, field, JsonV::String(s));
    law_text_order_is_lexicographic(s, t);
    law_text_order_is_lexicographic(t, s);
    assert(seq![JsonV::String(s)][0] == JsonV::String(s));
}

/// A comparison of a field that holds a number with a number is that of the two numbers,
/// by their ranks. Ranks of what is no number, and those of the two zeros, which are
/// equal, are left out.
pub proof fn law_number_comparison(
    fields: Seq<(Seq<char>, JsonV)>,
    field: Seq<char>,
    m: Number,
    n: u64,
    op: FilterOp,
)
    requires
        lacks(field, '/'),
        holds(fields, field, JsonV::Number(m)),
        0x000f_ffff_ffff_ffff <= m.rank_spec() <= 0xfff0_0000_0000_0000,
        0x000f_ffff_ffff_ffff <= n <= 0xfff0_0000_0000_0000,
        m.rank_spec() == n || !(0x7fff_ffff_ffff_ffff <= n <= 0x8000_0000_0000_0000),
    ensures
        satisfies(
            FilterExprV::Compare { field, op, value: FilterValueV::Number(n) },
            fields,
        ) == (match op {
            FilterOp::Eq => m.rank_spec() == n,
            FilterOp::Ne => m.rank_spec() != n,
            FilterOp::Lt => m.rank_spec() < n,
            FilterOp::Le => m.rank_spec() <= n,
            FilterOp::Gt => m.rank_spec() > n,
            FilterOp::Ge => m.rank_spec() >= n,
        }),
{
    law_plain_path(fields, field, JsonV::Number(m));
    assert(seq![JsonV::Number(m)][0] == JsonV::Number(m));
}

/// A field that holds a boolean equals it and differs from the other; it is in no order.
/// A field of another type than the literal satisfies no comparison with it.
pub proof fn law_other_comparisons(
    fields: Seq<(Seq<char>, JsonV)>,
    field: Seq<char>,
    v: JsonV,
    value: FilterValueV,
    op: FilterOp,
)
    requires
        lacks(field, '/'),
        holds(fields, field, v),
        !(v is Array),
    ensures
        ({
            let held = satisfies(FilterExprV::Compare { field, op, value }, fields);
            &&& match (v, value) {
                (JsonV::Bool(b), FilterValueV::Bool(flag)) => held == (op is Eq && b == flag || op
                    is Ne && b != flag),
                (JsonV::Null, FilterValueV::Null) => held == (op is Eq),
                (JsonV::Null, _) => held == (op is Ne),
                (_, FilterValueV::Null) => held == (op is Ne),
                (JsonV::String(_), FilterValueV::String(_)) => true,
                (JsonV::Number(_), FilterValueV::Number(_)) => true,
                _ => !held,
            }
        }),
{
    law_plain_path(fields, field, v);
    assert(seq![v][0] == v);
}

/// The document with one field.
pub open spec fn alone(name: Seq<char>, v: JsonV) -> Seq<(Seq<char>, JsonV)> {
    seq![(name, v)]
}

proof fn lemma_alone(name: Seq<char>, v: JsonV)
    ensures
        holds(alone(name, v), name, v),
{
    assert(alone(name, v)[0] == (name, v));
}

/// A collection equals a literal where one of its elements does, and differs from it
/// where none does; it is in an order to a literal where one of the elements is. Each
/// element is compared as a field that holds it alone.
pub proof fn law_collection_comparison(
    fields: Seq<(Seq<char>, JsonV)>,
    field: Seq<char>,
    items: Seq<JsonV>,
    value: FilterValueV,
    op: FilterOp,
)
    requires
        lacks(field, '/'),
        holds(fields, field, JsonV::Array(items)),
        forall|i: int| 0 <= i < items.len() ==> !(#[trigger] items[i] is Array),
    ensures
        satisfies(FilterExprV::Compare { field, op, value }, fields) == (if op is Ne {
            forall|i: int|
                0 <= i < items.len() ==> !satisfies(
                    FilterExprV::Compare { field, op: FilterOp::Eq, value },
                    #[trigger] alone(field, items[i]),
                )
        } else {
            exists|i: int|
                0 <= i < items.len() && satisfies(
                    FilterExprV::Compare { field, op, value },
                    #[trigger] alone(field, items[i]),
                )
        }),
{
    let v = JsonV::Array(items);
    law_plain_path(fields, field, v);
    assert(seq![v][0] == v);
    let e = FilterExprV::Compare { field, op: FilterOp::Eq, value };
    let this = FilterExprV::Compare { field, op, value };
    assert forall|i: int| 0 <= i < items.len() implies satisfies(
        e,
        #[trigger] alone(field, items[i]),
    ) == equals_literal(items[i], value) by {
        lemma_alone(field, items[i]);
        law_plain_path(alone(field, items[i]), field, items[i]);
        assert(seq![items[i]][0] == items[i]);
    }
    if !(op is Eq) && !(op is Ne) {
        assert forall|i: int| 0 <= i < items.len() implies satisfies(
            this,
            #[trigger] alone(field, items[i]),
        ) == (!(value is Null) && items[i] != JsonV::Null && value_satisfies(
            items[i],
            op,
            value,
        )) by {
            lemma_alone(field, items[i]);
            law_plain_path(alone(field, items[i]), field, items[i]);
            assert(seq![items[i]][0] == items[i]);
        }
        if satisfies(this, fields) {
            let i = choose|i: int|
                0 <= i < items.len() && #[trigger] items[i] != JsonV::Null && value_satisfies(
                    items[i],
                    op,
                    value,
                );
            assert(satisfies(this, alone(field, items[i])));
        }
        if exists|i: int|
            0 <= i < items.len() && satisfies(this, #[trigger] alone(field, items[i])) {
            let i = choose|i: int|
                0 <= i < items.len() && satisfies(this, #[trigger] alone(field, items[i]));
            assert(value_satisfies(items[i], op, value));
        }
    } else {
        if some_equal(items, value) {
            let i = choose|i: int| 0 <= i < items.len() && equals_literal(
                #[trigger] items[i],
                value,
            );
            assert(satisfies(e, alone(field, items[i])));
        }
        if exists|i: int|
            0 <= i < items.len() && satisfies(e, #[trigger] alone(field, items[i])) {
            let i = choose|i: int|
                0 <= i < items.len() && satisfies(e, #[trigger] alone(field, items[i]));
            assert(equals_literal(items[i], value));
        }
    }
}

/// A field is in a list exactly where it equals one of the list's literals.
pub proof fn law_in_list(
    fields: Seq<(Seq<char>, JsonV)>,
    field: Seq<char>,
    v: JsonV,
    values: Seq<FilterValueV>,
)
    requires
        lacks(field, '/'),
        holds(fields, field, v) || lacks_member(fields, field),
    ensures
        satisfies(FilterExprV::In { field, values }, fields) <==> exists|k: int|
            0 <= k < values.len() && satisfies(
                FilterExprV::Compare { field, op: FilterOp::Eq, value: #[trigger] values[k] },
                fields,
            ),
{
    law_plain_path(fields, field, v);
    let found = path_values(fields, field);
    let flat = flattened(found);
    if found.len() > 0 {
        assert(found == seq![v]);
        assert(seq![v][0] == v);
        assert forall|k: int| 0 <= k < values.len() implies satisfies(
            FilterExprV::Compare { field, op: FilterOp::Eq, value: #[trigger] values[k] },
            fields,
        ) == some_equal(flat, values[k]) by {
            if !(v is Array) {
                assert(flat == found);
                assert(flat[0] == v);
                if some_equal(flat, values[k]) {
                    let i = choose|i: int| 0 <= i < flat.len() && equals_literal(
                        #[trigger] flat[i],
                        values[k],
                    );
                    assert(i == 0);
                }
                assert(equals_literal(flat[0], values[k]) ==> some_equal(flat, values[k]));
            }
        }
        if satisfies(FilterExprV::In { field, values }, fields) {
            let (i, k) = choose|i: int, k: int|
                0 <= i < flat.len() && 0 <= k < values.len() && equals_literal(
                    #[trigger] flat[i],
                    #[trigger] values[k],
                );
            assert(some_equal(flat, values[k]));
            assert(satisfies(
                FilterExprV::Compare { field, op: FilterOp::Eq, value: values[k] },
                fields,
            ));
        }
        if exists|k: int|
            0 <= k < values.len() && satisfies(
                FilterExprV::Compare { field, op: FilterOp::Eq, value: #[trigger] values[k] },
                fields,
            ) {
            let k = choose|k: int|
                0 <= k < values.len() && satisfies(
                    FilterExprV::Compare { field, op: FilterOp::Eq, value: #[trigger] values[k] },
                    fields,
                );
            assert(some_equal(flat, values[k]));
            let i = choose|i: int| 0 <= i < flat.len() && equals_literal(
                #[trigger] flat[i],
                values[k],
            );
            assert(some_listed(flat, values));
        }
    }
}

/// The text functions hold of a field with a text where the text starts with the
/// argument, ends with it, or has it anywhere.
pub proof fn law_text_functions(
    fields: Seq<(Seq<char>, JsonV)>,
    field: Seq<char>,
    s: Seq<char>,
    arg: Seq<char>,
)
    requires
        lacks(field, '/'),
        holds(fields, field, JsonV::String(s)),
    ensures
        satisfies(
            FilterExprV::StringFunc { func: StringFunc::StartsWith, field, arg },
            fields,
        ) <==> exists|b: Seq<char>| s == #[trigger] (arg + b),
        satisfies(
            FilterExprV::StringFunc { func: StringFunc::EndsWith, field, arg },
            fields,
        ) <==> exists|a: Seq<char>| s == #[trigger] (a + arg),
        satisfies(
            FilterExprV::StringFunc { func: StringFunc::Contains, field, arg },
            fields,
        ) <==> exists|a: Seq<char>, b: Seq<char>| s == #[trigger] (a + arg + b),
        satisfies(FilterExprV::IsMatch { field, pattern: arg }, fields) <==> exists|
            a: Seq<char>,
            b: Seq<char>,
        | lowercase(s) == #[trigger] (a + lowercase(arg) + b),
{
    let v = JsonV::String(s);
    law_plain_path(fields, field, v);
    let flat = seq![v];
    assert(flat[0] == v);
    assert(flattened(flat) == flat);
    let start = satisfies(
        FilterExprV::StringFunc { func: StringFunc::StartsWith, field, arg },
        fields,
    );
    let end = satisfies(
        FilterExprV::StringFunc { func: StringFunc::EndsWith, field, arg },
        fields,
    );
    let part = satisfies(
        FilterExprV::StringFunc { func: StringFunc::Contains, field, arg },
        fields,
    );
    let matched = satisfies(FilterExprV::IsMatch { field, pattern: arg }, fields);
    assert(start == arg.is_prefix_of(s));
    assert(end == arg.is_suffix_of(s));
    assert(part == has_part(s, arg));
    assert(matched == has_part(lowercase(s), lowercase(arg)));
    if start {
        assert(s =~= arg + s.skip(arg.len() as int));
    }
    if exists|b: Seq<char>| s == #[trigger] (arg + b) {
        let b = choose|b: Seq<char>| s == #[trigger] (arg + b);
        assert(s.take(arg.len() as int) =~= arg);
    }
    if end {
        assert(s =~= s.take(s.len() - arg.len()) + arg);
    }
    if exists|a: Seq<char>| s == #[trigger] (a + arg) {
        let a = choose|a: Seq<char>| s == #[trigger] (a + arg);
        assert(s.skip(s.len() - arg.len()) =~= arg);
    }
    law_parts(seq![], arg, seq![], s);
    law_parts(seq![], lowercase(arg), seq![], lowercase(s));
    if exists|a: Seq<char>, b: Seq<char>| s == #[trigger] (a + arg + b) {
        let (a, b) = choose|a: Seq<char>, b: Seq<char>| s == #[trigger] (a + arg + b);
        law_parts(a, arg, b, s);
    }
    if exists|a: Seq<char>, b: Seq<char>| lowercase(s) == #[trigger] (a + lowercase(arg) + b) {
        let (a, b) = choose|a: Seq<char>, b: Seq<char>|
            lowercase(s) == #[trigger] (a + lowercase(arg) + b);
        law_parts(a, lowercase(arg), b, lowercase(s));
    }
}

/// The text functions hold of a collection where they hold of one of its elements.
pub proof fn law_text_functions_of_collections(
    fields: Seq<(Seq<char>, JsonV)>,
    field: Seq<char>,
    items: Seq<JsonV>,
    func: StringFunc,
    arg: Seq<char>,
)
    requires
        lacks(field, '/'),
        holds(fields, field, JsonV::Array(items)),
        forall|i: int| 0 <= i < items.len() ==> !(#[trigger] items[i] is Array),
    ensures
        satisfies(FilterExprV::StringFunc { func, field, arg }, fields) <==> exists|i: int|
            0 <= i < items.len() && satisfies(
                FilterExprV::StringFunc { func, field, arg },
                #[trigger] alone(field, items[i]),
            ),
        satisfies(FilterExprV::IsMatch { field, pattern: arg }, fields) <==> exists|i: int|
            0 <= i < items.len() && satisfies(
                FilterExprV::IsMatch { field, pattern: arg },
                #[trigger] alone(field, items[i]),
            ),
{
    let v = JsonV::Array(items);
    law_plain_path(fields, field, v);
    assert(seq![v][0] == v);
    let e = FilterExprV::StringFunc { func, field, arg };
    let g = FilterExprV::IsMatch { field, pattern: arg };
    assert forall|i: int| 0 <= i < items.len() implies satisfies(
        e,
        #[trigger] alone(field, items[i]),
    ) == (items[i] is String && text_func_holds(func, items[i]->String_0, arg)) && satisfies(
        g,
        alone(field, items[i]),
    ) == (items[i] is String && has_part(lowercase(items[i]->String_0), lowercase(arg))) by {
        lemma_alone(field, items[i]);
        law_plain_path(alone(field, items[i]), field, items[i]);
        let one = seq![items[i]];
        assert(one[0] == items[i]);
        assert(flattened(one) == one);
        if some_text_holds(one, func, arg) {
            let k = choose|k: int|
                0 <= k < one.len() && #[trigger] one[k] is String && text_func_holds(
                    func,
                    one[k]->String_0,
                    arg,
                );
            assert(k == 0);
        }
        if some_text_contains(one, arg) {
            let k = choose|k: int|
                0 <= k < one.len() && #[trigger] one[k] is String && has_part(
                    lowercase(one[k]->String_0),
                    lowercase(arg),
                );
            assert(k == 0);
        }
    }
    if satisfies(e, fields) {
        let i = choose|i: int|
            0 <= i < items.len() && #[trigger] items[i] is String && text_func_holds(
                func,
                items[i]->String_0,
                arg,
            );
        assert(satisfies(e, alone(field, items[i])));
    }
    if exists|i: int| 0 <= i < items.len() && satisfies(e, #[trigger] alone(field, items[i])) {
        let i = choose|i: int|
            0 <= i < items.len() && satisfies(e, #[trigger] alone(field, items[i]));
        assert(items[i] is String);
    }
    if satisfies(g, fields) {
        let i = choose|i: int|
            0 <= i < items.len() && #[trigger] items[i] is String && has_part(
                lowercase(items[i]->String_0),
                lowercase(arg),
            );
        assert(satisfies(g, alone(field, items[i])));
    }
    if exists|i: int| 0 <= i < items.len() && satisfies(g, #[trigger] alone(field, items[i])) {
        let i = choose|i: int|
            0 <= i < items.len() && satisfies(g, #[trigger] alone(field, items[i]));
        assert(items[i] is String);
    }
}

/// An `any` holds of a collection where its comparison holds of one element, an `all`
/// where it holds of each. On the variable itself an element is compared as a field that
/// holds it alone.
pub proof fn law_lambda(
    fields: Seq<(Seq<char>, JsonV)>,
    field: Seq<char>,
    items: Seq<JsonV>,
    var: Seq<char>,
    op: FilterOp,
    value: FilterValueV,
)
    requires
        holds(fields, field, JsonV::Array(items)),
        lacks(var, '/'),
        forall|i: int| 0 <= i < items.len() ==> !(#[trigger] items[i] is Array),
    ensures
        ({
            let e = FilterExprV::Compare { field: var, op, value };
            &&& satisfies(FilterExprV::Any { field, inner: Box::new(e) }, fields) <==> exists|
                i: int,
            | 0 <= i < items.len() && satisfies(e, #[trigger] alone(var, items[i]))
            &&& satisfies(FilterExprV::All { field, inner: Box::new(e) }, fields) <==> forall|
                i: int,
            | 0 <= i < items.len() ==> satisfies(e, #[trigger] alone(var, items[i]))
        }),
{
    let e = FilterExprV::Compare { field: var, op, value };
    law_members_are_found(fields, field, JsonV::Array(items));
    law_cut(var, '/', seq![]);
    assert forall|i: int| 0 <= i < items.len() implies satisfies(
        e,
        #[trigger] alone(var, items[i]),
    ) == element_satisfies(e, items[i]) by {
        lemma_alone(var, items[i]);
        law_plain_path(alone(var, items[i]), var, items[i]);
        assert(seq![items[i]][0] == items[i]);
    }
    if exists|i: int| 0 <= i < items.len() && satisfies(e, #[trigger] alone(var, items[i])) {
        let i = choose|i: int|
            0 <= i < items.len() && satisfies(e, #[trigger] alone(var, items[i]));
        assert(element_satisfies(e, items[i]));
    }
    if some_element(items, e) {
        let i = choose|i: int| 0 <= i < items.len() && element_satisfies(e, #[trigger] items[i]);
        assert(satisfies(e, alone(var, items[i])));
    }
    if every_element(items, e) {
        assert forall|i: int| 0 <= i < items.len() implies satisfies(
            e,
            #[trigger] alone(var, items[i]),
        ) by {
            assert(element_satisfies(e, items[i]));
        }
    }
    if forall|i: int| 0 <= i < items.len() ==> satisfies(e, #[trigger] alone(var, items[i])) {
        assert forall|i: int| 0 <= i < items.len() implies element_satisfies(
            e,
            #[trigger] items[i],
        ) by {
            assert(satisfies(e, alone(var, items[i])));
        }
    }
}

/// On a path through the variable, an object of the collection is compared by its own
/// members as a document is by its fields.
pub proof fn law_lambda_path(
    fields: Seq<(Seq<char>, JsonV)>,
    field: Seq<char>,
    objects: Seq<Seq<(Seq<char>, JsonV)>>,
    var: Seq<char>,
    path: Seq<char>,
    op: FilterOp,
    value: FilterValueV,
)
    requires
        holds(
            fields,
            field,
            JsonV::Array(objects.map_values(|m: Seq<(Seq<char>, JsonV)>| JsonV::Object(m))),
        ),
        lacks(var, '/'),
    ensures
        ({
            let e = FilterExprV::Compare { field: var + seq!['/'] + path, op, value };
            let inner = FilterExprV::Compare { field: path, op, value };
            &&& satisfies(FilterExprV::Any { field, inner: Box::new(e) }, fields) <==> exists|
                i: int,
            | 0 <= i < objects.len() && satisfies(inner, #[trigger] objects[i])
            &&& satisfies(FilterExprV::All { field, inner: Box::new(e) }, fields) <==> forall|
                i: int,
            | 0 <= i < objects.len() ==> satisfies(inner, #[trigger] objects[i])
        }),
{
    let items = objects.map_values(|m: Seq<(Seq<char>, JsonV)>| JsonV::Object(m));
    let e = FilterExprV::Compare { field: var + seq!['/'] + path, op, value };
    let inner = FilterExprV::Compare { field: path, op, value };
    law_members_are_found(fields, field, JsonV::Array(items));
    law_cut(var, '/', path);
    assert forall|i: int| 0 <= i < objects.len() implies satisfies(inner, #[trigger] objects[i])
        == element_satisfies(e, items[i]) by {
        assert(items[i] == JsonV::Object(objects[i]));
    }
    if some_element(items, e) {
        let i = choose|i: int| 0 <= i < items.len() && element_satisfies(e, #[trigger] items[i]);
        assert(satisfies(inner, objects[i]));
    }
    if exists|i: int| 0 <= i < objects.len() && satisfies(inner, #[trigger] objects[i]) {
        let i = choose|i: int| 0 <= i < objects.len() && satisfies(inner, #[trigger] objects[i]);
        assert(element_satisfies(e, items[i]));
    }
    if every_element(items, e) {
        assert forall|i: int| 0 <= i < objects.len() implies satisfies(
            inner,
            #[trigger] objects[i],
        ) by {
            assert(element_satisfies(e, items[i]));
        }
    }
    if forall|i: int| 0 <= i < objects.len() ==> satisfies(inner, #[trigger] objects[i]) {
        assert forall|i: int| 0 <= i < items.len() implies element_satisfies(
            e,
            #[trigger] items[i],
        ) by {
            assert(satisfies(inner, objects[i]));
        }
    }
}

/// Whether a value is nothing to speak of.
pub open spec fn says_nothing(v: JsonV) -> bool {
    v == JsonV::Null || v == JsonV::String(seq![]) || v == JsonV::Array(seq![])
}

/// A field is empty where it is missing, `null`, the empty text, or the empty
/// collection; it is `null` where it is missing or `null`.
pub proof fn law_emptiness(fields: Seq<(Seq<char>, JsonV)>, field: Seq<char>, v: JsonV)
    requires
        lacks(field, '/'),
    ensures
        holds(fields, field, v) ==> satisfies(FilterExprV::IsEmpty { field }, fields)
            == says_nothing(v),
        holds(fields, field, v) ==> satisfies(FilterExprV::IsNull { field }, fields) == (v
            == JsonV::Null),
        lacks_member(fields, field) ==> satisfies(FilterExprV::IsEmpty { field }, fields)
            && satisfies(FilterExprV::IsNull { field }, fields),
{
    law_plain_path(fields, field, v);
    let one = seq![v];
    assert(one[0] == v);
    if holds(fields, field, v) {
        match v {
            JsonV::String(s) => {
                if s.len() == 0 {
                    assert(s =~= seq![]);
                }
            },
            JsonV::Array(items) => {
                if items.len() == 0 {
                    assert(items =~= seq![]);
                }
            },
            _ => {},
        }
        if satisfies(FilterExprV::IsNull { field }, fields) {
            let i = choose|i: int| 0 <= i < one.len() && #[trigger] one[i] == JsonV::Null;
            assert(i == 0);
        }
    }
}

} // verus!
