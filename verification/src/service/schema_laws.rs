//! Which schemas and documents are accepted.
use crate::json::{JsonV, Number, member};
use crate::service::scalar::{
    clock_part, components_from, date_markers, is_duration, is_time, only_components, scalar_fits,
    time_markers,
};
use crate::service::schema::{
    VectorSupportV, fields_problem, key_count, lists_profiles, name_repeats, profiles_problem,
    schema_problem, shape_problem, subfields_problem, suggester_fields_problem, suggester_repeats,
    suggesters_problem, supported_type, vector_count, vector_field_problem, vector_search_problem,
};
use crate::service::state::{compatible, keeps_field, last_named};
use crate::service::validation::{
    document_members_problem, document_of, members_problem, narrows, object_problem,
    objects_problem, value_problem, vector_from, vector_of,
};
use crate::storage::definition::{FieldV, SuggesterV, field_by_path, field_named};
use crate::storage::field_type::FieldTypeV;
use crate::storage::index::{IndexV, key_of};
use crate::text::{all_digits, digits_value, has_part, is_digit, pieces};
use crate::text_laws::{lacks, law_cut, law_parts, law_pieces};
use vstd::prelude::*;

verus! {

// ---------------------------------------------------------------------------
// Schemas
// ---------------------------------------------------------------------------

/// Whether a field declares itself a vector field.
pub open spec fn declares_vector(f: FieldV) -> bool {
    f.has_dimensions() || f.vector_search_profile is Some
}

/// Whether what a field says of vectors is in order.
pub open spec fn vector_in_order(f: FieldV, max: nat) -> bool {
    declares_vector(f) ==> {
        &&& f.field_type is CollectionSingle || f.field_type is CollectionHalf
        &&& f.vector_dimensions is Some && f.vector_dimensions->Some_0 <= max
        &&& f.vector_search_profile is Some && f.vector_search_profile->Some_0.len() > 0
        &&& f.searchable
        &&& !f.is_key
        &&& !f.filterable
        &&& !f.sortable
        &&& !f.facetable
    }
}

/// Whether a field holds plain values that it can be sorted by where it says so.
pub open spec fn plain_in_order(f: FieldV) -> bool {
    supported_type(f.field_type) && !(f.sortable && (f.field_type is Duration
        || f.field_type is Binary || f.field_type is CollectionBinary))
}

/// Whether a field inside a complex field is in order.
pub open spec fn subfield_in_order(f: FieldV) -> bool {
    !f.is_key && !declares_vector(f) && plain_in_order(f)
}

/// Whether the fields inside a complex field are in order, and their names differ.
pub open spec fn subfields_in_order(fields: Seq<FieldV>) -> bool {
    &&& forall|k: int| 0 <= k < fields.len() ==> subfield_in_order(#[trigger] fields[k])
    &&& forall|a: int, b: int|
        0 <= a < b < fields.len() ==> (#[trigger] fields[a]).name != (#[trigger] fields[b]).name
}

/// Whether a field of an index is in order.
pub open spec fn field_in_order(f: FieldV, max: nat) -> bool {
    &&& vector_in_order(f, max)
    &&& if f.field_type is ComplexType || f.field_type is CollectionComplexType {
        &&& !f.is_key
        &&& !f.searchable
        &&& !f.sortable
        &&& !f.facetable
        &&& f.subfields.len() > 0
        &&& subfields_in_order(f.subfields)
    } else {
        plain_in_order(f)
    }
}

proof fn lemma_subfields(fields: Seq<FieldV>, i: int, path: Seq<char>)
    requires
        0 <= i <= fields.len(),
    ensures
        subfields_problem(fields, i, path) is None <==> forall|k: int|
            i <= k < fields.len() ==> subfield_in_order(#[trigger] fields[k]) && !name_repeats(
                fields,
                k,
            ),
    decreases fields.len() - i,
{
    if i < fields.len() {
        lemma_subfields(fields, i + 1, path);
        let f = fields[i];
        if subfields_problem(fields, i, path) is None {
            assert(subfield_in_order(fields[i]));
            assert(!name_repeats(fields, i));
        }
        if forall|k: int|
            i <= k < fields.len() ==> subfield_in_order(#[trigger] fields[k]) && !name_repeats(
                fields,
                k,
            ) {
            assert(subfield_in_order(fields[i]));
            assert(!f.field_type.complex());
        }
    }
}

proof fn lemma_names(fields: Seq<FieldV>)
    ensures
        (forall|k: int| 0 <= k < fields.len() ==> !#[trigger] name_repeats(fields, k)) <==> forall|
            a: int,
            b: int,
        |
            0 <= a < b < fields.len() ==> (#[trigger] fields[a]).name != (#[trigger] fields[b]).name,
{
    if forall|k: int| 0 <= k < fields.len() ==> !#[trigger] name_repeats(fields, k) {
        assert forall|a: int, b: int| 0 <= a < b < fields.len() implies (#[trigger] fields[a]).name
            != (#[trigger] fields[b]).name by {
            assert(!name_repeats(fields, b));
        }
    }
}

proof fn lemma_subfields_in_order(fields: Seq<FieldV>, path: Seq<char>)
    ensures
        subfields_problem(fields, 0, path) is None <==> subfields_in_order(fields),
{
    lemma_subfields(fields, 0, path);
    lemma_names(fields);
    if subfields_problem(fields, 0, path) is None {
        assert forall|k: int| 0 <= k < fields.len() implies !#[trigger] name_repeats(fields, k) by {
            let f = fields[k];
        }
        assert forall|k: int| 0 <= k < fields.len() implies subfield_in_order(
            #[trigger] fields[k],
        ) by {}
    }
    if subfields_in_order(fields) {
        assert forall|k: int| 0 <= k < fields.len() implies subfield_in_order(#[trigger] fields[k])
            && !name_repeats(fields, k) by {}
    }
}

proof fn lemma_field(f: FieldV, max: nat)
    ensures
        (vector_field_problem(f, max) is None && shape_problem(f) is None) <==> field_in_order(
            f,
            max,
        ),
{
    lemma_subfields_in_order(f.subfields, f.name);
}

proof fn lemma_fields(fields: Seq<FieldV>, i: int, max: nat)
    requires
        0 <= i <= fields.len(),
    ensures
        fields_problem(fields, i, max) is None <==> forall|k: int|
            i <= k < fields.len() ==> field_in_order(#[trigger] fields[k], max) && !name_repeats(
                fields,
                k,
            ),
    decreases fields.len() - i,
{
    if i < fields.len() {
        lemma_fields(fields, i + 1, max);
        lemma_field(fields[i], max);
        if forall|k: int|
            i <= k < fields.len() ==> field_in_order(#[trigger] fields[k], max) && !name_repeats(
                fields,
                k,
            ) {
            assert(field_in_order(fields[i], max));
        }
    }
}

/// Whether a suggester is in order: it names fields, all of which can be searched.
pub open spec fn suggester_in_order(s: SuggesterV, fields: Seq<FieldV>) -> bool {
    s.search_fields.len() > 0 && forall|k: int|
        0 <= k < s.search_fields.len() ==> searches(fields, #[trigger] s.search_fields[k])
}

/// Whether a path leads to a field that can be searched.
pub open spec fn searches(fields: Seq<FieldV>, path: Seq<char>) -> bool {
    match field_by_path(fields, path) {
        Some(f) => f.searchable,
        None => false,
    }
}

proof fn lemma_suggester(names: Seq<Seq<char>>, i: int, name: Seq<char>, fields: Seq<FieldV>)
    requires
        0 <= i <= names.len(),
    ensures
        suggester_fields_problem(names, i, name, fields) is None <==> forall|k: int|
            i <= k < names.len() ==> searches(fields, #[trigger] names[k]),
    decreases names.len() - i,
{
    if i < names.len() {
        lemma_suggester(names, i + 1, name, fields);
        assert(searches(fields, names[i]) || !searches(fields, names[i]));
    }
}

proof fn lemma_suggesters(list: Seq<SuggesterV>, i: int, fields: Seq<FieldV>)
    requires
        0 <= i <= list.len(),
    ensures
        suggesters_problem(list, i, fields) is None <==> forall|k: int|
            i <= k < list.len() ==> suggester_in_order(#[trigger] list[k], fields)
                && !suggester_repeats(list, k),
    decreases list.len() - i,
{
    if i < list.len() {
        lemma_suggesters(list, i + 1, fields);
        let s = list[i];
        lemma_suggester(s.search_fields, 0, s.name, fields);
        if forall|k: int|
            i <= k < list.len() ==> suggester_in_order(#[trigger] list[k], fields)
                && !suggester_repeats(list, k) {
            assert(suggester_in_order(list[i], fields));
        }
    }
}

proof fn lemma_keys(fields: Seq<FieldV>, n: int)
    requires
        0 <= n <= fields.len(),
    ensures
        key_count(fields, n) == 0 <==> forall|k: int| 0 <= k < n ==> !(#[trigger] fields[k]).is_key,
        key_count(fields, n) == 1 <==> exists|k: int| #[trigger] is_only_key(fields, n, k),
    decreases n,
{
    if n > 0 {
        lemma_keys(fields, n - 1);
        let own = fields[n - 1].is_key;
        if own && key_count(fields, n - 1) == 0 {
            assert(is_only_key(fields, n, n - 1));
        }
        if !own && key_count(fields, n - 1) == 1 {
            let k = choose|k: int| #[trigger] is_only_key(fields, n - 1, k);
            assert(is_only_key(fields, n, k));
        }
        if exists|k: int| #[trigger] is_only_key(fields, n, k) {
            let k = choose|k: int| #[trigger] is_only_key(fields, n, k);
            if k < n - 1 {
                assert(!own);
                assert(is_only_key(fields, n - 1, k));
            } else {
                assert forall|m: int| 0 <= m < n - 1 implies !(#[trigger] fields[m]).is_key by {}
            }
        }
        if (forall|k: int| 0 <= k < n ==> !(#[trigger] fields[k]).is_key) {
            assert(!fields[n - 1].is_key);
        }
    }
}

/// Whether one field is the key among the first ones, and no other is.
pub open spec fn is_only_key(fields: Seq<FieldV>, n: int, k: int) -> bool {
    0 <= k < n && fields[k].is_key && forall|m: int|
        0 <= m < n && m != k ==> !(#[trigger] fields[m]).is_key
}

/// A schema is accepted exactly where each of its fields is in order, their names
/// differ, one of them is the key and no other, each of its suggesters is in order and
/// their names differ, and nothing is wrong with its vector search.
pub proof fn law_accepted_schemas(d: IndexV, max: nat, support: VectorSupportV)
    ensures
        schema_problem(d, max, support) is None <==> {
            &&& forall|k: int|
                0 <= k < d.fields.len() ==> field_in_order(#[trigger] d.fields[k], max)
            &&& forall|a: int, b: int|
                0 <= a < b < d.fields.len() ==> (#[trigger] d.fields[a]).name != (
                #[trigger] d.fields[b]).name
            &&& exists|k: int| #[trigger] is_only_key(d.fields, d.fields.len() as int, k)
            &&& forall|k: int|
                0 <= k < d.suggesters.len() ==> suggester_in_order(
                    #[trigger] d.suggesters[k],
                    d.fields,
                )
            &&& forall|a: int, b: int|
                0 <= a < b < d.suggesters.len() ==> (#[trigger] d.suggesters[a]).name != (
                #[trigger] d.suggesters[b]).name
            &&& vector_search_problem(d, support) is None
        },
{
    lemma_fields(d.fields, 0, max);
    lemma_names(d.fields);
    lemma_keys(d.fields, d.fields.len() as int);
    lemma_suggesters(d.suggesters, 0, d.fields);
    let list = d.suggesters;
    if fields_problem(d.fields, 0, max) is None {
        assert forall|k: int| 0 <= k < d.fields.len() implies !#[trigger] name_repeats(
            d.fields,
            k,
        ) by {
            let f = d.fields[k];
        }
    }
    if suggesters_problem(list, 0, d.fields) is None {
        assert forall|a: int, b: int| 0 <= a < b < list.len() implies (#[trigger] list[a]).name
            != (#[trigger] list[b]).name by {
            assert(!suggester_repeats(list, b));
        }
    }
}

proof fn lemma_profiles(fields: Seq<FieldV>, i: int, profiles: Seq<Seq<char>>)
    requires
        0 <= i <= fields.len(),
    ensures
        profiles_problem(fields, i, profiles) is None <==> forall|k: int|
            i <= k < fields.len() && (#[trigger] fields[k]).vector() ==> profiles.contains(
                match fields[k].vector_search_profile {
                    Some(p) => p,
                    None => seq![],
                },
            ),
    decreases fields.len() - i,
{
    if i < fields.len() {
        lemma_profiles(fields, i + 1, profiles);
        let f = fields[i];
        if forall|k: int|
            i <= k < fields.len() && (#[trigger] fields[k]).vector() ==> profiles.contains(
                match fields[k].vector_search_profile {
                    Some(p) => p,
                    None => seq![],
                },
            ) {
            assert(fields[i].vector() ==> profiles.contains(
                match fields[i].vector_search_profile {
                    Some(p) => p,
                    None => seq![],
                },
            ));
        }
    }
}

proof fn lemma_some_vector(fields: Seq<FieldV>, n: int)
    requires
        0 <= n <= fields.len(),
    ensures
        vector_count(fields, n) == 0 <==> forall|k: int|
            0 <= k < n ==> !(#[trigger] fields[k]).vector(),
        vector_count(fields, n) <= n,
    decreases n,
{
    if n > 0 {
        lemma_some_vector(fields, n - 1);
        if (forall|k: int| 0 <= k < n ==> !(#[trigger] fields[k]).vector()) {
            assert(!fields[n - 1].vector());
        }
    }
}

/// A schema without vector fields needs nothing for them. One with vector fields needs a
/// profile for each, and the profiles that it lists.
pub proof fn law_vector_search_is_configured(
    d: IndexV,
    support: VectorSupportV,
    profiles: Seq<Seq<char>>,
    k: int,
)
    requires
        support.profiles == Ok::<Seq<Seq<char>>, Seq<char>>(profiles),
        d.fields.len() <= support.max_fields,
    ensures
        (forall|i: int| 0 <= i < d.fields.len() ==> !(#[trigger] d.fields[i]).vector())
            ==> vector_search_problem(d, support) is None,
        0 <= k < d.fields.len() && d.fields[k].vector() ==> (vector_search_problem(d, support)
            is None <==> lists_profiles(d.vector_search) && forall|i: int|
            0 <= i < d.fields.len() && (#[trigger] d.fields[i]).vector() ==> profiles.contains(
                match d.fields[i].vector_search_profile {
                    Some(p) => p,
                    None => seq![],
                },
            )),
{
    lemma_some_vector(d.fields, d.fields.len() as int);
    lemma_profiles(d.fields, 0, profiles);
}

// ---------------------------------------------------------------------------
// Documents
// ---------------------------------------------------------------------------

/// Whether a field of a document is one of the index, and its value fits.
pub open spec fn member_fits(fields: Seq<FieldV>, name: Seq<char>, v: JsonV) -> bool {
    match field_named(fields, name, 0) {
        Some(f) => value_problem(f, v) is None,
        None => false,
    }
}

proof fn lemma_document_members(m: Seq<(Seq<char>, JsonV)>, i: int, fields: Seq<FieldV>)
    requires
        0 <= i <= m.len(),
    ensures
        document_members_problem(m, i, fields) is None <==> forall|k: int|
            i <= k < m.len() ==> member_fits(fields, (#[trigger] m[k]).0, m[k].1),
    decreases m.len() - i,
{
    if i < m.len() {
        lemma_document_members(m, i + 1, fields);
        assert(member_fits(fields, m[i].0, m[i].1) || !member_fits(fields, m[i].0, m[i].1));
    }
}

/// A value is accepted as a document exactly where it is an object that has the key
/// field, with a text or a number in it, and each of its members is a field of the index
/// with a value that fits.
pub proof fn law_accepted_documents(d: IndexV, m: Seq<(Seq<char>, JsonV)>, other: JsonV)
    requires
        key_of(d.fields, 0) is Some,
    ensures
        !(other is Object) ==> document_of(d, other) is Err,
        ({
            let key = member(m, key_of(d.fields, 0)->Some_0.name);
            document_of(d, JsonV::Object(m)) is Ok <==> {
                &&& key matches Some(v) && (v is String || v is Number)
                &&& forall|k: int|
                    0 <= k < m.len() ==> member_fits(d.fields, (#[trigger] m[k]).0, m[k].1)
            }
        }),
{
    lemma_document_members(m, 0, d.fields);
}

proof fn lemma_members(f: FieldV, m: Seq<(Seq<char>, JsonV)>, i: int)
    requires
        0 <= i <= m.len(),
    ensures
        members_problem(f, m, i) is None <==> forall|k: int|
            i <= k < m.len() ==> member_fits(f.subfields, (#[trigger] m[k]).0, m[k].1),
    decreases m.len() - i,
{
    if i < m.len() {
        lemma_members(f, m, i + 1);
        assert(member_fits(f.subfields, m[i].0, m[i].1) || !member_fits(
            f.subfields,
            m[i].0,
            m[i].1,
        ));
    }
}

/// Whether a value is an object whose members are subfields of a field and fit.
pub open spec fn object_fits(f: FieldV, v: JsonV) -> bool {
    match v {
        JsonV::Object(m) => forall|k: int|
            0 <= k < m.len() ==> member_fits(f.subfields, (#[trigger] m[k]).0, m[k].1),
        _ => false,
    }
}

proof fn lemma_object(f: FieldV, v: JsonV)
    ensures
        object_problem(f, v) is None <==> object_fits(f, v),
{
    if let JsonV::Object(m) = v {
        lemma_members(f, m, 0);
    }
}

proof fn lemma_objects(f: FieldV, items: Seq<JsonV>, i: int)
    requires
        0 <= i <= items.len(),
    ensures
        objects_problem(f, items, i) is None <==> forall|k: int|
            i <= k < items.len() ==> object_fits(f, #[trigger] items[k]),
    decreases items.len() - i,
{
    if i < items.len() {
        lemma_objects(f, items, i + 1);
        lemma_object(f, items[i]);
        assert(object_fits(f, items[i]) || !object_fits(f, items[i]));
    }
}

proof fn lemma_vector(items: Seq<JsonV>, i: int, done: Seq<u64>)
    requires
        0 <= i <= items.len(),
    ensures
        vector_from(items, i, done) is Ok <==> forall|k: int|
            i <= k < items.len() ==> (#[trigger] items[k]) is Number && narrows(
                items[k]->Number_0.rank_spec(),
            ),
        vector_from(items, i, done) matches Ok(r) ==> r.len() == done.len() + items.len() - i
            && (forall|k: int| 0 <= k < done.len() ==> #[trigger] r[k] == done[k]) && (forall|k: int|
            done.len() <= k < r.len() ==> #[trigger] r[k] == items[k - done.len()
                + i]->Number_0.rank_spec()),
    decreases items.len() - i,
{
    if i < items.len() {
        if let JsonV::Number(n) = items[i] {
            if narrows(n.rank_spec()) {
                lemma_vector(items, i + 1, done.push(n.rank_spec()));
                if let Ok(r) = vector_from(items, i, done) {
                    assert forall|k: int| 0 <= k < done.len() implies #[trigger] r[k]
                        == done[k] by {
                        assert(done.push(n.rank_spec())[k] == done[k]);
                    }
                    assert(r[done.len() as int] == done.push(n.rank_spec())[done.len() as int]);
                }
            }
        }
    }
}

/// A value fits a complex field where it is an object, or a list of objects for a
/// collection, whose members are subfields with values that fit; a vector field where
/// it is a list of so many numbers; a collection where it is a list of values that fit
/// its type; and any other field where it fits the type.
pub proof fn law_fitting_values(f: FieldV, v: JsonV)
    ensures
        value_problem(f, v) is None <==> (if f.field_type is CollectionComplexType {
            v is Array && forall|k: int|
                0 <= k < v->Array_0.len() ==> object_fits(f, #[trigger] v->Array_0[k])
        } else if f.field_type is ComplexType {
            object_fits(f, v)
        } else if f.vector() {
            v is Array && v->Array_0.len() == f.vector_dimensions->Some_0 && forall|k: int|
                0 <= k < v->Array_0.len() ==> (#[trigger] v->Array_0[k]) is Number && narrows(
                    v->Array_0[k]->Number_0.rank_spec(),
                )
        } else if f.field_type.inner() is Some {
            v is Array && forall|k: int|
                0 <= k < v->Array_0.len() ==> scalar_fits(
                    f.field_type.inner()->Some_0,
                    #[trigger] v->Array_0[k],
                )
        } else {
            scalar_fits(f.field_type, v)
        }),
{
    lemma_object(f, v);
    if let JsonV::Array(items) = v {
        lemma_objects(f, items, 0);
        lemma_vector(items, 0, seq![]);
    }
}

/// A vector has the numbers of its list, each in its place.
pub proof fn law_vectors_keep_numbers(items: Seq<JsonV>, k: int)
    requires
        vector_of(items) is Ok,
        0 <= k < items.len(),
    ensures
        vector_of(items)->Ok_0.len() == items.len(),
        items[k] is Number,
        vector_of(items)->Ok_0[k] == items[k]->Number_0.rank_spec(),
{
    lemma_vector(items, 0, seq![]);
    let r = vector_of(items)->Ok_0;
    assert(r[k] == items[k - 0 + 0]->Number_0.rank_spec());
}

// ---------------------------------------------------------------------------
// Scalars
// ---------------------------------------------------------------------------

/// Texts fit types of texts, truth values fit booleans, and numbers fit types of
/// numbers: a small integer type takes the integers of its size, and an integer type no
/// fraction.
pub proof fn law_fitting_scalars(n: u64, i: i64, r: u64, s: Seq<char>, b: bool, v: JsonV)
    ensures
        scalar_fits(FieldTypeV::Int8, JsonV::Number(Number::PosInt(n))) == (n <= 127),
        scalar_fits(FieldTypeV::Int8, JsonV::Number(Number::NegInt(i))) == (-128 <= i <= 127),
        scalar_fits(FieldTypeV::Int16, JsonV::Number(Number::PosInt(n))) == (n <= 32_767),
        scalar_fits(FieldTypeV::Int16, JsonV::Number(Number::NegInt(i))) == (-32_768 <= i
            <= 32_767),
        scalar_fits(FieldTypeV::Int32, JsonV::Number(Number::PosInt(n))),
        scalar_fits(FieldTypeV::Int32, JsonV::Number(Number::NegInt(i))),
        scalar_fits(FieldTypeV::Int64, JsonV::Number(Number::PosInt(n))),
        scalar_fits(FieldTypeV::Int64, JsonV::Number(Number::NegInt(i))),
        !scalar_fits(FieldTypeV::Int8, JsonV::Number(Number::Float(r))),
        !scalar_fits(FieldTypeV::Int16, JsonV::Number(Number::Float(r))),
        !scalar_fits(FieldTypeV::Int32, JsonV::Number(Number::Float(r))),
        !scalar_fits(FieldTypeV::Int64, JsonV::Number(Number::Float(r))),
        scalar_fits(FieldTypeV::Single, v) == v is Number,
        scalar_fits(FieldTypeV::Double, v) == v is Number,
        scalar_fits(FieldTypeV::Boolean, v) == v is Bool,
        scalar_fits(FieldTypeV::String, v) == v is String,
        scalar_fits(FieldTypeV::Guid, v) == v is String,
        scalar_fits(FieldTypeV::DateTimeOffset, v) == v is String,
        !(v is Number) ==> !scalar_fits(FieldTypeV::Int8, v) && !scalar_fits(FieldTypeV::Int16, v)
            && !scalar_fits(FieldTypeV::Int32, v) && !scalar_fits(FieldTypeV::Int64, v),
        !(v is String) ==> !scalar_fits(FieldTypeV::Time, v) && !scalar_fits(
            FieldTypeV::Duration,
            v,
        ) && !scalar_fits(FieldTypeV::Binary, v),
        scalar_fits(FieldTypeV::Time, JsonV::String(s)) == is_time(s),
        scalar_fits(FieldTypeV::Duration, JsonV::String(s)) == is_duration(s),
{
}

/// Whether two digits write a number up to a bound.
pub open spec fn two_digits(s: Seq<char>, max: int) -> bool {
    &&& s.len() == 2
    &&& '0' <= s[0] <= '9'
    &&& '0' <= s[1] <= '9'
    &&& (s[0] as int - '0' as int) * 10 + (s[1] as int - '0' as int) <= max
}

proof fn lemma_two_digits(s: Seq<char>, max: nat)
    ensures
        clock_part(s, max) == two_digits(s, max as int),
{
    if s.len() == 2 {
        let one = s.drop_last();
        assert(one.drop_last() =~= seq![]);
        assert(one.last() == s[0]);
        assert(digits_value(one.drop_last()) == 0);
        assert(digits_value(one) == (s[0] as u32 - '0' as u32) as nat);
        assert(digits_value(s) == digits_value(one) * 10 + (s[1] as u32 - '0' as u32) as nat);
        if two_digits(s, max as int) {
            assert forall|k: int| 0 <= k < s.len() implies is_digit(#[trigger] s[k]) by {
                assert(k == 0 || k == 1);
            }
        }
        if all_digits(s) {
            assert(is_digit(s[0]) && is_digit(s[1]));
        }
    }
}

/// A time of day is written in hours, minutes and seconds, two digits each, and may have
/// a fraction of one to nine digits behind a point.
pub proof fn law_times(h: Seq<char>, m: Seq<char>, s: Seq<char>, fraction: Seq<char>)
    requires
        lacks(h, ':') && lacks(m, ':') && lacks(s, ':'),
        lacks(h, '.') && lacks(m, '.') && lacks(s, '.'),
    ensures
        ({
            let clock = h + seq![':'] + (m + seq![':'] + s);
            let fine = two_digits(h, 23) && two_digits(m, 59) && two_digits(s, 59);
            &&& is_time(clock) <==> fine
            &&& is_time(clock + seq!['.'] + fraction) <==> fine && 1 <= fraction.len() <= 9
                && forall|k: int| 0 <= k < fraction.len() ==> '0' <= #[trigger] fraction[k] <= '9'
        }),
{
    let rest = m + seq![':'] + s;
    let clock = h + seq![':'] + rest;
    law_pieces(m, ':', s);
    law_pieces(s, ':', seq![]);
    law_pieces(h, ':', rest);
    assert(pieces(clock, ':') =~= seq![h, m, s]);
    lemma_two_digits(h, 23);
    lemma_two_digits(m, 59);
    lemma_two_digits(s, 59);
    assert(lacks(clock, '.')) by {
        assert forall|i: int| 0 <= i < clock.len() implies #[trigger] clock[i] != '.' by {
            if i < h.len() {
                assert(clock[i] == h[i]);
            } else if i > h.len() {
                let j = i - h.len() - 1;
                assert(clock[i] == rest[j]);
                if j < m.len() {
                    assert(rest[j] == m[j]);
                } else if j > m.len() {
                    assert(rest[j] == s[j - m.len() - 1]);
                }
            }
        }
    }
    law_cut(clock, '.', fraction);
    if all_digits(fraction) {
        assert forall|k: int| 0 <= k < fraction.len() implies '0' <= #[trigger] fraction[k]
            <= '9' by {
            assert(is_digit(fraction[k]));
        }
    }
}

// ---------------------------------------------------------------------------
// Changes
// ---------------------------------------------------------------------------

proof fn lemma_last_named(fields: Seq<FieldV>, name: Seq<char>, k: int)
    requires
        forall|a: int, b: int|
            0 <= a < b < fields.len() ==> (#[trigger] fields[a]).name != (#[trigger] fields[b]).name,
    ensures
        0 <= k < fields.len() && fields[k].name == name ==> last_named(fields, name) == Some(
            fields[k],
        ),
        last_named(fields, name) matches Some(f) ==> fields.contains(f) && f.name == name,
    decreases fields.len(),
{
    if fields.len() > 0 {
        let rest = fields.drop_last();
        assert forall|a: int, b: int| 0 <= a < b < rest.len() implies (#[trigger] rest[a]).name != (
        #[trigger] rest[b]).name by {
            assert(rest[a] == fields[a] && rest[b] == fields[b]);
        }
        lemma_last_named(rest, name, k);
        let n = fields.len() - 1;
        assert(fields[n] == fields.last());
        if 0 <= k < n && fields[k].name == name {
            assert(rest[k] == fields[k]);
            assert(fields[k].name != fields[n].name);
        }
        if fields.last().name != name {
            if let Some(f) = last_named(rest, name) {
                let j = choose|j: int| 0 <= j < rest.len() && rest[j] == f;
                assert(fields[j] == f);
            }
        }
    }
}

/// The documents of an index are kept when its schema changes exactly where each field
/// of the old schema is in the new one, with its type and its dimensions.
pub proof fn law_kept_documents(old_fields: Seq<FieldV>, new_fields: Seq<FieldV>)
    requires
        forall|a: int, b: int|
            0 <= a < b < new_fields.len() ==> (#[trigger] new_fields[a]).name != (
            #[trigger] new_fields[b]).name,
    ensures
        compatible(old_fields, new_fields) <==> forall|i: int|
            0 <= i < old_fields.len() ==> exists|k: int|
                0 <= k < new_fields.len() && same_field(
                    #[trigger] old_fields[i],
                    #[trigger] new_fields[k],
                ),
{
    assert forall|i: int| 0 <= i < old_fields.len() implies keeps_field(
        new_fields,
        #[trigger] old_fields[i],
    ) == (exists|k: int|
        0 <= k < new_fields.len() && same_field(old_fields[i], #[trigger] new_fields[k])) by {
        let f = old_fields[i];
        lemma_last_named(new_fields, f.name, 0);
        if keeps_field(new_fields, f) {
            let n = last_named(new_fields, f.name)->Some_0;
            let k = choose|k: int| 0 <= k < new_fields.len() && new_fields[k] == n;
            assert(same_field(f, new_fields[k]));
        }
        if exists|k: int|
            0 <= k < new_fields.len() && same_field(old_fields[i], #[trigger] new_fields[k]) {
            let k = choose|k: int|
                0 <= k < new_fields.len() && same_field(old_fields[i], #[trigger] new_fields[k]);
            lemma_last_named(new_fields, f.name, k);
        }
    }
    if compatible(old_fields, new_fields) {
        assert forall|i: int| 0 <= i < old_fields.len() implies exists|k: int|
            0 <= k < new_fields.len() && same_field(
                #[trigger] old_fields[i],
                #[trigger] new_fields[k],
            ) by {
            assert(keeps_field(new_fields, old_fields[i]));
        }
    }
    if forall|i: int|
        0 <= i < old_fields.len() ==> exists|k: int|
            0 <= k < new_fields.len() && same_field(
                #[trigger] old_fields[i],
                #[trigger] new_fields[k],
            ) {
        assert forall|i: int| 0 <= i < old_fields.len() implies keeps_field(
            new_fields,
            #[trigger] old_fields[i],
        ) by {
            let k = choose|k: int|
                0 <= k < new_fields.len() && same_field(
                    old_fields[i],
                    #[trigger] new_fields[k],
                );
        }
    }
}

/// Whether two fields have the same name, type and dimensions.
pub open spec fn same_field(a: FieldV, b: FieldV) -> bool {
    a.name == b.name && a.field_type == b.field_type && a.vector_dimensions == b.vector_dimensions
}

// ---------------------------------------------------------------------------
// Durations
// ---------------------------------------------------------------------------

/// Whether a text is a number without sign or fraction.
pub open spec fn is_whole(s: Seq<char>) -> bool {
    s.len() > 0 && forall|i: int| 0 <= i < s.len() ==> '0' <= #[trigger] s[i] <= '9'
}

proof fn lemma_whole(s: Seq<char>, c: char)
    requires
        is_whole(s),
        c > '9',
    ensures
        all_digits(s),
        lacks(s, c),
        lacks(s, '.'),
{
    assert forall|i: int| 0 <= i < s.len() implies is_digit(#[trigger] s[i]) by {}
    assert forall|i: int| 0 <= i < s.len() implies #[trigger] s[i] != c by {}
    assert forall|i: int| 0 <= i < s.len() implies #[trigger] s[i] != '.' by {}
}

/// A component of a duration, a number and its marker, is read where it stands in the
/// order of the markers, and what is behind it is read on.
pub proof fn law_component_is_read(
    number: Seq<char>,
    after: Seq<char>,
    markers: Seq<char>,
    i: int,
    found: bool,
)
    requires
        is_whole(number),
        0 <= i < markers.len(),
        markers[i] > '9',
    ensures
        components_from(number + seq![markers[i]] + after, markers, i, found) == components_from(
            after,
            markers,
            i + 1,
            true,
        ),
        components_from(seq![], markers, i, found) == components_from(seq![], markers, i + 1, found),
{
    lemma_whole(number, markers[i]);
    law_cut(number, markers[i], after);
    law_cut(number, '.', seq![]);
    law_cut(Seq::<char>::empty(), markers[i], after);
}

/// A duration of one component is written with `P`, and with `T` before a part of the
/// day.
pub proof fn law_durations(n: Seq<char>, s: Seq<char>)
    requires
        is_whole(n),
    ensures
        is_duration(seq!['P'] + n + seq!['D']),
        is_duration(seq!['P'] + n + seq!['W']),
        is_duration(seq!['P', 'T'] + n + seq!['H']),
        is_duration(seq!['P', 'T'] + n + seq!['S']),
        !is_duration(seq!['P']),
        !is_duration(n),
        s.len() > 0 && s[0] != 'P' ==> !is_duration(s),
{
    let none = Seq::<char>::empty();
    lemma_whole(n, 'T');
    lemma_whole(n, 'W');
    lemma_whole(n, 'Y');
    lemma_whole(n, 'M');
    lemma_whole(n, 'H');
    let date = date_markers();
    let time = time_markers();
    let d = n + seq!['D'];
    let w = n + seq!['W'];
    let h = n + seq!['H'];
    let c = n + seq!['S'];
    lemma_part_of_one(n, 'D', seq!['Y', 'M', 'W', 'T']);
    lemma_part_of_one(n, 'W', seq!['Y', 'M', 'T']);
    lemma_part_of_one(n, 'H', seq!['T']);
    lemma_part_of_one(n, 'S', seq!['H', 'M', 'T']);
    // Days.
    let all = seq!['P'] + n + seq!['D'];
    assert(all.skip(1) =~= d);
    law_cut(d, 'T', none);
    law_cut(d, 'Y', none);
    law_cut(d, 'M', none);
    law_cut(d, 'W', none);
    assert(n + seq![date[3]] + none =~= d);
    law_component_is_read(n, none, date, 3, false);
    assert(components_from(none, date, 4, true) == Some((none, true)));
    assert(components_from(d, date, 2, false) == components_from(d, date, 3, false));
    assert(components_from(d, date, 1, false) == components_from(d, date, 2, false));
    assert(components_from(d, date, 0, false) == components_from(d, date, 1, false));
    lemma_nothing(time);
    lemma_absent(d, 'W');
    // Weeks.
    let weeks = seq!['P'] + n + seq!['W'];
    assert(weeks.skip(1) =~= w);
    law_cut(w, 'T', none);
    law_cut(w, 'Y', none);
    law_cut(w, 'M', none);
    assert(n + seq![date[2]] + none =~= w);
    law_component_is_read(n, none, date, 2, false);
    law_component_is_read(n, none, date, 3, true);
    assert(components_from(w, date, 1, false) == components_from(w, date, 2, false));
    assert(components_from(w, date, 0, false) == components_from(w, date, 1, false));
    law_parts(n, seq!['W'], none, w);
    assert(n + seq!['W'] + none =~= w);
    assert(w.take(w.len() - 1) =~= n);
    // Hours.
    let hours = seq!['P', 'T'] + n + seq!['H'];
    assert(hours.skip(1) =~= none + seq!['T'] + h);
    law_cut(none, 'T', h);
    lemma_absent(h, 'T');
    assert(n + seq![time[0]] + none =~= h);
    law_component_is_read(n, none, time, 0, false);
    law_component_is_read(n, none, time, 1, true);
    law_component_is_read(n, none, time, 2, true);
    assert(components_from(none, time, 3, true) == Some((none, true)));
    lemma_nothing(date);
    lemma_absent(none, 'W');
    // Seconds.
    let seconds = seq!['P', 'T'] + n + seq!['S'];
    assert(seconds.skip(1) =~= none + seq!['T'] + c);
    law_cut(none, 'T', c);
    lemma_absent(c, 'T');
    law_cut(c, 'H', none);
    law_cut(c, 'M', none);
    assert(n + seq![time[2]] + none =~= c);
    law_component_is_read(n, none, time, 2, false);
    assert(components_from(c, time, 1, false) == components_from(c, time, 2, false));
    assert(components_from(c, time, 0, false) == components_from(c, time, 1, false));
    assert(n[0] != 'P');
}

proof fn lemma_part_of_one(n: Seq<char>, marker: char, others: Seq<char>)
    requires
        is_whole(n),
        forall|k: int| 0 <= k < others.len() ==> #[trigger] others[k] > '9' && others[k] != marker,
    ensures
        forall|k: int| 0 <= k < others.len() ==> lacks(n + seq![marker], #[trigger] others[k]),
{
    let s = n + seq![marker];
    assert forall|k: int| 0 <= k < others.len() implies lacks(s, #[trigger] others[k]) by {
        assert forall|i: int| 0 <= i < s.len() implies #[trigger] s[i] != others[k] by {
            if i < n.len() {
                assert(s[i] == n[i]);
            }
        }
    }
}

proof fn lemma_absent(s: Seq<char>, c: char)
    requires
        lacks(s, c),
    ensures
        !has_part(s, seq![c]),
{
    let one = seq![c];
    if has_part(s, one) {
        law_parts(seq![], one, seq![], s);
        let (x, y) = choose|x: Seq<char>, y: Seq<char>| s == #[trigger] (x + one + y);
        assert((x + one + y)[x.len() as int] == one[0]);
        assert(s[x.len() as int] == c);
    }
}

proof fn lemma_nothing(markers: Seq<char>)
    requires
        markers.len() <= 4,
    ensures
        only_components(seq![], markers) == Some(false),
{
    lemma_nothing_from(markers, 0);
}

proof fn lemma_nothing_from(markers: Seq<char>, i: int)
    requires
        0 <= i <= markers.len(),
    ensures
        components_from(seq![], markers, i, false) == Some((Seq::<char>::empty(), false)),
    decreases markers.len() - i,
{
    if i < markers.len() {
        law_cut(Seq::<char>::empty(), markers[i], seq![]);
        lemma_nothing_from(markers, i + 1);
    }
}

} // verus!
