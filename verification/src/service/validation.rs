//! Validation of documents against an index schema.
use crate::filter::validate::problem;
use crate::json::{Json, JsonV, group_json, magnitude_bits, member, rank_of, shown, values};
use crate::service::scalar::{scalar_fits, scalar_type_ok};
use crate::storage::definition::{
    FieldDefinition, FieldV, field_named, field_views, find_named, group_fields,
};
use crate::storage::document::{Document, DocumentV};
use crate::storage::field_type::{FieldType, FieldTypeV};
use crate::storage::index::{IndexDefinition, IndexV, key_of};
use crate::text::{
    cat3, cat5, cat6, cat7, debug_text, decimal, decimal_text, join_texts, joined,
    lemma_texts_push, opt_text, quoted, texts,
};
use vstd::prelude::*;

verus! {

/// The text of a value that can be a document key.
pub open spec fn key_text(v: JsonV) -> Option<Seq<char>> {
    match v {
        JsonV::String(s) => Some(s),
        JsonV::Number(n) => Some(n.text_spec()),
        _ => None,
    }
}

pub fn key_display(value: &Json) -> (r: Option<String>)
    ensures
        opt_text(r) == key_text(value@),
{
    match value {
        Json::String(s) => Some(s.clone()),
        Json::Number(n) => Some(n.text()),
        _ => None,
    }
}

/// The name of an index's key field; empty where it has none.
pub open spec fn key_name(d: IndexV) -> Seq<char> {
    match key_of(d.fields, 0) {
        Some(f) => f.name,
        None => seq![],
    }
}

pub fn key_field_name(definition: &IndexDefinition) -> (r: String)
    ensures
        r@ == key_name(definition@),
{
    match definition.key_field() {
        Some(f) => f.name.clone(),
        None => {
            let r = String::new();
            assert(r@ =~= seq![]);
            r
        },
    }
}

// ---------------------------------------------------------------------------
// Vectors
// ---------------------------------------------------------------------------

/// The rank below which, and above whose mirror image, a finite binary64
/// number keeps a finite value when it is narrowed to binary32: the midpoint
/// between the greatest binary32 number and the power of two behind it.
pub open spec fn narrows(rank: u64) -> bool {
    magnitude_bits(rank) < 0x47EF_FFFF_F000_0000
}

/// Whether a binary64 number is finite and stays so in binary32. What is not
/// finite, or overflows there, would poison distance math.
pub fn finite_f32(rank: u64) -> (r: bool)
    ensures
        r == narrows(rank),
{
    let magnitude: u64 = if rank >= 0x8000_0000_0000_0000 {
        rank - 0x8000_0000_0000_0000
    } else {
        0x7FFF_FFFF_FFFF_FFFF - rank
    };
    magnitude < 0x47EF_FFFF_F000_0000
}

/// Why an array of JSON values is no vector.
#[derive(Debug, Clone, Copy, PartialEq, Eq, Structural)]
pub enum FiniteF32ArrayError {
    /// A numeric value that is not finite (or overflows).
    NonFinite,
    /// A value that is not a number at all.
    NonNumeric,
}

/// The ranks of a vector's numbers from `i` on, behind those in `done`.
pub open spec fn vector_from(items: Seq<JsonV>, i: int, done: Seq<u64>) -> Result<
    Seq<u64>,
    FiniteF32ArrayError,
>
    decreases items.len() - i,
{
    if i >= items.len() {
        Ok(done)
    } else {
        match rank_of(items[i]) {
            Some(rank) => if narrows(rank) {
                vector_from(items, i + 1, done.push(rank))
            } else {
                Err(FiniteF32ArrayError::NonFinite)
            },
            None => Err(FiniteF32ArrayError::NonNumeric),
        }
    }
}

/// The ranks of a vector's numbers.
pub open spec fn vector_of(items: Seq<JsonV>) -> Result<Seq<u64>, FiniteF32ArrayError> {
    vector_from(items, 0, seq![])
}

/// Reads an array of values as a vector of numbers that stay finite when they
/// are narrowed to binary32; each is given by its binary64 rank.
pub fn parse_finite_f32_array(items: &Vec<Json>) -> (r: Result<Vec<u64>, FiniteF32ArrayError>)
    ensures
        match r {
            Ok(v) => vector_of(values(items@)) == Ok::<_, FiniteF32ArrayError>(v@),
            Err(e) => vector_of(values(items@)) == Err::<Seq<u64>, _>(e),
        },
{
    let ghost all = values(items@);
    let mut out: Vec<u64> = Vec::new();
    let mut i: usize = 0;
    while i < items.len()
        invariant
            all == values(items@),
            i <= items@.len(),
            vector_of(all) == vector_from(all, i as int, out@),
        decreases items@.len() - i,
    {
        assert(all[i as int] == items@[i as int]@);
        match items[i].as_rank() {
            Some(rank) => {
                if finite_f32(rank) {
                    out.push(rank);
                } else {
                    return Err(FiniteF32ArrayError::NonFinite);
                }
            },
            None => {
                return Err(FiniteF32ArrayError::NonNumeric);
            },
        }
        i += 1;
    }
    Ok(out)
}

/// What is wrong with a vector field's value: it must be an array of exactly
/// the declared number of finite numbers.
pub open spec fn vector_value_problem(f: FieldV, v: JsonV) -> Option<Seq<char>> {
    let dimensions: nat = match f.vector_dimensions {
        Some(n) => n as nat,
        None => 0,
    };
    match v {
        JsonV::Array(items) => if items.len() != dimensions {
            Some(
                "Field "@ + debug_text(f.name) + " expects a vector of dimension "@ + decimal(
                    dimensions,
                ) + ", got "@ + decimal(items.len()) + "."@,
            )
        } else {
            match vector_of(items) {
                Ok(_) => None,
                Err(FiniteF32ArrayError::NonFinite) => Some(
                    "Field "@ + debug_text(f.name) + " must contain only finite numeric values."@,
                ),
                Err(FiniteF32ArrayError::NonNumeric) => Some(
                    "Field "@ + debug_text(f.name) + " must contain only numeric values."@,
                ),
            }
        },
        _ => Some(
            "Field "@ + debug_text(f.name) + " must be an array of numbers (vector of dimension "@
                + decimal(dimensions) + ")."@,
        ),
    }
}

/// Validates a vector field value: a JSON array of exactly the declared
/// number of finite numbers.
pub fn check_vector_value(field: &FieldDefinition, value: &Json) -> (r: Result<(), String>)
    ensures
        problem(r) == vector_value_problem(field@, value@),
{
    let dimensions: usize = match field.vector_dimensions {
        Some(n) => n,
        None => 0,
    };
    let name = quoted(field.name.as_str());
    let items = match value.as_array() {
        Some(items) => items,
        None => {
            return Err(
                cat5(
                    "Field ",
                    name.as_str(),
                    " must be an array of numbers (vector of dimension ",
                    decimal_text(dimensions as u64).as_str(),
                    ").",
                ),
            );
        },
    };
    if items.len() != dimensions {
        return Err(
            cat7(
                "Field ",
                name.as_str(),
                " expects a vector of dimension ",
                decimal_text(dimensions as u64).as_str(),
                ", got ",
                decimal_text(items.len() as u64).as_str(),
                ".",
            ),
        );
    }
    match parse_finite_f32_array(items) {
        Ok(_) => Ok(()),
        Err(FiniteF32ArrayError::NonFinite) => Err(
            cat3("Field ", name.as_str(), " must contain only finite numeric values."),
        ),
        Err(FiniteF32ArrayError::NonNumeric) => Err(
            cat3("Field ", name.as_str(), " must contain only numeric values."),
        ),
    }
}

// ---------------------------------------------------------------------------
// Values
// ---------------------------------------------------------------------------

/// Whether a value is compatible with a field of a scalar type or a collection
/// of one.
pub open spec fn simple_fits(t: FieldTypeV, v: JsonV) -> bool {
    match t.inner() {
        Some(inner) => match v {
            JsonV::Array(items) => forall|i: int|
                0 <= i < items.len() ==> scalar_fits(inner, #[trigger] items[i]),
            _ => false,
        },
        None => scalar_fits(t, v),
    }
}

/// What a field of a type expects.
pub open spec fn type_hint(t: FieldTypeV) -> Seq<char> {
    let base = match t.inner() {
        Some(inner) => inner,
        None => t,
    };
    if t is GeographyPoint {
        " Expected a GeoJSON point object {\"type\": \"Point\", \"coordinates\": [lon, lat]} or a string."@
    } else if base is Int8 || base is Int16 {
        " Expected an integer in range."@
    } else if base is Time {
        " Expected a time-of-day string \"HH:MM:SS\" (fractional seconds allowed)."@
    } else if base is Duration {
        " Expected an ISO 8601 duration string (e.g. \"P1DT2H\")."@
    } else if base is Binary {
        " Expected a base64-encoded string."@
    } else {
        ""@
    }
}

pub open spec fn simple_problem(f: FieldV, v: JsonV) -> Option<Seq<char>> {
    if simple_fits(f.field_type, v) {
        None
    } else {
        Some(
            "Value for field "@ + debug_text(f.name) + " is not compatible with type "@
                + debug_text(f.field_type.name()) + "."@ + type_hint(f.field_type),
        )
    }
}

pub open spec fn field_names(fields: Seq<FieldV>) -> Seq<Seq<char>> {
    fields.map_values(|f: FieldV| f.name)
}

/// What is wrong with a value for a field.
pub open spec fn value_problem(f: FieldV, v: JsonV) -> Option<Seq<char>>
    decreases v, 3int,
{
    if f.field_type.complex() {
        if f.field_type.inner() is Some {
            list_problem(f, v)
        } else {
            object_problem(f, v)
        }
    } else if f.vector() {
        vector_value_problem(f, v)
    } else {
        simple_problem(f, v)
    }
}

/// What is wrong with a list of objects for a complex field.
pub open spec fn list_problem(f: FieldV, v: JsonV) -> Option<Seq<char>>
    decreases v, 2int,
{
    match v {
        JsonV::Array(items) => objects_problem(f, items, 0),
        _ => Some(
            "Value for field "@ + debug_text(f.name)
                + " must be a JSON array of objects with the subfields of the complex type."@,
        ),
    }
}

/// What is wrong with the first bad object from `i` on for a complex field.
pub open spec fn objects_problem(f: FieldV, items: Seq<JsonV>, i: int) -> Option<Seq<char>>
    decreases items, items.len() - i,
{
    if i < 0 || i >= items.len() {
        None
    } else {
        match object_problem(f, items[i]) {
            Some(e) => Some(e),
            None => objects_problem(f, items, i + 1),
        }
    }
}

/// What is wrong with an object for a complex field: its members must be known
/// subfields with compatible values; subfields may be missing.
pub open spec fn object_problem(f: FieldV, v: JsonV) -> Option<Seq<char>>
    decreases v, 1int,
{
    match v {
        JsonV::Object(m) => members_problem(f, m, 0),
        _ => Some(
            "Value for field "@ + debug_text(f.name)
                + " must be a JSON object with the subfields of the complex type."@,
        ),
    }
}

/// What is wrong with the first bad member from `i` on for a complex field.
pub open spec fn members_problem(f: FieldV, m: Seq<(Seq<char>, JsonV)>, i: int) -> Option<
    Seq<char>,
>
    decreases m, m.len() - i,
{
    if i < 0 || i >= m.len() {
        None
    } else {
        match field_named(f.subfields, m[i].0, 0) {
            None => Some(
                "Complex field "@ + debug_text(f.name) + " has no subfield "@ + debug_text(m[i].0)
                    + "; known subfields: "@ + joined(field_names(f.subfields), ", "@) + "."@,
            ),
            Some(sub) => match value_problem(sub, m[i].1) {
                Some(e) => Some(e),
                None => members_problem(f, m, i + 1),
            },
        }
    }
}

fn simple_ok(t: &FieldType, value: &Json) -> (r: bool)
    ensures
        r == simple_fits(t@, value@),
{
    match t.inner_type() {
        Some(inner) => {
            let items = match value.as_array() {
                Some(items) => items,
                None => {
                    return false;
                },
            };
            let ghost all = values(items@);
            let mut i: usize = 0;
            while i < items.len()
                invariant
                    all == values(items@),
                    value@ == JsonV::Array(all),
                    t@.inner() == Some(inner@),
                    i <= items@.len(),
                    forall|k: int| 0 <= k < i ==> scalar_fits(inner@, #[trigger] all[k]),
                decreases items@.len() - i,
            {
                assert(all[i as int] == items@[i as int]@);
                if !scalar_type_ok(&inner, &items[i]) {
                    assert(!scalar_fits(inner@, value@->Array_0[i as int]));
                    return false;
                }
                i += 1;
            }
            true
        },
        None => scalar_type_ok(t, value),
    }
}

fn hint_for(t: &FieldType) -> (r: &'static str)
    ensures
        r@ == type_hint(t@),
{
    if matches!(t, FieldType::GeographyPoint) {
        " Expected a GeoJSON point object {\"type\": \"Point\", \"coordinates\": [lon, lat]} or a string."
    } else if matches!(
        t,
        FieldType::Int8 | FieldType::Int16 | FieldType::CollectionInt8 | FieldType::CollectionInt16
    ) {
        " Expected an integer in range."
    } else if matches!(t, FieldType::Time) {
        " Expected a time-of-day string \"HH:MM:SS\" (fractional seconds allowed)."
    } else if matches!(t, FieldType::Duration) {
        " Expected an ISO 8601 duration string (e.g. \"P1DT2H\")."
    } else if matches!(t, FieldType::Binary | FieldType::CollectionBinary) {
        " Expected a base64-encoded string."
    } else {
        ""
    }
}

fn names_of(fields: &Vec<FieldDefinition>) -> (r: Vec<String>)
    ensures
        texts(r@) == field_names(field_views(fields@)),
{
    broadcast use lemma_texts_push;

    let ghost all = field_names(field_views(fields@));
    let mut out: Vec<String> = Vec::new();
    let mut i: usize = 0;
    assert(texts(out@) =~= all.take(0));
    while i < fields.len()
        invariant
            all == field_names(field_views(fields@)),
            i <= fields@.len(),
            texts(out@) == all.take(i as int),
        decreases fields@.len() - i,
    {
        let ghost before = texts(out@);
        let name = fields[i].name.clone();
        out.push(name);
        assert(texts(out@) == before.push(name@));
        assert(all[i as int] == name@);
        i += 1;
        assert(texts(out@) =~= all.take(i as int));
    }
    assert(all.take(all.len() as int) =~= all);
    out
}

/// Validates a complex-type value: a JSON object whose members are known
/// subfields with type-compatible values. Missing subfields are allowed.
pub fn check_complex_value(field: &FieldDefinition, value: &Json) -> (r: Result<(), String>)
    ensures
        problem(r) == object_problem(field@, value@),
    decreases value, 1int,
{
    broadcast use {group_json, group_fields};

    let obj = match value {
        Json::Object(obj) => obj,
        _ => {
            return Err(
                cat3(
                    "Value for field ",
                    quoted(field.name.as_str()).as_str(),
                    " must be a JSON object with the subfields of the complex type.",
                ),
            );
        },
    };
    let ghost m = obj@;
    assert(field@.subfields == field_views(field.subfields@));
    let mut i: usize = 0;
    while i < obj.entries.len()
        invariant
            value is Object,
            obj == value->Object_0,
            m == obj@,
            value@ == JsonV::Object(m),
            field@.subfields == field_views(field.subfields@),
            i <= obj.entries@.len(),
            object_problem(field@, value@) == members_problem(field@, m, i as int),
        decreases obj.entries@.len() - i,
    {
        assert(m[i as int] == (obj.entries@[i as int].0@, obj.entries@[i as int].1@));
        let name = obj.entries[i].0.as_str();
        match find_named(&field.subfields, name) {
            None => {
                return Err(
                    cat7(
                        "Complex field ",
                        quoted(field.name.as_str()).as_str(),
                        " has no subfield ",
                        quoted(name).as_str(),
                        "; known subfields: ",
                        join_texts(&names_of(&field.subfields), ", ").as_str(),
                        ".",
                    ),
                );
            },
            Some(sub) => {
                check_field_type(sub, &obj.entries[i].1)?;
            },
        }
        i += 1;
    }
    Ok(())
}

/// Validates a collection-of-complex value: a JSON array whose elements are
/// each a valid complex-type object (see [`check_complex_value`]).
pub fn check_complex_collection_value(field: &FieldDefinition, value: &Json) -> (r: Result<
    (),
    String,
>)
    ensures
        problem(r) == list_problem(field@, value@),
    decreases value, 2int,
{
    broadcast use group_json;

    let items = match value {
        Json::Array(items) => items,
        _ => {
            return Err(
                cat3(
                    "Value for field ",
                    quoted(field.name.as_str()).as_str(),
                    " must be a JSON array of objects with the subfields of the complex type.",
                ),
            );
        },
    };
    let ghost all = values(items@);
    let mut i: usize = 0;
    while i < items.len()
        invariant
            value is Array,
            items == value->Array_0,
            all == values(items@),
            i <= items@.len(),
            list_problem(field@, value@) == objects_problem(field@, all, i as int),
        decreases items@.len() - i,
    {
        assert(all[i as int] == items@[i as int]@);
        check_complex_value(field, &items[i])?;
        i += 1;
    }
    Ok(())
}

/// Validates a value for a field against the field's type.
pub fn check_field_type(field: &FieldDefinition, value: &Json) -> (r: Result<(), String>)
    ensures
        problem(r) == value_problem(field@, value@),
    decreases value, 3int,
{
    if field.is_complex_type() {
        if field.is_collection() {
            return check_complex_collection_value(field, value);
        }
        return check_complex_value(field, value);
    }
    if field.is_vector_field() {
        return check_vector_value(field, value);
    }
    if simple_ok(&field.field_type, value) {
        return Ok(());
    }
    Err(
        cat6(
            "Value for field ",
            quoted(field.name.as_str()).as_str(),
            " is not compatible with type ",
            quoted(field.field_type.name()).as_str(),
            ".",
            hint_for(&field.field_type),
        ),
    )
}

// ---------------------------------------------------------------------------
// Documents
// ---------------------------------------------------------------------------

/// What is wrong with the first bad member from `i` on of a document.
pub open spec fn document_members_problem(
    m: Seq<(Seq<char>, JsonV)>,
    i: int,
    fields: Seq<FieldV>,
) -> Option<Seq<char>>
    decreases m.len() - i,
{
    if i >= m.len() {
        None
    } else {
        match field_named(fields, m[i].0, 0) {
            None => Some("Document contains unknown field "@ + debug_text(m[i].0) + "."@),
            Some(f) => match value_problem(f, m[i].1) {
                Some(e) => Some(e),
                None => document_members_problem(m, i + 1, fields),
            },
        }
    }
}

/// The document that a JSON value is under an index schema, or what is wrong
/// with it: it needs the key field, and every member must be a known field with
/// a compatible value.
pub open spec fn document_of(d: IndexV, v: JsonV) -> Result<DocumentV, Seq<char>> {
    match v {
        JsonV::Object(m) => match key_of(d.fields, 0) {
            None => Err("Index has no key field."@),
            Some(key_field) => match member(m, key_field.name) {
                None => Err(
                    "Document is missing the key field "@ + debug_text(key_field.name) + "."@,
                ),
                Some(key_value) => match key_text(key_value) {
                    None => Err(
                        "Key field "@ + debug_text(key_field.name)
                            + " must be a string or number, got "@ + shown(key_value) + "."@,
                    ),
                    Some(key) => match document_members_problem(m, 0, d.fields) {
                        Some(e) => Err(e),
                        None => Ok(DocumentV { key, fields: m }),
                    },
                },
            },
        },
        _ => Err("Document must be a JSON object."@),
    }
}

pub open spec fn document_result(r: Result<Document, String>) -> Result<DocumentV, Seq<char>> {
    match r {
        Ok(d) => Ok(d@),
        Err(m) => Err(m@),
    }
}

/// Validates a document against an index schema, reading its key.
pub fn validate_document(definition: &IndexDefinition, document: &Json) -> (r: Result<
    Document,
    String,
>)
    ensures
        document_result(r) == document_of(definition@, document@),
{
    let obj = match document.as_object() {
        Some(obj) => obj,
        None => {
            return Err("Document must be a JSON object.".to_owned());
        },
    };
    let key_name = match definition.key_field() {
        Some(f) => f.name.as_str(),
        None => {
            return Err("Index has no key field.".to_owned());
        },
    };
    let key_value = match obj.get(key_name) {
        Some(v) => v,
        None => {
            return Err(
                cat3("Document is missing the key field ", quoted(key_name).as_str(), "."),
            );
        },
    };
    let key = match key_display(key_value) {
        Some(key) => key,
        None => {
            return Err(
                cat5(
                    "Key field ",
                    quoted(key_name).as_str(),
                    " must be a string or number, got ",
                    key_value.show().as_str(),
                    ".",
                ),
            );
        },
    };
    let ghost m = obj@;
    let ghost fields = definition@.fields;
    let mut i: usize = 0;
    while i < obj.entries.len()
        invariant
            m == obj@,
            fields == definition@.fields,
            i <= obj.entries@.len(),
            document_of(definition@, document@) == (match document_members_problem(
                m,
                i as int,
                fields,
            ) {
                Some(e) => Err(e),
                None => Ok(DocumentV { key: key@, fields: m }),
            }),
        decreases obj.entries@.len() - i,
    {
        assert(m[i as int] == (obj.entries@[i as int].0@, obj.entries@[i as int].1@));
        let name = obj.entries[i].0.as_str();
        match definition.field(name) {
            None => {
                return Err(
                    cat3("Document contains unknown field ", quoted(name).as_str(), "."),
                );
            },
            Some(f) => {
                check_field_type(f, &obj.entries[i].1)?;
            },
        }
        i += 1;
    }
    Ok(Document { key, fields: obj.duplicate() })
}

/// A valid document keeps the members it was written with, its key is the text
/// of its key field, and every member is a known field with a compatible value.
pub proof fn law_valid_document(d: IndexV, v: JsonV, i: int)
    requires
        document_of(d, v) is Ok,
        0 <= i < document_of(d, v)->Ok_0.fields.len(),
    ensures
        v == JsonV::Object(document_of(d, v)->Ok_0.fields),
        member(v->Object_0, key_name(d)) is Some,
        key_text(member(v->Object_0, key_name(d))->Some_0) == Some(document_of(d, v)->Ok_0.key),
        ({
            let e = v->Object_0[i];
            field_named(d.fields, e.0, 0) is Some && value_problem(
                field_named(d.fields, e.0, 0)->Some_0,
                e.1,
            ) is None
        }),
{
    lemma_members_checked(v->Object_0, 0, i, d.fields);
}

proof fn lemma_members_checked(
    m: Seq<(Seq<char>, JsonV)>,
    i: int,
    j: int,
    fields: Seq<FieldV>,
)
    requires
        document_members_problem(m, i, fields) is None,
        0 <= i <= j < m.len(),
    ensures
        field_named(fields, m[j].0, 0) is Some,
        value_problem(field_named(fields, m[j].0, 0)->Some_0, m[j].1) is None,
    decreases j - i,
{
    if i < j {
        lemma_members_checked(m, i + 1, j, fields);
    }
}

} // verus!
