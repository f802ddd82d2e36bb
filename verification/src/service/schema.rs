//! Validation of index schemas.
use crate::error::{ApiError, ApiErrorV, invalid_index_v, unit_result};
use crate::filter::validate::problem;
use crate::json::{Json, JsonV, group_json, json_text, member_array, member_or};
use crate::storage::definition::{
    FieldDefinition, FieldV, Suggester, SuggesterV, field_by_path, field_views, group_fields,
    suggester_views,
};
use crate::storage::field_type::{FieldType, FieldTypeV};
use crate::storage::index::{IndexDefinition, IndexV, key_of};
use crate::text::{
    cat3, cat4, cat5, cat6, cat7, debug_text, decimal, decimal_text, holds_text, quoted,
    same_text, texts,
};
use vstd::prelude::*;

verus! {

/// Whether a field that is no complex type may have the type.
pub open spec fn supported_type(t: FieldTypeV) -> bool {
    match t {
        FieldTypeV::String => true,
        FieldTypeV::Int32 => true,
        FieldTypeV::Int64 => true,
        FieldTypeV::Int8 => true,
        FieldTypeV::Int16 => true,
        FieldTypeV::Single => true,
        FieldTypeV::Double => true,
        FieldTypeV::Boolean => true,
        FieldTypeV::DateTimeOffset => true,
        FieldTypeV::Time => true,
        FieldTypeV::Duration => true,
        FieldTypeV::Binary => true,
        FieldTypeV::Guid => true,
        FieldTypeV::GeographyPoint => true,
        FieldTypeV::CollectionString => true,
        FieldTypeV::CollectionInt32 => true,
        FieldTypeV::CollectionInt64 => true,
        FieldTypeV::CollectionInt8 => true,
        FieldTypeV::CollectionInt16 => true,
        FieldTypeV::CollectionSingle => true,
        FieldTypeV::CollectionDouble => true,
        FieldTypeV::CollectionHalf => true,
        FieldTypeV::CollectionBoolean => true,
        FieldTypeV::CollectionDateTimeOffset => true,
        FieldTypeV::CollectionBinary => true,
        FieldTypeV::CollectionGuid => true,
        _ => false,
    }
}

pub open spec fn supported_names() -> Seq<char> {
    "Edm.String, Edm.Int32, Edm.Int64, Edm.Int8, Edm.Int16, Edm.Single, Edm.Double, Edm.Boolean, Edm.DateTimeOffset, Edm.Time, Edm.Duration, Edm.Binary, Edm.Guid, Edm.GeographyPoint, Edm.Collection(Edm.String), Edm.Collection(Edm.Int32), Edm.Collection(Edm.Int64), Edm.Collection(Edm.Int8), Edm.Collection(Edm.Int16), Edm.Collection(Edm.Single), Edm.Collection(Edm.Double), Edm.Collection(Edm.Half), Edm.Collection(Edm.Boolean), Edm.Collection(Edm.DateTimeOffset), Edm.Collection(Edm.Binary), Edm.Collection(Edm.Guid)"@
}

fn is_supported(t: &FieldType) -> (r: bool)
    ensures
        r == supported_type(t@),
{
    match t {
        FieldType::String => true,
        FieldType::Int32 => true,
        FieldType::Int64 => true,
        FieldType::Int8 => true,
        FieldType::Int16 => true,
        FieldType::Single => true,
        FieldType::Double => true,
        FieldType::Boolean => true,
        FieldType::DateTimeOffset => true,
        FieldType::Time => true,
        FieldType::Duration => true,
        FieldType::Binary => true,
        FieldType::Guid => true,
        FieldType::GeographyPoint => true,
        FieldType::CollectionString => true,
        FieldType::CollectionInt32 => true,
        FieldType::CollectionInt64 => true,
        FieldType::CollectionInt8 => true,
        FieldType::CollectionInt16 => true,
        FieldType::CollectionSingle => true,
        FieldType::CollectionDouble => true,
        FieldType::CollectionHalf => true,
        FieldType::CollectionBoolean => true,
        FieldType::CollectionDateTimeOffset => true,
        FieldType::CollectionBinary => true,
        FieldType::CollectionGuid => true,
        _ => false,
    }
}

fn supported_list() -> (r: &'static str)
    ensures
        r@ == supported_names(),
{
    "Edm.String, Edm.Int32, Edm.Int64, Edm.Int8, Edm.Int16, Edm.Single, Edm.Double, Edm.Boolean, Edm.DateTimeOffset, Edm.Time, Edm.Duration, Edm.Binary, Edm.Guid, Edm.GeographyPoint, Edm.Collection(Edm.String), Edm.Collection(Edm.Int32), Edm.Collection(Edm.Int64), Edm.Collection(Edm.Int8), Edm.Collection(Edm.Int16), Edm.Collection(Edm.Single), Edm.Collection(Edm.Double), Edm.Collection(Edm.Half), Edm.Collection(Edm.Boolean), Edm.Collection(Edm.DateTimeOffset), Edm.Collection(Edm.Binary), Edm.Collection(Edm.Guid)"
}

/// What the vector engine makes of an index's vector search configuration:
/// how many vector fields an index may have, and the names of the configured
/// profiles, or what is wrong with the configuration.
#[derive(Debug, PartialEq)]
pub struct VectorSupport {
    pub max_fields: usize,
    pub profiles: Result<Vec<String>, String>,
}

/// The mathematical value of a [`VectorSupport`].
pub struct VectorSupportV {
    pub max_fields: usize,
    pub profiles: Result<Seq<Seq<char>>, Seq<char>>,
}

impl View for VectorSupport {
    type V = VectorSupportV;

    open spec fn view(&self) -> VectorSupportV {
        VectorSupportV {
            max_fields: self.max_fields,
            profiles: match self.profiles {
                Ok(list) => Ok(texts(list@)),
                Err(m) => Err(m@),
            },
        }
    }
}

// ---------------------------------------------------------------------------
// Fields
// ---------------------------------------------------------------------------

/// The dimensions of a field as its definition writes them.
pub open spec fn written_dimensions(f: FieldV) -> Seq<char> {
    match f.raw {
        JsonV::Object(m) => match member_or(m, "dimensions"@, "vector_search_dimensions"@) {
            Some(v) => json_text(v),
            None => "missing"@,
        },
        _ => "missing"@,
    }
}

/// What is wrong with a field that declares itself a vector field.
pub open spec fn vector_field_problem(f: FieldV, max: nat) -> Option<Seq<char>> {
    if !f.has_dimensions() && f.vector_search_profile is None {
        None
    } else if !f.field_type.vector() {
        Some(
            "Unsupported vector field type "@ + debug_text(f.field_type.name()) + " for field "@
                + debug_text(f.name)
                + "; only 'Collection(Edm.Single)' and 'Collection(Edm.Half)' are supported."@,
        )
    } else if f.vector_dimensions is None || f.vector_dimensions->Some_0 > max {
        Some(
            "Vector field "@ + debug_text(f.name) + " has invalid dimensions "@
                + written_dimensions(f) + "; must be 1-"@ + decimal(max) + "."@,
        )
    } else if f.vector_search_profile is None || f.vector_search_profile->Some_0.len() == 0 {
        Some(
            "Vector field "@ + debug_text(f.name)
                + " is missing required \"vectorSearchProfile\"."@,
        )
    } else if !f.searchable {
        Some(
            "Vector field "@ + debug_text(f.name)
                + " must be searchable; set \"searchable\": true."@,
        )
    } else if f.is_key {
        Some("Vector field "@ + debug_text(f.name) + " cannot be the key."@)
    } else if f.filterable {
        Some("Vector field "@ + debug_text(f.name) + " cannot be filterable."@)
    } else if f.sortable {
        Some("Vector field "@ + debug_text(f.name) + " cannot be sortable."@)
    } else if f.facetable {
        Some("Vector field "@ + debug_text(f.name) + " cannot be facetable."@)
    } else {
        None
    }
}

pub fn validate_vector_field(field: &FieldDefinition, max_dimension: usize) -> (r: Result<
    (),
    String,
>)
    ensures
        problem(r) == vector_field_problem(field@, max_dimension as nat),
{
    broadcast use group_json;

    if !field.has_dimensions_property() && field.vector_search_profile.is_none() {
        return Ok(());
    }
    let name = quoted(field.name.as_str());
    if !field.field_type.is_vector_field_type() {
        return Err(
            cat5(
                "Unsupported vector field type ",
                quoted(field.field_type.name()).as_str(),
                " for field ",
                name.as_str(),
                "; only 'Collection(Edm.Single)' and 'Collection(Edm.Half)' are supported.",
            ),
        );
    }
    let fits = match field.vector_dimensions {
        Some(n) => n <= max_dimension,
        None => false,
    };
    if !fits {
        let written = match field.raw.as_object() {
            Some(m) => match m.get_or("dimensions", "vector_search_dimensions") {
                Some(v) => v.to_text(),
                None => "missing".to_owned(),
            },
            None => "missing".to_owned(),
        };
        return Err(
            cat7(
                "Vector field ",
                name.as_str(),
                " has invalid dimensions ",
                written.as_str(),
                "; must be 1-",
                decimal_text(max_dimension as u64).as_str(),
                ".",
            ),
        );
    }
    let has_profile = match &field.vector_search_profile {
        Some(p) => !p.as_str().is_empty(),
        None => false,
    };
    if !has_profile {
        return Err(
            cat3(
                "Vector field ",
                name.as_str(),
                " is missing required \"vectorSearchProfile\".",
            ),
        );
    }
    if !field.searchable {
        return Err(
            cat3(
                "Vector field ",
                name.as_str(),
                " must be searchable; set \"searchable\": true.",
            ),
        );
    }
    if field.is_key {
        return Err(cat3("Vector field ", name.as_str(), " cannot be the key."));
    }
    if field.filterable {
        return Err(cat3("Vector field ", name.as_str(), " cannot be filterable."));
    }
    if field.sortable {
        return Err(cat3("Vector field ", name.as_str(), " cannot be sortable."));
    }
    if field.facetable {
        return Err(cat3("Vector field ", name.as_str(), " cannot be facetable."));
    }
    Ok(())
}

/// Whether a field before place `i` has the name of that at place `i`.
pub open spec fn name_repeats(fields: Seq<FieldV>, i: int) -> bool {
    exists|j: int| 0 <= j < i && (#[trigger] fields[j]).name == fields[i].name
}

fn repeats_name(fields: &Vec<FieldDefinition>, i: usize) -> (r: bool)
    requires
        i < fields@.len(),
    ensures
        r == name_repeats(field_views(fields@), i as int),
{
    let ghost all = field_views(fields@);
    assert(all[i as int] == fields@[i as int]@);
    let mut j: usize = 0;
    while j < i
        invariant
            i < fields@.len(),
            j <= i,
            all == field_views(fields@),
            all[i as int] == fields@[i as int]@,
            forall|k: int| 0 <= k < j ==> (#[trigger] all[k]).name != all[i as int].name,
        decreases i - j,
    {
        assert(all[j as int] == fields@[j as int]@);
        if same_text(fields[j].name.as_str(), fields[i].name.as_str()) {
            return true;
        }
        j += 1;
    }
    false
}

/// What is wrong with the first bad subfield from `i` on of the complex field
/// at a path. Subfields are scalars or collections of scalars; none may be a key
/// or a vector field. What is wrong inside a complex subfield is told before that
/// its type is unsupported.
pub open spec fn subfields_problem(subfields: Seq<FieldV>, i: int, path: Seq<char>) -> Option<
    Seq<char>,
>
    decreases subfields, subfields.len() - i,
{
    if i < 0 || i >= subfields.len() {
        None
    } else {
        let f = subfields[i];
        let name = debug_text(f.name);
        let at = debug_text(path);
        if name_repeats(subfields, i) {
            Some("Duplicate subfield name "@ + name + " in complex type field "@ + at + "."@)
        } else if f.is_key {
            Some("Subfield "@ + name + " of complex type field "@ + at + " cannot be a key."@)
        } else if f.has_dimensions() || f.vector_search_profile is Some {
            Some(
                "Subfield "@ + name + " of complex type field "@ + at
                    + " cannot be a vector field."@,
            )
        } else if f.field_type.complex() && (f.searchable || f.sortable || f.facetable) {
            Some(
                "Subfield "@ + name + " of complex type field "@ + at
                    + " is a complex type and cannot be searchable, sortable, or facetable; set those attributes on its subfields instead."@,
            )
        } else if f.field_type.complex() && f.subfields.len() == 0 {
            Some(
                "Complex type subfield "@ + name + " of complex type field "@ + at
                    + " must define a non-empty \"fields\" array of subfields."@,
            )
        } else if f.field_type.complex() && subfields_problem(
            f.subfields,
            0,
            path + "/"@ + f.name,
        ) is Some {
            subfields_problem(f.subfields, 0, path + "/"@ + f.name)
        } else if !supported_type(f.field_type) {
            Some(
                "Unsupported subfield type "@ + debug_text(f.field_type.name()) + " for subfield "@
                    + name + " of complex type field "@ + at + ". Supported types: "@
                    + supported_names() + "."@,
            )
        } else if f.sortable && f.field_type.equality_only() {
            Some(
                "Subfield "@ + name + " of complex type field "@ + at + " has type "@ + debug_text(
                    f.field_type.name(),
                ) + ", which supports only eq/ne comparisons and cannot be sortable."@,
            )
        } else {
            subfields_problem(subfields, i + 1, path)
        }
    }
}

fn validate_subfields_at(subfields: &Vec<FieldDefinition>, path: &str) -> (r: Result<(), String>)
    ensures
        problem(r) == subfields_problem(field_views(subfields@), 0, path@),
    decreases subfields,
{
    broadcast use group_fields;

    let ghost all = field_views(subfields@);
    let at = quoted(path);
    let mut i: usize = 0;
    while i < subfields.len()
        invariant
            all == field_views(subfields@),
            at@ == debug_text(path@),
            i <= subfields@.len(),
            subfields_problem(all, 0, path@) == subfields_problem(all, i as int, path@),
        decreases subfields@.len() - i,
    {
        assert(all[i as int] == subfields@[i as int]@);
        let f = &subfields[i];
        let name = quoted(f.name.as_str());
        if repeats_name(subfields, i) {
            return Err(
                cat5(
                    "Duplicate subfield name ",
                    name.as_str(),
                    " in complex type field ",
                    at.as_str(),
                    ".",
                ),
            );
        }
        if f.is_key {
            return Err(
                cat5(
                    "Subfield ",
                    name.as_str(),
                    " of complex type field ",
                    at.as_str(),
                    " cannot be a key.",
                ),
            );
        }
        if f.has_dimensions_property() || f.vector_search_profile.is_some() {
            return Err(
                cat5(
                    "Subfield ",
                    name.as_str(),
                    " of complex type field ",
                    at.as_str(),
                    " cannot be a vector field.",
                ),
            );
        }
        if f.is_complex_type() {
            if f.searchable || f.sortable || f.facetable {
                return Err(
                    cat5(
                        "Subfield ",
                        name.as_str(),
                        " of complex type field ",
                        at.as_str(),
                        " is a complex type and cannot be searchable, sortable, or facetable; set those attributes on its subfields instead.",
                    ),
                );
            }
            if f.subfields.len() == 0 {
                return Err(
                    cat5(
                        "Complex type subfield ",
                        name.as_str(),
                        " of complex type field ",
                        at.as_str(),
                        " must define a non-empty \"fields\" array of subfields.",
                    ),
                );
            }
            let nested = cat3(path, "/", f.name.as_str());
            assert(f@.subfields == field_views(f.subfields@));
            validate_subfields_at(&f.subfields, nested.as_str())?;
        }
        if !is_supported(&f.field_type) {
            let start = cat6(
                "Unsupported subfield type ",
                quoted(f.field_type.name()).as_str(),
                " for subfield ",
                name.as_str(),
                " of complex type field ",
                at.as_str(),
            );
            return Err(
                cat4(start.as_str(), ". Supported types: ", supported_list(), "."),
            );
        }
        if f.sortable && f.field_type.is_equality_only() {
            return Err(
                cat7(
                    "Subfield ",
                    name.as_str(),
                    " of complex type field ",
                    at.as_str(),
                    " has type ",
                    quoted(f.field_type.name()).as_str(),
                    ", which supports only eq/ne comparisons and cannot be sortable.",
                ),
            );
        }
        i += 1;
    }
    Ok(())
}

/// What is wrong with a top-level field, apart from its name and its vector
/// attributes.
pub open spec fn shape_problem(f: FieldV) -> Option<Seq<char>> {
    let name = debug_text(f.name);
    if f.is_key && f.field_type.complex() {
        Some("Field "@ + name + " cannot be the key: complex type fields cannot be keys."@)
    } else if f.field_type.complex() && (f.searchable || f.sortable || f.facetable) {
        Some(
            "Field "@ + name
                + " is a complex type and cannot be searchable, sortable, or facetable; set those attributes on its subfields instead."@,
        )
    } else if f.field_type.complex() && f.subfields.len() == 0 {
        Some(
            "Complex type field "@ + name
                + " must define a non-empty \"fields\" array of subfields."@,
        )
    } else if f.field_type.complex() && subfields_problem(f.subfields, 0, f.name) is Some {
        subfields_problem(f.subfields, 0, f.name)
    } else if !f.field_type.complex() && !supported_type(f.field_type) {
        Some(
            "Unsupported field type "@ + debug_text(f.field_type.name()) + " for field "@ + name
                + ". Supported types: "@ + supported_names() + ", Edm.ComplexType."@,
        )
    } else if f.sortable && f.field_type.equality_only() {
        Some(
            "Field "@ + name + " has type "@ + debug_text(f.field_type.name())
                + ", which supports only eq/ne comparisons and cannot be sortable."@,
        )
    } else {
        None
    }
}

fn validate_shape(f: &FieldDefinition) -> (r: Result<(), String>)
    ensures
        problem(r) == shape_problem(f@),
{
    broadcast use group_fields;

    let name = quoted(f.name.as_str());
    let complex = f.is_complex_type();
    if f.is_key && complex {
        return Err(
            cat3(
                "Field ",
                name.as_str(),
                " cannot be the key: complex type fields cannot be keys.",
            ),
        );
    }
    if complex {
        if f.searchable || f.sortable || f.facetable {
            return Err(
                cat3(
                    "Field ",
                    name.as_str(),
                    " is a complex type and cannot be searchable, sortable, or facetable; set those attributes on its subfields instead.",
                ),
            );
        }
        assert(f@.subfields == field_views(f.subfields@));
        if f.subfields.len() == 0 {
            return Err(
                cat3(
                    "Complex type field ",
                    name.as_str(),
                    " must define a non-empty \"fields\" array of subfields.",
                ),
            );
        }
        validate_subfields_at(&f.subfields, f.name.as_str())?;
    } else if !is_supported(&f.field_type) {
        return Err(
            cat7(
                "Unsupported field type ",
                quoted(f.field_type.name()).as_str(),
                " for field ",
                name.as_str(),
                ". Supported types: ",
                supported_list(),
                ", Edm.ComplexType.",
            ),
        );
    }
    if f.sortable && f.field_type.is_equality_only() {
        return Err(
            cat5(
                "Field ",
                name.as_str(),
                " has type ",
                quoted(f.field_type.name()).as_str(),
                ", which supports only eq/ne comparisons and cannot be sortable.",
            ),
        );
    }
    Ok(())
}

/// What is wrong with the first bad field from `i` on.
pub open spec fn fields_problem(fields: Seq<FieldV>, i: int, max: nat) -> Option<Seq<char>>
    decreases fields.len() - i,
{
    if i >= fields.len() {
        None
    } else {
        let f = fields[i];
        if vector_field_problem(f, max) is Some {
            vector_field_problem(f, max)
        } else if name_repeats(fields, i) {
            Some("Duplicate field name "@ + debug_text(f.name) + " in index schema."@)
        } else if shape_problem(f) is Some {
            shape_problem(f)
        } else {
            fields_problem(fields, i + 1, max)
        }
    }
}

/// How many of the first `n` fields are keys.
pub open spec fn key_count(fields: Seq<FieldV>, n: int) -> nat
    decreases n,
{
    if n <= 0 {
        0
    } else {
        key_count(fields, n - 1) + (if fields[n - 1].is_key {
            1nat
        } else {
            0
        })
    }
}

// ---------------------------------------------------------------------------
// Suggesters and vector search
// ---------------------------------------------------------------------------

/// What is wrong with the first bad search field from `i` on of a suggester.
pub open spec fn suggester_fields_problem(
    names: Seq<Seq<char>>,
    i: int,
    suggester: Seq<char>,
    fields: Seq<FieldV>,
) -> Option<Seq<char>>
    decreases names.len() - i,
{
    if i >= names.len() {
        None
    } else {
        match field_by_path(fields, names[i]) {
            None => Some(
                "Suggester "@ + debug_text(suggester) + " references unknown field "@ + debug_text(
                    names[i],
                ) + "."@,
            ),
            Some(f) => if !f.searchable {
                Some(
                    "Suggester "@ + debug_text(suggester) + " references field "@ + debug_text(
                        names[i],
                    )
                        + ", which is not searchable; mark it \"searchable\": true in the index schema."@,
                )
            } else {
                suggester_fields_problem(names, i + 1, suggester, fields)
            },
        }
    }
}

pub open spec fn suggester_repeats(list: Seq<SuggesterV>, i: int) -> bool {
    exists|j: int| 0 <= j < i && (#[trigger] list[j]).name == list[i].name
}

/// What is wrong with the first bad suggester from `i` on.
pub open spec fn suggesters_problem(list: Seq<SuggesterV>, i: int, fields: Seq<FieldV>) -> Option<
    Seq<char>,
>
    decreases list.len() - i,
{
    if i >= list.len() {
        None
    } else {
        let s = list[i];
        if suggester_repeats(list, i) {
            Some("Duplicate suggester name "@ + debug_text(s.name) + " in index schema."@)
        } else if s.search_fields.len() == 0 {
            Some(
                "Suggester "@ + debug_text(s.name)
                    + " must define a non-empty \"searchFields\" array."@,
            )
        } else if suggester_fields_problem(s.search_fields, 0, s.name, fields) is Some {
            suggester_fields_problem(s.search_fields, 0, s.name, fields)
        } else {
            suggesters_problem(list, i + 1, fields)
        }
    }
}

fn repeats_suggester(list: &Vec<Suggester>, i: usize) -> (r: bool)
    requires
        i < list@.len(),
    ensures
        r == suggester_repeats(suggester_views(list@), i as int),
{
    let ghost all = suggester_views(list@);
    assert(all[i as int] == list@[i as int]@);
    let mut j: usize = 0;
    while j < i
        invariant
            i < list@.len(),
            j <= i,
            all == suggester_views(list@),
            all[i as int] == list@[i as int]@,
            forall|k: int| 0 <= k < j ==> (#[trigger] all[k]).name != all[i as int].name,
        decreases i - j,
    {
        assert(all[j as int] == list@[j as int]@);
        if same_text(list[j].name.as_str(), list[i].name.as_str()) {
            return true;
        }
        j += 1;
    }
    false
}

fn validate_suggester_fields(s: &Suggester, definition: &IndexDefinition) -> (r: Result<
    (),
    String,
>)
    ensures
        problem(r) == suggester_fields_problem(
            s@.search_fields,
            0,
            s@.name,
            definition@.fields,
        ),
{
    let ghost names = texts(s.search_fields@);
    let mut i: usize = 0;
    while i < s.search_fields.len()
        invariant
            names == texts(s.search_fields@),
            i <= s.search_fields@.len(),
            suggester_fields_problem(names, 0, s@.name, definition@.fields)
                == suggester_fields_problem(names, i as int, s@.name, definition@.fields),
        decreases s.search_fields@.len() - i,
    {
        assert(names[i as int] == s.search_fields@[i as int]@);
        let path = s.search_fields[i].as_str();
        match definition.field_path(path) {
            None => {
                return Err(
                    cat5(
                        "Suggester ",
                        quoted(s.name.as_str()).as_str(),
                        " references unknown field ",
                        quoted(path).as_str(),
                        ".",
                    ),
                );
            },
            Some(f) => {
                if !f.searchable {
                    return Err(
                        cat5(
                            "Suggester ",
                            quoted(s.name.as_str()).as_str(),
                            " references field ",
                            quoted(path).as_str(),
                            ", which is not searchable; mark it \"searchable\": true in the index schema.",
                        ),
                    );
                }
            },
        }
        i += 1;
    }
    Ok(())
}

pub fn validate_suggesters(definition: &IndexDefinition) -> (r: Result<(), String>)
    ensures
        problem(r) == suggesters_problem(definition@.suggesters, 0, definition@.fields),
{
    let ghost all = suggester_views(definition.suggesters@);
    let ghost fields = definition@.fields;
    let mut i: usize = 0;
    while i < definition.suggesters.len()
        invariant
            all == suggester_views(definition.suggesters@),
            fields == definition@.fields,
            i <= definition.suggesters@.len(),
            suggesters_problem(all, 0, fields) == suggesters_problem(all, i as int, fields),
        decreases definition.suggesters@.len() - i,
    {
        assert(all[i as int] == definition.suggesters@[i as int]@);
        let s = &definition.suggesters[i];
        if repeats_suggester(&definition.suggesters, i) {
            return Err(
                cat3(
                    "Duplicate suggester name ",
                    quoted(s.name.as_str()).as_str(),
                    " in index schema.",
                ),
            );
        }
        if s.search_fields.len() == 0 {
            return Err(
                cat3(
                    "Suggester ",
                    quoted(s.name.as_str()).as_str(),
                    " must define a non-empty \"searchFields\" array.",
                ),
            );
        }
        validate_suggester_fields(s, definition)?;
        i += 1;
    }
    Ok(())
}

/// How many of the first `n` fields are vector fields.
pub open spec fn vector_count(fields: Seq<FieldV>, n: int) -> nat
    decreases n,
{
    if n <= 0 {
        0
    } else {
        vector_count(fields, n - 1) + (if fields[n - 1].vector() {
            1nat
        } else {
            0
        })
    }
}

/// Whether a vector search configuration lists a profile.
pub open spec fn lists_profiles(v: Option<JsonV>) -> bool {
    match v {
        Some(JsonV::Object(m)) => match member_or(m, "profiles"@, "profile"@) {
            Some(JsonV::Array(items)) => items.len() > 0,
            _ => false,
        },
        _ => false,
    }
}

/// What is wrong with the first vector field from `i` on whose profile is not
/// configured.
pub open spec fn profiles_problem(
    fields: Seq<FieldV>,
    i: int,
    profiles: Seq<Seq<char>>,
) -> Option<Seq<char>>
    decreases fields.len() - i,
{
    if i >= fields.len() {
        None
    } else if !fields[i].vector() {
        profiles_problem(fields, i + 1, profiles)
    } else {
        let profile = match fields[i].vector_search_profile {
            Some(p) => p,
            None => seq![],
        };
        if profiles.contains(profile) {
            profiles_problem(fields, i + 1, profiles)
        } else {
            Some(
                "Vector field "@ + debug_text(fields[i].name)
                    + " references unknown vector search profile "@ + debug_text(profile) + "."@,
            )
        }
    }
}

/// What is wrong with the vector search configuration of an index.
pub open spec fn vector_search_problem(d: IndexV, support: VectorSupportV) -> Option<Seq<char>> {
    let n = vector_count(d.fields, d.fields.len() as int);
    if n > support.max_fields {
        Some(
            "Index "@ + debug_text(d.name) + " has "@ + decimal(n) + " vector fields; at most "@
                + decimal(support.max_fields as nat) + " are supported."@,
        )
    } else if n == 0 {
        None
    } else if !lists_profiles(d.vector_search) {
        Some(
            "Index "@ + debug_text(d.name)
                + " has vector fields but no vectorSearch configuration."@,
        )
    } else {
        match support.profiles {
            Err(e) => Some(e),
            Ok(profiles) => profiles_problem(d.fields, 0, profiles),
        }
    }
}

fn count_vectors(fields: &Vec<FieldDefinition>) -> (r: usize)
    ensures
        r == vector_count(field_views(fields@), fields@.len() as int),
{
    let ghost all = field_views(fields@);
    let mut n: usize = 0;
    let mut i: usize = 0;
    while i < fields.len()
        invariant
            all == field_views(fields@),
            i <= fields@.len(),
            n <= i,
            n == vector_count(all, i as int),
        decreases fields@.len() - i,
    {
        assert(all[i as int] == fields@[i as int]@);
        if fields[i].is_vector_field() {
            n += 1;
        }
        i += 1;
    }
    n
}

pub fn validate_vector_search_config(
    definition: &IndexDefinition,
    support: &VectorSupport,
) -> (r: Result<(), String>)
    ensures
        problem(r) == vector_search_problem(definition@, support@),
{
    broadcast use group_json;

    let n = count_vectors(&definition.fields);
    let name = quoted(definition.name.as_str());
    if n > support.max_fields {
        return Err(
            cat7(
                "Index ",
                name.as_str(),
                " has ",
                decimal_text(n as u64).as_str(),
                " vector fields; at most ",
                decimal_text(support.max_fields as u64).as_str(),
                " are supported.",
            ),
        );
    }
    if n == 0 {
        return Ok(());
    }
    let has_profiles = match &definition.vector_search {
        Some(Json::Object(m)) => match member_array(m.get_or("profiles", "profile")) {
            Some(items) => items.len() > 0,
            None => false,
        },
        _ => false,
    };
    if !has_profiles {
        return Err(
            cat3(
                "Index ",
                name.as_str(),
                " has vector fields but no vectorSearch configuration.",
            ),
        );
    }
    let profiles = match &support.profiles {
        Ok(profiles) => profiles,
        Err(message) => {
            return Err(message.clone());
        },
    };
    let ghost all = field_views(definition.fields@);
    let ghost names = texts(profiles@);
    let mut i: usize = 0;
    while i < definition.fields.len()
        invariant
            all == field_views(definition.fields@),
            names == texts(profiles@),
            i <= definition.fields@.len(),
            vector_search_problem(definition@, support@) == profiles_problem(
                all,
                i as int,
                names,
            ),
        decreases definition.fields@.len() - i,
    {
        assert(all[i as int] == definition.fields@[i as int]@);
        let f = &definition.fields[i];
        if f.is_vector_field() {
            let profile = match &f.vector_search_profile {
                Some(p) => p.clone(),
                None => {
                    let p = String::new();
                    assert(p@ =~= seq![]);
                    p
                },
            };
            if !holds_text(profiles, profile.as_str()) {
                return Err(
                    cat5(
                        "Vector field ",
                        quoted(f.name.as_str()).as_str(),
                        " references unknown vector search profile ",
                        quoted(profile.as_str()).as_str(),
                        ".",
                    ),
                );
            }
        }
        i += 1;
    }
    Ok(())
}

// ---------------------------------------------------------------------------
// Schemas
// ---------------------------------------------------------------------------

/// What is wrong with an index schema: its fields, its one key, its
/// suggesters, or its vector search configuration.
pub open spec fn schema_problem(d: IndexV, max_dimension: nat, support: VectorSupportV) -> Option<
    Seq<char>,
> {
    let keys = key_count(d.fields, d.fields.len() as int);
    if fields_problem(d.fields, 0, max_dimension) is Some {
        fields_problem(d.fields, 0, max_dimension)
    } else if keys != 1 {
        Some(
            "Index schema must define exactly one key field; found "@ + decimal(keys) + "."@,
        )
    } else if suggesters_problem(d.suggesters, 0, d.fields) is Some {
        suggesters_problem(d.suggesters, 0, d.fields)
    } else {
        vector_search_problem(d, support)
    }
}

pub open spec fn index_check(p: Option<Seq<char>>) -> Result<(), ApiErrorV> {
    match p {
        Some(m) => Err(invalid_index_v(m)),
        None => Ok(()),
    }
}

fn schema_check(
    definition: &IndexDefinition,
    max_vector_dimension: usize,
    support: &VectorSupport,
) -> (r: Result<(), String>)
    ensures
        problem(r) == schema_problem(definition@, max_vector_dimension as nat, support@),
{
    let ghost all = field_views(definition.fields@);
    let ghost max = max_vector_dimension as nat;
    let mut keys: usize = 0;
    let mut i: usize = 0;
    while i < definition.fields.len()
        invariant
            all == field_views(definition.fields@),
            max == max_vector_dimension as nat,
            i <= definition.fields@.len(),
            keys <= i,
            keys == key_count(all, i as int),
            fields_problem(all, 0, max) == fields_problem(all, i as int, max),
        decreases definition.fields@.len() - i,
    {
        assert(all[i as int] == definition.fields@[i as int]@);
        let f = &definition.fields[i];
        validate_vector_field(f, max_vector_dimension)?;
        if repeats_name(&definition.fields, i) {
            return Err(
                cat3(
                    "Duplicate field name ",
                    quoted(f.name.as_str()).as_str(),
                    " in index schema.",
                ),
            );
        }
        validate_shape(f)?;
        if f.is_key {
            keys += 1;
        }
        i += 1;
    }
    if keys != 1 {
        return Err(
            cat3(
                "Index schema must define exactly one key field; found ",
                decimal_text(keys as u64).as_str(),
                ".",
            ),
        );
    }
    validate_suggesters(definition)?;
    validate_vector_search_config(definition, support)
}

/// Validates an index schema: every field, the one key, the suggesters, and
/// the vector search configuration.
pub fn validate_schema(
    definition: &IndexDefinition,
    max_vector_dimension: usize,
    support: &VectorSupport,
) -> (r: Result<(), ApiError>)
    ensures
        unit_result(r) == index_check(
            schema_problem(definition@, max_vector_dimension as nat, support@),
        ),
{
    match schema_check(definition, max_vector_dimension, support) {
        Ok(()) => Ok(()),
        Err(message) => Err(ApiError::invalid_index(message.as_str())),
    }
}

// ---------------------------------------------------------------------------
// Laws
// ---------------------------------------------------------------------------

proof fn lemma_fields_checked(fields: Seq<FieldV>, i: int, j: int, max: nat)
    requires
        fields_problem(fields, i, max) is None,
        0 <= i <= j < fields.len(),
    ensures
        vector_field_problem(fields[j], max) is None,
        !name_repeats(fields, j),
        shape_problem(fields[j]) is None,
    decreases j - i,
{
    if i < j {
        lemma_fields_checked(fields, i + 1, j, max);
    }
}

/// The subfields of a complex field that is accepted are scalars or collections of
/// scalars, none of them is a key, and their names differ.
pub proof fn law_subfields_are_plain(subfields: Seq<FieldV>, i: int, path: Seq<char>, k: int)
    requires
        subfields_problem(subfields, i, path) is None,
        0 <= i <= k < subfields.len(),
    ensures
        supported_type(subfields[k].field_type),
        !subfields[k].is_key,
        !name_repeats(subfields, k),
    decreases subfields.len() - i,
{
    if i < k {
        law_subfields_are_plain(subfields, i + 1, path, k);
    }
}

/// The fields of a valid schema have different names.
pub proof fn law_field_names_differ(
    d: IndexV,
    max_dimension: nat,
    support: VectorSupportV,
    i: int,
    j: int,
)
    requires
        schema_problem(d, max_dimension, support) is None,
        0 <= i < j < d.fields.len(),
    ensures
        d.fields[i].name != d.fields[j].name,
{
    lemma_fields_checked(d.fields, 0, j, max_dimension);
    if d.fields[i].name == d.fields[j].name {
        assert(name_repeats(d.fields, j));
    }
}

proof fn lemma_key_count(fields: Seq<FieldV>, n: int)
    requires
        0 <= n <= fields.len(),
    ensures
        key_count(fields, n) == 0 ==> forall|k: int| 0 <= k < n ==> !(#[trigger] fields[k]).is_key,
    decreases n,
{
    if n > 0 {
        lemma_key_count(fields, n - 1);
    }
}

proof fn lemma_one_key(fields: Seq<FieldV>, n: int, a: int, b: int)
    requires
        0 <= a < b < n <= fields.len(),
        fields[a].is_key,
        fields[b].is_key,
    ensures
        key_count(fields, n) >= 2,
    decreases n,
{
    if b < n - 1 {
        lemma_one_key(fields, n - 1, a, b);
    } else {
        lemma_key_count(fields, n - 1);
    }
}

proof fn lemma_key_of(fields: Seq<FieldV>, i: int)
    requires
        0 <= i <= fields.len(),
    ensures
        key_of(fields, i) is None ==> forall|k: int|
            i <= k < fields.len() ==> !(#[trigger] fields[k]).is_key,
        key_of(fields, i) is Some ==> exists|k: int|
            i <= k < fields.len() && #[trigger] fields[k] == key_of(fields, i)->Some_0
                && fields[k].is_key,
    decreases fields.len() - i,
{
    if i < fields.len() {
        lemma_key_of(fields, i + 1);
    }
}

proof fn lemma_no_keys(fields: Seq<FieldV>, n: int)
    requires
        0 <= n <= fields.len(),
        forall|k: int| 0 <= k < n ==> !(#[trigger] fields[k]).is_key,
    ensures
        key_count(fields, n) == 0,
    decreases n,
{
    if n > 0 {
        lemma_no_keys(fields, n - 1);
    }
}

/// A valid schema has a key field, which is the only one and neither complex
/// nor a vector field.
pub proof fn law_valid_schema_has_one_key(d: IndexV, max_dimension: nat, support: VectorSupportV)
    requires
        schema_problem(d, max_dimension, support) is None,
    ensures
        key_of(d.fields, 0) is Some,
        !key_of(d.fields, 0)->Some_0.field_type.complex(),
        forall|a: int, b: int|
            0 <= a < d.fields.len() && 0 <= b < d.fields.len() && (#[trigger] d.fields[a]).is_key
                && (#[trigger] d.fields[b]).is_key ==> a == b,
{
    let n = d.fields.len() as int;
    lemma_key_of(d.fields, 0);
    if key_of(d.fields, 0) is None {
        lemma_no_keys(d.fields, n);
    } else {
        let k = choose|k: int|
            0 <= k < d.fields.len() && #[trigger] d.fields[k] == key_of(d.fields, 0)->Some_0
                && d.fields[k].is_key;
        lemma_fields_checked(d.fields, 0, k, max_dimension);
    }
    assert forall|a: int, b: int|
        0 <= a < d.fields.len() && 0 <= b < d.fields.len() && (#[trigger] d.fields[a]).is_key
            && (#[trigger] d.fields[b]).is_key implies a == b by {
        if a < b {
            lemma_one_key(d.fields, n, a, b);
        } else if b < a {
            lemma_one_key(d.fields, n, b, a);
        }
    }
}

} // verus!
