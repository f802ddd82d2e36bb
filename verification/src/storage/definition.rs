//! Index schemas: fields, suggesters, and index definitions.
use crate::json::{
    Json, JsonMap, JsonV, array_of, bool_of, group_json, member, member_array, member_bool,
    member_or, nonempty_str, nonempty_str_of, opt_value, u64_of, values,
};
use crate::storage::field_type::{
    FieldType, FieldTypeV, normalize_field_type, normalized_type, type_named,
};
use crate::text::{
    cat3, clone_opt_text, clone_texts, debug_text, lemma_texts_push, opt_text, pieces, quoted,
    same_text, split_on, texts,
};
use vstd::prelude::*;

verus! {

// ---------------------------------------------------------------------------
// Fields
// ---------------------------------------------------------------------------

/// A single field definition from an index schema.
#[derive(Debug, PartialEq)]
pub struct FieldDefinition {
    pub name: String,
    pub field_type: FieldType,
    pub is_key: bool,
    pub searchable: bool,
    pub filterable: bool,
    pub sortable: bool,
    pub facetable: bool,
    pub retrievable: bool,
    /// Whether the field value is persisted (available when a document is read and
    /// in search results). `retrievable` controls search-result visibility; `stored`
    /// controls persistence. Both default to `true`.
    pub stored: bool,
    /// Declared vector dimensions: `Some` only when the property is present and
    /// a positive integer.
    pub vector_dimensions: Option<usize>,
    /// The vector search profile name.
    pub vector_search_profile: Option<String>,
    /// Subfields of a complex field; empty for all other types.
    pub subfields: Vec<FieldDefinition>,
    /// The field's declared analyzer name; `None` means the index default.
    pub analyzer: Option<String>,
    /// Synonym maps associated with this field.
    pub synonym_maps: Vec<String>,
    /// The raw JSON field definition, preserved for echo in responses.
    pub raw: Json,
}

/// The mathematical value of a [`FieldDefinition`].
pub struct FieldV {
    pub name: Seq<char>,
    pub field_type: FieldTypeV,
    pub is_key: bool,
    pub searchable: bool,
    pub filterable: bool,
    pub sortable: bool,
    pub facetable: bool,
    pub retrievable: bool,
    pub stored: bool,
    pub vector_dimensions: Option<usize>,
    pub vector_search_profile: Option<Seq<char>>,
    pub subfields: Seq<FieldV>,
    pub analyzer: Option<Seq<char>>,
    pub synonym_maps: Seq<Seq<char>>,
    pub raw: JsonV,
}

/// The value that a [`FieldDefinition`] holds.
pub open spec fn field_view(f: FieldDefinition) -> FieldV
    decreases f,
{
    FieldV {
        name: f.name@,
        field_type: f.field_type@,
        is_key: f.is_key,
        searchable: f.searchable,
        filterable: f.filterable,
        sortable: f.sortable,
        facetable: f.facetable,
        retrievable: f.retrievable,
        stored: f.stored,
        vector_dimensions: f.vector_dimensions,
        vector_search_profile: opt_text(f.vector_search_profile),
        subfields: Seq::new(
            f.subfields@.len(),
            |i: int|
                if 0 <= i < f.subfields@.len() {
                    field_view(f.subfields@[i])
                } else {
                    arbitrary()
                },
        ),
        analyzer: opt_text(f.analyzer),
        synonym_maps: texts(f.synonym_maps@),
        raw: f.raw@,
    }
}

impl View for FieldDefinition {
    type V = FieldV;

    open spec fn view(&self) -> FieldV {
        field_view(*self)
    }
}

pub open spec fn field_views(v: Seq<FieldDefinition>) -> Seq<FieldV> {
    v.map_values(|f: FieldDefinition| f@)
}

pub broadcast proof fn lemma_field_views_push(v: Seq<FieldDefinition>, f: FieldDefinition)
    ensures
        #[trigger] field_views(v.push(f)) == field_views(v).push(f@),
{
    assert(field_views(v.push(f)) =~= field_views(v).push(f@));
}

pub broadcast proof fn lemma_subfields_view(f: FieldDefinition)
    ensures
        (#[trigger] f@).subfields == field_views(f.subfields@),
{
    let v = f.subfields@;
    assert forall|i: int| 0 <= i < v.len() implies f@.subfields[i] == #[trigger] field_views(
        v,
    )[i] by {
        assert(field_views(v)[i] == v[i]@);
    }
    assert(f@.subfields =~= field_views(v));
}

pub broadcast group group_fields {
    lemma_field_views_push,
    lemma_subfields_view,
}

pub open spec fn opt_field(o: Option<&FieldDefinition>) -> Option<FieldV> {
    match o {
        Some(f) => Some(f@),
        None => None,
    }
}

impl FieldV {
    /// Whether the field is a vector field: `Collection(Edm.Single)` or
    /// `Collection(Edm.Half)` with declared dimensions.
    pub open spec fn vector(self) -> bool {
        self.field_type.vector() && self.vector_dimensions is Some
    }

    pub open spec fn has_dimensions(self) -> bool {
        match self.raw {
            JsonV::Object(m) => member(m, "dimensions"@) is Some || member(
                m,
                "vector_search_dimensions"@,
            ) is Some,
            _ => false,
        }
    }
}

/// The place of the first member with a key, or the number of members.
pub open spec fn key_place(m: Seq<(Seq<char>, JsonV)>, key: Seq<char>) -> int
    decreases m.len(),
{
    if m.len() == 0 {
        0
    } else if m[0].0 == key {
        0
    } else {
        1 + key_place(m.drop_first(), key)
    }
}

pub proof fn lemma_key_place(m: Seq<(Seq<char>, JsonV)>, key: Seq<char>)
    ensures
        0 <= key_place(m, key) <= m.len(),
        member(m, key) == (if key_place(m, key) < m.len() {
            Some(m[key_place(m, key)].1)
        } else {
            None
        }),
    decreases m.len(),
{
    if m.len() > 0 && m[0].0 != key {
        lemma_key_place(m.drop_first(), key);
    }
}

pub open spec fn flag(m: Seq<(Seq<char>, JsonV)>, key: Seq<char>, default: bool) -> bool {
    match bool_of(member(m, key)) {
        Some(b) => b,
        None => default,
    }
}

/// A positive integer, where it fits.
pub open spec fn positive_of(v: Option<JsonV>) -> Option<usize> {
    match v {
        Some(v) => match u64_of(v) {
            Some(n) => if 0 < n <= usize::MAX {
                Some(n as usize)
            } else {
                None
            },
            None => None,
        },
        None => None,
    }
}

/// The strings among the values that are not empty.
pub open spec fn nonempty_strings(v: Seq<JsonV>) -> Seq<Seq<char>>
    decreases v.len(),
{
    if v.len() == 0 {
        seq![]
    } else {
        let rest = nonempty_strings(v.drop_last());
        match nonempty_str_of(Some(v.last())) {
            Some(s) => rest.push(s),
            None => rest,
        }
    }
}

pub open spec fn strings_member(v: Option<JsonV>) -> Seq<Seq<char>> {
    match array_of(v) {
        Some(items) => nonempty_strings(items),
        None => seq![],
    }
}

/// The field with a name, a type, and subfields, that an object defines.
pub open spec fn field_with(
    m: Seq<(Seq<char>, JsonV)>,
    name: Seq<char>,
    spelling: Seq<char>,
    subfields: Seq<FieldV>,
) -> FieldV {
    FieldV {
        name,
        field_type: type_named(normalized_type(spelling)),
        is_key: flag(m, "key"@, false),
        searchable: flag(m, "searchable"@, false),
        filterable: flag(m, "filterable"@, false),
        sortable: flag(m, "sortable"@, false),
        facetable: flag(m, "facetable"@, false),
        retrievable: flag(m, "retrievable"@, true),
        stored: flag(m, "stored"@, true),
        vector_dimensions: positive_of(
            member_or(m, "dimensions"@, "vector_search_dimensions"@),
        ),
        vector_search_profile: nonempty_str_of(
            member_or(m, "vectorSearchProfile"@, "vector_search_profile_name"@),
        ),
        subfields,
        analyzer: nonempty_str_of(member(m, "analyzer"@)),
        synonym_maps: strings_member(member_or(m, "synonymMaps"@, "synonym_map_names"@)),
        raw: JsonV::Object(m),
    }
}

/// The field that a JSON value defines, or what is wrong with it.
pub open spec fn field_of(raw: JsonV) -> Result<FieldV, Seq<char>>
    decreases raw, 0int,
{
    match raw {
        JsonV::Object(m) => match nonempty_str_of(member(m, "name"@)) {
            None => Err("field is missing a non-empty \"name\""@),
            Some(name) => match nonempty_str_of(member(m, "type"@)) {
                None => Err(
                    "field "@ + debug_text(name) + " is missing a non-empty \"type\""@,
                ),
                Some(spelling) => {
                    let i = key_place(m, "fields"@);
                    if 0 <= i < m.len() {
                        match m[i].1 {
                            JsonV::Array(items) => match fields_of(items, 0, seq![]) {
                                Err(e) => Err(e),
                                Ok(subfields) => Ok(field_with(m, name, spelling, subfields)),
                            },
                            _ => Ok(field_with(m, name, spelling, seq![])),
                        }
                    } else {
                        Ok(field_with(m, name, spelling, seq![]))
                    }
                },
            },
        },
        _ => Err("field definition must be a JSON object"@),
    }
}

/// The fields that the values from `i` on define, behind those in `done`.
pub open spec fn fields_of(items: Seq<JsonV>, i: int, done: Seq<FieldV>) -> Result<
    Seq<FieldV>,
    Seq<char>,
>
    decreases items, items.len() - i,
{
    if i < 0 || i >= items.len() {
        Ok(done)
    } else {
        match field_of(items[i]) {
            Err(e) => Err(e),
            Ok(f) => fields_of(items, i + 1, done.push(f)),
        }
    }
}

pub open spec fn field_result(r: Result<FieldDefinition, String>) -> Result<FieldV, Seq<char>> {
    match r {
        Ok(f) => Ok(f@),
        Err(m) => Err(m@),
    }
}

/// Reads an optional boolean property, returning `default` when the key is
/// absent or its value is not a boolean.
fn get_bool(obj: &JsonMap, key: &str, default: bool) -> (r: bool)
    ensures
        r == flag(obj@, key@, default),
{
    match member_bool(obj.get(key)) {
        Some(b) => b,
        None => default,
    }
}

/// The text of a string property that is not empty.
pub(crate) fn owned_nonempty(v: Option<&Json>) -> (r: Option<String>)
    ensures
        opt_text(r) == nonempty_str_of(opt_value(v)),
{
    match nonempty_str(v) {
        Some(s) => Some(s.to_owned()),
        None => None,
    }
}

/// Reads an optional non-empty string property; `None` when the key is absent,
/// its value is not a string, or the string is empty.
fn get_opt_string(obj: &JsonMap, key: &str) -> (r: Option<String>)
    ensures
        opt_text(r) == nonempty_str_of(member(obj@, key@)),
{
    owned_nonempty(obj.get(key))
}

fn get_positive(v: Option<&Json>) -> (r: Option<usize>)
    ensures
        r == positive_of(opt_value(v)),
{
    match v {
        Some(v) => match v.as_u64() {
            Some(n) => {
                if 0 < n && n <= usize::MAX as u64 {
                    Some(n as usize)
                } else {
                    None
                }
            },
            None => None,
        },
        None => None,
    }
}

pub(crate) fn get_strings(v: Option<&Json>) -> (r: Vec<String>)
    ensures
        texts(r@) == strings_member(opt_value(v)),
{
    broadcast use {group_json, lemma_texts_push};

    let mut out: Vec<String> = Vec::new();
    assert(texts(out@) =~= seq![]);
    if let Some(items) = member_array(v) {
        let mut i: usize = 0;
        let ghost all = values(items@);
        assert(all.take(0) =~= seq![]);
        while i < items.len()
            invariant
                all == values(items@),
                i <= items@.len(),
                texts(out@) == nonempty_strings(all.take(i as int)),
            decreases items@.len() - i,
        {
            proof {
                let t = all.take(i + 1);
                assert(t.drop_last() =~= all.take(i as int));
                assert(t.last() == items@[i as int]@);
            }
            let ghost before = texts(out@);
            if let Some(s) = nonempty_str(Some(&items[i])) {
                out.push(s.to_owned());
                assert(texts(out@) == before.push(s@));
            }
            i += 1;
        }
        assert(all.take(all.len() as int) =~= all);
    }
    out
}

impl FieldDefinition {
    /// Parses a field definition from its raw JSON representation.
    ///
    /// Returns an error string if the value is not an object or is missing a
    /// non-empty `name` or `type`.
    pub fn from_json(raw: Json) -> (r: Result<FieldDefinition, String>)
        ensures
            field_result(r) == field_of(raw@),
    {
        FieldDefinition::from_value(&raw)
    }

    fn from_value(raw: &Json) -> (r: Result<FieldDefinition, String>)
        ensures
            field_result(r) == field_of(raw@),
        decreases raw@,
    {
        broadcast use {group_json, group_fields};

        let obj = match raw.as_object() {
            Some(obj) => obj,
            None => {
                return Err("field definition must be a JSON object".to_owned());
            },
        };
        let name = match nonempty_str(obj.get("name")) {
            Some(name) => name,
            None => {
                return Err("field is missing a non-empty \"name\"".to_owned());
            },
        };
        let spelling = match nonempty_str(obj.get("type")) {
            Some(spelling) => spelling,
            None => {
                return Err(
                    cat3("field ", quoted(name).as_str(), " is missing a non-empty \"type\""),
                );
            },
        };
        let mut subfields: Vec<FieldDefinition> = Vec::new();
        assert(field_views(subfields@) =~= seq![]);
        proof {
            lemma_key_place(obj@, "fields"@);
        }
        if let Some(items) = member_array(obj.get("fields")) {
            let ghost all = values(items@);
            let ghost place = key_place(obj@, "fields"@);
            assert(obj@[place].1 == JsonV::Array(all));
            let mut i: usize = 0;
            while i < items.len()
                invariant
                    all == values(items@),
                    i <= items@.len(),
                    raw@ == JsonV::Object(obj@),
                    place == key_place(obj@, "fields"@),
                    0 <= place < obj@.len(),
                    obj@[place].1 == JsonV::Array(all),
                    nonempty_str_of(member(obj@, "name"@)) == Some(name@),
                    nonempty_str_of(member(obj@, "type"@)) == Some(spelling@),
                    fields_of(all, 0, seq![]) == fields_of(
                        all,
                        i as int,
                        field_views(subfields@),
                    ),
                decreases items@.len() - i,
            {
                assert(all[i as int] == items@[i as int]@);
                assert(decreases_to!(raw@ => obj@[place].1));
                let subfield = FieldDefinition::from_value(&items[i])?;
                let ghost before = field_views(subfields@);
                subfields.push(subfield);
                assert(field_views(subfields@) == before.push(subfield@));
                i += 1;
            }
        }
        let vector_dimensions = get_positive(obj.get_or("dimensions", "vector_search_dimensions"));
        let vector_search_profile = owned_nonempty(
            obj.get_or("vectorSearchProfile", "vector_search_profile_name"),
        );
        let analyzer = get_opt_string(obj, "analyzer");
        let synonym_maps = get_strings(obj.get_or("synonymMaps", "synonym_map_names"));
        let field = FieldDefinition {
            name: name.to_owned(),
            field_type: FieldType::from_normalized(normalize_field_type(spelling).as_str()),
            is_key: get_bool(obj, "key", false),
            searchable: get_bool(obj, "searchable", false),
            filterable: get_bool(obj, "filterable", false),
            sortable: get_bool(obj, "sortable", false),
            facetable: get_bool(obj, "facetable", false),
            retrievable: get_bool(obj, "retrievable", true),
            stored: get_bool(obj, "stored", true),
            vector_dimensions,
            vector_search_profile,
            subfields,
            analyzer,
            synonym_maps,
            raw: raw.duplicate(),
        };
        assert(field@ == field_with(obj@, name@, spelling@, field_views(subfields@)));
        Ok(field)
    }

    /// Whether this field is a vector field: `Collection(Edm.Single)` or
    /// `Collection(Edm.Half)` (quantized) with declared `dimensions`.
    pub fn is_vector_field(&self) -> (r: bool)
        ensures
            r == self@.vector(),
    {
        self.field_type.is_vector_field_type() && self.vector_dimensions.is_some()
    }

    /// Whether the raw definition carries a `dimensions` property (under
    /// either the REST or SDK key), even when its value is invalid.
    pub fn has_dimensions_property(&self) -> (r: bool)
        ensures
            r == self@.has_dimensions(),
    {
        match self.raw.as_object() {
            Some(obj) => obj.contains_key("dimensions") || obj.contains_key(
                "vector_search_dimensions",
            ),
            None => false,
        }
    }

    /// Whether this field is a complex type: a single `Edm.ComplexType`
    /// object or a collection of them.
    pub fn is_complex_type(&self) -> (r: bool)
        ensures
            r == self@.field_type.complex(),
    {
        self.field_type.is_complex_type()
    }

    /// Whether this field is a collection type (`Edm.Collection(...)`).
    pub fn is_collection(&self) -> (r: bool)
        ensures
            r == self@.field_type.inner() is Some,
    {
        self.field_type.is_collection()
    }

    pub fn duplicate(&self) -> (r: FieldDefinition)
        ensures
            r@ == self@,
        decreases self,
    {
        broadcast use {group_json, group_fields};

        let mut subfields: Vec<FieldDefinition> = Vec::new();
        let ghost all = field_views(self.subfields@);
        let mut i: usize = 0;
        while i < self.subfields.len()
            invariant
                all == field_views(self.subfields@),
                i <= self.subfields@.len(),
                field_views(subfields@) == all.take(i as int),
            decreases self.subfields@.len() - i,
        {
            let ghost before = subfields@;
            let item = self.subfields[i].duplicate();
            subfields.push(item);
            assert(field_views(subfields@) == field_views(before).push(item@));
            assert(all[i as int] == item@);
            i += 1;
            assert(field_views(subfields@) =~= all.take(i as int));
        }
        assert(all.take(all.len() as int) =~= all);
        FieldDefinition {
            name: self.name.clone(),
            field_type: self.field_type.duplicate(),
            is_key: self.is_key,
            searchable: self.searchable,
            filterable: self.filterable,
            sortable: self.sortable,
            facetable: self.facetable,
            retrievable: self.retrievable,
            stored: self.stored,
            vector_dimensions: self.vector_dimensions,
            vector_search_profile: clone_opt_text(&self.vector_search_profile),
            subfields,
            analyzer: clone_opt_text(&self.analyzer),
            synonym_maps: clone_texts(&self.synonym_maps),
            raw: self.raw.duplicate(),
        }
    }
}

// ---------------------------------------------------------------------------
// Looking fields up
// ---------------------------------------------------------------------------

/// The first of the fields from `i` on with a name.
pub open spec fn field_named(fields: Seq<FieldV>, name: Seq<char>, i: int) -> Option<FieldV>
    decreases fields.len() - i,
{
    if i >= fields.len() {
        None
    } else if fields[i].name == name {
        Some(fields[i])
    } else {
        field_named(fields, name, i + 1)
    }
}

/// The field that the segments from `i` on lead to, through subfields.
pub open spec fn field_at(fields: Seq<FieldV>, segs: Seq<Seq<char>>, i: int) -> Option<FieldV>
    decreases segs.len() - i,
{
    match field_named(fields, segs[i], 0) {
        None => None,
        Some(f) => if i + 1 >= segs.len() {
            Some(f)
        } else {
            field_at(f.subfields, segs, i + 1)
        },
    }
}

/// The field that a path (`Address/City`) leads to.
pub open spec fn field_by_path(fields: Seq<FieldV>, path: Seq<char>) -> Option<FieldV> {
    field_at(fields, pieces(path, '/'), 0)
}

pub(crate) fn find_named<'a>(fields: &'a Vec<FieldDefinition>, name: &str) -> (r: Option<
    &'a FieldDefinition,
>)
    ensures
        opt_field(r) == field_named(field_views(fields@), name@, 0),
{
    let mut i: usize = 0;
    while i < fields.len()
        invariant
            i <= fields@.len(),
            field_named(field_views(fields@), name@, 0) == field_named(
                field_views(fields@),
                name@,
                i as int,
            ),
        decreases fields@.len() - i,
    {
        assert(field_views(fields@)[i as int] == fields@[i as int]@);
        if same_text(fields[i].name.as_str(), name) {
            return Some(&fields[i]);
        }
        i += 1;
    }
    None
}

/// Resolves a field path through complex-type subfields.
pub(crate) fn find_by_path<'a>(fields: &'a Vec<FieldDefinition>, path: &str) -> (r: Option<
    &'a FieldDefinition,
>)
    ensures
        opt_field(r) == field_by_path(field_views(fields@), path@),
{
    broadcast use group_fields;

    let segs = split_on(path, '/');
    let ghost all = texts(segs@);
    let mut current: &'a Vec<FieldDefinition> = fields;
    let n: usize = segs.len();
    let mut i: usize = 0;
    loop
        invariant
            n == segs@.len(),
            all == texts(segs@),
            i < segs@.len(),
            field_at(field_views(fields@), all, 0) == field_at(
                field_views(current@),
                all,
                i as int,
            ),
            all == pieces(path@, '/'),
        decreases segs@.len() - i,
    {
        assert(all[i as int] == segs@[i as int]@);
        match find_named(current, segs[i].as_str()) {
            None => {
                return None;
            },
            Some(f) => {
                if i + 1 >= n {
                    return Some(f);
                }
                assert(f@.subfields == field_views(f.subfields@));
                current = &f.subfields;
                i += 1;
            },
        }
    }
}

// ---------------------------------------------------------------------------
// Suggesters
// ---------------------------------------------------------------------------

/// A suggester: a named set of searchable fields that the autocomplete and
/// suggest operations match against.
#[derive(Debug, PartialEq)]
pub struct Suggester {
    pub name: String,
    /// Field names (or complex-type paths) the suggester searches.
    pub search_fields: Vec<String>,
}

/// The mathematical value of a [`Suggester`].
pub struct SuggesterV {
    pub name: Seq<char>,
    pub search_fields: Seq<Seq<char>>,
}

impl View for Suggester {
    type V = SuggesterV;

    open spec fn view(&self) -> SuggesterV {
        SuggesterV { name: self.name@, search_fields: texts(self.search_fields@) }
    }
}

pub open spec fn suggester_views(v: Seq<Suggester>) -> Seq<SuggesterV> {
    v.map_values(|s: Suggester| s@)
}

pub broadcast proof fn lemma_suggester_views_push(v: Seq<Suggester>, s: Suggester)
    ensures
        #[trigger] suggester_views(v.push(s)) == suggester_views(v).push(s@),
{
    assert(suggester_views(v.push(s)) =~= suggester_views(v).push(s@));
}

/// The names among a suggester's entries from `i` on, behind those in `done`.
pub open spec fn suggester_fields(
    items: Seq<JsonV>,
    i: int,
    done: Seq<Seq<char>>,
    name: Seq<char>,
) -> Result<Seq<Seq<char>>, Seq<char>>
    decreases items.len() - i,
{
    if i >= items.len() {
        Ok(done)
    } else {
        match nonempty_str_of(Some(items[i])) {
            Some(s) => suggester_fields(items, i + 1, done.push(s), name),
            None => Err(
                "suggester "@ + debug_text(name)
                    + " search fields entries must be non-empty strings"@,
            ),
        }
    }
}

/// The suggester that a JSON value defines. The fields are under
/// `searchFields`, or else under `sourceFields`.
pub open spec fn suggester_of(raw: JsonV) -> Result<SuggesterV, Seq<char>> {
    match raw {
        JsonV::Object(m) => match nonempty_str_of(member(m, "name"@)) {
            None => Err("suggester is missing a non-empty \"name\""@),
            Some(name) => match array_of(member_or(m, "searchFields"@, "sourceFields"@)) {
                None => Err(
                    "suggester "@ + debug_text(name)
                        + " is missing a \"searchFields\" (or \"sourceFields\") array"@,
                ),
                Some(items) => match suggester_fields(items, 0, seq![], name) {
                    Err(e) => Err(e),
                    Ok(search_fields) => Ok(SuggesterV { name, search_fields }),
                },
            },
        },
        _ => Err("suggester definition must be a JSON object"@),
    }
}

pub open spec fn suggester_result(r: Result<Suggester, String>) -> Result<SuggesterV, Seq<char>> {
    match r {
        Ok(s) => Ok(s@),
        Err(m) => Err(m@),
    }
}

impl Suggester {
    /// Parses a suggester definition from its raw JSON representation.
    ///
    /// The search fields are read from `searchFields` or `sourceFields`;
    /// `searchFields` wins when both are present.
    pub fn from_json(raw: &Json) -> (r: Result<Suggester, String>)
        ensures
            suggester_result(r) == suggester_of(raw@),
    {
        broadcast use {group_json, lemma_texts_push};

        let obj = match raw.as_object() {
            Some(obj) => obj,
            None => {
                return Err("suggester definition must be a JSON object".to_owned());
            },
        };
        let name = match nonempty_str(obj.get("name")) {
            Some(name) => name,
            None => {
                return Err("suggester is missing a non-empty \"name\"".to_owned());
            },
        };
        let items = match member_array(obj.get_or("searchFields", "sourceFields")) {
            Some(items) => items,
            None => {
                return Err(
                    cat3(
                        "suggester ",
                        quoted(name).as_str(),
                        " is missing a \"searchFields\" (or \"sourceFields\") array",
                    ),
                );
            },
        };
        let mut search_fields: Vec<String> = Vec::new();
        let ghost all = values(items@);
        let mut i: usize = 0;
        assert(texts(search_fields@) =~= seq![]);
        while i < items.len()
            invariant
                all == values(items@),
                i <= items@.len(),
                raw@ == JsonV::Object(obj@),
                nonempty_str_of(member(obj@, "name"@)) == Some(name@),
                array_of(member_or(obj@, "searchFields"@, "sourceFields"@)) == Some(all),
                suggester_fields(all, 0, seq![], name@) == suggester_fields(
                    all,
                    i as int,
                    texts(search_fields@),
                    name@,
                ),
            decreases items@.len() - i,
        {
            assert(all[i as int] == items@[i as int]@);
            match nonempty_str(Some(&items[i])) {
                Some(s) => {
                    let ghost before = texts(search_fields@);
                    search_fields.push(s.to_owned());
                    assert(texts(search_fields@) == before.push(s@));
                },
                None => {
                    return Err(
                        cat3(
                            "suggester ",
                            quoted(name).as_str(),
                            " search fields entries must be non-empty strings",
                        ),
                    );
                },
            }
            i += 1;
        }
        Ok(Suggester { name: name.to_owned(), search_fields })
    }

    pub fn duplicate(&self) -> (r: Suggester)
        ensures
            r@ == self@,
    {
        Suggester { name: self.name.clone(), search_fields: clone_texts(&self.search_fields) }
    }
}

} // verus!
