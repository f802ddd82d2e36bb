//! Vector queries of search requests, and vector changes of document batches.
use crate::error::{ApiError, ApiErrorV, invalid_query_v, unit_result};
use crate::json::{
    Json, JsonMap, JsonV, ONE_RANK, group_json, magnitude_bits, member, member_bool, member_or,
    nonempty_str, nonempty_str_of, opt_owned, opt_value, rank_of, u64_of, values,
};
use crate::service::parsing::{
    DEFAULT_VECTOR_K, MAX_VECTOR_K, MAX_VECTOR_QUERIES, items_of, string_items,
};
use crate::service::types::{
    QueryVector, QueryVectorV, VectorFilterMode, VectorQuery, VectorQueryV, filter_mode_named,
    group_types, vector_query_views,
};
use crate::service::validation::{
    FiniteF32ArrayError, finite_f32, narrows, parse_finite_f32_array, vector_of,
};
use crate::storage::definition::{FieldV, field_named, field_views, flag};
use crate::storage::document::{Document, DocumentV, document_views};
use crate::storage::index::{IndexDefinition, IndexV};
use crate::text::{
    cat3, cat5, cat7, debug_text, decimal, decimal_text, holds_text, quoted, same_text, texts,
};
use vstd::prelude::*;

verus! {

// ---------------------------------------------------------------------------
// Filter mode
// ---------------------------------------------------------------------------

pub open spec fn vector_filter_mode_of(value: Option<JsonV>) -> Result<
    VectorFilterMode,
    ApiErrorV,
> {
    match value {
        None => Ok(VectorFilterMode::PostFilter),
        Some(JsonV::Null) => Ok(VectorFilterMode::PostFilter),
        Some(JsonV::String(mode)) => match filter_mode_named(mode) {
            Some(m) => Ok(m),
            None => Err(
                invalid_query_v(
                    "Invalid vectorFilterMode "@ + debug_text(mode)
                        + "; supported values: 'preFilter', 'postFilter'."@,
                ),
            ),
        },
        Some(_) => Err(
            invalid_query_v("vectorFilterMode must be 'preFilter' or 'postFilter'."@),
        ),
    }
}

/// Parses the top-level `vectorFilterMode`: `postFilter` (default) or
/// `preFilter`.
pub fn parse_vector_filter_mode(value: Option<&Json>) -> (r: Result<VectorFilterMode, ApiError>)
    ensures
        match r {
            Ok(m) => vector_filter_mode_of(opt_value(value)) == Ok::<_, ApiErrorV>(m),
            Err(e) => vector_filter_mode_of(opt_value(value)) == Err::<VectorFilterMode, _>(e@),
        },
{
    match value {
        None => Ok(VectorFilterMode::PostFilter),
        Some(Json::Null) => Ok(VectorFilterMode::PostFilter),
        Some(Json::String(mode)) => match VectorFilterMode::parse(mode.as_str()) {
            Some(m) => Ok(m),
            None => Err(
                ApiError::invalid_query(
                    cat3(
                        "Invalid vectorFilterMode ",
                        quoted(mode.as_str()).as_str(),
                        "; supported values: 'preFilter', 'postFilter'.",
                    ).as_str(),
                ),
            ),
        },
        Some(_) => Err(
            ApiError::invalid_query("vectorFilterMode must be 'preFilter' or 'postFilter'."),
        ),
    }
}

// ---------------------------------------------------------------------------
// Fields of a vector query
// ---------------------------------------------------------------------------

/// A vector query's resolved field set: the field names and the shared
/// dimension every query vector must match (fields with different
/// dimensions cannot share one query vector).
#[derive(Debug)]
pub struct VectorFieldSet {
    pub names: Vec<String>,
    pub dim: usize,
}

/// The declared dimensions of a field.
pub open spec fn dimensions_of(f: FieldV) -> usize {
    match f.vector_dimensions {
        Some(n) => n,
        None => 0,
    }
}

/// The shared dimension of the fields from `i` on, where those before have the
/// dimension `dim`.
pub open spec fn shared_dimension(
    names: Seq<Seq<char>>,
    i: int,
    dim: Option<usize>,
    d: IndexV,
    vectorized: Option<Seq<Seq<char>>>,
) -> Result<Option<usize>, ApiErrorV>
    decreases names.len() - i,
{
    if i >= names.len() {
        Ok(dim)
    } else {
        let f = field_named(d.fields, names[i], 0);
        if f is None || !f->Some_0.vector() {
            Err(
                invalid_query_v(
                    "Vector query field "@ + debug_text(names[i])
                        + " is not a vector field in index "@ + debug_text(d.name) + "."@,
                ),
            )
        } else if vectorized is Some && !vectorized->Some_0.contains(names[i]) {
            Err(
                invalid_query_v(
                    "Vector field "@ + debug_text(names[i])
                        + " does not have a vectorizer; use kind 'vector' with an explicit vector."@,
                ),
            )
        } else {
            let n = dimensions_of(f->Some_0);
            match dim {
                None => shared_dimension(names, i + 1, Some(n), d, vectorized),
                Some(m) => if m == n {
                    shared_dimension(names, i + 1, dim, d, vectorized)
                } else {
                    Err(
                        invalid_query_v(
                            "Vector query targets fields with different dimensions ("@ + decimal(
                                m as nat,
                            ) + " vs "@ + decimal(n as nat) + ")."@,
                        ),
                    )
                },
            }
        }
    }
}

/// The field names and the shared dimension of a vector query. Where
/// `vectorized` is given, each field must be in it.
pub open spec fn field_set_of(
    m: Seq<(Seq<char>, JsonV)>,
    d: IndexV,
    vectorized: Option<Seq<Seq<char>>>,
) -> Result<(Seq<Seq<char>>, usize), ApiErrorV> {
    match member(m, "fields"@) {
        None => Err(invalid_query_v("Each vector query must define \"fields\"."@)),
        Some(value) => match items_of(value, "vector query fields"@) {
            Err(e) => Err(e),
            Ok(names) => if names.len() == 0 {
                Err(invalid_query_v("Vector query \"fields\" is empty."@))
            } else {
                match shared_dimension(names, 0, None, d, vectorized) {
                    Err(e) => Err(e),
                    Ok(dim) => Ok(
                        (
                            names,
                            match dim {
                                Some(n) => n,
                                None => 0,
                            },
                        ),
                    ),
                }
            },
        },
    }
}

/// The first field name, for messages.
pub open spec fn first_name(names: Seq<Seq<char>>) -> Seq<char> {
    if names.len() > 0 {
        names[0]
    } else {
        ""@
    }
}

pub open spec fn vector_len_check(names: Seq<Seq<char>>, dim: usize, len: usize) -> Result<
    (),
    ApiErrorV,
> {
    if len == dim {
        Ok(())
    } else {
        Err(
            invalid_query_v(
                "Vector query for "@ + debug_text(first_name(names)) + " has dimension "@ + decimal(
                    len as nat,
                ) + ", expected "@ + decimal(dim as nat) + "."@,
            ),
        )
    }
}

/// The numbers of a query's `vector`.
pub open spec fn query_numbers(
    m: Seq<(Seq<char>, JsonV)>,
    names: Seq<Seq<char>>,
    dim: usize,
) -> Result<Seq<u64>, ApiErrorV> {
    match member(m, "vector"@) {
        None => Err(invalid_query_v("Each vector query must define \"vector\"."@)),
        Some(JsonV::Array(items)) => match vector_len_check(names, dim, items.len() as usize) {
            Err(e) => Err(e),
            Ok(_) => match vector_of(items) {
                Ok(v) => Ok(v),
                Err(FiniteF32ArrayError::NonFinite) => Err(
                    invalid_query_v(
                        "Vector query for "@ + debug_text(first_name(names))
                            + " contains non-finite values."@,
                    ),
                ),
                Err(FiniteF32ArrayError::NonNumeric) => Err(
                    invalid_query_v(
                        "Vector query for "@ + debug_text(first_name(names))
                            + " must contain only numeric values."@,
                    ),
                ),
            },
        },
        Some(_) => Err(
            invalid_query_v("Vector query \"vector\" must be an array of numbers."@),
        ),
    }
}

/// The text of a query that is to be vectorized.
pub open spec fn query_text(m: Seq<(Seq<char>, JsonV)>) -> Result<Seq<char>, ApiErrorV> {
    if member(m, "vector"@) is Some {
        Err(
            invalid_query_v(
                "Vectorizer query (kind 'text') must not include a 'vector' property."@,
            ),
        )
    } else {
        match nonempty_str_of(member(m, "text"@)) {
            Some(text) => Ok(text),
            None => Err(
                invalid_query_v("Vectorizer query requires a non-empty 'text' property."@),
            ),
        }
    }
}

impl VectorFieldSet {
    /// Parses a vector query's `fields`: every entry must be a vector field
    /// in the schema. When `vectorized` is given (a `kind: "text"` query), each
    /// field must also be among the fields that reference a vectorizer.
    pub fn parse(
        obj: &JsonMap,
        definition: &IndexDefinition,
        vectorized: Option<&Vec<String>>,
    ) -> (r: Result<VectorFieldSet, ApiError>)
        ensures
            match r {
                Ok(set) => field_set_of(obj@, definition@, listed(vectorized)) == Ok::<
                    _,
                    ApiErrorV,
                >((texts(set.names@), set.dim)),
                Err(e) => field_set_of(obj@, definition@, listed(vectorized)) == Err::<
                    (Seq<Seq<char>>, usize),
                    _,
                >(e@),
            },
    {
        let value = match obj.get("fields") {
            Some(value) => value,
            None => {
                return Err(
                    ApiError::invalid_query("Each vector query must define \"fields\"."),
                );
            },
        };
        let names = string_items(value, "vector query fields")?;
        if names.len() == 0 {
            return Err(ApiError::invalid_query("Vector query \"fields\" is empty."));
        }
        let ghost all = texts(names@);
        let ghost vs = listed(vectorized);
        let mut dim: Option<usize> = None;
        let mut i: usize = 0;
        while i < names.len()
            invariant
                all == texts(names@),
                all.len() > 0,
                vs == listed(vectorized),
                member(obj@, "fields"@) == Some(value@),
                items_of(value@, "vector query fields"@) == Ok::<_, ApiErrorV>(all),
                i <= names@.len(),
                shared_dimension(all, 0, None, definition@, vs) == shared_dimension(
                    all,
                    i as int,
                    dim,
                    definition@,
                    vs,
                ),
            decreases names@.len() - i,
        {
            assert(all[i as int] == names@[i as int]@);
            let name = names[i].as_str();
            let dimensions: usize = match definition.field(name) {
                Some(f) => {
                    if !f.is_vector_field() {
                        return Err(not_a_vector_field(name, definition));
                    }
                    match f.vector_dimensions {
                        Some(n) => n,
                        None => 0,
                    }
                },
                None => {
                    return Err(not_a_vector_field(name, definition));
                },
            };
            if let Some(list) = vectorized {
                if !holds_text(list, name) {
                    return Err(
                        ApiError::invalid_query(
                            cat3(
                                "Vector field ",
                                quoted(name).as_str(),
                                " does not have a vectorizer; use kind 'vector' with an explicit vector.",
                            ).as_str(),
                        ),
                    );
                }
            }
            match dim {
                None => {
                    dim = Some(dimensions);
                },
                Some(m) => {
                    if m != dimensions {
                        return Err(
                            ApiError::invalid_query(
                                cat5(
                                    "Vector query targets fields with different dimensions (",
                                    decimal_text(m as u64).as_str(),
                                    " vs ",
                                    decimal_text(dimensions as u64).as_str(),
                                    ").",
                                ).as_str(),
                            ),
                        );
                    }
                },
            }
            i += 1;
        }
        Ok(
            VectorFieldSet {
                names,
                dim: match dim {
                    Some(n) => n,
                    None => 0,
                },
            },
        )
    }

    /// Parses the query's `vector` against this field set: an array of
    /// finite numbers whose length matches the shared dimension.
    pub fn parse_vector(&self, obj: &JsonMap) -> (r: Result<Vec<u64>, ApiError>)
        ensures
            match r {
                Ok(v) => query_numbers(obj@, texts(self.names@), self.dim) == Ok::<_, ApiErrorV>(
                    v@,
                ),
                Err(e) => query_numbers(obj@, texts(self.names@), self.dim) == Err::<
                    Seq<u64>,
                    _,
                >(e@),
            },
    {
        broadcast use group_json;

        let items = match obj.get("vector") {
            None => {
                return Err(
                    ApiError::invalid_query("Each vector query must define \"vector\"."),
                );
            },
            Some(Json::Array(items)) => items,
            Some(_) => {
                return Err(
                    ApiError::invalid_query(
                        "Vector query \"vector\" must be an array of numbers.",
                    ),
                );
            },
        };
        self.check_vector_len(items.len())?;
        match parse_finite_f32_array(items) {
            Ok(v) => Ok(v),
            Err(FiniteF32ArrayError::NonFinite) => Err(
                ApiError::invalid_query(
                    cat3(
                        "Vector query for ",
                        quoted(self.first_field()).as_str(),
                        " contains non-finite values.",
                    ).as_str(),
                ),
            ),
            Err(FiniteF32ArrayError::NonNumeric) => Err(
                ApiError::invalid_query(
                    cat3(
                        "Vector query for ",
                        quoted(self.first_field()).as_str(),
                        " must contain only numeric values.",
                    ).as_str(),
                ),
            ),
        }
    }

    /// Checks a vector's length against the shared dimension.
    pub fn check_vector_len(&self, len: usize) -> (r: Result<(), ApiError>)
        ensures
            unit_result(r) == vector_len_check(texts(self.names@), self.dim, len),
    {
        if len != self.dim {
            return Err(
                ApiError::invalid_query(
                    cat7(
                        "Vector query for ",
                        quoted(self.first_field()).as_str(),
                        " has dimension ",
                        decimal_text(len as u64).as_str(),
                        ", expected ",
                        decimal_text(self.dim as u64).as_str(),
                        ".",
                    ).as_str(),
                ),
            );
        }
        Ok(())
    }

    /// The first field name, for error messages.
    pub fn first_field(&self) -> (r: &str)
        ensures
            r@ == first_name(texts(self.names@)),
    {
        if self.names.len() > 0 {
            assert(texts(self.names@)[0] == self.names@[0]@);
            self.names[0].as_str()
        } else {
            ""
        }
    }
}

pub open spec fn listed(o: Option<&Vec<String>>) -> Option<Seq<Seq<char>>> {
    match o {
        Some(v) => Some(texts(v@)),
        None => None,
    }
}

fn not_a_vector_field(name: &str, definition: &IndexDefinition) -> (r: ApiError)
    ensures
        r@ == invalid_query_v(
            "Vector query field "@ + debug_text(name@) + " is not a vector field in index "@
                + debug_text(definition@.name) + "."@,
        ),
{
    ApiError::invalid_query(
        cat5(
            "Vector query field ",
            quoted(name).as_str(),
            " is not a vector field in index ",
            quoted(definition.name.as_str()).as_str(),
            ".",
        ).as_str(),
    )
}

// ---------------------------------------------------------------------------
// Vector queries
// ---------------------------------------------------------------------------

/// The `k` of a vector query.
pub open spec fn vector_k_of(m: Seq<(Seq<char>, JsonV)>) -> Result<usize, ApiErrorV> {
    let value = match member_or(m, "k"@, "k_nearest_neighbors"@) {
        Some(v) => Some(v),
        None => member(m, "kNearestNeighbors"@),
    };
    match value {
        None => Ok(DEFAULT_VECTOR_K),
        Some(JsonV::Null) => Ok(DEFAULT_VECTOR_K),
        Some(v) => match u64_of(v) {
            Some(n) => if 1 <= n <= MAX_VECTOR_K {
                Ok(n as usize)
            } else {
                Err(
                    invalid_query_v("Vector query 'k' must be a positive integer (max 1000)."@),
                )
            },
            None => Err(
                invalid_query_v("Vector query 'k' must be a positive integer (max 1000)."@),
            ),
        },
    }
}

/// Parses a vector query's `k` (`k_nearest_neighbors` / `kNearestNeighbors`
/// SDK aliases accepted): a positive integer up to [`MAX_VECTOR_K`] (default
/// [`DEFAULT_VECTOR_K`] when absent).
fn parse_vector_k(obj: &JsonMap) -> (r: Result<usize, ApiError>)
    ensures
        match r {
            Ok(k) => vector_k_of(obj@) == Ok::<_, ApiErrorV>(k),
            Err(e) => vector_k_of(obj@) == Err::<usize, _>(e@),
        },
{
    let value = match obj.get_or("k", "k_nearest_neighbors") {
        Some(v) => Some(v),
        None => obj.get("kNearestNeighbors"),
    };
    match value {
        None => Ok(DEFAULT_VECTOR_K),
        Some(Json::Null) => Ok(DEFAULT_VECTOR_K),
        Some(v) => {
            if let Some(n) = v.as_u64() {
                if 1 <= n && n <= MAX_VECTOR_K as u64 {
                    return Ok(n as usize);
                }
            }
            Err(
                ApiError::invalid_query(
                    "Vector query 'k' must be a positive integer (max 1000).",
                ),
            )
        },
    }
}

/// Whether a binary64 number is positive and finite when it is narrowed to
/// binary32: above half of the least binary32 number, and below the midpoint
/// behind the greatest.
pub open spec fn usable_weight(rank: u64) -> bool {
    rank >= 0x8000_0000_0000_0000 && magnitude_bits(rank) > 0x3690_0000_0000_0000 && narrows(rank)
}

/// The weight of a vector query, by its rank.
pub open spec fn vector_weight_of(m: Seq<(Seq<char>, JsonV)>) -> Result<u64, ApiErrorV> {
    match member(m, "weight"@) {
        None => Ok(ONE_RANK),
        Some(JsonV::Null) => Ok(ONE_RANK),
        Some(v) => match rank_of(v) {
            Some(rank) => if usable_weight(rank) {
                Ok(rank)
            } else {
                Err(
                    invalid_query_v(
                        "Vector query 'weight' must be a finite positive number."@,
                    ),
                )
            },
            None => Err(
                invalid_query_v("Vector query 'weight' must be a finite positive number."@),
            ),
        },
    }
}

/// Parses a vector query's `weight`: a finite positive number (one when
/// absent), given by its binary64 rank.
fn parse_vector_weight(obj: &JsonMap) -> (r: Result<u64, ApiError>)
    ensures
        match r {
            Ok(w) => vector_weight_of(obj@) == Ok::<_, ApiErrorV>(w),
            Err(e) => vector_weight_of(obj@) == Err::<u64, _>(e@),
        },
{
    match obj.get("weight") {
        None => Ok(ONE_RANK),
        Some(Json::Null) => Ok(ONE_RANK),
        Some(v) => {
            if let Some(rank) = v.as_rank() {
                if rank >= 0x8000_0000_0000_0000 && rank - 0x8000_0000_0000_0000
                    > 0x3690_0000_0000_0000 && finite_f32(rank) {
                    return Ok(rank);
                }
            }
            Err(
                ApiError::invalid_query(
                    "Vector query 'weight' must be a finite positive number.",
                ),
            )
        },
    }
}

/// The kind of a vector query: a missing one, or one that is no string, is
/// `vector`.
pub open spec fn vector_kind(m: Seq<(Seq<char>, JsonV)>) -> Seq<char> {
    match member(m, "kind"@) {
        Some(JsonV::String(s)) => s,
        _ => "vector"@,
    }
}

/// One vector query. `vectorized` holds the fields that reference a vectorizer.
pub open spec fn vector_query_of(entry: JsonV, d: IndexV, vectorized: Seq<Seq<char>>) -> Result<
    VectorQueryV,
    ApiErrorV,
> {
    match entry {
        JsonV::Object(m) => {
            let kind = vector_kind(m);
            let is_text = kind == "text"@;
            if kind != "vector"@ && !is_text {
                Err(
                    invalid_query_v(
                        "Invalid vector query kind "@ + debug_text(kind)
                            + "; supported kinds: 'vector', 'text'."@,
                    ),
                )
            } else {
                match field_set_of(
                    m,
                    d,
                    if is_text {
                        Some(vectorized)
                    } else {
                        None
                    },
                ) {
                    Err(e) => Err(e),
                    Ok((fields, dim)) => {
                        let vector = if is_text {
                            match query_text(m) {
                                Ok(text) => Ok(QueryVectorV::Text { text, dimension: dim }),
                                Err(e) => Err(e),
                            }
                        } else {
                            match query_numbers(m, fields, dim) {
                                Ok(v) => Ok(QueryVectorV::Numbers(v)),
                                Err(e) => Err(e),
                            }
                        };
                        match vector {
                            Err(e) => Err(e),
                            Ok(vector) => match vector_k_of(m) {
                                Err(e) => Err(e),
                                Ok(k) => match vector_weight_of(m) {
                                    Err(e) => Err(e),
                                    Ok(weight) => Ok(
                                        VectorQueryV {
                                            fields,
                                            vector,
                                            k,
                                            exhaustive: flag(m, "exhaustive"@, false),
                                            weight,
                                        },
                                    ),
                                },
                            },
                        }
                    },
                }
            }
        },
        _ => Err(invalid_query_v("Each vectorQueries entry must be a JSON object."@)),
    }
}

/// Parses a `kind: "text"` vectorizer query's text: rejects a present `vector`
/// property and requires a non-empty `text`.
fn parse_vectorizer_query_text(obj: &JsonMap) -> (r: Result<String, ApiError>)
    ensures
        match r {
            Ok(t) => query_text(obj@) == Ok::<_, ApiErrorV>(t@),
            Err(e) => query_text(obj@) == Err::<Seq<char>, _>(e@),
        },
{
    if obj.contains_key("vector") {
        return Err(
            ApiError::invalid_query(
                "Vectorizer query (kind 'text') must not include a 'vector' property.",
            ),
        );
    }
    match nonempty_str(obj.get("text")) {
        Some(text) => Ok(text.to_owned()),
        None => Err(
            ApiError::invalid_query("Vectorizer query requires a non-empty 'text' property."),
        ),
    }
}

/// Parses one `vectorQueries[]` entry: `kind`, `vector` (or `text` for
/// `kind: "text"` vectorizer queries), `fields` (string or array), `k`
/// (`k_nearest_neighbors` SDK alias accepted), `exhaustive`, `weight`. A missing
/// `kind` defaults to `"vector"`.
///
/// For `kind: "text"` the query's `text` is vectorized with the target fields'
/// vectorizer: `text` must be present and non-empty, `vector` must be absent,
/// and every target field must be among those in `vectorized`.
pub fn parse_vector_query(
    entry: &Json,
    definition: &IndexDefinition,
    vectorized: &Vec<String>,
) -> (r: Result<VectorQuery, ApiError>)
    ensures
        match r {
            Ok(q) => vector_query_of(entry@, definition@, texts(vectorized@)) == Ok::<
                _,
                ApiErrorV,
            >(q@),
            Err(e) => vector_query_of(entry@, definition@, texts(vectorized@)) == Err::<
                VectorQueryV,
                _,
            >(e@),
        },
{
    broadcast use group_json;

    let obj = match entry.as_object() {
        Some(obj) => obj,
        None => {
            return Err(
                ApiError::invalid_query("Each vectorQueries entry must be a JSON object."),
            );
        },
    };
    let kind = match obj.get("kind") {
        Some(Json::String(s)) => s.as_str(),
        _ => "vector",
    };
    let is_text = same_text(kind, "text");
    if !is_text && !same_text(kind, "vector") {
        return Err(
            ApiError::invalid_query(
                cat3(
                    "Invalid vector query kind ",
                    quoted(kind).as_str(),
                    "; supported kinds: 'vector', 'text'.",
                ).as_str(),
            ),
        );
    }
    let fields = VectorFieldSet::parse(
        obj,
        definition,
        if is_text {
            Some(vectorized)
        } else {
            None
        },
    )?;
    let vector = if is_text {
        let text = parse_vectorizer_query_text(obj)?;
        QueryVector::Text { text, dimension: fields.dim }
    } else {
        QueryVector::Numbers(fields.parse_vector(obj)?)
    };
    let k = parse_vector_k(obj)?;
    let exhaustive = match member_bool(obj.get("exhaustive")) {
        Some(b) => b,
        None => false,
    };
    let weight = parse_vector_weight(obj)?;
    Ok(VectorQuery { fields: fields.names, vector, k, exhaustive, weight })
}

pub open spec fn vector_queries_from(
    entries: Seq<JsonV>,
    i: int,
    done: Seq<VectorQueryV>,
    d: IndexV,
    vectorized: Seq<Seq<char>>,
) -> Result<Seq<VectorQueryV>, ApiErrorV>
    decreases entries.len() - i,
{
    if i >= entries.len() {
        Ok(done)
    } else {
        match vector_query_of(entries[i], d, vectorized) {
            Err(e) => Err(e),
            Ok(q) => vector_queries_from(entries, i + 1, done.push(q), d, vectorized),
        }
    }
}

/// The vector queries of a request, and the raw array that continuation tokens
/// are bound to.
pub open spec fn vector_queries_of(
    value: Option<JsonV>,
    d: IndexV,
    vectorized: Seq<Seq<char>>,
) -> Result<(Seq<VectorQueryV>, Option<JsonV>), ApiErrorV> {
    match value {
        None => Ok((seq![], None)),
        Some(JsonV::Null) => Ok((seq![], None)),
        Some(JsonV::Array(entries)) => if entries.len() == 0 {
            Ok((seq![], None))
        } else if entries.len() > MAX_VECTOR_QUERIES {
            Err(
                invalid_query_v(
                    "At most "@ + decimal(MAX_VECTOR_QUERIES as nat)
                        + " vector queries are supported."@,
                ),
            )
        } else {
            match vector_queries_from(entries, 0, seq![], d, vectorized) {
                Err(e) => Err(e),
                Ok(queries) => Ok((queries, value)),
            }
        },
        Some(_) => Err(invalid_query_v("vectorQueries must be an array."@)),
    }
}

/// Parses the top-level `vectorQueries` array against the index schema,
/// returning the parsed queries plus the raw array (bound into continuation
/// tokens).
#[verifier::loop_isolation(false)]
pub fn parse_vector_queries(
    value: Option<&Json>,
    definition: &IndexDefinition,
    vectorized: &Vec<String>,
) -> (r: Result<(Vec<VectorQuery>, Option<Json>), ApiError>)
    ensures
        match r {
            Ok((queries, raw)) => vector_queries_of(
                opt_value(value),
                definition@,
                texts(vectorized@),
            ) == Ok::<_, ApiErrorV>((vector_query_views(queries@), opt_owned(raw))),
            Err(e) => vector_queries_of(opt_value(value), definition@, texts(vectorized@)) == Err::<
                (Seq<VectorQueryV>, Option<JsonV>),
                _,
            >(e@),
        },
{
    broadcast use {group_json, group_types};

    let mut queries: Vec<VectorQuery> = Vec::new();
    assert(vector_query_views(queries@) =~= seq![]);
    let raw = match value {
        None => {
            return Ok((queries, None));
        },
        Some(raw) => raw,
    };
    let entries = match raw {
        Json::Null => {
            return Ok((queries, None));
        },
        Json::Array(entries) => entries,
        _ => {
            return Err(ApiError::invalid_query("vectorQueries must be an array."));
        },
    };
    if entries.len() == 0 {
        return Ok((queries, None));
    }
    if entries.len() > MAX_VECTOR_QUERIES {
        return Err(
            ApiError::invalid_query(
                cat3(
                    "At most ",
                    decimal_text(MAX_VECTOR_QUERIES as u64).as_str(),
                    " vector queries are supported.",
                ).as_str(),
            ),
        );
    }
    let ghost all = values(entries@);
    let ghost vs = texts(vectorized@);
    let mut i: usize = 0;
    while i < entries.len()
        invariant
            i <= entries@.len(),
            vector_queries_from(all, 0, seq![], definition@, vs) == vector_queries_from(
                all,
                i as int,
                vector_query_views(queries@),
                definition@,
                vs,
            ),
        decreases entries@.len() - i,
    {
        assert(all[i as int] == entries@[i as int]@);
        let query = parse_vector_query(&entries[i], definition, vectorized)?;
        let ghost before = vector_query_views(queries@);
        queries.push(query);
        assert(vector_query_views(queries@) == before.push(query@));
        i += 1;
    }
    Ok((queries, Some(raw.duplicate())))
}

/// The vector options of a request.
pub open spec fn vector_options_of(
    m: Seq<(Seq<char>, JsonV)>,
    d: IndexV,
    vectorized: Seq<Seq<char>>,
) -> Result<(Seq<VectorQueryV>, Option<JsonV>, VectorFilterMode), ApiErrorV> {
    match vector_filter_mode_of(member_or(m, "vectorFilterMode"@, "vector_filter_mode"@)) {
        Err(e) => Err(e),
        Ok(mode) => match vector_queries_of(
            member_or(m, "vectorQueries"@, "vector_queries"@),
            d,
            vectorized,
        ) {
            Err(e) => Err(e),
            Ok((queries, raw)) => Ok((queries, raw, mode)),
        },
    }
}

/// Parses the top-level vector options: `vectorQueries` (`vector_queries` SDK
/// alias accepted) plus `vectorFilterMode` (`vector_filter_mode` SDK alias
/// accepted).
pub fn parse_vector_options(
    obj: &JsonMap,
    definition: &IndexDefinition,
    vectorized: &Vec<String>,
) -> (r: Result<(Vec<VectorQuery>, Option<Json>, VectorFilterMode), ApiError>)
    ensures
        match r {
            Ok((queries, raw, mode)) => vector_options_of(
                obj@,
                definition@,
                texts(vectorized@),
            ) == Ok::<_, ApiErrorV>((vector_query_views(queries@), opt_owned(raw), mode)),
            Err(e) => vector_options_of(obj@, definition@, texts(vectorized@)) == Err::<
                (Seq<VectorQueryV>, Option<JsonV>, VectorFilterMode),
                _,
            >(e@),
        },
{
    let mode = parse_vector_filter_mode(obj.get_or("vectorFilterMode", "vector_filter_mode"))?;
    let (queries, raw) = parse_vector_queries(
        obj.get_or("vectorQueries", "vector_queries"),
        definition,
        vectorized,
    )?;
    Ok((queries, raw, mode))
}

// ---------------------------------------------------------------------------
// Vector changes
// ---------------------------------------------------------------------------

/// A vector field to index: its name, dimension, and profile.
#[derive(Debug, PartialEq, Eq)]
pub struct VectorIndexField {
    pub name: String,
    pub dimension: usize,
    pub profile: String,
}

/// The mathematical value of a [`VectorIndexField`].
pub struct VectorIndexFieldV {
    pub name: Seq<char>,
    pub dimension: usize,
    pub profile: Seq<char>,
}

impl View for VectorIndexField {
    type V = VectorIndexFieldV;

    open spec fn view(&self) -> VectorIndexFieldV {
        VectorIndexFieldV {
            name: self.name@,
            dimension: self.dimension,
            profile: self.profile@,
        }
    }
}

pub open spec fn index_field_views(v: Seq<VectorIndexField>) -> Seq<VectorIndexFieldV> {
    v.map_values(|f: VectorIndexField| f@)
}

/// The vector fields among the first `n` fields.
pub open spec fn vector_fields_of(fields: Seq<FieldV>, n: int) -> Seq<VectorIndexFieldV>
    decreases n,
{
    if n <= 0 {
        seq![]
    } else {
        let rest = vector_fields_of(fields, n - 1);
        let f = fields[n - 1];
        if f.vector() {
            rest.push(
                VectorIndexFieldV {
                    name: f.name,
                    dimension: dimensions_of(f),
                    profile: match f.vector_search_profile {
                        Some(p) => p,
                        None => seq![],
                    },
                },
            )
        } else {
            rest
        }
    }
}

/// The per-field vector indexes that an index needs.
pub fn vector_index_fields(definition: &IndexDefinition) -> (r: Vec<VectorIndexField>)
    ensures
        index_field_views(r@) == vector_fields_of(
            definition@.fields,
            definition@.fields.len() as int,
        ),
{
    let ghost all = field_views(definition.fields@);
    let mut out: Vec<VectorIndexField> = Vec::new();
    let mut i: usize = 0;
    assert(index_field_views(out@) =~= seq![]);
    while i < definition.fields.len()
        invariant
            all == field_views(definition.fields@),
            i <= definition.fields@.len(),
            index_field_views(out@) == vector_fields_of(all, i as int),
        decreases definition.fields@.len() - i,
    {
        assert(all[i as int] == definition.fields@[i as int]@);
        let f = &definition.fields[i];
        if f.is_vector_field() {
            let ghost before = index_field_views(out@);
            let item = VectorIndexField {
                name: f.name.clone(),
                dimension: match f.vector_dimensions {
                    Some(n) => n,
                    None => 0,
                },
                profile: match &f.vector_search_profile {
                    Some(p) => p.clone(),
                    None => {
                        let p = String::new();
                        assert(p@ =~= seq![]);
                        p
                    },
                },
            };
            out.push(item);
            assert(index_field_views(out@) =~= before.push(item@));
        }
        i += 1;
    }
    out
}

/// One document's vector for a field: what to index, or, where the document has
/// none, what to drop.
#[derive(Debug, PartialEq, Eq)]
pub struct VectorChange {
    pub key: String,
    pub field: String,
    pub vector: Option<Vec<u64>>,
}

/// The mathematical value of a [`VectorChange`].
pub struct VectorChangeV {
    pub key: Seq<char>,
    pub field: Seq<char>,
    pub vector: Option<Seq<u64>>,
}

impl View for VectorChange {
    type V = VectorChangeV;

    open spec fn view(&self) -> VectorChangeV {
        VectorChangeV {
            key: self.key@,
            field: self.field@,
            vector: match self.vector {
                Some(v) => Some(v@),
                None => None,
            },
        }
    }
}

pub open spec fn change_views(v: Seq<VectorChange>) -> Seq<VectorChangeV> {
    v.map_values(|c: VectorChange| c@)
}

/// The change of one document for a field.
pub open spec fn vector_change_of(doc: DocumentV, field: Seq<char>) -> Result<
    VectorChangeV,
    Seq<char>,
> {
    match member(doc.fields, field) {
        None => Ok(VectorChangeV { key: doc.key, field, vector: None }),
        Some(JsonV::Array(items)) => match vector_of(items) {
            Ok(v) => Ok(VectorChangeV { key: doc.key, field, vector: Some(v) }),
            Err(_) => Err(
                "Field "@ + debug_text(field) + " must contain only finite numeric values."@,
            ),
        },
        Some(_) => Err("Field "@ + debug_text(field) + " must be an array of numbers."@),
    }
}

/// The changes of one document for the vector fields from `i` on, behind those
/// in `done`.
pub open spec fn document_changes(
    doc: DocumentV,
    fields: Seq<VectorIndexFieldV>,
    i: int,
    done: Seq<VectorChangeV>,
) -> Result<Seq<VectorChangeV>, Seq<char>>
    decreases fields.len() - i,
{
    if i >= fields.len() {
        Ok(done)
    } else {
        match vector_change_of(doc, fields[i].name) {
            Err(e) => Err(e),
            Ok(c) => document_changes(doc, fields, i + 1, done.push(c)),
        }
    }
}

/// The changes of the documents from `i` on, behind those in `done`.
pub open spec fn changes_from(
    docs: Seq<DocumentV>,
    i: int,
    fields: Seq<VectorIndexFieldV>,
    done: Seq<VectorChangeV>,
) -> Result<Seq<VectorChangeV>, Seq<char>>
    decreases docs.len() - i,
{
    if i >= docs.len() {
        Ok(done)
    } else {
        match document_changes(docs[i], fields, 0, done) {
            Err(e) => Err(e),
            Ok(more) => changes_from(docs, i + 1, fields, more),
        }
    }
}

fn read_vector_change(doc: &Document, field: &str) -> (r: Result<VectorChange, String>)
    ensures
        match r {
            Ok(c) => vector_change_of(doc@, field@) == Ok::<_, Seq<char>>(c@),
            Err(e) => vector_change_of(doc@, field@) == Err::<VectorChangeV, _>(e@),
        },
{
    broadcast use group_json;

    match doc.fields.get(field) {
        None => Ok(VectorChange { key: doc.key.clone(), field: field.to_owned(), vector: None }),
        Some(Json::Array(items)) => match parse_finite_f32_array(items) {
            Ok(v) => Ok(
                VectorChange { key: doc.key.clone(), field: field.to_owned(), vector: Some(v) },
            ),
            Err(_) => Err(
                cat3(
                    "Field ",
                    quoted(field).as_str(),
                    " must contain only finite numeric values.",
                ),
            ),
        },
        Some(_) => Err(
            cat3("Field ", quoted(field).as_str(), " must be an array of numbers."),
        ),
    }
}

/// Computes what document upserts change in the vector indexes: a vector field
/// absent from an upserted document drops any previously indexed vector for
/// that key and field (full-replace semantics).
pub fn apply_vector_changes(fields: &Vec<VectorIndexField>, upserts: &Vec<Document>) -> (r: Result<
    Vec<VectorChange>,
    String,
>)
    ensures
        match r {
            Ok(v) => changes_from(
                document_views(upserts@),
                0,
                index_field_views(fields@),
                seq![],
            ) == Ok::<_, Seq<char>>(change_views(v@)),
            Err(e) => changes_from(
                document_views(upserts@),
                0,
                index_field_views(fields@),
                seq![],
            ) == Err::<Seq<VectorChangeV>, _>(e@),
        },
{
    let ghost docs = document_views(upserts@);
    let ghost fs = index_field_views(fields@);
    let mut out: Vec<VectorChange> = Vec::new();
    let mut i: usize = 0;
    assert(change_views(out@) =~= seq![]);
    while i < upserts.len()
        invariant
            docs == document_views(upserts@),
            fs == index_field_views(fields@),
            i <= upserts@.len(),
            changes_from(docs, 0, fs, seq![]) == changes_from(
                docs,
                i as int,
                fs,
                change_views(out@),
            ),
        decreases upserts@.len() - i,
    {
        assert(docs[i as int] == upserts@[i as int]@);
        let ghost start = change_views(out@);
        let mut k: usize = 0;
        while k < fields.len()
            invariant
                docs == document_views(upserts@),
                fs == index_field_views(fields@),
                i < upserts@.len(),
                docs[i as int] == upserts@[i as int]@,
                k <= fields@.len(),
                changes_from(docs, 0, fs, seq![]) == changes_from(docs, i as int, fs, start),
                document_changes(docs[i as int], fs, 0, start) == document_changes(
                    docs[i as int],
                    fs,
                    k as int,
                    change_views(out@),
                ),
            decreases fields@.len() - k,
        {
            assert(fs[k as int] == fields@[k as int]@);
            let change = read_vector_change(&upserts[i], fields[k].name.as_str())?;
            let ghost before = change_views(out@);
            out.push(change);
            assert(change_views(out@) =~= before.push(change@));
            k += 1;
        }
        i += 1;
    }
    Ok(out)
}

} // verus!
