//! What vector queries ask for, and what changes in vector indexes.
use crate::error::ApiErrorV;
use crate::json::{JsonV, Number, ONE_RANK, member};
use crate::service::parsing::items_of;
use crate::service::schema_laws::law_vectors_keep_numbers;
use crate::service::types::VectorQueryV;
use crate::service::validation::{FiniteF32ArrayError, vector_of};
use crate::service::vectors::{
    VectorChangeV, VectorIndexFieldV, changes_from, dimensions_of, document_changes, field_set_of,
    query_numbers, shared_dimension, vector_change_of, vector_fields_of, vector_k_of,
    vector_queries_from, vector_queries_of, vector_query_of, vector_weight_of,
};
use crate::storage::definition::{FieldV, field_named};
use crate::storage::document::DocumentV;
use crate::storage::index::IndexV;
use vstd::prelude::*;

verus! {

// ---------------------------------------------------------------------------
// Queries
// ---------------------------------------------------------------------------

proof fn lemma_vector_queries(
    entries: Seq<JsonV>,
    x: JsonV,
    i: int,
    done: Seq<VectorQueryV>,
    d: IndexV,
    vectorized: Seq<Seq<char>>,
)
    requires
        0 <= i <= entries.len(),
    ensures
        vector_queries_from(entries.push(x), i, done, d, vectorized) == (match vector_queries_from(
            entries,
            i,
            done,
            d,
            vectorized,
        ) {
            Err(e) => Err(e),
            Ok(r) => match vector_query_of(x, d, vectorized) {
                Err(e) => Err(e),
                Ok(q) => Ok(r.push(q)),
            },
        }),
    decreases entries.len() - i,
{
    let all = entries.push(x);
    if i < entries.len() {
        assert(all[i] == entries[i]);
        if let Ok(q) = vector_query_of(entries[i], d, vectorized) {
            lemma_vector_queries(entries, x, i + 1, done.push(q), d, vectorized);
        }
    } else {
        assert(all[i] == x);
        if let Ok(q) = vector_query_of(x, d, vectorized) {
            assert(vector_queries_from(all, i + 1, done.push(q), d, vectorized) == Ok::<
                Seq<VectorQueryV>,
                ApiErrorV,
            >(done.push(q)));
        }
    }
}

/// Each entry of `vectorQueries` is a query, in its place.
pub proof fn law_every_vector_query_counts(
    entries: Seq<JsonV>,
    x: JsonV,
    d: IndexV,
    vectorized: Seq<Seq<char>>,
)
    ensures
        vector_queries_from(seq![], 0, seq![], d, vectorized) == Ok::<
            Seq<VectorQueryV>,
            ApiErrorV,
        >(seq![]),
        vector_queries_from(entries.push(x), 0, seq![], d, vectorized) == (
        match vector_queries_from(entries, 0, seq![], d, vectorized) {
            Err(e) => Err(e),
            Ok(r) => match vector_query_of(x, d, vectorized) {
                Err(e) => Err(e),
                Ok(q) => Ok(r.push(q)),
            },
        }),
        entries.len() > 0 ==> (match vector_queries_of(
            Some(JsonV::Array(entries)),
            d,
            vectorized,
        ) {
            Ok((queries, raw)) => raw == Some(JsonV::Array(entries)) && vector_queries_from(
                entries,
                0,
                seq![],
                d,
                vectorized,
            ) == Ok::<Seq<VectorQueryV>, ApiErrorV>(queries) && entries.len() <= 5,
            Err(_) => entries.len() > 5 || vector_queries_from(entries, 0, seq![], d, vectorized)
                is Err,
        }),
{
    lemma_vector_queries(entries, x, 0, seq![], d, vectorized);
}

/// Whether a name is that of a vector field of so many dimensions.
pub open spec fn vector_field_of(d: IndexV, name: Seq<char>, dim: usize) -> bool {
    match field_named(d.fields, name, 0) {
        Some(f) => f.vector() && f.vector_dimensions == Some(dim),
        None => false,
    }
}

proof fn lemma_shared_dimension(
    names: Seq<Seq<char>>,
    i: int,
    dim: Option<usize>,
    d: IndexV,
    n: usize,
)
    requires
        0 <= i <= names.len(),
        dim is Some || i < names.len(),
    ensures
        shared_dimension(names, i, dim, d, None) == Ok::<Option<usize>, ApiErrorV>(Some(n)) <==> (
        dim is None || dim == Some(n)) && forall|k: int|
            i <= k < names.len() ==> vector_field_of(d, #[trigger] names[k], n),
        shared_dimension(names, i, dim, d, None) matches Ok(r) ==> r is Some,
    decreases names.len() - i,
{
    if i < names.len() {
        let f = field_named(d.fields, names[i], 0);
        if f is Some && f->Some_0.vector() {
            let own = dimensions_of(f->Some_0);
            lemma_shared_dimension(names, i + 1, Some(own), d, n);
            assert(vector_field_of(d, names[i], n) <==> own == n);
        } else {
            assert(!vector_field_of(d, names[i], n));
        }
    }
}

/// A vector query names vector fields of the index, all of the same dimension, and has
/// as many numbers.
pub proof fn law_vector_query_fields(
    m: Seq<(Seq<char>, JsonV)>,
    value: JsonV,
    names: Seq<Seq<char>>,
    d: IndexV,
    n: usize,
)
    requires
        member(m, "fields"@) == Some(value),
        items_of(value, "vector query fields"@) == Ok::<Seq<Seq<char>>, ApiErrorV>(names),
    ensures
        field_set_of(m, d, None) == Ok::<(Seq<Seq<char>>, usize), ApiErrorV>((names, n)) <==>
            names.len() > 0 && forall|k: int|
            0 <= k < names.len() ==> vector_field_of(d, #[trigger] names[k], n),
        field_set_of(m, d, None) matches Ok((list, dim)) ==> list == names,
{
    if names.len() > 0 {
        lemma_shared_dimension(names, 0, None, d, n);
    }
}

/// The numbers of a vector query are those of its list, each in its place.
pub proof fn law_vector_query_numbers(
    m: Seq<(Seq<char>, JsonV)>,
    items: Seq<JsonV>,
    names: Seq<Seq<char>>,
    dim: usize,
    k: int,
)
    requires
        member(m, "vector"@) == Some(JsonV::Array(items)),
        items.len() <= usize::MAX,
    ensures
        query_numbers(m, names, dim) is Ok ==> items.len() == dim && query_numbers(
            m,
            names,
            dim,
        )->Ok_0.len() == items.len() && (0 <= k < items.len() ==> items[k] is Number
            && query_numbers(m, names, dim)->Ok_0[k] == items[k]->Number_0.rank_spec()),
        query_numbers(m, names, dim) is Ok <==> items.len() == dim && vector_of(items) is Ok,
{
    if query_numbers(m, names, dim) is Ok && items.len() > 0 {
        law_vectors_keep_numbers(items, 0);
        if 0 <= k < items.len() {
            law_vectors_keep_numbers(items, k);
        }
    }
    if items.len() == 0 {
        assert(vector_of(items) == Ok::<Seq<u64>, FiniteF32ArrayError>(seq![]));
    }
}

/// A vector query asks for the 3 nearest where it does not say, and for up to 1000; it
/// weighs one where it does not say.
pub proof fn law_vector_query_defaults(m: Seq<(Seq<char>, JsonV)>, n: u64)
    ensures
        member(m, "k"@) == Some(JsonV::Number(Number::PosInt(n))) ==> (vector_k_of(m) is Ok <==> 1
            <= n <= 1000),
        member(m, "k"@) == Some(JsonV::Number(Number::PosInt(n))) && 1 <= n <= 1000 ==> vector_k_of(
            m,
        ) == Ok::<usize, ApiErrorV>(n as usize),
        member(m, "k"@) is None && member(m, "k_nearest_neighbors"@) is None && member(
            m,
            "kNearestNeighbors"@,
        ) is None ==> vector_k_of(m) == Ok::<usize, ApiErrorV>(3),
        member(m, "weight"@) is None ==> vector_weight_of(m) == Ok::<u64, ApiErrorV>(ONE_RANK),
{
}

// ---------------------------------------------------------------------------
// Indexes
// ---------------------------------------------------------------------------

proof fn lemma_vector_fields(fields: Seq<FieldV>, n: int, x: VectorIndexFieldV)
    requires
        0 <= n <= fields.len(),
    ensures
        vector_fields_of(fields, n).contains(x) <==> exists|k: int|
            0 <= k < n && indexes_field(x, #[trigger] fields[k]),
    decreases n,
{
    if n > 0 {
        lemma_vector_fields(fields, n - 1, x);
        let rest = vector_fields_of(fields, n - 1);
        let all = vector_fields_of(fields, n);
        if rest.contains(x) {
            let j = choose|j: int| 0 <= j < rest.len() && rest[j] == x;
            assert(all[j] == x);
        }
        if indexes_field(x, fields[n - 1]) {
            assert(all[rest.len() as int] == x);
        }
        if all.contains(x) {
            let j = choose|j: int| 0 <= j < all.len() && all[j] == x;
            if j < rest.len() {
                assert(rest[j] == x);
            } else {
                assert(indexes_field(x, fields[n - 1]));
            }
        }
    }
}

/// Whether a vector index is that of a vector field: with its name, its dimensions and
/// its profile.
pub open spec fn indexes_field(x: VectorIndexFieldV, f: FieldV) -> bool {
    &&& f.vector()
    &&& x.name == f.name
    &&& f.vector_dimensions == Some(x.dimension)
    &&& x.profile == match f.vector_search_profile {
        Some(p) => p,
        None => seq![],
    }
}

/// An index has a vector index for each of its vector fields, and for nothing else.
pub proof fn law_every_vector_field_is_indexed(fields: Seq<FieldV>, x: VectorIndexFieldV)
    ensures
        vector_fields_of(fields, fields.len() as int).contains(x) <==> exists|k: int|
            0 <= k < fields.len() && indexes_field(x, #[trigger] fields[k]),
{
    lemma_vector_fields(fields, fields.len() as int, x);
}

proof fn lemma_document_changes(
    doc: DocumentV,
    fields: Seq<VectorIndexFieldV>,
    x: VectorIndexFieldV,
    i: int,
    done: Seq<VectorChangeV>,
)
    requires
        0 <= i <= fields.len(),
    ensures
        document_changes(doc, fields.push(x), i, done) == (match document_changes(
            doc,
            fields,
            i,
            done,
        ) {
            Err(e) => Err(e),
            Ok(r) => match vector_change_of(doc, x.name) {
                Err(e) => Err(e),
                Ok(c) => Ok(r.push(c)),
            },
        }),
    decreases fields.len() - i,
{
    let all = fields.push(x);
    if i < fields.len() {
        assert(all[i] == fields[i]);
        if let Ok(c) = vector_change_of(doc, fields[i].name) {
            lemma_document_changes(doc, fields, x, i + 1, done.push(c));
        }
    } else {
        assert(all[i] == x);
        if let Ok(c) = vector_change_of(doc, x.name) {
            assert(document_changes(doc, all, i + 1, done.push(c)) == Ok::<
                Seq<VectorChangeV>,
                Seq<char>,
            >(done.push(c)));
        }
    }
}

proof fn lemma_changes(
    docs: Seq<DocumentV>,
    doc: DocumentV,
    i: int,
    fields: Seq<VectorIndexFieldV>,
    done: Seq<VectorChangeV>,
)
    requires
        0 <= i <= docs.len(),
    ensures
        changes_from(docs.push(doc), i, fields, done) == (match changes_from(
            docs,
            i,
            fields,
            done,
        ) {
            Err(e) => Err(e),
            Ok(r) => document_changes(doc, fields, 0, r),
        }),
    decreases docs.len() - i,
{
    let all = docs.push(doc);
    if i < docs.len() {
        assert(all[i] == docs[i]);
        if let Ok(more) = document_changes(docs[i], fields, 0, done) {
            lemma_changes(docs, doc, i + 1, fields, more);
        }
    } else {
        assert(all[i] == doc);
        if let Ok(more) = document_changes(doc, fields, 0, done) {
            assert(changes_from(all, i + 1, fields, more) == Ok::<Seq<VectorChangeV>, Seq<char>>(
                more,
            ));
        }
    }
}

/// Each document changes each vector index: one more field is one more change, and one
/// more document is one more change for each field. A document without the field leaves
/// the index, and one with it has the numbers of its list there.
pub proof fn law_every_document_changes_every_index(
    docs: Seq<DocumentV>,
    doc: DocumentV,
    fields: Seq<VectorIndexFieldV>,
    x: VectorIndexFieldV,
    done: Seq<VectorChangeV>,
)
    ensures
        document_changes(doc, seq![], 0, done) == Ok::<Seq<VectorChangeV>, Seq<char>>(done),
        document_changes(doc, fields.push(x), 0, done) == (match document_changes(
            doc,
            fields,
            0,
            done,
        ) {
            Err(e) => Err(e),
            Ok(r) => match vector_change_of(doc, x.name) {
                Err(e) => Err(e),
                Ok(c) => Ok(r.push(c)),
            },
        }),
        changes_from(seq![], 0, fields, done) == Ok::<Seq<VectorChangeV>, Seq<char>>(done),
        changes_from(docs.push(doc), 0, fields, done) == (match changes_from(
            docs,
            0,
            fields,
            done,
        ) {
            Err(e) => Err(e),
            Ok(r) => document_changes(doc, fields, 0, r),
        }),
        vector_change_of(doc, x.name) matches Ok(c) ==> c.key == doc.key && c.field == x.name && (
        match member(doc.fields, x.name) {
            None => c.vector is None,
            Some(JsonV::Array(items)) => vector_of(items) is Ok && c.vector == Some(
                vector_of(items)->Ok_0,
            ),
            Some(_) => false,
        }),
{
    lemma_document_changes(doc, fields, x, 0, done);
    lemma_changes(docs, doc, 0, fields, done);
}

} // verus!
