//! The service: indexes, documents, and named resources.
use crate::error::{
    ApiError, ApiErrorV, ErrorCode, bad_request_v, conflict_v, internal_v, invalid_index_v,
    invalid_query_v, not_found_v, unit_result,
};
use crate::json::{Json, JsonV, group_json, values};
use crate::query::analyzers::{
    is_known_analyzer, known_analyzer, known_analyzer_list, known_analyzers_text, opt_str,
};
use crate::query::engine::{
    EngineIndex, EngineIndexV, SearchEngine, empty_index, engine_index, engine_schema, engine_wf,
    is_engine_schema, searchable_of, with_indexed, without_indexed,
};
use crate::query::fulltext::IndexedV;
use crate::query::lucene::{QueryError, QueryErrorV};
use crate::query::plan::{SearchableV, columns_below};
use crate::service::documents::{
    BatchV, DocumentBatch, after_actions, apply_actions, missing_message, missing_text,
};
use crate::service::paging::{keep_stored, stored_members};
use crate::service::resources::{
    NamedResource, NamedResourceV, ResourceKind, ResourceStore, etag_text, named_resource,
    next_count, target_of,
};
use crate::service::schema::{VectorSupport, VectorSupportV, schema_problem, validate_schema};
use crate::service::synonyms::{
    RuleV, SynonymMap, SynonymMapV, checked_rules, expansions_of, synonym_map_check,
};
use crate::service::types::{DocumentAction, IndexingResultItem, action_views, result_views};
use crate::service::vectors::{
    VectorChange, apply_vector_changes, change_views, changes_from, vector_fields_of,
    vector_index_fields,
};
use crate::storage::definition::{FieldDefinition, FieldV, field_by_path, field_views, opt_field};
use crate::storage::document::{Document, DocumentV, document_views};
use crate::storage::index::{IndexDefinition, IndexV, index_of};
use crate::storage::keyed::{
    Keyed, KeyedList, item_views, keyed_find, keyed_put, keyed_remove, keyed_replace,
    keyed_sorted, law_found_item_has_key, law_put_item_is_found, law_put_keeps_order,
    law_remove_after_put, law_remove_keeps_order, law_remove_of_absent, law_remove_undoes_put,
    law_removed_item_is_gone, law_replace_after_put, law_replaced_item_is_found,
};
use crate::storage::memory::{
    EntryV, InMemoryStorage, IndexEntry, documents_put, documents_removed, entry_named,
    index_names, law_deleted_index, law_stored_documents, lemma_found_has_key,
    lemma_put_items_sorted, storage_sorted, with_documents,
};
use crate::text::{
    cat2, cat3, cat4, cat5, debug_text, lemma_text_less_irreflexive, quoted, same_text, text_less,
    texts,
};
use vstd::prelude::*;

verus! {

/// The search service: index lifecycle, documents, synonym maps, and named
/// resources (aliases, knowledge sources, knowledge bases), each with a store of
/// its own.
pub struct SearchService {
    storage: InMemoryStorage,
    engine: SearchEngine,
    /// Cap on accepted vector dimensions.
    max_vector_dimension: usize,
    synonym_maps: ResourceStore<SynonymMap>,
    aliases: ResourceStore<NamedResource>,
    knowledge_sources: ResourceStore<NamedResource>,
    knowledge_bases: ResourceStore<NamedResource>,
}

/// The mathematical value of a store of named resources: the resources, and how
/// many tags were given out.
pub struct NamedStoreV {
    pub items: Seq<NamedResourceV>,
    pub tags: u64,
}

/// The mathematical value of a store of synonym maps.
pub struct SynonymStoreV {
    pub items: Seq<SynonymMapV>,
    pub tags: u64,
}

/// The mathematical value of a [`SearchService`].
pub struct ServiceV {
    pub storage: Seq<EntryV>,
    pub engine: Seq<EngineIndexV>,
    pub max_vector_dimension: usize,
    pub synonym_maps: SynonymStoreV,
    pub aliases: NamedStoreV,
    pub knowledge_sources: NamedStoreV,
    pub knowledge_bases: NamedStoreV,
}

pub open spec fn named_store_view(s: ResourceStore<NamedResource>) -> NamedStoreV {
    NamedStoreV { items: s.contents(), tags: s.count() }
}

pub open spec fn synonym_store_view(s: ResourceStore<SynonymMap>) -> SynonymStoreV {
    SynonymStoreV { items: s.contents(), tags: s.count() }
}

impl View for SearchService {
    type V = ServiceV;

    closed spec fn view(&self) -> ServiceV {
        ServiceV {
            storage: self.storage@,
            engine: self.engine@,
            max_vector_dimension: self.max_vector_dimension,
            synonym_maps: synonym_store_view(self.synonym_maps),
            aliases: named_store_view(self.aliases),
            knowledge_sources: named_store_view(self.knowledge_sources),
            knowledge_bases: named_store_view(self.knowledge_bases),
        }
    }
}

/// Whether what the service holds stands in order.
pub open spec fn service_wf(s: ServiceV) -> bool {
    storage_sorted(s.storage) && engine_wf(s.engine)
}

impl ServiceV {
    /// The store of a kind of named resources.
    pub open spec fn named(self, kind: ResourceKind) -> NamedStoreV {
        match kind {
            ResourceKind::Alias => self.aliases,
            ResourceKind::KnowledgeSource => self.knowledge_sources,
            _ => self.knowledge_bases,
        }
    }

    /// The service with the store of a kind replaced.
    pub open spec fn with_named(self, kind: ResourceKind, store: NamedStoreV) -> ServiceV {
        match kind {
            ResourceKind::Alias => ServiceV { aliases: store, ..self },
            ResourceKind::KnowledgeSource => ServiceV { knowledge_sources: store, ..self },
            _ => ServiceV { knowledge_bases: store, ..self },
        }
    }

    /// The index that a name stands for: the target of an alias, or the name
    /// itself.
    pub open spec fn resolved(self, name: Seq<char>) -> Seq<char> {
        match keyed_find::<NamedResource>(self.aliases.items, name) {
            Some(alias) => match target_of(alias.raw) {
                Some(target) => target,
                None => name,
            },
            None => name,
        }
    }

    /// The index with its documents that a name leads to.
    pub open spec fn entry(self, name: Seq<char>) -> Option<EntryV> {
        entry_named(self.storage, self.resolved(name))
    }
}

/// What is said of an index that is not there.
pub open spec fn no_index(name: Seq<char>) -> ApiErrorV {
    not_found_v("Index "@ + debug_text(name) + " was not found."@)
}

pub(crate) fn index_missing(name: &str) -> (r: ApiError)
    ensures
        r@ == no_index(name@),
{
    ApiError::not_found(cat3("Index ", quoted(name).as_str(), " was not found.").as_str())
}

/// The error that a query-engine failure is to a client.
pub open spec fn engine_error_v(index: Seq<char>, e: QueryErrorV) -> ApiErrorV {
    match e {
        QueryErrorV::IndexNotFound(name) => no_index(name),
        QueryErrorV::InvalidQuery(m) => invalid_query_v("Invalid search text: "@ + m),
        QueryErrorV::Engine(m) => internal_v(
            "Search failed for index "@ + debug_text(index) + ": "@ + m,
        ),
    }
}

/// Maps a query-engine failure onto a client-facing error.
pub fn engine_error(index: &str, error: QueryError) -> (r: ApiError)
    ensures
        r@ == engine_error_v(index@, error@),
{
    match error {
        QueryError::IndexNotFound(name) => index_missing(name.as_str()),
        QueryError::InvalidQuery(m) => ApiError::invalid_query(
            cat2("Invalid search text: ", m.as_str()).as_str(),
        ),
        QueryError::Engine(m) => ApiError::internal(
            cat4("Search failed for index ", quoted(index).as_str(), ": ", m.as_str()).as_str(),
        ),
    }
}

/// Whether an error is an engine's failure on an index.
pub open spec fn is_engine_failure(index: Seq<char>, e: ApiErrorV) -> bool {
    exists|m: Seq<char>| e == #[trigger] engine_error_v(index, QueryErrorV::Engine(m))
}

// ---------------------------------------------------------------------------
// Compatible schemas
// ---------------------------------------------------------------------------

/// The last field with a name.
pub open spec fn last_named(fields: Seq<FieldV>, name: Seq<char>) -> Option<FieldV>
    decreases fields.len(),
{
    if fields.len() == 0 {
        None
    } else if fields.last().name == name {
        Some(fields.last())
    } else {
        last_named(fields.drop_last(), name)
    }
}

/// Whether a field is kept by fields: with its name, type, and dimensions.
pub open spec fn keeps_field(fields: Seq<FieldV>, f: FieldV) -> bool {
    match last_named(fields, f.name) {
        Some(n) => f.field_type == n.field_type && f.vector_dimensions == n.vector_dimensions,
        None => false,
    }
}

/// Whether an in-place index update is compatible with stored documents: every
/// field of the old schema is kept.
pub open spec fn compatible(old_fields: Seq<FieldV>, new_fields: Seq<FieldV>) -> bool {
    forall|i: int| 0 <= i < old_fields.len() ==> keeps_field(new_fields, #[trigger] old_fields[i])
}

fn find_last_named<'a>(fields: &'a Vec<FieldDefinition>, name: &str) -> (r: Option<
    &'a FieldDefinition,
>)
    ensures
        opt_field(r) == last_named(field_views(fields@), name@),
{
    let ghost all = field_views(fields@);
    let mut n: usize = fields.len();
    assert(all.take(n as int) =~= all);
    while n > 0
        invariant
            all == field_views(fields@),
            n <= fields@.len(),
            last_named(all, name@) == last_named(all.take(n as int), name@),
        decreases n,
    {
        assert(all.take(n as int).last() == fields@[n - 1]@);
        assert(all.take(n as int).drop_last() =~= all.take(n - 1));
        if same_text(fields[n - 1].name.as_str(), name) {
            return Some(&fields[n - 1]);
        }
        n -= 1;
    }
    None
}

fn same_dimensions(a: Option<usize>, b: Option<usize>) -> (r: bool)
    ensures
        r == (a == b),
{
    match (a, b) {
        (Some(x), Some(y)) => x == y,
        (None, None) => true,
        _ => false,
    }
}

/// Whether an in-place index update is compatible with the stored documents:
/// every field in the old schema must still exist in the new schema with the
/// same name and type (and, for vector fields, the same dimensions). Adding
/// fields or changing field attributes (`filterable`, `facetable`, `searchable`,
/// analyzers, ...) is compatible; removing a field or changing its type or
/// vector dimensions is not, in which case the index is replaced and its
/// documents discarded.
pub fn schema_compatible(old_index: &IndexDefinition, new_index: &IndexDefinition) -> (r: bool)
    ensures
        r == compatible(old_index@.fields, new_index@.fields),
{
    let ghost all = old_index@.fields;
    let mut i: usize = 0;
    while i < old_index.fields.len()
        invariant
            all == old_index@.fields,
            all == field_views(old_index.fields@),
            i <= old_index.fields@.len(),
            forall|k: int| 0 <= k < i ==> keeps_field(new_index@.fields, #[trigger] all[k]),
        decreases old_index.fields@.len() - i,
    {
        let f = &old_index.fields[i];
        assert(all[i as int] == f@);
        let kept = match find_last_named(&new_index.fields, f.name.as_str()) {
            Some(n) => f.field_type.same(&n.field_type) && same_dimensions(
                f.vector_dimensions,
                n.vector_dimensions,
            ),
            None => false,
        };
        if !kept {
            assert(!keeps_field(new_index@.fields, all[i as int]));
            return false;
        }
        i += 1;
    }
    true
}

// ---------------------------------------------------------------------------
// Indexes
// ---------------------------------------------------------------------------

/// Why an index definition is refused, before anything is changed.
pub open spec fn index_refused(s: ServiceV, raw: JsonV, support: VectorSupportV) -> Result<
    IndexV,
    ApiErrorV,
> {
    match index_of(raw) {
        Err(m) => Err(invalid_index_v(m)),
        Ok(d) => match schema_problem(d, s.max_vector_dimension as nat, support) {
            Some(m) => Err(invalid_index_v(m)),
            None => if keyed_find::<NamedResource>(s.aliases.items, d.name) is Some {
                Err(
                    conflict_v(
                        ErrorCode::IndexAlreadyExists,
                        "An alias with name "@ + debug_text(d.name) + " already exists."@,
                    ),
                )
            } else {
                Ok(d)
            },
        },
    }
}

/// Whether the engine can index what a definition describes, where it is not
/// refused.
pub open spec fn indexable(s: ServiceV, raw: JsonV, support: VectorSupportV) -> bool {
    index_refused(s, raw, support) matches Ok(d) ==> engine_schema(d.fields)
}

/// The documents that survive a change to a definition.
pub open spec fn preserved(s: ServiceV, d: IndexV) -> Seq<DocumentV> {
    match entry_named(s.storage, d.name) {
        Some(e) => if compatible(e.definition.fields, d.fields) {
            e.documents
        } else {
            seq![]
        },
        None => seq![],
    }
}

/// What creating or updating an index gives: the definition, and what changes
/// in the vector indexes.
pub struct IndexUpdate {
    pub raw: Json,
    pub vectors: Vec<VectorChange>,
}

/// The service without an index, in storage and engine.
pub open spec fn without_index(s: ServiceV, name: Seq<char>) -> ServiceV {
    ServiceV {
        storage: keyed_remove::<IndexEntry>(s.storage, name),
        engine: keyed_remove::<EngineIndex>(s.engine, name),
        ..s
    }
}

/// Whether a service is another with an index put in whose documents are in
/// storage and engine.
pub open spec fn index_put(s: ServiceV, d: IndexV, docs: Seq<DocumentV>, after: ServiceV) -> bool {
    &&& after == (ServiceV { storage: after.storage, engine: after.engine, ..s })
    &&& after.storage == keyed_put::<IndexEntry>(
        s.storage,
        (EntryV { definition: d, documents: documents_put(seq![], docs, docs.len() as int) }),
    )
    &&& exists|e: EngineIndexV|
        #![trigger keyed_put::<EngineIndex>(s.engine, e)]
        after.engine == keyed_put::<EngineIndex>(s.engine, e) && e.name == d.name && e.searchable
            == searchable_of(columns_below(d.fields, seq![])) && e.visible == with_indexed(
            seq![],
            docs,
            e.searchable,
        ) && e.pending == e.visible && e.works
}

fn parse_index_definition(raw: &Json) -> (r: Result<IndexDefinition, ApiError>)
    ensures
        match r {
            Ok(d) => index_of(raw@) is Ok && index_of(raw@)->Ok_0 == d@,
            Err(e) => index_of(raw@) is Err && e@ == invalid_index_v(index_of(raw@)->Err_0),
        },
{
    match IndexDefinition::from_json(raw.duplicate()) {
        Ok(d) => Ok(d),
        Err(m) => Err(ApiError::invalid_index(m.as_str())),
    }
}

proof fn lemma_storage_put(s: Seq<EntryV>, e: EntryV)
    requires
        storage_sorted(s),
        keyed_sorted::<Document>(e.documents),
    ensures
        storage_sorted(keyed_put::<IndexEntry>(s, e)),
{
    law_put_keeps_order::<IndexEntry>(s, e);
    lemma_put_items_sorted(s, e);
}

impl SearchService {
    /// A service without indexes and resources.
    pub fn new(engine: SearchEngine, max_vector_dimension: usize) -> (r: SearchService)
        requires
            engine_wf(engine@),
        ensures
            service_wf(r@),
            r@.storage == Seq::<EntryV>::empty(),
            r@.engine == engine@,
            r@.max_vector_dimension == max_vector_dimension,
            r@.synonym_maps.items == Seq::<SynonymMapV>::empty(),
            forall|kind: ResourceKind| (#[trigger] r@.named(kind)).items == Seq::<
                NamedResourceV,
            >::empty(),
    {
        SearchService {
            storage: InMemoryStorage::new(),
            engine,
            max_vector_dimension,
            synonym_maps: ResourceStore::new(),
            aliases: ResourceStore::new(),
            knowledge_sources: ResourceStore::new(),
            knowledge_bases: ResourceStore::new(),
        }
    }

    /// Resolves an index name through the alias table: when `name` is an alias,
    /// gives its target index (the first entry of the alias's `indexes` array);
    /// otherwise gives `name` unchanged. Data-plane routes accept an alias name
    /// anywhere an index name is accepted.
    pub fn resolve_index_name(&self, name: &str) -> (r: String)
        ensures
            r@ == self@.resolved(name@),
    {
        match self.aliases.resources().get(name) {
            Some(alias) => match alias.target_index() {
                Some(target) => target,
                None => name.to_owned(),
            },
            None => name.to_owned(),
        }
    }

    /// The definition of the index that a name leads to.
    pub fn require_index(&self, name: &str) -> (r: Result<IndexDefinition, ApiError>)
        ensures
            match self@.entry(name@) {
                Some(e) => r is Ok && r->Ok_0@ == e.definition,
                None => r is Err && r->Err_0@ == no_index(name@),
            },
    {
        let resolved = self.resolve_index_name(name);
        match self.storage.get_index(resolved.as_str()) {
            Some(d) => Ok(d),
            None => Err(index_missing(name)),
        }
    }

    fn check_definition(&self, raw: &Json, support: &VectorSupport) -> (r: Result<
        IndexDefinition,
        ApiError,
    >)
        ensures
            match r {
                Ok(d) => index_refused(self@, raw@, support@) is Ok && index_refused(
                    self@,
                    raw@,
                    support@,
                )->Ok_0 == d@,
                Err(e) => index_refused(self@, raw@, support@) is Err && index_refused(
                    self@,
                    raw@,
                    support@,
                )->Err_0 == e@,
            },
    {
        let definition = parse_index_definition(raw)?;
        validate_schema(&definition, self.max_vector_dimension, support)?;
        self.check_alias_collision(definition.name.as_str())?;
        Ok(definition)
    }

    /// Index and alias names share the data-plane namespace (aliases resolve
    /// where index names are accepted), so an index may not shadow an alias.
    fn check_alias_collision(&self, name: &str) -> (r: Result<(), ApiError>)
        ensures
            match r {
                Ok(_) => keyed_find::<NamedResource>(self@.aliases.items, name@) is None,
                Err(e) => keyed_find::<NamedResource>(self@.aliases.items, name@) is Some && e@
                    == conflict_v(
                    ErrorCode::IndexAlreadyExists,
                    "An alias with name "@ + debug_text(name@) + " already exists."@,
                ),
            },
    {
        if self.aliases.contains(name) {
            return Err(
                ApiError::conflict(
                    ErrorCode::IndexAlreadyExists,
                    cat3(
                        "An alias with name ",
                        quoted(name).as_str(),
                        " already exists.",
                    ).as_str(),
                ),
            );
        }
        Ok(())
    }

    /// Removes an index from storage and the search engine. Deleting an index
    /// that does not exist changes nothing in either, so this is safe to call
    /// after any partial creation to restore the prior state and avoid
    /// divergence.
    pub fn rollback_index(&mut self, name: &str)
        requires
            service_wf(old(self)@),
        ensures
            final(self)@ == without_index(old(self)@, name@),
            service_wf(final(self)@),
    {
        let ghost before = self@;
        self.storage.delete_index(name);
        self.engine.delete_index(name);
        proof {
            law_deleted_index(before.storage, name@, name@);
        }
    }

    /// Whether the engine can index what a raw `SearchIndex` definition describes,
    /// or the definition is refused before it comes to that. The names of the
    /// searchable fields have to differ from each other and from the key's field,
    /// and none may be empty or start with a hyphen.
    pub fn can_index(&self, raw: &Json, support: &VectorSupport) -> (r: bool)
        ensures
            r == indexable(self@, raw@, support@),
    {
        match self.check_definition(raw, support) {
            Ok(definition) => is_engine_schema(&definition.fields),
            Err(_) => true,
        }
    }

    /// Creates an index from a raw `SearchIndex` definition, giving the echoed
    /// definition on success.
    pub fn create_index(&mut self, raw: &Json, support: &VectorSupport) -> (r: Result<
        Json,
        ApiError,
    >)
        requires
            service_wf(old(self)@),
            indexable(old(self)@, raw@, support@),
        ensures
            service_wf(final(self)@),
            match index_refused(old(self)@, raw@, support@) {
                Err(e) => r is Err && r->Err_0@ == e && final(self)@ == old(self)@,
                Ok(d) => if entry_named(old(self)@.storage, d.name) is Some {
                    r is Err && r->Err_0@ == conflict_v(
                        ErrorCode::IndexAlreadyExists,
                        "An index with name "@ + debug_text(d.name) + " already exists."@,
                    ) && final(self)@ == old(self)@
                } else {
                    match r {
                        Ok(v) => v@ == d.raw && index_put(old(self)@, d, seq![], final(self)@),
                        Err(e) => is_engine_failure(d.name, e@) && final(self)@ == (ServiceV {
                            engine: keyed_remove::<EngineIndex>(old(self)@.engine, d.name),
                            ..old(self)@
                        }),
                    }
                },
            },
    {
        let ghost before = self@;
        let definition = self.check_definition(raw, support)?;
        match self.storage.create_index(&definition) {
            Ok(_) => {},
            Err(_) => {
                return Err(
                    ApiError::conflict(
                        ErrorCode::IndexAlreadyExists,
                        cat3(
                            "An index with name ",
                            quoted(definition.name.as_str()).as_str(),
                            " already exists.",
                        ).as_str(),
                    ),
                );
            },
        }
        proof {
            lemma_storage_put(
                before.storage,
                EntryV { definition: definition@, documents: seq![] },
            );
        }
        match self.engine.create_index(definition.name.as_str(), &definition.fields) {
            Ok(_) => {},
            Err(e) => {
                // This index did not exist before, so removing it restores the
                // prior state.
                self.rollback_index(definition.name.as_str());
                proof {
                    law_remove_undoes_put::<IndexEntry>(
                        before.storage,
                        EntryV { definition: definition@, documents: seq![] },
                    );
                    assert(e@ == QueryErrorV::Engine(e@->Engine_0));
                }
                let x = engine_error(definition.name.as_str(), e);
                assert(is_engine_failure(definition@.name, x@));
                return Err(x);
            },
        }
        assert(index_put(before, definition@, seq![], self@));
        Ok(definition.raw.duplicate())
    }

    /// Creates or updates an index from a raw `SearchIndex` definition. When the
    /// index already exists and the schema change is compatible with its stored
    /// documents (every existing field is kept with the same name, type, and, for
    /// vector fields, dimensions), the documents are preserved and re-indexed.
    /// Otherwise the index is replaced and its documents are discarded. A failure
    /// of the engine rolls the index back to absent.
    pub fn create_or_update_index(&mut self, raw: &Json, support: &VectorSupport) -> (r: Result<
        IndexUpdate,
        ApiError,
    >)
        requires
            service_wf(old(self)@),
            indexable(old(self)@, raw@, support@),
        ensures
            service_wf(final(self)@),
            match index_refused(old(self)@, raw@, support@) {
                Err(e) => r is Err && r->Err_0@ == e && final(self)@ == old(self)@,
                Ok(d) => {
                    let docs = preserved(old(self)@, d);
                    let changes = changes_from(
                        docs,
                        0,
                        vector_fields_of(d.fields, d.fields.len() as int),
                        seq![],
                    );
                    match r {
                        Ok(v) => v.raw@ == d.raw && changes is Ok && change_views(v.vectors@)
                            == changes->Ok_0 && index_put(
                            (ServiceV {
                                engine: keyed_remove::<EngineIndex>(old(self)@.engine, d.name),
                                ..old(self)@
                            }),
                            d,
                            docs,
                            final(self)@,
                        ),
                        Err(e) => final(self)@ == without_index(old(self)@, d.name) && (
                        is_engine_failure(d.name, e@) || changes is Err && e@ == internal_v(
                            "Vector re-indexing failed for index "@ + debug_text(d.name) + ": "@
                                + changes->Err_0,
                        )),
                    }
                },
            },
    {
        let ghost before = self@;
        let definition = self.check_definition(raw, support)?;
        let name = definition.name.as_str();
        let documents: Vec<Document> = match self.storage.get_index(name) {
            Some(existing) => if schema_compatible(&existing, &definition) {
                match self.storage.get_documents(name) {
                    Ok(docs) => docs,
                    Err(_) => Vec::new(),
                }
            } else {
                Vec::new()
            },
            None => Vec::new(),
        };
        assert(document_views(documents@) =~= preserved(before, definition@));
        let ghost docs = document_views(documents@);
        let ghost stored = EntryV { definition: definition@, documents: seq![] };
        self.storage.upsert_index(&definition);
        proof {
            lemma_storage_put(before.storage, stored);
        }
        self.engine.delete_index(name);
        let ghost cleared = self.engine@;
        proof {
            law_remove_after_put::<IndexEntry>(before.storage, stored);
            law_removed_item_is_gone::<EngineIndex>(before.engine, name@, name@);
        }
        match self.engine.create_index(name, &definition.fields) {
            Ok(_) => {},
            Err(e) => {
                self.rollback_index(name);
                proof {
                    law_remove_of_absent::<EngineIndex>(cleared, name@);
                    assert(e@ == QueryErrorV::Engine(e@->Engine_0));
                }
                let x = engine_error(name, e);
                assert(is_engine_failure(definition@.name, x@));
                return Err(x);
            },
        }
        let ghost built = choose|e: EngineIndexV|
            empty_index(name@, definition@.fields, e) && self.engine@ == #[trigger] keyed_put::<
                EngineIndex,
            >(cleared, e);
        let ghost ready = self.engine@;
        proof {
            law_put_item_is_found::<EngineIndex>(cleared, built, name@);
            law_remove_undoes_put::<EngineIndex>(cleared, built);
        }
        let ghost base = ServiceV { engine: cleared, ..before };
        let mut vectors: Vec<VectorChange> = Vec::new();
        let fields = vector_index_fields(&definition);
        assert(change_views(vectors@) =~= seq![]);
        if documents.len() > 0 {
            // The same order as a fresh upload: engine, vectors, storage.
            match self.engine.index_documents(name, &documents) {
                Ok(_) => {},
                Err(e) => {
                    proof {
                        let after = choose|after: EngineIndexV|
                            self.engine@ == #[trigger] keyed_replace::<EngineIndex>(
                                ready,
                                name@,
                                after,
                            ) && after.name == built.name;
                        law_replace_after_put::<EngineIndex>(cleared, built, after);
                        law_remove_undoes_put::<EngineIndex>(cleared, after);
                        assert(e@ == QueryErrorV::Engine(e@->Engine_0));
                    }
                    self.rollback_index(name);
                    let x = engine_error(name, e);
                    assert(is_engine_failure(definition@.name, x@));
                    return Err(x);
                },
            }
            let ghost filled = choose|after: EngineIndexV|
                self.engine@ == #[trigger] keyed_replace::<EngineIndex>(ready, name@, after)
                    && after.name == built.name && after.searchable == built.searchable
                    && after.visible == with_indexed(built.pending, docs, built.searchable)
                    && after.pending == after.visible && after.works;
            proof {
                law_replace_after_put::<EngineIndex>(cleared, built, filled);
                law_remove_undoes_put::<EngineIndex>(cleared, filled);
            }
            match apply_vector_changes(&fields, &documents) {
                Ok(v) => {
                    vectors = v;
                },
                Err(m) => {
                    self.rollback_index(name);
                    return Err(
                        ApiError::internal(
                            cat4(
                                "Vector re-indexing failed for index ",
                                quoted(name).as_str(),
                                ": ",
                                m.as_str(),
                            ).as_str(),
                        ),
                    );
                },
            }
            proof {
                law_put_item_is_found::<IndexEntry>(before.storage, stored, name@);
            }
            match self.storage.put_documents(name, documents) {
                Ok(_) => {},
                Err(_) => {
                    assert(false);
                },
            }
            proof {
                let full = EntryV {
                    definition: definition@,
                    documents: documents_put(seq![], docs, docs.len() as int),
                };
                law_replace_after_put::<IndexEntry>(before.storage, stored, full);
                lemma_put_sorted(seq![], docs, docs.len() as int);
                lemma_storage_put(before.storage, full);
                assert(self@.engine == keyed_put::<EngineIndex>(base.engine, filled));
                assert(self@.storage == keyed_put::<IndexEntry>(base.storage, full));
                assert(index_put(base, definition@, docs, self@));
            }
        } else {
            assert(docs =~= seq![]);
            assert(documents_put(seq![], docs, 0) =~= Seq::<DocumentV>::empty());
            assert(with_indexed(seq![], docs, built.searchable) =~= Seq::<IndexedV>::empty());
            assert(self@.engine == keyed_put::<EngineIndex>(base.engine, built));
            assert(index_put(base, definition@, docs, self@));
        }
        let raw = definition.raw.duplicate();
        Ok(IndexUpdate { raw, vectors })
    }
}

// ---------------------------------------------------------------------------
// Documents
// ---------------------------------------------------------------------------

/// What a batch of document actions gives: one result per action, in request
/// order, the index that was changed, what changes in its vector indexes, and
/// the keys that were deleted.
pub struct BatchOutcome {
    pub results: Vec<IndexingResultItem>,
    pub index: String,
    pub vectors: Vec<VectorChange>,
    pub deletes: Vec<String>,
}

/// The documents after a batch.
pub open spec fn documents_after(docs: Seq<DocumentV>, b: BatchV) -> Seq<DocumentV> {
    documents_removed(
        documents_put(docs, b.upserts, b.upserts.len() as int),
        b.deletes,
        b.deletes.len() as int,
    )
}

/// The indexed documents after a batch: deletions come first, so a key that is
/// both deleted and put in ends up indexed.
pub open spec fn indexed_after(docs: Seq<IndexedV>, b: BatchV, searchable: Seq<SearchableV>) -> Seq<
    IndexedV,
> {
    with_indexed(without_indexed(docs, b.deletes), b.upserts, searchable)
}

/// Whether an engine is another with the changes of a batch.
pub open spec fn engine_after(
    engine: Seq<EngineIndexV>,
    name: Seq<char>,
    b: BatchV,
    after: Seq<EngineIndexV>,
) -> bool {
    match engine_index(engine, name) {
        None => b.upserts.len() == 0 && b.deletes.len() == 0 && after == engine,
        Some(e) => if b.upserts.len() == 0 && b.deletes.len() == 0 {
            after == engine
        } else {
            exists|x: EngineIndexV|
                #![trigger keyed_replace::<EngineIndex>(engine, name, x)]
                after == keyed_replace::<EngineIndex>(engine, name, x) && x.name == e.name
                    && x.searchable == e.searchable && x.visible == indexed_after(
                    e.pending,
                    b,
                    e.searchable,
                ) && x.pending == x.visible && x.works
        },
    }
}

proof fn lemma_replace_twice<T: Keyed>(s: Seq<T::V>, key: Seq<char>, a: T::V, b: T::V)
    requires
        T::key_of_item(a) == key,
    ensures
        keyed_replace::<T>(keyed_replace::<T>(s, key, a), key, b) == keyed_replace::<T>(s, key, b),
    decreases s.len(),
{
    if s.len() > 0 {
        let r = keyed_replace::<T>(s, key, a);
        if T::key_of_item(s[0]) == key {
            assert(r.drop_first() =~= s.drop_first());
        } else {
            lemma_replace_twice::<T>(s.drop_first(), key, a, b);
            assert(r[0] == s[0]);
            assert(r.drop_first() =~= keyed_replace::<T>(s.drop_first(), key, a));
        }
    }
}

impl SearchService {
    /// The search engine.
    pub(crate) fn engine(&self) -> (r: &SearchEngine)
        ensures
            r@ == self@.engine,
    {
        &self.engine
    }

    /// The synonym maps.
    pub(crate) fn synonyms(&self) -> (r: &KeyedList<SynonymMap>)
        ensures
            r@ == self@.synonym_maps.items,
    {
        self.synonym_maps.resources()
    }

    /// The documents of an index.
    pub(crate) fn stored(&self, index: &str) -> (r: Option<&KeyedList<Document>>)
        ensures
            match entry_named(self@.storage, index@) {
                Some(e) => r is Some && r->Some_0@ == e.documents,
                None => r is None,
            },
    {
        self.storage.documents(index)
    }

    /// The stored indexes and documents.
    pub fn storage(&self) -> (r: &InMemoryStorage)
        ensures
            r@ == self@.storage,
    {
        &self.storage
    }

    /// Returns the raw synonym outputs for a query word: the union of outputs
    /// from all rules (across all service-level maps) with a matching input
    /// (case-insensitive), excluding the word itself. All maps apply to every
    /// search.
    pub fn synonym_expansions(&self, word: &str) -> (r: Vec<String>)
        ensures
            texts(r@) == expansions_of(self@.synonym_maps.items, word@),
    {
        crate::service::synonyms::synonym_expansions(self.synonyms(), word)
    }

    /// Returns the raw stored index definition.
    pub fn get_index(&self, name: &str) -> (r: Result<Json, ApiError>)
        ensures
            match self@.entry(name@) {
                Some(e) => r is Ok && r->Ok_0@ == e.definition.raw,
                None => r is Err && r->Err_0@ == no_index(name@),
            },
    {
        let definition = self.require_index(name)?;
        Ok(definition.raw)
    }

    /// Returns the raw stored definitions of all indexes, sorted by name.
    pub fn list_indexes(&self) -> (r: Vec<Json>)
        requires
            service_wf(self@),
        ensures
            values(r@) == self@.storage.map_values(|e: EntryV| e.definition.raw),
    {
        broadcast use group_json;

        let names = self.storage.list_index_names();
        let ghost all = self@.storage;
        let ghost wanted = all.map_values(|e: EntryV| e.definition.raw);
        let mut out: Vec<Json> = Vec::new();
        let mut i: usize = 0;
        assert(values(out@) =~= wanted.take(0));
        assert(texts(names@).len() == all.len());
        while i < names.len()
            invariant
                names@.len() == all.len(),
                service_wf(self@),
                all == self@.storage,
                all == self.storage@,
                wanted == all.map_values(|e: EntryV| e.definition.raw),
                texts(names@) == index_names(all),
                i <= names@.len(),
                values(out@) == wanted.take(i as int),
            decreases names@.len() - i,
        {
            broadcast use group_json;

            let ghost before = values(out@);
            assert(texts(names@)[i as int] == names@[i as int]@);
            assert(names@[i as int]@ == all[i as int].definition.name);
            proof {
                lemma_find_at::<IndexEntry>(all, i as int);
            }
            if let Some(d) = self.storage.get_index(names[i].as_str()) {
                out.push(d.raw);
                assert(values(out@) == before.push(d@.raw));
            }
            i += 1;
            assert(values(out@) =~= wanted.take(i as int));
        }
        assert(wanted.take(i as int) =~= wanted);
        out
    }

    /// Deletes an index by name.
    pub fn delete_index(&mut self, name: &str) -> (r: Result<(), ApiError>)
        requires
            service_wf(old(self)@),
        ensures
            service_wf(final(self)@),
            match entry_named(old(self)@.storage, name@) {
                Some(_) => r is Ok && final(self)@ == without_index(old(self)@, name@),
                None => r is Err && r->Err_0@ == no_index(name@) && final(self)@ == old(self)@,
            },
    {
        let ghost before = self@;
        if self.storage.delete_index(name) {
            self.engine.delete_index(name);
            proof {
                law_deleted_index(before.storage, name@, name@);
            }
            Ok(())
        } else {
            proof {
                law_remove_of_absent::<IndexEntry>(before.storage, name@);
            }
            Err(index_missing(name))
        }
    }

    /// Returns a single document by key, without the fields that are not stored.
    pub fn get_document(&self, index: &str, key: &str) -> (r: Result<Json, ApiError>)
        ensures
            match self@.entry(index@) {
                None => r is Err && r->Err_0@ == no_index(index@),
                Some(e) => match keyed_find::<Document>(e.documents, key@) {
                    Some(d) => r is Ok && r->Ok_0@ == JsonV::Object(
                        stored_members(d.fields, e.definition.fields),
                    ),
                    None => r is Err && r->Err_0@ == not_found_v(missing_message(key@, index@)),
                },
            },
    {
        broadcast use group_json;

        let definition = self.require_index(index)?;
        proof {
            lemma_found_has_key(self@.storage, self@.resolved(index@));
        }
        if let Some(docs) = self.storage.documents(definition.name.as_str()) {
            if let Some(d) = docs.get(key) {
                return Ok(Json::Object(keep_stored(&d.fields, &definition)));
            }
        }
        Err(ApiError::not_found(missing_text(key, index).as_str()))
    }

    /// Returns the number of documents in the index.
    pub fn count_documents(&self, index: &str) -> (r: Result<u64, ApiError>)
        ensures
            match self@.entry(index@) {
                None => r is Err && r->Err_0@ == no_index(index@),
                Some(e) => r is Ok && r->Ok_0 == e.documents.len(),
            },
    {
        let definition = self.require_index(index)?;
        proof {
            lemma_found_has_key(self@.storage, self@.resolved(index@));
        }
        match self.storage.documents(definition.name.as_str()) {
            Some(docs) => Ok(docs.len() as u64),
            None => Ok(0),
        }
    }

    fn apply_engine_changes(
        &mut self,
        index: &str,
        upserts: &Vec<Document>,
        deletes: &Vec<String>,
        batch: Ghost<BatchV>,
    ) -> (r: Result<(), QueryError>)
        requires
            service_wf(old(self)@),
            document_views(upserts@) == batch@.upserts,
            texts(deletes@) == batch@.deletes,
        ensures
            service_wf(final(self)@),
            final(self)@ == (ServiceV { engine: final(self)@.engine, ..old(self)@ }),
            r is Ok ==> engine_after(old(self)@.engine, index@, batch@, final(self)@.engine),
            r is Err ==> batch@.upserts.len() > 0 || batch@.deletes.len() > 0,
            r matches Err(e) ==> (match engine_index(old(self)@.engine, index@) {
                None => e@ == QueryErrorV::IndexNotFound(index@),
                Some(_) => e@ is Engine,
            }),
    {
        let ghost before = self@.engine;
        assert(upserts@.len() == batch@.upserts.len());
        assert(deletes@.len() == batch@.deletes.len());
        proof {
            law_found_item_has_key::<EngineIndex>(before, index@);
        }
        if deletes.len() > 0 {
            self.engine.delete_documents(index, deletes)?;
        }
        let ghost middle = self@.engine;
        let ghost e = engine_index(before, index@)->Some_0;
        let ghost first = if deletes@.len() > 0 {
            choose|x: EngineIndexV|
                middle == #[trigger] keyed_replace::<EngineIndex>(before, index@, x) && x.name
                    == e.name && x.searchable == e.searchable && x.visible == without_indexed(
                    e.pending,
                    batch@.deletes,
                ) && x.pending == x.visible && x.works
        } else {
            e
        };
        proof {
            if deletes@.len() > 0 {
                law_replaced_item_is_found::<EngineIndex>(before, index@, first, index@);
            } else {
                assert(without_indexed(e.pending, batch@.deletes) == e.pending);
            }
        }
        if upserts.len() > 0 {
            self.engine.index_documents(index, upserts)?;
            proof {
                let x = choose|x: EngineIndexV|
                    self@.engine == #[trigger] keyed_replace::<EngineIndex>(middle, index@, x)
                        && x.name == first.name && x.searchable == first.searchable && x.visible
                        == with_indexed(first.pending, batch@.upserts, first.searchable)
                        && x.pending == x.visible && x.works;
                if deletes@.len() > 0 {
                    lemma_replace_twice::<EngineIndex>(before, index@, first, x);
                }
                assert(self@.engine == keyed_replace::<EngineIndex>(before, index@, x));
            }
        } else {
            assert(with_indexed(first.pending, batch@.upserts, e.searchable) == first.pending);
        }
        Ok(())
    }

    /// Validates and applies a batch of document actions (upload, merge,
    /// merge-or-upload, delete), giving one result per action in request order.
    /// Valid actions in the same batch are applied even when others fail. Engine
    /// changes apply first so storage is untouched if the engine rejects the
    /// batch. All changes target the resolved index name so aliases write
    /// through to their target.
    pub fn index_documents(&mut self, index: &str, actions: Vec<DocumentAction>) -> (r: Result<
        BatchOutcome,
        ApiError,
    >)
        requires
            service_wf(old(self)@),
        ensures
            service_wf(final(self)@),
            match old(self)@.entry(index@) {
                None => r is Err && r->Err_0@ == no_index(index@) && final(self)@ == old(self)@,
                Some(e) => {
                    let d = e.definition;
                    let b = after_actions(
                        action_views(actions@),
                        actions@.len() as int,
                        d,
                        index@,
                        e.documents,
                    );
                    let changes = changes_from(
                        b.upserts,
                        0,
                        vector_fields_of(d.fields, d.fields.len() as int),
                        seq![],
                    );
                    match r {
                        Ok(v) => {
                            &&& result_views(v.results@) == b.results
                            &&& v.index@ == d.name
                            &&& texts(v.deletes@) == b.deletes
                            &&& changes is Ok && change_views(v.vectors@) == changes->Ok_0
                            &&& engine_after(old(self)@.engine, d.name, b, final(self)@.engine)
                            &&& final(self)@ == (ServiceV {
                                storage: with_documents(
                                    old(self)@.storage,
                                    d.name,
                                    documents_after(e.documents, b),
                                ),
                                engine: final(self)@.engine,
                                ..old(self)@
                            })
                        },
                        Err(x) => {
                            &&& b.upserts.len() > 0 || b.deletes.len() > 0
                            &&& final(self)@ == (ServiceV {
                                engine: final(self)@.engine,
                                ..old(self)@
                            })
                            &&& is_engine_failure(d.name, x@) || (engine_index(
                                old(self)@.engine,
                                d.name,
                            ) is None && x@ == no_index(d.name)) || (changes is Err && x@
                                == internal_v(
                                "Vector indexing failed for index "@ + debug_text(d.name) + ": "@
                                    + changes->Err_0,
                            ))
                        },
                    }
                },
            },
    {
        let ghost before = self@;
        let definition = self.require_index(index)?;
        let name = definition.name.as_str();
        proof {
            lemma_found_has_key(before.storage, before.resolved(index@));
        }
        let ghost e = before.entry(index@)->Some_0;
        let batch = match self.storage.documents(name) {
            Some(docs) => apply_actions(&actions, &definition, index, docs),
            None => DocumentBatch::new(),
        };
        let ghost b = batch@;
        let upserts = batch.upserts.to_vec();
        let deletes = batch.deletes.to_vec();
        let results = batch.results;
        assert(document_views(upserts@) =~= item_views(upserts@));
        assert(texts(deletes@) =~= item_views(deletes@));
        assert(upserts@.len() == b.upserts.len());
        assert(deletes@.len() == b.deletes.len());
        match self.apply_engine_changes(name, &upserts, &deletes, Ghost(b)) {
            Ok(_) => {},
            Err(q) => {
                let ghost qv = q@;
                let x = engine_error(name, q);
                proof {
                    if qv is Engine {
                        assert(qv == QueryErrorV::Engine(qv->Engine_0));
                        assert(is_engine_failure(name@, x@));
                    }
                }
                return Err(x);
            },
        }
        let fields = vector_index_fields(&definition);
        let vectors = match apply_vector_changes(&fields, &upserts) {
            Ok(v) => v,
            Err(m) => {
                return Err(
                    ApiError::internal(
                        cat4(
                            "Vector indexing failed for index ",
                            quoted(name).as_str(),
                            ": ",
                            m.as_str(),
                        ).as_str(),
                    ),
                );
            },
        };
        let ghost put = documents_put(e.documents, b.upserts, b.upserts.len() as int);
        match self.storage.put_documents(name, upserts) {
            Ok(_) => {},
            Err(_) => {
                assert(false);
            },
        }
        proof {
            law_found_item_has_key::<IndexEntry>(before.storage, name@);
            lemma_put_sorted(e.documents, b.upserts, b.upserts.len() as int);
            law_stored_documents(before.storage, name@, put, name@);
        }
        match self.storage.delete_documents(name, &deletes) {
            Ok(_) => {},
            Err(_) => {
                assert(false);
            },
        }
        proof {
            let middle = with_documents(before.storage, name@, put);
            let after = documents_after(e.documents, b);
            lemma_removed_sorted(put, b.deletes, b.deletes.len() as int);
            law_stored_documents(middle, name@, after, name@);
            lemma_replace_twice::<IndexEntry>(
                before.storage,
                name@,
                EntryV { definition: definition@, documents: put },
                EntryV { definition: definition@, documents: after },
            );
        }
        let resolved = definition.name.clone();
        Ok(BatchOutcome { results, index: resolved, vectors, deletes })
    }

    /// Validates analyze-text parameters against the index schema: `field`, when
    /// given, must exist in the schema; `analyzer`, when given, must be a known
    /// analyzer name.
    pub fn validate_analyze(&self, index: &str, analyzer: Option<&str>, field: Option<&str>) -> (r:
        Result<(), ApiError>)
        ensures
            unit_result(r) == analyze_check(self@, index@, opt_str(analyzer), opt_str(field)),
    {
        let definition = self.require_index(index)?;
        if let Some(name) = analyzer {
            if !known_analyzer(name) {
                return Err(
                    ApiError::bad_request(
                        ErrorCode::InvalidRequest,
                        cat5(
                            "Unknown analyzer ",
                            quoted(name).as_str(),
                            "; supported analyzers: ",
                            known_analyzers_text(),
                            ".",
                        ).as_str(),
                    ),
                );
            }
        }
        if let Some(name) = field {
            if definition.field_path(name).is_none() {
                return Err(
                    ApiError::bad_request(
                        ErrorCode::InvalidRequest,
                        cat5(
                            "Analyze field ",
                            quoted(name).as_str(),
                            " does not exist in index ",
                            quoted(index).as_str(),
                            ".",
                        ).as_str(),
                    ),
                );
            }
        }
        Ok(())
    }

    /// Drops all indexes, documents, and resources.
    pub fn reset(&mut self)
        ensures
            service_wf(final(self)@),
            final(self)@ == (ServiceV {
                storage: seq![],
                engine: seq![],
                synonym_maps: SynonymStoreV { items: seq![], ..old(self)@.synonym_maps },
                aliases: NamedStoreV { items: seq![], ..old(self)@.aliases },
                knowledge_sources: NamedStoreV { items: seq![], ..old(self)@.knowledge_sources },
                knowledge_bases: NamedStoreV { items: seq![], ..old(self)@.knowledge_bases },
                ..old(self)@
            }),
    {
        self.storage.reset();
        self.engine.reset();
        self.synonym_maps.clear();
        self.aliases.clear();
        self.knowledge_sources.clear();
        self.knowledge_bases.clear();
    }
}

// ---------------------------------------------------------------------------
// Synonym maps and named resources
// ---------------------------------------------------------------------------

/// What is said of a name that is taken.
pub open spec fn name_taken(kind: ResourceKind, name: Seq<char>) -> ApiErrorV {
    conflict_v(
        kind.conflict_error_spec(),
        "A "@ + kind.conflict_kind_spec() + " with name "@ + debug_text(name)
            + " already exists."@,
    )
}

/// What is said of a resource that is not there.
pub open spec fn no_resource(kind: ResourceKind, name: Seq<char>) -> ApiErrorV {
    not_found_v(kind.not_found_label_spec() + " "@ + debug_text(name) + " was not found."@)
}

/// What is said of an alias with the name of an index.
pub open spec fn shadows_index(name: Seq<char>) -> ApiErrorV {
    conflict_v(
        ErrorCode::AliasAlreadyExists,
        "An index with name "@ + debug_text(name) + " already exists."@,
    )
}

/// Whether a named resource is an alias with the name of an index.
pub open spec fn alias_collides(s: ServiceV, kind: ResourceKind, name: Seq<char>) -> bool {
    kind is Alias && entry_named(s.storage, name) is Some
}

/// The next synonym map that a service stores.
pub open spec fn next_synonym_map(
    s: ServiceV,
    name: Seq<char>,
    format: Seq<char>,
    synonyms: Seq<char>,
    rules: Seq<RuleV>,
) -> SynonymMapV {
    SynonymMapV {
        name,
        format,
        synonyms,
        rules,
        etag: etag_text(next_count(s.synonym_maps.tags)),
    }
}

/// The service with a synonym map stored.
pub open spec fn with_synonym_map(s: ServiceV, m: SynonymMapV) -> ServiceV {
    ServiceV {
        synonym_maps: SynonymStoreV {
            items: keyed_put::<SynonymMap>(s.synonym_maps.items, m),
            tags: next_count(s.synonym_maps.tags),
        },
        ..s
    }
}

/// The next named resource of a kind that a service stores.
pub open spec fn next_resource(
    s: ServiceV,
    kind: ResourceKind,
    name: Seq<char>,
    raw: JsonV,
) -> NamedResourceV {
    NamedResourceV { name, etag: etag_text(next_count(s.named(kind).tags)), raw }
}

/// The service with a named resource stored.
pub open spec fn with_resource(s: ServiceV, kind: ResourceKind, x: NamedResourceV) -> ServiceV {
    s.with_named(
        kind,
        NamedStoreV {
            items: keyed_put::<NamedResource>(s.named(kind).items, x),
            tags: next_count(s.named(kind).tags),
        },
    )
}

impl SearchService {
    fn build_synonym_map(&self, name: &str, format: &str, synonyms: &str) -> (r: Result<
        SynonymMap,
        ApiError,
    >)
        ensures
            match synonym_map_check(name@, format@, synonyms@) {
                Err(e) => r is Err && r->Err_0@ == e,
                Ok(rules) => r is Ok && r->Ok_0@ == next_synonym_map(
                    self@,
                    name@,
                    format@,
                    synonyms@,
                    rules,
                ),
            },
    {
        let rules = checked_rules(name, format, synonyms)?;
        Ok(
            SynonymMap {
                name: name.to_owned(),
                format: format.to_owned(),
                synonyms: synonyms.to_owned(),
                rules,
                etag: self.synonym_maps.next_etag(),
            },
        )
    }

    /// Creates a new synonym map.
    pub fn create_synonym_map(&mut self, name: &str, format: &str, synonyms: &str) -> (r: Result<
        SynonymMap,
        ApiError,
    >)
        requires
            service_wf(old(self)@),
        ensures
            service_wf(final(self)@),
            match synonym_map_check(name@, format@, synonyms@) {
                Err(e) => r is Err && r->Err_0@ == e && final(self)@ == old(self)@,
                Ok(rules) => if keyed_find::<SynonymMap>(
                    old(self)@.synonym_maps.items,
                    name@,
                ) is Some {
                    r is Err && r->Err_0@ == name_taken(ResourceKind::SynonymMap, name@)
                        && final(self)@ == old(self)@
                } else {
                    let m = next_synonym_map(old(self)@, name@, format@, synonyms@, rules);
                    r is Ok && r->Ok_0@ == m && final(self)@ == with_synonym_map(old(self)@, m)
                },
            },
    {
        let map = self.build_synonym_map(name, format, synonyms)?;
        self.synonym_maps.create(ResourceKind::SynonymMap, map)
    }

    /// Creates or replaces a synonym map. Replacing a map issues a new etag.
    pub fn create_or_update_synonym_map(&mut self, name: &str, format: &str, synonyms: &str) -> (r:
        Result<SynonymMap, ApiError>)
        requires
            service_wf(old(self)@),
        ensures
            service_wf(final(self)@),
            match synonym_map_check(name@, format@, synonyms@) {
                Err(e) => r is Err && r->Err_0@ == e && final(self)@ == old(self)@,
                Ok(rules) => {
                    let m = next_synonym_map(old(self)@, name@, format@, synonyms@, rules);
                    r is Ok && r->Ok_0@ == m && final(self)@ == with_synonym_map(old(self)@, m)
                },
            },
    {
        let map = self.build_synonym_map(name, format, synonyms)?;
        Ok(self.synonym_maps.create_or_update(map))
    }

    /// Returns a copy of the synonym map with the given name.
    pub fn get_synonym_map(&self, name: &str) -> (r: Result<SynonymMap, ApiError>)
        ensures
            match keyed_find::<SynonymMap>(self@.synonym_maps.items, name@) {
                Some(m) => r is Ok && r->Ok_0@ == m,
                None => r is Err && r->Err_0@ == no_resource(ResourceKind::SynonymMap, name@),
            },
    {
        self.synonym_maps.get(ResourceKind::SynonymMap, name)
    }

    /// Returns copies of all synonym maps, sorted by name.
    pub fn list_synonym_maps(&self) -> (r: Vec<SynonymMap>)
        ensures
            item_views(r@) == self@.synonym_maps.items,
    {
        self.synonym_maps.list()
    }

    /// Deletes a synonym map by name.
    pub fn delete_synonym_map(&mut self, name: &str) -> (r: Result<(), ApiError>)
        requires
            service_wf(old(self)@),
        ensures
            service_wf(final(self)@),
            final(self)@ == (ServiceV {
                synonym_maps: SynonymStoreV {
                    items: keyed_remove::<SynonymMap>(old(self)@.synonym_maps.items, name@),
                    ..old(self)@.synonym_maps
                },
                ..old(self)@
            }),
            match keyed_find::<SynonymMap>(old(self)@.synonym_maps.items, name@) {
                Some(_) => r is Ok,
                None => r is Err && r->Err_0@ == no_resource(ResourceKind::SynonymMap, name@),
            },
    {
        self.synonym_maps.delete(ResourceKind::SynonymMap, name)
    }

    /// The named-resource store for a [`NamedResource`] kind.
    fn named_store(&self, kind: ResourceKind) -> (r: &ResourceStore<NamedResource>)
        requires
            !(kind is SynonymMap),
        ensures
            named_store_view(*r) == self@.named(kind),
    {
        match kind {
            ResourceKind::Alias => &self.aliases,
            ResourceKind::KnowledgeSource => &self.knowledge_sources,
            _ => &self.knowledge_bases,
        }
    }

    fn named_store_mut(&mut self, kind: ResourceKind) -> (r: &mut ResourceStore<NamedResource>)
        requires
            !(kind is SynonymMap),
        ensures
            named_store_view(*r) == old(self)@.named(kind),
            final(self)@ == old(self)@.with_named(kind, named_store_view(*final(r))),
    {
        match kind {
            ResourceKind::Alias => &mut self.aliases,
            ResourceKind::KnowledgeSource => &mut self.knowledge_sources,
            _ => &mut self.knowledge_bases,
        }
    }

    fn reject_alias_index_collision(&self, name: &str) -> (r: Result<(), ApiError>)
        ensures
            match r {
                Ok(_) => entry_named(self@.storage, name@) is None,
                Err(e) => entry_named(self@.storage, name@) is Some && e@ == shadows_index(name@),
            },
    {
        if self.storage.get_index(name).is_some() {
            return Err(
                ApiError::conflict(
                    ResourceKind::Alias.conflict_error(),
                    cat3(
                        "An index with name ",
                        quoted(name).as_str(),
                        " already exists.",
                    ).as_str(),
                ),
            );
        }
        Ok(())
    }

    /// Creates a new named resource (alias, knowledge source, or knowledge base).
    /// An alias may not have the name of an index: the two share the data-plane
    /// namespace, so neither may shadow the other.
    pub fn create_named_resource(&mut self, kind: ResourceKind, name: &str, raw: &Json) -> (r:
        Result<NamedResource, ApiError>)
        requires
            service_wf(old(self)@),
            !(kind is SynonymMap),
        ensures
            service_wf(final(self)@),
            if alias_collides(old(self)@, kind, name@) {
                r is Err && r->Err_0@ == shadows_index(name@) && final(self)@ == old(self)@
            } else if keyed_find::<NamedResource>(old(self)@.named(kind).items, name@) is Some {
                r is Err && r->Err_0@ == name_taken(kind, name@) && final(self)@ == old(self)@
            } else {
                let x = next_resource(old(self)@, kind, name@, raw@);
                r is Ok && r->Ok_0@ == x && final(self)@ == with_resource(old(self)@, kind, x)
            },
    {
        if kind == ResourceKind::Alias {
            self.reject_alias_index_collision(name)?;
        }
        let etag = self.named_store(kind).next_etag();
        let item = named_resource(name, etag, raw);
        self.named_store_mut(kind).create(kind, item)
    }

    /// Creates or replaces a named resource (alias, knowledge source, or
    /// knowledge base). Replacing a resource issues a new etag.
    pub fn create_or_update_named_resource(
        &mut self,
        kind: ResourceKind,
        name: &str,
        raw: &Json,
    ) -> (r: Result<NamedResource, ApiError>)
        requires
            service_wf(old(self)@),
            !(kind is SynonymMap),
        ensures
            service_wf(final(self)@),
            if alias_collides(old(self)@, kind, name@) {
                r is Err && r->Err_0@ == shadows_index(name@) && final(self)@ == old(self)@
            } else {
                let x = next_resource(old(self)@, kind, name@, raw@);
                r is Ok && r->Ok_0@ == x && final(self)@ == with_resource(old(self)@, kind, x)
            },
    {
        if kind == ResourceKind::Alias {
            self.reject_alias_index_collision(name)?;
        }
        let etag = self.named_store(kind).next_etag();
        let item = named_resource(name, etag, raw);
        Ok(self.named_store_mut(kind).create_or_update(item))
    }

    /// Returns a copy of the named resource with the given name.
    pub fn get_named_resource(&self, kind: ResourceKind, name: &str) -> (r: Result<
        NamedResource,
        ApiError,
    >)
        requires
            !(kind is SynonymMap),
        ensures
            match keyed_find::<NamedResource>(self@.named(kind).items, name@) {
                Some(x) => r is Ok && r->Ok_0@ == x,
                None => r is Err && r->Err_0@ == no_resource(kind, name@),
            },
    {
        self.named_store(kind).get(kind, name)
    }

    /// Returns copies of all named resources of the given kind, sorted by name.
    pub fn list_named_resources(&self, kind: ResourceKind) -> (r: Vec<NamedResource>)
        requires
            !(kind is SynonymMap),
        ensures
            item_views(r@) == self@.named(kind).items,
    {
        self.named_store(kind).list()
    }

    /// Deletes a named resource by name.
    pub fn delete_named_resource(&mut self, kind: ResourceKind, name: &str) -> (r: Result<
        (),
        ApiError,
    >)
        requires
            service_wf(old(self)@),
            !(kind is SynonymMap),
        ensures
            service_wf(final(self)@),
            final(self)@ == old(self)@.with_named(
                kind,
                (NamedStoreV {
                    items: keyed_remove::<NamedResource>(old(self)@.named(kind).items, name@),
                    ..old(self)@.named(kind)
                }),
            ),
            match keyed_find::<NamedResource>(old(self)@.named(kind).items, name@) {
                Some(_) => r is Ok,
                None => r is Err && r->Err_0@ == no_resource(kind, name@),
            },
    {
        self.named_store_mut(kind).delete(kind, name)
    }
}

/// What is wrong with analyze-text parameters.
pub open spec fn analyze_check(
    s: ServiceV,
    index: Seq<char>,
    analyzer: Option<Seq<char>>,
    field: Option<Seq<char>>,
) -> Result<(), ApiErrorV> {
    match s.entry(index) {
        None => Err(no_index(index)),
        Some(e) => if analyzer is Some && !is_known_analyzer(analyzer->Some_0) {
            Err(
                bad_request_v(
                    ErrorCode::InvalidRequest,
                    "Unknown analyzer "@ + debug_text(analyzer->Some_0)
                        + "; supported analyzers: "@ + known_analyzer_list() + "."@,
                ),
            )
        } else if field is Some && field_by_path(e.definition.fields, field->Some_0) is None {
            Err(
                bad_request_v(
                    ErrorCode::InvalidRequest,
                    "Analyze field "@ + debug_text(field->Some_0)
                        + " does not exist in index "@ + debug_text(index) + "."@,
                ),
            )
        } else {
            Ok(())
        },
    }
}

proof fn lemma_find_at<T: Keyed>(s: Seq<T::V>, i: int)
    requires
        keyed_sorted::<T>(s),
        0 <= i < s.len(),
    ensures
        keyed_find::<T>(s, T::key_of_item(s[i])) == Some(s[i]),
    decreases s.len(),
{
    if i > 0 {
        let rest = s.drop_first();
        assert(text_less(T::key_of_item(s[0]), T::key_of_item(s[i])));
        lemma_text_less_irreflexive(T::key_of_item(s[0]));
        assert forall|a: int, b: int| 0 <= a < b < rest.len() implies text_less(
            #[trigger] T::key_of_item(rest[a]),
            #[trigger] T::key_of_item(rest[b]),
        ) by {
            assert(rest[a] == s[a + 1] && rest[b] == s[b + 1]);
        }
        lemma_find_at::<T>(rest, i - 1);
        assert(rest[i - 1] == s[i]);
    }
}

proof fn lemma_put_sorted(docs: Seq<DocumentV>, new: Seq<DocumentV>, n: int)
    requires
        keyed_sorted::<Document>(docs),
    ensures
        keyed_sorted::<Document>(documents_put(docs, new, n)),
    decreases n,
{
    if n > 0 {
        lemma_put_sorted(docs, new, n - 1);
        law_put_keeps_order::<Document>(documents_put(docs, new, n - 1), new[n - 1]);
    }
}

proof fn lemma_removed_sorted(docs: Seq<DocumentV>, keys: Seq<Seq<char>>, n: int)
    requires
        keyed_sorted::<Document>(docs),
    ensures
        keyed_sorted::<Document>(documents_removed(docs, keys, n)),
    decreases n,
{
    if n > 0 {
        lemma_removed_sorted(docs, keys, n - 1);
        law_remove_keeps_order::<Document>(documents_removed(docs, keys, n - 1), keys[n - 1]);
    }
}

} // verus!
