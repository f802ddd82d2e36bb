//! The service: indexes, documents, searches, suggestions, and resources.
use aisearch_emulator::error::ApiError;
use aisearch_emulator::json::{Json, JsonMap, Number};
use aisearch_emulator::query::analyzers::{registered_tokenizers, tokenize_with};
use aisearch_emulator::query::engine::SearchEngine;
use aisearch_emulator::query::simple::SearchMode;
use aisearch_emulator::query::engine::KeyScore;
use aisearch_emulator::service::answer::{finish_search, SearchStep, VectorSide};
use aisearch_emulator::service::continuation::ContinuationToken;
use aisearch_emulator::service::paging::SearchOutcome;
use aisearch_emulator::service::resources::ResourceKind;
use aisearch_emulator::service::schema::VectorSupport;
use aisearch_emulator::service::state::{schema_compatible, SearchService};
use aisearch_emulator::service::types::{
    ActionKind, AutocompleteCompletion, DocumentAction, IndexingResultItem, SearchQuery, Suggestion,
};
use aisearch_emulator::storage::definition::FieldDefinition;
use aisearch_emulator::storage::document::Document;
use aisearch_emulator::storage::index::IndexDefinition;
use aisearch_emulator::storage::memory::InMemoryStorage;
use base64::{engine::general_purpose::STANDARD as BASE64, Engine as _};

fn convert(v: &serde_json::Value) -> Json {
    match v {
        serde_json::Value::Null => Json::Null,
        serde_json::Value::Bool(b) => Json::Bool(*b),
        serde_json::Value::Number(n) => Json::Number(if let Some(u) = n.as_u64() {
            Number::PosInt(u)
        } else if let Some(i) = n.as_i64() {
            Number::NegInt(i)
        } else {
            Number::Float(tantivy::f64_to_u64(n.as_f64().unwrap()))
        }),
        serde_json::Value::String(s) => Json::String(s.clone()),
        serde_json::Value::Array(items) => Json::Array(items.iter().map(convert).collect()),
        serde_json::Value::Object(map) => {
            let mut m = JsonMap::new();
            for (k, x) in map {
                m.insert(k.clone(), convert(x));
            }
            Json::Object(m)
        }
    }
}

fn json(text: &str) -> Json {
    convert(&serde_json::from_str(text).unwrap())
}

/// The library's analyzers as tokenizers.
#[derive(Clone)]
struct Registered(&'static str);

struct Tokens {
    tokens: Vec<tantivy::tokenizer::Token>,
    next: usize,
}

impl tantivy::tokenizer::Tokenizer for Registered {
    type TokenStream<'a> = Tokens;

    fn token_stream<'a>(&'a mut self, text: &'a str) -> Tokens {
        let tokens = tokenize_with(self.0, text)
            .into_iter()
            .map(|t| tantivy::tokenizer::Token {
                offset_from: t.start_offset,
                offset_to: t.end_offset,
                position: t.position,
                text: t.token,
                position_length: 1,
            })
            .collect();
        Tokens { tokens, next: 0 }
    }
}

impl tantivy::tokenizer::TokenStream for Tokens {
    fn advance(&mut self) -> bool {
        self.next += 1;
        self.next <= self.tokens.len()
    }

    fn token(&self) -> &tantivy::tokenizer::Token {
        &self.tokens[self.next - 1]
    }

    fn token_mut(&mut self) -> &mut tantivy::tokenizer::Token {
        &mut self.tokens[self.next - 1]
    }
}

fn tokenizers() -> tantivy::tokenizer::TokenizerManager {
    let manager = tantivy::tokenizer::TokenizerManager::new();
    for name in registered_tokenizers() {
        let analyzer = tantivy::tokenizer::TextAnalyzer::builder(Registered(name)).build();
        manager.register(name, analyzer);
    }
    manager
}

fn ok<T, E: std::fmt::Debug>(result: Result<T, E>) -> T {
    match result {
        Ok(value) => value,
        Err(err) => panic!("expected Ok, got Err: {err:?}"),
    }
}

fn err<T, E: std::fmt::Debug>(result: Result<T, E>) -> E {
    match result {
        Ok(_) => panic!("expected Err, got Ok"),
        Err(err) => err,
    }
}

fn member(v: &Json, key: &str) -> Json {
    match v {
        Json::Object(m) => m.get(key).map_or(Json::Null, Json::duplicate),
        _ => panic!("not an object"),
    }
}

fn field_of(d: &Document, key: &str) -> Json {
    d.fields.get(key).map_or(Json::Null, Json::duplicate)
}

/// A service whose requests have no vector queries.
struct Service(SearchService);

fn support() -> VectorSupport {
    VectorSupport { max_fields: 5, profiles: Ok(Vec::new()) }
}

fn no_vectors() -> VectorSide {
    VectorSide { hash: None, hits: Vec::new() }
}

impl Service {
    fn create_index(&mut self, raw: &Json) -> Result<Json, ApiError> {
        self.0.create_index(raw, &support())
    }

    fn create_or_update_index(&mut self, raw: &Json) -> Result<Json, ApiError> {
        self.0.create_or_update_index(raw, &support()).map(|u| u.raw)
    }

    fn delete_index(&mut self, name: &str) -> Result<(), ApiError> {
        self.0.delete_index(name)
    }

    fn index_documents(
        &mut self,
        index: &str,
        actions: Vec<DocumentAction>,
    ) -> Result<Vec<IndexingResultItem>, ApiError> {
        self.0.index_documents(index, actions).map(|b| b.results)
    }

    fn storage(&self) -> &InMemoryStorage {
        self.0.storage()
    }

    fn get_document(&self, index: &str, key: &str) -> Result<Json, ApiError> {
        self.0.get_document(index, key)
    }

    fn count_documents(&self, index: &str) -> Result<u64, ApiError> {
        self.0.count_documents(index)
    }

    fn parse_search(&self, index: &str, body: &Json) -> Result<SearchQuery, ApiError> {
        self.0.parse_search(index, body, &Vec::new())
    }

    fn search(&self, index: &str, query: &SearchQuery) -> Result<SearchOutcome, ApiError> {
        match self.0.search(index, query, &no_vectors())? {
            SearchStep::Done(outcome) => Ok(outcome),
            SearchStep::Fuse(_) => panic!("nothing to fuse"),
        }
    }

    fn next_continuation(&self, query: &SearchQuery, outcome: &SearchOutcome) -> Option<String> {
        self.0.next_continuation(query, outcome, None)
    }

    fn autocomplete(
        &self,
        index: &str,
        suggester: &str,
        text: &str,
        top: u64,
        filter: Option<&str>,
    ) -> Result<Vec<AutocompleteCompletion>, ApiError> {
        self.0.autocomplete(index, suggester, text, top, filter)
    }

    fn suggest(
        &self,
        index: &str,
        suggester: &str,
        text: &str,
        top: u64,
        filter: Option<&str>,
    ) -> Result<Vec<Suggestion>, ApiError> {
        self.0.suggest(index, suggester, text, top, filter)
    }

    fn create_synonym_map(
        &mut self,
        name: &str,
        format: &str,
        synonyms: &str,
    ) -> Result<(), ApiError> {
        self.0.create_synonym_map(name, format, synonyms).map(|_| ())
    }

    fn delete_synonym_map(&mut self, name: &str) -> Result<(), ApiError> {
        self.0.delete_synonym_map(name)
    }

    fn synonym_expansions(&self, word: &str) -> Vec<String> {
        self.0.synonym_expansions(word)
    }
}

fn service() -> Service {
    Service(SearchService::new(SearchEngine::new(tokenizers()), 3072))
}

fn index_body() -> Json {
    json(r#"{
        "name": "items",
        "fields": [
            {"name": "id", "type": "Edm.String", "key": true, "filterable": true, "sortable": true},
            {"name": "title", "type": "Edm.String", "searchable": true, "filterable": true},
            {"name": "price", "type": "Edm.Double", "filterable": true, "sortable": true},
            {"name": "tags", "type": "Edm.Collection(Edm.String)", "filterable": true, "facetable": true}
        ]
    }"#)
}

fn upload(service: &mut Service, docs: Vec<Json>) {
    let actions = docs
        .into_iter()
        .map(|document| DocumentAction { kind: ActionKind::Upload, document })
        .collect();
    let results = ok(service.index_documents("items", actions));
    assert!(results.iter().all(|r| r.succeeded), "upload failed: {results:?}");
}

fn field(name: &str, field_type: &str) -> FieldDefinition {
    ok(FieldDefinition::from_json(json(&format!(
        r#"{{"name": "{name}", "type": "{field_type}"}}"#
    ))))
}

fn definition(fields: Vec<FieldDefinition>) -> IndexDefinition {
    IndexDefinition {
        name: "items".to_owned(),
        fields,
        suggesters: Vec::new(),
        vector_search: None,
        synonym_maps: Vec::new(),
        semantic: None,
        raw: json("{}"),
    }
}

#[test]
fn schema_compatible_allows_added_fields_and_attribute_changes() {
    let before = definition(vec![
        field("id", "Edm.String"),
        field("title", "Edm.String"),
    ]);
    // Adding a field and changing attributes (same name + type) is compatible.
    let after = definition(vec![
        field("id", "Edm.String"),
        field("title", "Edm.String"),
        field("price", "Edm.Double"),
    ]);
    assert!(schema_compatible(&before, &after));
}

#[test]
fn schema_compatible_rejects_removed_or_retyped_fields() {
    let before = definition(vec![
        field("id", "Edm.String"),
        field("title", "Edm.String"),
    ]);
    // Removing a field is incompatible.
    let removed = definition(vec![field("id", "Edm.String")]);
    assert!(!schema_compatible(&before, &removed));
    // Changing a field's type is incompatible.
    let retyped = definition(vec![
        field("id", "Edm.String"),
        field("title", "Edm.Double"),
    ]);
    assert!(!schema_compatible(&before, &retyped));
}

#[test]
fn create_and_delete_index() {
    let mut service = service();
    let created = ok(service.create_index(&index_body()));
    assert_eq!(member(&created, "name"), json(r#""items""#));
    assert!(service.delete_index("items").is_ok());
    assert!(service.delete_index("items").is_err());
}

#[test]
fn duplicate_index_conflicts() {
    let mut service = service();
    ok(service.create_index(&index_body()));
    let api_error = err(service.create_index(&index_body()));
    assert_eq!(api_error.status, 409);
}

#[test]
fn schema_validation_rejects_bad_types_and_key_counts() {
    let mut service = service();
    let no_key = json(r#"{ "name": "x", "fields": [{"name": "id", "type": "Edm.String"}] }"#);
    assert!(service.create_index(&no_key).is_err());
    let bad_type = json(r#"{ "name": "x", "fields": [ {"name": "id", "type": "Edm.String", "key": true}, {"name": "v", "type": "Edm.Vector(Edm.Single, 3)"} ] }"#);
    assert!(service.create_index(&bad_type).is_err());
}

#[test]
fn schema_validation_complex_type() {
    let mut service = service();
    let valid = json(r#"{ "name": "x", "fields": [ {"name": "id", "type": "Edm.String", "key": true}, { "name": "Address", "type": "Edm.ComplexType", "fields": [ {"name": "City", "type": "Edm.String", "searchable": true, "filterable": true}, {"name": "Zip", "type": "Edm.Int32", "filterable": true} ] } ] }"#);
    assert!(service.create_index(&valid).is_ok());

    // Failed creations are rejected at validation, before storage, so one
    // service can check every invalid shape.
    let invalid_bodies = [
        // Complex type cannot be the key.
        json(r#"{ "name": "y", "fields": [ {"name": "id", "type": "Edm.String", "key": true}, {"name": "Address", "type": "Edm.ComplexType", "key": true, "fields": [{"name": "City", "type": "Edm.String"}]} ] }"#),
        // Complex type cannot be searchable/sortable/facetable.
        json(r#"{ "name": "y", "fields": [ {"name": "id", "type": "Edm.String", "key": true}, {"name": "Address", "type": "Edm.ComplexType", "searchable": true, "fields": [{"name": "City", "type": "Edm.String"}]} ] }"#),
        // Complex type must define subfields.
        json(r#"{ "name": "y", "fields": [ {"name": "id", "type": "Edm.String", "key": true}, {"name": "Address", "type": "Edm.ComplexType", "fields": []} ] }"#),
        // Subfields must be scalar (or collection-of-scalar) types.
        json(r#"{ "name": "y", "fields": [ {"name": "id", "type": "Edm.String", "key": true}, {"name": "Address", "type": "Edm.ComplexType", "fields": [{"name": "Inner", "type": "Edm.ComplexType", "fields": [{"name": "City", "type": "Edm.String"}]}]} ] }"#),
        // Subfield names must be unique.
        json(r#"{ "name": "y", "fields": [ {"name": "id", "type": "Edm.String", "key": true}, {"name": "Address", "type": "Edm.ComplexType", "fields": [ {"name": "City", "type": "Edm.String"}, {"name": "City", "type": "Edm.Int32"} ]} ] }"#),
    ];
    for body in &invalid_bodies {
        assert!(
            service.create_index(body).is_err(),
            "expected rejection: {}", body.to_text()
        );
    }
}

#[test]
fn upload_validates_documents_against_schema() {
    let mut service = service();
    ok(service.create_index(&index_body()));
    let results = ok(service.index_documents(
        "items",
        vec![
            DocumentAction {
                kind: ActionKind::Upload,
                document: json(r#"{"id": "1", "title": "one", "price": 1.5}"#),
            },
            DocumentAction {
                kind: ActionKind::Upload,
                document: json(r#"{"title": "missing key"}"#),
            },
            DocumentAction {
                kind: ActionKind::Upload,
                document: json(r#"{"id": "3", "unknown": true}"#),
            },
        ],
    ));
    assert_eq!(results.len(), 3);
    assert!(results[0].succeeded);
    assert_eq!(results[0].status_code, 201);
    assert!(!results[1].succeeded);
    assert_eq!(results[1].status_code, 400);
    assert!(!results[2].succeeded);
}

#[test]
fn upload_validates_geography_point_and_complex_values() {
    let mut service = service();
    ok(service.create_index(&json(r#"{ "name": "items", "fields": [ {"name": "id", "type": "Edm.String", "key": true}, {"name": "Location", "type": "Edm.GeographyPoint"}, { "name": "Address", "type": "Edm.ComplexType", "fields": [ {"name": "City", "type": "Edm.String"}, {"name": "Zip", "type": "Edm.Int32"} ] } ] }"#)));
    let results = ok(service.index_documents(
        "items",
        vec![
            DocumentAction {
                kind: ActionKind::Upload,
                document: json(r#"{ "id": "1", "Location": {"type": "Point", "coordinates": [-122.13, 47.67]}, "Address": {"City": "Seattle", "Zip": 98101} }"#),
            },
            DocumentAction {
                kind: ActionKind::Upload,
                document: json(r#"{"id": "2", "Location": {"type": "LineString", "coordinates": []}}"#),
            },
            DocumentAction {
                kind: ActionKind::Upload,
                document: json(r#"{"id": "3", "Location": {"type": "Point", "coordinates": [-122.13]}}"#),
            },
            DocumentAction {
                kind: ActionKind::Upload,
                document: json(r#"{"id": "4", "Address": {"City": "Seattle", "Unknown": 1}}"#),
            },
            DocumentAction {
                kind: ActionKind::Upload,
                document: json(r#"{"id": "5", "Address": {"Zip": "not a number"}}"#),
            },
            DocumentAction {
                kind: ActionKind::Upload,
                document: json(r#"{"id": "6", "Address": "not an object"}"#),
            },
        ],
    ));
    assert_eq!(results.len(), 6);
    assert!(
        results[0].succeeded,
        "{}",
        results[0].error_message.clone().unwrap_or_default()
    );
    for (index, result) in results.iter().skip(1).enumerate() {
        assert!(!result.succeeded, "document {} should fail", index + 2);
        assert_eq!(result.status_code, 400);
    }
}

#[test]
fn merge_updates_existing_document() {
    let mut service = service();
    ok(service.create_index(&index_body()));
    upload(
        &mut service,
        vec![json(r#"{"id": "1", "title": "one", "price": 1.0, "tags": ["a"]}"#)],
    );
    let results = ok(service.index_documents(
        "items",
        vec![DocumentAction {
            kind: ActionKind::Merge,
            document: json(r#"{"id": "1", "price": 2.0}"#),
        }],
    ));
    assert!(results[0].succeeded);
    assert_eq!(results[0].status_code, 200);
    let docs = ok(service.storage().get_documents("items"));
    assert_eq!(field_of(&docs[0], "title"), json(r#""one""#));
    assert_eq!(field_of(&docs[0], "price"), json(r#"2.0"#));
    // Collections are replaced, not appended.
    let results = ok(service.index_documents(
        "items",
        vec![DocumentAction {
            kind: ActionKind::Merge,
            document: json(r#"{"id": "1", "tags": ["b"]}"#),
        }],
    ));
    assert!(results[0].succeeded);
    let docs = ok(service.storage().get_documents("items"));
    assert_eq!(field_of(&docs[0], "tags"), json(r#"["b"]"#));
}

#[test]
fn merge_missing_document_fails_per_document() {
    let mut service = service();
    ok(service.create_index(&index_body()));
    let results = ok(service.index_documents(
        "items",
        vec![DocumentAction {
            kind: ActionKind::Merge,
            document: json(r#"{"id": "missing", "price": 2.0}"#),
        }],
    ));
    assert!(!results[0].succeeded);
    assert_eq!(results[0].status_code, 404);
}

#[test]
fn merge_or_upload_merges_or_uploads() {
    let mut service = service();
    ok(service.create_index(&index_body()));
    upload(
        &mut service,
        vec![json(r#"{"id": "1", "title": "one", "price": 1.0}"#)],
    );
    let results = ok(service.index_documents(
        "items",
        vec![
            DocumentAction {
                kind: ActionKind::MergeOrUpload,
                document: json(r#"{"id": "1", "price": 9.0}"#),
            },
            DocumentAction {
                kind: ActionKind::MergeOrUpload,
                document: json(r#"{"id": "2", "title": "two", "price": 3.0}"#),
            },
        ],
    ));
    assert_eq!(results[0].status_code, 200);
    assert_eq!(results[1].status_code, 201);
    let docs = ok(service.storage().get_documents("items"));
    assert_eq!(docs.len(), 2);
    assert_eq!(field_of(&docs[0], "title"), json(r#""one""#));
    assert_eq!(field_of(&docs[0], "price"), json(r#"9.0"#));
}

#[test]
fn delete_removes_document() {
    let mut service = service();
    ok(service.create_index(&index_body()));
    upload(
        &mut service,
        vec![
            json(r#"{"id": "1", "title": "one"}"#),
            json(r#"{"id": "2", "title": "two"}"#),
        ],
    );
    let results = ok(service.index_documents(
        "items",
        vec![
            DocumentAction {
                kind: ActionKind::Delete,
                document: json(r#"{"id": "1"}"#),
            },
            DocumentAction {
                kind: ActionKind::Delete,
                document: json(r#"{"id": "missing"}"#),
            },
        ],
    ));
    assert!(results[0].succeeded);
    assert_eq!(results[0].status_code, 200);
    assert!(!results[1].succeeded);
    assert_eq!(results[1].status_code, 404);
    let docs = ok(service.storage().get_documents("items"));
    assert_eq!(docs.len(), 1);
    assert_eq!(docs[0].key, "2");
    // Deleted documents are no longer searchable.
    let outcome = ok(service.search(
        "items",
        &SearchQuery {
            search: Some("*".to_owned()),
            ..Default::default()
        },
    ));
    assert_eq!(outcome.total, 1);
}

#[test]
fn upsert_index_rebuilds_search_state() {
    let mut service = service();
    ok(service.create_index(&index_body()));
    upload(
        &mut service,
        vec![json(r#"{"id": "1", "title": "hello", "price": 1.0}"#)],
    );
    let outcome = ok(service.search(
        "items",
        &SearchQuery {
            search: Some("hello".to_owned()),
            ..Default::default()
        },
    ));
    assert_eq!(outcome.total, 1);

    // Replacing the index discards its documents from both storage and
    // the search engine.
    let replacement = json(r#"{ "name": "items", "fields": [ {"name": "id", "type": "Edm.String", "key": true}, {"name": "other", "type": "Edm.String", "searchable": true} ] }"#);
    ok(service.create_or_update_index(&replacement));
    let outcome = ok(service.search(
        "items",
        &SearchQuery {
            search: Some("hello".to_owned()),
            ..Default::default()
        },
    ));
    assert_eq!(outcome.total, 0);
    let outcome = ok(service.search(
        "items",
        &SearchQuery {
            search: Some("*".to_owned()),
            ..Default::default()
        },
    ));
    assert_eq!(outcome.total, 0);
}

#[test]
fn search_matches_and_orders_by_key() {
    let mut service = service();
    ok(service.create_index(&index_body()));
    upload(
        &mut service,
        vec![
            json(r#"{"id": "b", "title": "azure search"}"#),
            json(r#"{"id": "a", "title": "azure emulators"}"#),
            json(r#"{"id": "c", "title": "other"}"#),
        ],
    );
    let outcome = ok(service.search(
        "items",
        &SearchQuery {
            search: Some("azure".to_owned()),
            ..Default::default()
        },
    ));
    assert_eq!(outcome.total, 2);
    let keys: Vec<_> = outcome.documents.iter().map(|d| d.key.clone()).collect();
    assert_eq!(keys, vec!["a", "b"]);
}

#[test]
fn search_count_and_paging() {
    let mut service = service();
    ok(service.create_index(&index_body()));
    upload(
        &mut service,
        (0..5)
            .map(|i| json(&format!(r#"{{"id": "{i}", "title": "same"}}"#)))
            .collect(),
    );
    let outcome = ok(service.search(
        "items",
        &SearchQuery {
            search: Some("*".to_owned()),
            count: true,
            top: Some(2),
            skip: 1,
            ..Default::default()
        },
    ));
    assert_eq!(outcome.total, 5);
    assert_eq!(outcome.documents.len(), 2);
    assert_eq!(outcome.documents[0].key, "1");
    assert!(outcome.has_more);
    assert_eq!(outcome.next_skip, 3);
}

#[test]
fn search_filter_narrows_results() {
    let mut service = service();
    ok(service.create_index(&index_body()));
    upload(
        &mut service,
        vec![
            json(r#"{"id": "1", "title": "cheap", "price": 5.0}"#),
            json(r#"{"id": "2", "title": "mid", "price": 50.0}"#),
            json(r#"{"id": "3", "title": "expensive", "price": 500.0}"#),
        ],
    );
    let query =
        ok(service.parse_search("items", &json(r#"{"search": "*", "filter": "price ge 50"}"#)));
    let outcome = ok(service.search("items", &query));
    let keys: Vec<_> = outcome.documents.iter().map(|d| d.key.clone()).collect();
    assert_eq!(keys, vec!["2", "3"]);
}

#[test]
fn search_orderby_sorts_results() {
    let mut service = service();
    ok(service.create_index(&index_body()));
    upload(
        &mut service,
        vec![
            json(r#"{"id": "1", "title": "a", "price": 30.0}"#),
            json(r#"{"id": "2", "title": "b", "price": 10.0}"#),
            json(r#"{"id": "3", "title": "c", "price": 20.0}"#),
        ],
    );
    let query =
        ok(service.parse_search("items", &json(r#"{"search": "*", "orderby": "price desc"}"#)));
    let outcome = ok(service.search("items", &query));
    let keys: Vec<_> = outcome.documents.iter().map(|d| d.key.clone()).collect();
    assert_eq!(keys, vec!["1", "3", "2"]);
}

#[test]
fn search_facets_count_values() {
    let mut service = service();
    ok(service.create_index(&index_body()));
    upload(
        &mut service,
        vec![
            json(r#"{"id": "1", "title": "a", "tags": ["red", "blue"]}"#),
            json(r#"{"id": "2", "title": "b", "tags": ["red"]}"#),
            json(r#"{"id": "3", "title": "c", "tags": ["green"]}"#),
        ],
    );
    let query = ok(service.parse_search("items", &json(r#"{"search": "*", "facets": "tags"}"#)));
    let outcome = ok(service.search("items", &query));
    let Some(facets) = outcome.facets else {
        panic!("expected facets in search outcome");
    };
    let tags = member(&facets, "tags");
    let Some(entries) = tags.as_array() else {
        panic!("expected tags facet array");
    };
    assert_eq!(member(&entries[0], "value"), json(r#""red""#));
    assert_eq!(member(&entries[0], "count"), json(r#"2"#));
    assert_eq!(member(&entries[1], "value"), json(r#""blue""#));
    assert_eq!(member(&entries[1], "count"), json(r#"1"#));
    assert_eq!(member(&entries[2], "value"), json(r#""green""#));
    assert_eq!(member(&entries[2], "count"), json(r#"1"#));
}

#[test]
fn search_facets_options_limit_and_total_count() {
    let mut service = service();
    ok(service.create_index(&index_body()));
    upload(
        &mut service,
        vec![
            json(r#"{"id": "1", "title": "a", "tags": ["red", "blue"]}"#),
            json(r#"{"id": "2", "title": "b", "tags": ["red"]}"#),
            json(r#"{"id": "3", "title": "c", "tags": ["green"]}"#),
        ],
    );
    let query = ok(service.parse_search(
        "items",
        &json(r#"{"search": "*", "facets": ["tags,count:1", "$count"]}"#),
    ));
    let outcome = ok(service.search("items", &query));
    let Some(facets) = outcome.facets else {
        panic!("expected facets in search outcome");
    };
    let tags = member(&facets, "tags");
    let Some(entries) = tags.as_array() else {
        panic!("expected tags facet array");
    };
    assert_eq!(entries.len(), 1);
    assert_eq!(member(&entries[0], "value"), json(r#""red""#));
    assert_eq!(member(&entries[0], "count"), json(r#"2"#));
    assert_eq!(member(&facets, "$count"), json("3"));

    // Unknown facet options are rejected explicitly.
    let api_error = err(service.parse_search("items", &json(r#"{"facets": ["tags,minimum:1"]}"#)));
    assert_eq!(api_error.code.as_str(), "InvalidQuery");
    let api_error = err(service.parse_search("items", &json(r#"{"facets": ["tags,count:many"]}"#)));
    assert_eq!(api_error.code.as_str(), "InvalidQuery");
}

#[test]
fn parse_search_rejects_bad_options() {
    let mut service = service();
    ok(service.create_index(&index_body()));
    // Unknown filter field.
    let api_error = err(service.parse_search("items", &json(r#"{"filter": "missing eq 1"}"#)));
    assert_eq!(api_error.code.as_str(), "InvalidQuery");
    // Non-sortable field in orderby.
    let api_error = err(service.parse_search("items", &json(r#"{"orderby": "title"}"#)));
    assert_eq!(api_error.code.as_str(), "InvalidQuery");
    // Unknown field in select.
    let api_error = err(service.parse_search("items", &json(r#"{"select": "nope"}"#)));
    assert_eq!(api_error.code.as_str(), "InvalidQuery");
    // Non-facetable field in facets.
    let api_error = err(service.parse_search("items", &json(r#"{"facets": "price"}"#)));
    assert_eq!(api_error.code.as_str(), "InvalidQuery");
    // Non-searchable field in searchFields.
    let api_error = err(service.parse_search("items", &json(r#"{"searchFields": "price"}"#)));
    assert_eq!(api_error.code.as_str(), "InvalidQuery");
    // Bad searchFields weight.
    let api_error = err(service.parse_search("items", &json(r#"{"searchFields": "title^many"}"#)));
    assert_eq!(api_error.code.as_str(), "InvalidQuery");
    let api_error = err(service.parse_search("items", &json(r#"{"searchFields": "title^0"}"#)));
    assert_eq!(api_error.code.as_str(), "InvalidQuery");
    // Highlight on an unknown or non-searchable field is rejected.
    let api_error = err(service.parse_search("items", &json(r#"{"highlight": "missing"}"#)));
    assert_eq!(api_error.code.as_str(), "InvalidQuery");
    let api_error = err(service.parse_search("items", &json(r#"{"highlight": "price"}"#)));
    assert_eq!(api_error.code.as_str(), "InvalidQuery");
    // Invalid searchMode.
    let api_error = err(service.parse_search("items", &json(r#"{"searchMode": "both"}"#)));
    assert_eq!(api_error.code.as_str(), "InvalidQuery");
    // Bad filter syntax.
    let api_error = err(service.parse_search("items", &json(r#"{"filter": "price eq"}"#)));
    assert_eq!(api_error.code.as_str(), "InvalidQuery");
}

#[test]
fn parse_search_accepts_search_mode_highlight_and_weights() {
    let mut service = service();
    ok(service.create_index(&index_body()));
    let query = ok(service.parse_search(
        "items",
        &json(r#"{ "search": "hello", "searchMode": "any", "searchFields": "title^2", "highlight": "title", "highlightPreTag": "<b>", "highlightPostTag": "</b>"}"#),
    ));
    assert_eq!(query.search_mode, SearchMode::Any);
    assert_eq!(query.search_fields.len(), 1);
    assert_eq!(query.search_fields[0].name, "title");
    assert_eq!(tantivy::u64_to_f64(query.search_fields[0].boost), 2.0);
    assert_eq!(query.highlight_fields, vec!["title".to_owned()]);
    assert_eq!(query.highlight_pre_tag, "<b>");
    assert_eq!(query.highlight_post_tag, "</b>");
    // Defaults: OR mode (matching Azure), unit boosts, <em> tags.
    let query = ok(service.parse_search("items", &json(r#"{"highlight": "title"}"#)));
    assert_eq!(query.search_mode, SearchMode::Any);
    assert_eq!(query.highlight_pre_tag, "<em>");
    assert_eq!(query.highlight_post_tag, "</em>");
}

#[test]
fn continuation_token_round_trips_and_survives_mutation() {
    let mut service = service();
    ok(service.create_index(&index_body()));
    upload(
        &mut service,
        (0..5)
            .map(|i| json(&format!(r#"{{"id": "{i}", "title": "same"}}"#)))
            .collect(),
    );
    let body = json(r#"{"search": "*", "top": 2, "filter": "title eq 'same'"}"#);
    let query = ok(service.parse_search("items", &body));
    let outcome = ok(service.search("items", &query));
    let token = service
        .next_continuation(&query, &outcome)
        .unwrap_or_else(|| panic!("expected a continuation token"));
    // The token decodes and carries the next skip.
    let decoded =
        ContinuationToken::decode(&token).unwrap_or_else(|e| panic!("token decodes: {e}"));
    assert_eq!(decoded.skip, 2);
    assert_eq!(decoded.filter.as_deref(), Some("title eq 'same'"));

    // A mutation does NOT invalidate the token (like Azure; results may
    // shift). The filter still matches ids 0-4, so skip=2 resumes at "2".
    upload(&mut service, vec![json(r#"{"id": "5", "title": "new"}"#)]);
    let mut resumed = ok(service.parse_search("items", &body));
    resumed.continuation = Some(token);
    let outcome = ok(service.search("items", &resumed));
    assert_eq!(outcome.documents.first().map(|d| d.key.as_str()), Some("2"));

    // A fresh token also works and resumes after the first page.
    let outcome = ok(service.search("items", &query));
    let token = service
        .next_continuation(&query, &outcome)
        .unwrap_or_else(|| panic!("expected a continuation token"));
    let mut next = ok(service.parse_search("items", &body));
    next.continuation = Some(token);
    let outcome = ok(service.search("items", &next));
    assert_eq!(outcome.documents.first().map(|d| d.key.as_str()), Some("2"));
}

#[test]
fn search_unknown_index_not_found() {
    let mut service = service();
    let api_error = err(service.parse_search("missing", &Json::Null));
    assert_eq!(api_error.status, 404);
}

fn suggester_index_body() -> Json {
    json(r#"{ "name": "items", "fields": [ {"name": "id", "type": "Edm.String", "key": true, "filterable": true, "sortable": true}, {"name": "title", "type": "Edm.String", "searchable": true, "filterable": true}, {"name": "tags", "type": "Edm.Collection(Edm.String)", "searchable": true, "filterable": true, "facetable": true} ], "suggesters": [ {"name": "sg", "searchFields": ["title", "tags"]} ] }"#)
}

#[test]
fn schema_validation_rejects_bad_suggesters() {
    let mut service = service();
    // Unknown search field.
    let unknown_field = json(r#"{ "name": "x", "fields": [ {"name": "id", "type": "Edm.String", "key": true}, {"name": "title", "type": "Edm.String", "searchable": true} ], "suggesters": [{"name": "sg", "searchFields": ["missing"]}] }"#);
    assert!(service.create_index(&unknown_field).is_err());
    // Non-searchable search field.
    let not_searchable = json(r#"{ "name": "x", "fields": [ {"name": "id", "type": "Edm.String", "key": true}, {"name": "title", "type": "Edm.String", "filterable": true} ], "suggesters": [{"name": "sg", "searchFields": ["title"]}] }"#);
    assert!(service.create_index(&not_searchable).is_err());
    // Duplicate suggester names.
    let duplicate = json(r#"{ "name": "x", "fields": [ {"name": "id", "type": "Edm.String", "key": true}, {"name": "title", "type": "Edm.String", "searchable": true} ], "suggesters": [ {"name": "sg", "searchFields": ["title"]}, {"name": "sg", "searchFields": ["title"]} ] }"#);
    assert!(service.create_index(&duplicate).is_err());
    // Malformed suggester (missing searchFields).
    let malformed = json(r#"{ "name": "x", "fields": [ {"name": "id", "type": "Edm.String", "key": true}, {"name": "title", "type": "Edm.String", "searchable": true} ], "suggesters": [{"name": "sg"}] }"#);
    assert!(service.create_index(&malformed).is_err());
}

#[test]
fn autocomplete_prefix_matches_and_dedupes() {
    let mut service = service();
    ok(service.create_index(&suggester_index_body()));
    upload(
        &mut service,
        vec![
            json(r#"{"id": "1", "title": "Boston Harbor Hotel", "tags": ["spa"]}"#),
            json(r#"{"id": "2", "title": "Boston Airport Inn", "tags": ["boston", "wifi"]}"#),
            json(r#"{"id": "3", "title": "Seattle Downtown", "tags": ["wifi"]}"#),
        ],
    );
    let completions = ok(service.autocomplete("items", "sg", "bos", 5, None));
    let texts: Vec<_> = completions.iter().map(|c| c.text.clone()).collect();
    assert_eq!(texts, vec!["Boston", "boston"]);
    assert_eq!(completions[0].query_plus_text, "bos Boston");
    // Case-insensitive: "BOS" matches the same words.
    let completions = ok(service.autocomplete("items", "sg", "BOS", 5, None));
    assert_eq!(completions.len(), 2);
    // No match.
    assert!(ok(service.autocomplete("items", "sg", "zzz", 5, None)).is_empty());
    // top limits the results.
    let completions = ok(service.autocomplete("items", "sg", "bos", 1, None));
    assert_eq!(completions.len(), 1);
}

#[test]
fn suggest_returns_matching_documents_with_text() {
    let mut service = service();
    ok(service.create_index(&suggester_index_body()));
    upload(
        &mut service,
        vec![
            json(r#"{"id": "1", "title": "Boston Harbor Hotel", "tags": ["spa"]}"#),
            json(r#"{"id": "2", "title": "Seattle Downtown", "tags": ["boston", "wifi"]}"#),
            json(r#"{"id": "3", "title": "Portland Lodge", "tags": ["wifi"]}"#),
        ],
    );
    let suggestions = ok(service.suggest("items", "sg", "bos", 5, None));
    assert_eq!(suggestions.len(), 2);
    // Documents come back in key order, with the matched word.
    assert_eq!(suggestions[0].document.key, "1");
    assert_eq!(suggestions[0].text, "Boston");
    assert_eq!(suggestions[1].document.key, "2");
    assert_eq!(suggestions[1].text, "boston");
    // The full document fields are preserved.
    assert_eq!(
        field_of(&suggestions[0].document, "title"),
        json(r#""Boston Harbor Hotel""#)
    );
    // top limits the results.
    let suggestions = ok(service.suggest("items", "sg", "bos", 1, None));
    assert_eq!(suggestions.len(), 1);
    assert_eq!(suggestions[0].document.key, "1");
}

#[test]
fn suggest_and_autocomplete_filter_narrow_candidates() {
    let mut service = service();
    ok(service.create_index(&suggester_index_body()));
    upload(
        &mut service,
        vec![
            json(r#"{"id": "1", "title": "Boston Harbor Hotel", "tags": ["spa"]}"#),
            json(r#"{"id": "2", "title": "Seattle Downtown", "tags": ["boston", "wifi"]}"#),
        ],
    );
    // Without a filter, "bos" matches doc 1 (title) and doc 2 (tag).
    assert_eq!(ok(service.suggest("items", "sg", "bos", 5, None)).len(), 2);
    // A filter narrows the candidates: only the wifi-tagged doc (2) remains.
    let suggestions =
        ok(service.suggest("items", "sg", "bos", 5, Some("tags/any(t: t eq 'wifi')")));
    assert_eq!(suggestions.len(), 1);
    assert_eq!(suggestions[0].document.key, "2");
    // Autocomplete narrows the same way: "bos" only completes from doc 2's
    // tag, not doc 1's title.
    let completions =
        ok(service.autocomplete("items", "sg", "bos", 5, Some("tags/any(t: t eq 'wifi')")));
    let texts: Vec<_> = completions.iter().map(|c| c.text.clone()).collect();
    assert_eq!(texts, vec!["boston"]);
    // An invalid filter is rejected.
    let api_error = err(service.suggest("items", "sg", "bos", 5, Some("tags/any(t:")));
    assert_eq!(api_error.code.as_str(), "InvalidQuery");
}

#[test]
fn autocomplete_and_suggest_reject_bad_requests() {
    let mut service = service();
    ok(service.create_index(&suggester_index_body()));
    // Missing index.
    let api_error = err(service.autocomplete("missing", "sg", "bos", 5, None));
    assert_eq!(api_error.status, 404);
    // Unknown suggester.
    let api_error = err(service.autocomplete("items", "nope", "bos", 5, None));
    assert_eq!(api_error.code.as_str(), "InvalidQuery");
    let api_error = err(service.suggest("items", "nope", "bos", 5, None));
    assert_eq!(api_error.code.as_str(), "InvalidQuery");
    // Empty search text.
    let api_error = err(service.autocomplete("items", "sg", "   ", 5, None));
    assert_eq!(api_error.code.as_str(), "InvalidQuery");
    let api_error = err(service.suggest("items", "sg", "", 5, None));
    assert_eq!(api_error.code.as_str(), "InvalidQuery");
}

#[test]
fn batch_last_action_wins_for_repeated_keys() {
    let mut service = service();
    ok(service.create_index(&index_body()));
    upload(
        &mut service,
        vec![json(r#"{"id": "1", "title": "one", "price": 1.0}"#)],
    );

    // Upload-then-delete of a new key in one batch: the document is gone
    // from storage and from the search engine alike.
    let results = ok(service.index_documents(
        "items",
        vec![
            DocumentAction {
                kind: ActionKind::Upload,
                document: json(r#"{"id": "2", "title": "two", "price": 2.0}"#),
            },
            DocumentAction {
                kind: ActionKind::Delete,
                document: json(r#"{"id": "2"}"#),
            },
        ],
    ));
    assert_eq!(
        results.iter().map(|r| r.status_code).collect::<Vec<_>>(),
        vec![201, 200]
    );
    assert_eq!(ok(service.count_documents("items")), 1);
    let outcome = ok(service.search(
        "items",
        &SearchQuery {
            search: Some("*".to_owned()),
            ..Default::default()
        },
    ));
    assert_eq!(outcome.total, 1);

    // Delete-then-upload of an existing key: the upload wins.
    let results = ok(service.index_documents(
        "items",
        vec![
            DocumentAction {
                kind: ActionKind::Delete,
                document: json(r#"{"id": "1"}"#),
            },
            DocumentAction {
                kind: ActionKind::Upload,
                document: json(r#"{"id": "1", "title": "replaced", "price": 9.0}"#),
            },
        ],
    ));
    assert_eq!(
        results.iter().map(|r| r.status_code).collect::<Vec<_>>(),
        vec![200, 201]
    );
    assert_eq!(member(&ok(service.get_document("items", "1")), "title"), json(r#""replaced""#));

    // Upload-then-merge in one batch merges against the pending upload.
    let results = ok(service.index_documents(
        "items",
        vec![
            DocumentAction {
                kind: ActionKind::Upload,
                document: json(r#"{"id": "3", "title": "three", "price": 3.0}"#),
            },
            DocumentAction {
                kind: ActionKind::Merge,
                document: json(r#"{"id": "3", "price": 30.0}"#),
            },
        ],
    ));
    assert!(results.iter().all(|r| r.succeeded));
    let merged = ok(service.get_document("items", "3"));
    assert_eq!(member(&merged, "title"), json(r#""three""#));
    assert_eq!(member(&merged, "price"), json("30.0"));
}

#[test]
fn continuation_only_request_preserves_filter_and_orderby() {
    let mut service = service();
    ok(service.create_index(&index_body()));
    upload(
        &mut service,
        (1..=4)
            .map(|i| json(&format!(r#"{{"id": "{i}", "title": "same", "price": {i}.0}}"#)))
            .collect(),
    );
    let query = ok(service.parse_search(
        "items",
        &json(r#"{"search": "*", "top": 1, "filter": "price ge 2", "orderby": "price desc"}"#),
    ));
    let outcome = ok(service.search("items", &query));
    assert_eq!(outcome.documents[0].key, "4");
    let token = service
        .next_continuation(&query, &outcome)
        .unwrap_or_else(|| panic!("expected a continuation token"));

    // Later pages may send only the continuation (plus a page size): the
    // result set stays filtered and ordered.
    let next = SearchQuery {
        search: Some("*".to_owned()),
        top: Some(1),
        continuation: Some(token),
        ..Default::default()
    };
    let outcome = ok(service.search("items", &next));
    assert_eq!(outcome.documents.len(), 1);
    assert_eq!(outcome.documents[0].key, "3");
    // The forwarded token still carries the filter/orderby raws, so a
    // third continuation-only page stays on the same result set.
    let token = service
        .next_continuation(&next, &outcome)
        .unwrap_or_else(|| panic!("expected a continuation token"));
    let decoded =
        ContinuationToken::decode(&token).unwrap_or_else(|e| panic!("token decodes: {e}"));
    assert_eq!(decoded.filter.as_deref(), Some("price ge 2"));
    assert_eq!(decoded.orderby.as_deref(), Some("price desc"));
    let next = SearchQuery {
        search: Some("*".to_owned()),
        top: Some(1),
        continuation: Some(token),
        ..Default::default()
    };
    let outcome = ok(service.search("items", &next));
    assert_eq!(outcome.documents.len(), 1);
    assert_eq!(outcome.documents[0].key, "2");
    assert!(!outcome.has_more);
    assert!(service.next_continuation(&next, &outcome).is_none());
}

#[test]
fn continuation_tokens_are_url_safe_and_legacy_tokens_decode() {
    let token = ContinuationToken {
        filter: Some("price ge 2 and title ne 'x/y+z'".to_owned()),
        orderby: Some("price desc".to_owned()),
        skip: 7,
        vector_query_hash: Some(u64::MAX),
    };
    // `+` and `/` would be mangled inside query strings; the URL-safe
    // alphabet avoids them (padding `=` is query-safe).
    let encoded = token.encode();
    assert!(
        !encoded.contains('+') && !encoded.contains('/'),
        "token must be URL-safe: {encoded}"
    );
    assert_eq!(
        ContinuationToken::decode(&encoded).unwrap_or_else(|e| panic!("token decodes: {e}")),
        token
    );
    // Tokens minted before the URL-safe switch still decode.
    let mut map = serde_json::Map::new();
    map.insert("filter".to_owned(), serde_json::Value::from(token.filter.clone()));
    map.insert("orderby".to_owned(), serde_json::Value::from(token.orderby.clone()));
    map.insert("skip".to_owned(), serde_json::Value::from(token.skip));
    map.insert("vector_query_hash".to_owned(), serde_json::Value::from(token.vector_query_hash));
    let text = serde_json::Value::Object(map).to_string();
    let legacy = BASE64.encode(text);
    assert_eq!(
        ContinuationToken::decode(&legacy).unwrap_or_else(|e| panic!("legacy decodes: {e}")),
        token
    );
}

#[test]
fn top_zero_returns_empty_page_without_continuation() {
    let mut service = service();
    ok(service.create_index(&index_body()));
    upload(
        &mut service,
        vec![
            json(r#"{"id": "1", "title": "one"}"#),
            json(r#"{"id": "2", "title": "two"}"#),
        ],
    );
    let query = ok(service.parse_search("items", &json(r#"{"search": "*", "top": 0}"#)));
    let outcome = ok(service.search("items", &query));
    assert_eq!(outcome.total, 2);
    assert!(outcome.documents.is_empty());
    assert!(!outcome.has_more);
    assert!(service.next_continuation(&query, &outcome).is_none());
}

#[test]
fn select_star_returns_all_fields() {
    let mut service = service();
    ok(service.create_index(&index_body()));
    upload(
        &mut service,
        vec![json(r#"{"id": "1", "title": "one", "price": 1.5, "tags": ["a"]}"#)],
    );
    let query = ok(service.parse_search("items", &json(r#"{"search": "*", "select": "*"}"#)));
    // `*` behaves like omitting `select`: no projection is recorded.
    assert!(query.select.is_empty());
    let outcome = ok(service.search("items", &query));
    assert_eq!(outcome.documents.len(), 1);
    for field in ["id", "title", "price", "tags"] {
        assert!(
            outcome.documents[0].fields.contains_key(field),
            "missing field {field}"
        );
    }
}

#[test]
fn orderby_search_score_orders_by_relevance() {
    let mut service = service();
    ok(service.create_index(&index_body()));
    upload(
        &mut service,
        vec![
            json(r#"{"id": "1", "title": "azure azure azure"}"#),
            json(r#"{"id": "2", "title": "azure"}"#),
        ],
    );
    let keys = |orderby: &str| {
        let query =
            ok(service.parse_search("items", &json(&format!(r#"{{"search": "azure", "orderby": "{orderby}"}}"#))));
        ok(service.search("items", &query))
            .documents
            .iter()
            .map(|d| d.key.clone())
            .collect::<Vec<_>>()
    };
    assert_eq!(keys("@search.score desc"), vec!["1", "2"]);
    assert_eq!(keys("@search.score asc"), vec!["2", "1"]);
}

#[test]
fn facet_string_with_options_limits_values() {
    let mut service = service();
    ok(service.create_index(&index_body()));
    upload(
        &mut service,
        vec![
            json(r#"{"id": "1", "title": "a", "tags": ["red", "blue"]}"#),
            json(r#"{"id": "2", "title": "b", "tags": ["red"]}"#),
            json(r#"{"id": "3", "title": "c", "tags": ["green"]}"#),
        ],
    );
    // Options in the single-string form attach to the preceding facet.
    let query =
        ok(service.parse_search("items", &json(r#"{"search": "*", "facets": "tags,count:1"}"#)));
    let outcome = ok(service.search("items", &query));
    let Some(facets) = outcome.facets else {
        panic!("expected facets in search outcome");
    };
    let tags = member(&facets, "tags");
    let Some(entries) = tags.as_array() else {
        panic!("expected tags facet array");
    };
    assert_eq!(entries.len(), 1);
    assert_eq!(member(&entries[0], "value"), json(r#""red""#));
    assert_eq!(member(&entries[0], "count"), json(r#"2"#));
}

#[test]
fn synonym_expansions_match_case_insensitively() {
    let mut service = service();
    ok(service.create_synonym_map("m", "solr", "USA, United States\nWA => Washington"));
    assert_eq!(service.synonym_expansions("usa"), vec!["states", "united"]);
    assert_eq!(service.synonym_expansions("USA"), vec!["states", "united"]);
    assert_eq!(service.synonym_expansions("states"), vec!["united", "usa"]);
    // Explicit mappings only expand from the left side.
    assert_eq!(service.synonym_expansions("wa"), vec!["washington"]);
    assert!(service.synonym_expansions("washington").is_empty());
    assert!(service.synonym_expansions("unknown").is_empty());
}

#[test]
fn synonym_search_expands_query_terms() {
    let mut service = service();
    ok(service.create_index(&index_body()));
    upload(
        &mut service,
        vec![
            json(r#"{"id": "1", "title": "hotels in Washington"}"#),
            json(r#"{"id": "2", "title": "flights to Boston"}"#),
        ],
    );
    ok(service.create_synonym_map("m", "solr", "WA, Washington"));
    // "wa" matches document 1 via the "washington" expansion.
    let query = ok(service.parse_search("items", &json(r#"{"search": "wa"}"#)));
    let outcome = ok(service.search("items", &query));
    let keys: Vec<&str> = outcome.documents.iter().map(|d| d.key.as_str()).collect();
    assert_eq!(keys, vec!["1"]);
    // Without the map, "wa" matches nothing.
    service
        .delete_synonym_map("m")
        .unwrap_or_else(|e| panic!("delete failed: {}", e.to_text()));
    let query = ok(service.parse_search("items", &json(r#"{"search": "wa"}"#)));
    let outcome = ok(service.search("items", &query));
    assert!(outcome.documents.is_empty());
}

fn act(kind: ActionKind, document: &str) -> DocumentAction {
    DocumentAction { kind, document: json(document) }
}

fn told<T>(result: Result<T, ApiError>) -> (u16, &'static str, String) {
    match result {
        Ok(_) => panic!("expected Err, got Ok"),
        Err(e) => (e.status, e.code.as_str(), e.message),
    }
}

fn texts(list: &[&str]) -> Vec<String> {
    list.iter().map(|s| (*s).to_owned()).collect()
}

fn searched(service: &Service, index: &str, body: &str) -> SearchOutcome {
    let query = ok(service.parse_search(index, &json(body)));
    ok(service.search(index, &query))
}

fn shown_keys(outcome: &SearchOutcome) -> Vec<&str> {
    outcome.documents.iter().map(|d| d.key.as_str()).collect()
}

#[test]
fn indexes_are_listed_by_name_as_they_were_given() {
    let mut service = service();
    let body = |name: &str| {
        json(&format!(
            r#"{{"name": "{name}", "custom": [1], "fields": [{{"name": "id", "type": "Edm.String", "key": true}}]}}"#
        ))
    };
    assert_eq!(ok(service.create_index(&body("b"))), body("b"));
    ok(service.create_index(&body("a")));
    assert_eq!(service.0.list_indexes(), vec![body("a"), body("b")]);
    assert_eq!(ok(service.0.get_index("b")), body("b"));
    let (status, code, message) = told(service.0.get_index("c"));
    assert_eq!((status, code), (404, "ResourceNotFound"));
    assert_eq!(message, "Index \"c\" was not found.");
    assert_eq!(told(service.0.delete_index("c")).0, 404);
    assert_eq!(told(service.0.count_documents("c")).0, 404);
    let (status, code, message) = told(service.create_index(&body("a")));
    assert_eq!((status, code), (409, "IndexAlreadyExists"));
    assert_eq!(message, "An index with name \"a\" already exists.");
}

#[test]
fn documents_are_read_back_as_uploaded() {
    let mut service = service();
    ok(service.create_index(&index_body()));
    upload(
        &mut service,
        vec![json(r#"{"id": "1", "title": "one", "price": 1.5, "tags": ["a", "b"]}"#)],
    );
    assert_eq!(
        ok(service.get_document("items", "1")),
        json(r#"{"id": "1", "title": "one", "price": 1.5, "tags": ["a", "b"]}"#)
    );
    let (status, _, message) = told(service.get_document("items", "2"));
    assert_eq!(status, 404);
    assert_eq!(message, "Document with key \"2\" was not found in index \"items\".");
    assert_eq!(ok(service.count_documents("items")), 1);
    service.0.reset();
    assert!(service.0.list_indexes().is_empty());
}

#[test]
fn batches_report_what_each_action_did() {
    let mut service = service();
    ok(service.create_index(&index_body()));
    let outcome = ok(service.0.index_documents(
        "items",
        vec![
            act(ActionKind::Upload, r#"{"id": "1", "title": "one"}"#),
            act(ActionKind::Merge, r#"{"id": "1", "price": 2}"#),
            act(ActionKind::Merge, r#"{"title": "no key"}"#),
            act(ActionKind::Upload, r#"{"id": "2", "price": "much"}"#),
            act(ActionKind::Delete, r#"{"id": "9"}"#),
            act(ActionKind::Upload, r#"{"id": "3"}"#),
            act(ActionKind::Delete, r#"{"id": "3"}"#),
        ],
    ));
    let codes: Vec<u16> = outcome.results.iter().map(|r| r.status_code).collect();
    assert_eq!(codes, vec![201, 200, 400, 400, 404, 201, 200]);
    assert_eq!(
        outcome.results[2].error_message.as_deref(),
        Some("Document is missing the key field \"id\".")
    );
    assert_eq!(outcome.index, "items");
    assert_eq!(
        ok(service.get_document("items", "1")),
        json(r#"{"id": "1", "title": "one", "price": 2}"#)
    );
    assert_eq!(ok(service.count_documents("items")), 1);
    assert_eq!(shown_keys(&searched(&service, "items", r#"{"search": "*"}"#)), vec!["1"]);
    assert_eq!(told(service.0.index_documents("none", Vec::new())).0, 404);
}

#[test]
fn compatible_updates_keep_the_documents() {
    let mut service = service();
    ok(service.create_index(&index_body()));
    upload(&mut service, vec![json(r#"{"id": "1", "title": "hello world"}"#)]);
    let mut body = index_body();
    if let Json::Object(map) = &mut body {
        let fields = map.get("fields").and_then(Json::as_array).unwrap();
        let mut more: Vec<Json> = fields.iter().map(Json::duplicate).collect();
        more.push(json(r#"{"name": "extra", "type": "Edm.String", "searchable": true}"#));
        map.insert("fields".to_owned(), Json::Array(more));
    }
    ok(service.create_or_update_index(&body));
    assert_eq!(ok(service.count_documents("items")), 1);
    assert_eq!(shown_keys(&searched(&service, "items", r#"{"search": "hello"}"#)), vec!["1"]);
}

#[test]
fn aliases_lead_to_their_index() {
    let mut service = service();
    ok(service.create_index(&index_body()));
    upload(&mut service, vec![json(r#"{"id": "1", "title": "hello"}"#)]);
    let body = json(r#"{"name": "al", "indexes": ["items"]}"#);
    let alias = ok(service.0.create_named_resource(ResourceKind::Alias, "al", &body));
    assert_eq!(alias.target_index().as_deref(), Some("items"));
    assert_eq!(service.0.resolve_index_name("al"), "items");
    assert_eq!(service.0.resolve_index_name("items"), "items");
    assert_eq!(ok(service.count_documents("al")), 1);
    assert_eq!(shown_keys(&searched(&service, "al", r#"{"search": "hello"}"#)), vec!["1"]);
    // Names of indexes and of aliases stay apart.
    let (status, code, message) =
        told(service.0.create_named_resource(ResourceKind::Alias, "items", &body));
    assert_eq!((status, code), (409, "AliasAlreadyExists"));
    assert_eq!(message, "An index with name \"items\" already exists.");
    let named = json(
        r#"{"name": "al", "fields": [{"name": "id", "type": "Edm.String", "key": true}]}"#,
    );
    let (status, _, message) = told(service.create_index(&named));
    assert_eq!(status, 409);
    assert_eq!(message, "An alias with name \"al\" already exists.");
}

#[test]
fn named_resources_are_kept_by_kind() {
    let mut service = service();
    let kinds =
        [ResourceKind::Alias, ResourceKind::KnowledgeSource, ResourceKind::KnowledgeBase];
    for kind in kinds {
        let body = json(r#"{"name": "n", "x": 1}"#);
        let first = ok(service.0.create_named_resource(kind, "n", &body));
        assert_eq!(member(&first.to_value(), "x"), json("1"));
        assert_eq!(told(service.0.create_named_resource(kind, "n", &body)).0, 409);
        let second = ok(service.0.create_or_update_named_resource(
            kind,
            "n",
            &json(r#"{"name": "n", "x": 2}"#),
        ));
        assert_ne!(first.etag, second.etag);
        assert_eq!(member(&ok(service.0.get_named_resource(kind, "n")).to_value(), "x"), json("2"));
        ok(service.0.create_or_update_named_resource(kind, "m", &body));
        let names: Vec<String> =
            service.0.list_named_resources(kind).into_iter().map(|r| r.name).collect();
        assert_eq!(names, vec!["m", "n"]);
        assert!(service.0.delete_named_resource(kind, "n").is_ok());
        let (status, code, _) = told(service.0.delete_named_resource(kind, "n"));
        assert_eq!((status, code), (404, "ResourceNotFound"));
        assert_eq!(told(service.0.get_named_resource(kind, "n")).0, 404);
    }
}

#[test]
fn synonym_maps_are_kept_and_validated() {
    let mut service = service();
    let map = ok(service.0.create_synonym_map("m", "solr", "usa, america\nbig => large"));
    assert_eq!(map.rules.len(), 2);
    assert_eq!(told(service.0.create_synonym_map("m", "solr", "a, b")).1, "SynonymMapAlreadyExists");
    assert_eq!(told(service.0.create_synonym_map("n", "other", "a, b")).1, "InvalidSynonymMap");
    assert_eq!(told(service.0.create_synonym_map("n", "solr", "a =>")).1, "InvalidSynonymMap");
    assert_eq!(told(service.0.create_synonym_map("", "solr", "a, b")).0, 400);
    let found = ok(service.0.get_synonym_map("m"));
    assert_eq!(member(&found.to_value(), "name"), json("\"m\""));
    let replaced = ok(service.0.create_or_update_synonym_map("m", "solr", "a, b"));
    assert_eq!(replaced.rules.len(), 1);
    assert_ne!(replaced.etag, map.etag);
    assert_eq!(service.0.list_synonym_maps().len(), 1);
    assert_eq!(told(service.0.get_synonym_map("x")).0, 404);
    ok(service.0.delete_synonym_map("m"));
    assert_eq!(told(service.0.delete_synonym_map("m")).0, 404);
}

#[test]
fn analyze_requests_name_known_analyzers_and_fields() {
    let mut service = service();
    ok(service.create_index(&index_body()));
    assert!(service.0.validate_analyze("items", None, None).is_ok());
    assert!(service.0.validate_analyze("items", Some("keyword"), Some("title")).is_ok());
    let (status, _, message) = told(service.0.validate_analyze("items", Some("nope"), None));
    assert_eq!(status, 400);
    assert!(message.starts_with("Unknown analyzer \"nope\"; supported analyzers: "));
    assert_eq!(
        told(service.0.validate_analyze("items", None, Some("nope"))).2,
        "Analyze field \"nope\" does not exist in index \"items\"."
    );
    assert_eq!(told(service.0.validate_analyze("none", None, None)).0, 404);
}

fn vector_index() -> Json {
    json(
        r#"{
            "name": "items",
            "fields": [
                {"name": "id", "type": "Edm.String", "key": true, "filterable": true},
                {"name": "title", "type": "Edm.String", "searchable": true},
                {"name": "v", "type": "Collection(Edm.Single)", "searchable": true,
                 "dimensions": 2, "vectorSearchProfile": "p"}
            ],
            "vectorSearch": {"profiles": [{"name": "p", "algorithm": "a"}]}
        }"#,
    )
}

fn vector_service() -> Service {
    let mut service = service();
    let support = VectorSupport { max_fields: 5, profiles: Ok(texts(&["p"])) };
    ok(service.0.create_index(&vector_index(), &support));
    let outcome = ok(service.0.index_documents(
        "items",
        vec![
            act(ActionKind::Upload, r#"{"id": "1", "title": "azure", "v": [1, 0]}"#),
            act(ActionKind::Upload, r#"{"id": "2", "title": "other", "v": [0, 1]}"#),
            act(ActionKind::Upload, r#"{"id": "3", "title": "azure"}"#),
        ],
    ));
    assert!(outcome.results.iter().all(|r| r.succeeded));
    let stored: Vec<(&str, bool)> =
        outcome.vectors.iter().map(|c| (c.key.as_str(), c.vector.is_some())).collect();
    assert_eq!(stored, vec![("1", true), ("2", true), ("3", false)]);
    service
}

fn hit(key: &str, score: f64) -> KeyScore {
    KeyScore { key: key.to_owned(), score: tantivy::f64_to_u64(score) }
}

#[test]
fn vector_hits_alone_are_answered_at_once() {
    let service = vector_service();
    let query = ok(service.parse_search(
        "items",
        &json(r#"{"vectorQueries": [{"vector": [1, 0], "fields": "v", "k": 2}]}"#),
    ));
    let side = VectorSide { hash: Some(7), hits: vec![vec![hit("2", 0.5), hit("1", 0.75)]] };
    match ok(service.0.search("items", &query, &side)) {
        SearchStep::Done(outcome) => assert_eq!(shown_keys(&outcome), vec!["1", "2"]),
        SearchStep::Fuse(_) => panic!("nothing to fuse"),
    }
}

#[test]
fn hybrid_hits_are_handed_back_to_be_fused() {
    let service = vector_service();
    let query = ok(service.parse_search(
        "items",
        &json(
            r#"{"search": "azure", "vectorQueries": [{"vector": [1, 0], "fields": "v", "weight": 2}]}"#,
        ),
    ));
    let side = VectorSide { hash: Some(7), hits: vec![vec![hit("2", 0.5), hit("gone", 0.75)]] };
    match ok(service.0.search("items", &query, &side)) {
        SearchStep::Done(_) => panic!("expected score lists to fuse"),
        SearchStep::Fuse(plan) => {
            let found: Vec<String> =
                plan.full_text_scores.to_vec().into_iter().map(|s| s.key).collect();
            assert_eq!(found, vec!["1", "3"]);
            assert_eq!(plan.vector_lists.len(), 1);
            assert_eq!(plan.vector_lists[0].weight, tantivy::f64_to_u64(2.0));
            let mut fused = plan.full_text_scores.duplicate();
            fused.put(hit("2", 100.0));
            let outcome = finish_search(&plan, &fused, &query);
            assert_eq!(shown_keys(&outcome)[0], "2");
            assert_eq!(outcome.total, 3);
        }
    }
}

#[test]
fn filters_come_before_or_after_the_vector_search() {
    let service = vector_service();
    let parse = |mode: &str| {
        ok(service.parse_search(
            "items",
            &json(&format!(
                r#"{{"filter": "id ne '1'", "vectorFilterMode": "{mode}",
                    "vectorQueries": [{{"vector": [1, 0], "fields": "v"}}]}}"#
            )),
        ))
    };
    let pre = parse("preFilter");
    assert_eq!(
        ok(service.0.vector_candidates("items", &pre, None)),
        Some(texts(&["2", "3"]))
    );
    let post = parse("postFilter");
    assert_eq!(ok(service.0.vector_candidates("items", &post, None)), None);
    let side = VectorSide { hash: None, hits: vec![vec![hit("1", 0.75), hit("2", 0.5)]] };
    match ok(service.0.search("items", &post, &side)) {
        SearchStep::Done(outcome) => assert_eq!(shown_keys(&outcome), vec!["2"]),
        SearchStep::Fuse(_) => panic!("nothing to fuse"),
    }
}

#[test]
fn continuations_are_bound_to_the_vector_queries() {
    let service = vector_service();
    let token = ContinuationToken {
        filter: None,
        orderby: None,
        skip: 1,
        vector_query_hash: Some(7),
    };
    let query = SearchQuery {
        search: Some("*".to_owned()),
        continuation: Some(token.encode()),
        ..Default::default()
    };
    let side = |hash: Option<u64>| VectorSide { hash, hits: Vec::new() };
    assert!(service.0.search("items", &query, &side(Some(7))).is_ok());
    for hash in [None, Some(8)] {
        let (status, code, message) = told(service.0.search("items", &query, &side(hash)));
        assert_eq!((status, code), (400, "InvalidQuery"));
        assert_eq!(message, "Vector query changed during paging; restart the search.");
    }
    for raw in ["%%%", "bm90IGpzb24", "W10"] {
        let query = SearchQuery { continuation: Some(raw.to_owned()), ..Default::default() };
        let (status, _, message) = told(service.search("items", &query));
        assert_eq!(status, 400);
        assert!(message.starts_with("Invalid continuation token: "), "{message}");
    }
}

#[test]
fn following_continuations_visits_every_result_once() {
    let mut service = service();
    ok(service.create_index(&index_body()));
    upload(
        &mut service,
        (0..7)
            .map(|i| json(&format!(r#"{{"id": "{i}", "title": "same", "price": {}}}"#, i % 3)))
            .collect(),
    );
    let mut body = r#"{"search": "same", "top": 3, "orderby": "price desc", "filter": "price ge 1"}"#
        .to_owned();
    let mut seen: Vec<String> = Vec::new();
    loop {
        let query = ok(service.parse_search("items", &json(&body)));
        let outcome = ok(service.search("items", &query));
        assert_eq!(outcome.total, 4);
        seen.extend(outcome.documents.iter().map(|d| d.key.clone()));
        match service.next_continuation(&query, &outcome) {
            Some(token) => body = format!(r#"{{"search": "same", "top": 3, "continuation": "{token}"}}"#),
            None => break,
        }
    }
    assert_eq!(seen, vec!["2", "5", "1", "4"]);
}

#[test]
fn highlights_come_with_the_page() {
    let mut service = service();
    ok(service.create_index(&index_body()));
    upload(
        &mut service,
        vec![
            json(r#"{"id": "1", "title": "The azure service runs. Nothing here."}"#),
            json(r#"{"id": "2", "title": "azure"}"#),
        ],
    );
    let outcome = searched(
        &service,
        "items",
        r#"{"search": "running -azures", "highlight": "title", "searchMode": "any"}"#,
    );
    assert!(outcome.highlights.len() == 0);
    let outcome = searched(
        &service,
        "items",
        r#"{"search": "runs", "highlight": "title", "highlightPreTag": "[", "highlightPostTag": "]"}"#,
    );
    assert_eq!(shown_keys(&outcome), vec!["1"]);
    let fields = &outcome.highlights.get("1").unwrap().fields;
    assert_eq!(
        fields.get("title").unwrap().fragments,
        vec!["The azure service [runs.]".to_owned()]
    );
}

#[test]
fn search_requests_are_validated() {
    let mut service = service();
    ok(service.create_index(&index_body()));
    let refused = |body: &str| {
        let (status, code, message) = told(service.parse_search("items", &json(body)));
        assert_eq!(status, 400);
        (code, message)
    };
    for (body, message) in [
        ("[]", "Search request body must be a JSON object."),
        (r#"{"top": -1}"#, "\"top\" must be a non-negative integer."),
        (r#"{"skip": "1"}"#, "\"skip\" must be a non-negative integer."),
        (r#"{"orderby": "nope"}"#, "orderby references unknown field \"nope\"."),
        (
            r#"{"orderby": "title"}"#,
            "Field \"title\" is not sortable; mark it \"sortable\": true in the index schema.",
        ),
        (r#"{"orderby": []}"#, "orderby is empty."),
        (r#"{"select": "nope"}"#, "select references unknown field \"nope\"."),
        (r#"{"facets": ["nope"]}"#, "facets references unknown field \"nope\"."),
        (
            r#"{"facets": ["tags,size:3"]}"#,
            "Unsupported facet option \"size\" in \"tags,size:3\"; supported options: count:N, top:N.",
        ),
        (r#"{"searchMode": 1}"#, "searchMode must be 'all' or 'any'."),
        (r#"{"searchFields": "nope"}"#, "searchFields references unknown field \"nope\"."),
        (r#"{"highlight": "nope"}"#, "highlight references unknown field \"nope\"."),
        (r#"{"vectorQueries": {}}"#, "vectorQueries must be an array."),
        (
            r#"{"vectorQueries": [{"fields": "title", "vector": [1]}]}"#,
            "Vector query field \"title\" is not a vector field in index \"items\".",
        ),
        (
            r#"{"vectorFilterMode": "late"}"#,
            "Invalid vectorFilterMode \"late\"; supported values: 'preFilter', 'postFilter'.",
        ),
    ] {
        assert_eq!(refused(body), ("InvalidQuery", message.to_owned()), "{body}");
    }
    assert_eq!(
        refused(r#"{"scoringProfile": "p"}"#),
        (
            "UnsupportedQuery",
            "The \"scoringProfile\" search option is not supported by the emulator.".to_owned()
        )
    );
    assert!(refused(r#"{"filter": "price gt"}"#).1.starts_with("Invalid filter: "));
    assert!(refused(r#"{"queryType": "odd"}"#).1.starts_with("Invalid queryType: "));
}

#[test]
fn vector_queries_are_validated() {
    let service = vector_service();
    let refused = |entry: &str| {
        let body = json(&format!(r#"{{"vectorQueries": [{entry}]}}"#));
        told(service.parse_search("items", &body)).2
    };
    for (entry, message) in [
        ("1", "Each vectorQueries entry must be a JSON object."),
        (r#"{"vector": [1, 2]}"#, "Each vector query must define \"fields\"."),
        (r#"{"fields": "v"}"#, "Each vector query must define \"vector\"."),
        (r#"{"fields": "v", "vector": 1}"#, "Vector query \"vector\" must be an array of numbers."),
        (
            r#"{"fields": "v", "vector": [1]}"#,
            "Vector query for \"v\" has dimension 1, expected 2.",
        ),
        (
            r#"{"fields": "v", "vector": [1, "x"]}"#,
            "Vector query for \"v\" must contain only numeric values.",
        ),
        (
            r#"{"fields": "v", "vector": [1, 2], "k": 0}"#,
            "Vector query 'k' must be a positive integer (max 1000).",
        ),
        (
            r#"{"fields": "v", "vector": [1, 2], "weight": 0}"#,
            "Vector query 'weight' must be a finite positive number.",
        ),
        (
            r#"{"kind": "image", "fields": "v", "vector": [1, 2]}"#,
            "Invalid vector query kind \"image\"; supported kinds: 'vector', 'text'.",
        ),
        (
            r#"{"kind": "text", "fields": "v", "text": "hello"}"#,
            "Vector field \"v\" does not have a vectorizer; use kind 'vector' with an explicit vector.",
        ),
    ] {
        assert_eq!(refused(entry), message, "{entry}");
    }
    let many = vec![r#"{"fields": "v", "vector": [1, 2]}"#; 6].join(", ");
    assert_eq!(refused(&many), "At most 5 vector queries are supported.");
}

#[test]
fn vector_schemas_are_validated() {
    let mut service = service();
    let support = VectorSupport { max_fields: 1, profiles: Ok(texts(&["p"])) };
    let mut refused = |field: &str, rest: &str| {
        let body = json(&format!(
            r#"{{"name": "x", "fields": [
                {{"name": "id", "type": "Edm.String", "key": true}}, {field}], {rest}
                "other": 1}}"#
        ));
        let (status, code, message) = told(service.0.create_index(&body, &support));
        assert_eq!((status, code), (400, "InvalidIndex"));
        message
    };
    let search = r#""vectorSearch": {"profiles": [{"name": "p"}]},"#;
    let vector = |name: &str, rest: &str| {
        format!(
            r#"{{"name": "{name}", "type": "Collection(Edm.Single)", "searchable": true{rest}}}"#
        )
    };
    let good = r#", "dimensions": 2, "vectorSearchProfile": "p""#;
    assert_eq!(
        refused(&vector("v", r#", "dimensions": 0, "vectorSearchProfile": "p""#), search),
        "Vector field \"v\" has invalid dimensions 0; must be 1-3072."
    );
    assert_eq!(
        refused(&vector("v", r#", "dimensions": 2"#), search),
        "Vector field \"v\" is missing required \"vectorSearchProfile\"."
    );
    assert_eq!(
        refused(&vector("v", &format!(r#"{good}, "sortable": true"#)), search),
        "Vector field \"v\" cannot be sortable."
    );
    assert_eq!(
        refused(&vector("v", r#", "dimensions": 2, "vectorSearchProfile": "q""#), search),
        "Vector field \"v\" references unknown vector search profile \"q\"."
    );
    assert_eq!(
        refused(&vector("v", good), ""),
        "Index \"x\" has vector fields but no vectorSearch configuration."
    );
    assert_eq!(
        refused(&format!("{}, {}", vector("v", good), vector("w", good)), search),
        "Index \"x\" has 2 vector fields; at most 1 are supported."
    );
    assert_eq!(
        refused(r#"{"name": "a", "type": "Edm.String", "searchable": true}, {"name": "a", "type": "Edm.String", "searchable": true}"#, ""),
        "Duplicate field name \"a\" in index schema."
    );
    assert_eq!(
        refused(r#"{"name": "id", "type": "Edm.String"}"#, ""),
        "Duplicate field name \"id\" in index schema."
    );
    assert_eq!(
        refused(r#"{"name": "k", "type": "Edm.String", "key": true}"#, ""),
        "Index schema must define exactly one key field; found 2."
    );
}

#[test]
fn definitions_that_the_engine_cannot_index_are_told() {
    let service = service();
    let can = |field: &str| {
        let body = json(&format!(
            r#"{{"name": "x", "fields": [{{"name": "id", "type": "Edm.String", "key": true}}, {field}]}}"#
        ));
        service.0.can_index(&body, &support())
    };
    assert!(can(r#"{"name": "title", "type": "Edm.String", "searchable": true}"#));
    assert!(!can(r#"{"name": "-title", "type": "Edm.String", "searchable": true}"#));
    assert!(can(r#"{"name": "-title", "type": "Edm.String"}"#));
    // Refused for another reason.
    assert!(can(r#"{"name": "-title", "type": "Edm.Nonsense", "searchable": true}"#));
}

#[test]
fn no_more_suggestions_than_asked_for_are_given() {
    let mut service = service();
    ok(service.create_index(&suggester_index_body()));
    upload(
        &mut service,
        vec![
            json(r#"{"id": "1", "title": "Boston Harbor"}"#),
            json(r#"{"id": "2", "title": "Bosnia"}"#),
        ],
    );
    for top in 0..4 {
        let most = usize::try_from(top.min(2)).unwrap();
        assert_eq!(ok(service.autocomplete("items", "sg", "bos", top, None)).len(), most);
        assert_eq!(ok(service.suggest("items", "sg", "bos", top, None)).len(), most);
    }
}

#[test]
fn tokens_are_read_in_either_shape() {
    let read = |text: &str| ContinuationToken::decode(&BASE64.encode(text));
    let token = |filter: Option<&str>, skip: u64, hash: Option<u64>| ContinuationToken {
        filter: filter.map(str::to_owned),
        orderby: None,
        skip,
        vector_query_hash: hash,
    };
    assert_eq!(read(r#"{"skip": 3}"#).unwrap(), token(None, 3, None));
    assert_eq!(
        read(r#"{"later": [1], "filter": "a eq 1", "skip": 3, "vector_query_hash": 9}"#).unwrap(),
        token(Some("a eq 1"), 3, Some(9))
    );
    // The members in their order.
    assert_eq!(read(r#"["a eq 1", null, 3, 9]"#).unwrap(), token(Some("a eq 1"), 3, Some(9)));
    for text in [
        "{}",
        "7",
        "[]",
        r#"{"skip": 3, "skip": 4}"#,
        r#"{"filter": null, "skip": 3, "filter": "a"}"#,
        r#"{"skip": -3}"#,
        r#"{"skip": "3"}"#,
        r#"{"filter": 7, "skip": 3}"#,
        r#"[null, null, 3, 9, 1]"#,
        "{",
    ] {
        assert!(read(text).is_err(), "{text}");
    }
}

#[test]
fn standard_alphabet_tokens_decode_to_the_same() {
    let token = ContinuationToken {
        filter: Some("title ne '\u{3ff}\u{3fe}???>>>~~~'".to_owned()),
        orderby: None,
        skip: 11,
        vector_query_hash: None,
    };
    let encoded = token.encode();
    assert!(encoded.contains('-') || encoded.contains('_'), "{encoded}");
    let standard = encoded.replace('-', "+").replace('_', "/");
    assert_eq!(ContinuationToken::decode(&standard).unwrap(), token);
    assert_eq!(ContinuationToken::decode(&encoded).unwrap(), token);
}

#[test]
fn unstored_fields_are_not_read_back() {
    let mut service = service();
    let body = r#"{"name": "notes", "fields": [
        {"name": "id", "type": "Edm.String", "key": true},
        {"name": "title", "type": "Edm.String", "searchable": true},
        {"name": "draft", "type": "Edm.String", "searchable": true, "filterable": true, "stored": false}
    ], "suggesters": [{"name": "sg", "searchFields": ["title"]}]}"#;
    ok(service.create_index(&json(body)));
    let document = r#"{"id": "1", "title": "Plan", "draft": "hidden"}"#;
    ok(service.index_documents("notes", vec![act(ActionKind::Upload, document)]));
    let stored = json(r#"{"id": "1", "title": "Plan"}"#);
    assert_eq!(ok(service.get_document("notes", "1")), stored);
    // The value is still matched and filtered by.
    let found = searched(
        &service,
        "notes",
        r#"{"search": "hidden", "filter": "draft eq 'hidden'", "select": "title,draft"}"#,
    );
    assert_eq!(shown_keys(&found), vec!["1"]);
    assert_eq!(found.documents[0].to_value(), stored);
    let suggested = ok(service.suggest("notes", "sg", "pla", 5, None));
    assert_eq!(suggested[0].document.to_value(), stored);
}
