//! Full-text queries: analyzers, query syntax, and the search engine.
use aisearch_emulator::json::{Json, JsonMap, Number};
use aisearch_emulator::query::analyzers::{
    analyze, analyze_with, analyze_with_offsets_and_analyzer, analyzer_tokenizer_name,
    cjk_tokens, is_cjk_char, known_analyzer, known_analyzers_text, registered_tokenizers,
    tokenize_with,
};
use aisearch_emulator::query::engine::{collect_scores, is_engine_schema, SearchEngine};
use aisearch_emulator::query::fulltext::Hit;
use aisearch_emulator::query::lucene::{
    expand_trailing_wildcards, lucene_parser_text, lucene_query_terms, quotes_balanced,
    regex_escaped_prefix, split_token_affixes, QueryError,
};
use aisearch_emulator::query::nesting::{is_shallow, MAX_NESTING};
use aisearch_emulator::query::plan::{document_texts, searchable_columns, text_representation};
use aisearch_emulator::query::simple::{
    parse_search_text, split_fuzzy_suffix, Clause, FullTextQuery, SearchField, SearchMode,
};
use aisearch_emulator::storage::definition::FieldDefinition;
use aisearch_emulator::storage::document::Document;
use aisearch_emulator::storage::field_type::FieldType;
use aisearch_emulator::storage::keyed::KeyedList;

/// The library's analyzers as tokenizers.
#[derive(Clone)]
struct Registered(&'static str);

struct Tokens {
    tokens: Vec<tantivy::tokenizer::Token>,
    next: usize,
}

impl tantivy::tokenizer::Tokenizer for Registered {
    type TokenStream<'a> = Tokens;

    fn token_stream<'a>(&'a mut self, text: &'a str) -> Tokens {
        let tokens = tokenize_with(self.0, text)
            .into_iter()
            .map(|t| tantivy::tokenizer::Token {
                offset_from: t.start_offset,
                offset_to: t.end_offset,
                position: t.position,
                text: t.token,
                position_length: 1,
            })
            .collect();
        Tokens { tokens, next: 0 }
    }
}

impl tantivy::tokenizer::TokenStream for Tokens {
    fn advance(&mut self) -> bool {
        self.next += 1;
        self.next <= self.tokens.len()
    }

    fn token(&self) -> &tantivy::tokenizer::Token {
        &self.tokens[self.next - 1]
    }

    fn token_mut(&mut self) -> &mut tantivy::tokenizer::Token {
        &mut self.tokens[self.next - 1]
    }
}

fn tokenizers() -> tantivy::tokenizer::TokenizerManager {
    let manager = tantivy::tokenizer::TokenizerManager::new();
    for name in registered_tokenizers() {
        let analyzer = tantivy::tokenizer::TextAnalyzer::builder(Registered(name)).build();
        manager.register(name, analyzer);
    }
    manager
}

fn number(n: u64) -> Json {
    Json::Number(Number::PosInt(n))
}

fn fields() -> Vec<FieldDefinition> {
    vec![
        FieldDefinition {
            name: "id".to_owned(),
            field_type: FieldType::String,
            is_key: true,
            searchable: false,
            filterable: false,
            sortable: false,
            facetable: false,
            retrievable: true,
            stored: true,
            vector_dimensions: None,
            vector_search_profile: None,
            subfields: Vec::new(),
            analyzer: None,
            synonym_maps: Vec::new(),
            raw: Json::Null,
        },
        FieldDefinition {
            name: "title".to_owned(),
            field_type: FieldType::String,
            is_key: false,
            searchable: true,
            filterable: false,
            sortable: false,
            facetable: false,
            retrievable: true,
            stored: true,
            vector_dimensions: None,
            vector_search_profile: None,
            subfields: Vec::new(),
            analyzer: None,
            synonym_maps: Vec::new(),
            raw: Json::Null,
        },
        FieldDefinition {
            name: "body".to_owned(),
            field_type: FieldType::String,
            is_key: false,
            searchable: true,
            filterable: false,
            sortable: false,
            facetable: false,
            retrievable: true,
            stored: true,
            vector_dimensions: None,
            vector_search_profile: None,
            subfields: Vec::new(),
            analyzer: None,
            synonym_maps: Vec::new(),
            raw: Json::Null,
        },
        FieldDefinition {
            name: "count".to_owned(),
            field_type: FieldType::Int32,
            is_key: false,
            searchable: false,
            filterable: true,
            sortable: true,
            facetable: false,
            retrievable: true,
            stored: true,
            vector_dimensions: None,
            vector_search_profile: None,
            subfields: Vec::new(),
            analyzer: None,
            synonym_maps: Vec::new(),
            raw: Json::Null,
        },
        FieldDefinition {
            name: "price".to_owned(),
            field_type: FieldType::Double,
            is_key: false,
            searchable: true,
            filterable: true,
            sortable: true,
            facetable: false,
            retrievable: true,
            stored: true,
            vector_dimensions: None,
            vector_search_profile: None,
            subfields: Vec::new(),
            analyzer: None,
            synonym_maps: Vec::new(),
            raw: Json::Null,
        },
    ]
}

fn document(key: &str, title: &str, body: &str, price: u64) -> Document {
    let mut map = JsonMap::new();
    map.insert("id".to_owned(), Json::String(key.to_owned()));
    map.insert("title".to_owned(), Json::String(title.to_owned()));
    map.insert("body".to_owned(), Json::String(body.to_owned()));
    map.insert("count".to_owned(), number(3));
    map.insert("price".to_owned(), number(price));
    Document {
        key: key.to_owned(),
        fields: map,
    }
}

fn engine_with_docs() -> SearchEngine {
    let mut engine = SearchEngine::new(tokenizers());
    engine
        .create_index("items", &fields())
        .unwrap_or_else(|e| panic!("create_index failed: {e:?}"));
    engine
        .index_documents(
            "items",
            &vec![
                // Prices are 3-digit so their tokens (e.g. "100") stay
                // more than 2 edits away from the fuzzy test terms.
                document("1", "Azure Search", "the quick brown fox", 100),
                document("2", "Azure Emulators", "lazy dogs", 200),
                document("3", "Other", "nothing relevant", 300),
            ],
        )
        .unwrap_or_else(|e| panic!("index_documents failed: {e:?}"));
    engine
}

fn found(engine: &SearchEngine, query: &FullTextQuery) -> Vec<String> {
    let scores = engine
        .search("items", query)
        .unwrap_or_else(|e| panic!("search failed: {e:?}"));
    scores.to_vec().into_iter().map(|s| s.key).collect()
}

fn keys(engine: &SearchEngine, term: &str) -> Vec<String> {
    let query =
        parse_search_text(term).unwrap_or_else(|e| panic!("parse failed for {term:?}: {e}"));
    found(engine, &query)
}

fn scored(engine: &SearchEngine, term: &str) -> Vec<(String, f64)> {
    let query =
        parse_search_text(term).unwrap_or_else(|e| panic!("parse failed for {term:?}: {e}"));
    let scores = engine
        .search("items", &query)
        .unwrap_or_else(|e| panic!("search failed: {e:?}"));
    scores
        .to_vec()
        .into_iter()
        .map(|s| (s.key, tantivy::u64_to_f64(s.score)))
        .collect()
}

#[test]
fn empty_and_wildcard_match_all() {
    let engine = engine_with_docs();
    assert_eq!(keys(&engine, ""), vec!["1", "2", "3"]);
    assert_eq!(keys(&engine, "  "), vec!["1", "2", "3"]);
    assert_eq!(keys(&engine, "*"), vec!["1", "2", "3"]);
}

#[test]
fn case_insensitive_token_match() {
    let engine = engine_with_docs();
    assert_eq!(keys(&engine, "azure"), vec!["1", "2"]);
    assert_eq!(keys(&engine, "SEARCH"), vec!["1"]);
    assert_eq!(keys(&engine, "quick"), vec!["1"]);
    assert!(keys(&engine, "horse").is_empty());
}

#[test]
fn multi_term_all_mode_requires_all_terms() {
    let engine = engine_with_docs();
    // Explicit `all` (AND): both terms must match.
    let mut all =
        parse_search_text("azure fox").unwrap_or_else(|e| panic!("parse failed: {e}"));
    all.mode = SearchMode::All;
    let keys = found(&engine, &all);
    assert_eq!(keys, vec!["1"]);
    // AND of a present and an absent term matches nothing.
    let mut none =
        parse_search_text("azure horse").unwrap_or_else(|e| panic!("parse failed: {e}"));
    none.mode = SearchMode::All;
    assert!(found(&engine, &none).is_empty());
}

#[test]
fn numeric_fields_are_full_text_indexed() {
    let engine = engine_with_docs();
    // Numeric field values are full-text indexed like Azure: "100"
    // matches only the document whose `price` is 100.
    assert_eq!(keys(&engine, "100"), vec!["1"]);
    assert_eq!(keys(&engine, "200"), vec!["2"]);
    assert_eq!(keys(&engine, "300"), vec!["3"]);
    // The non-searchable `count` field (3 on every document) is not
    // full-text indexed.
    assert!(keys(&engine, "3").is_empty());
}

fn searchable_field(name: &str, field_type: FieldType) -> FieldDefinition {
    FieldDefinition {
        name: name.to_owned(),
        field_type,
        is_key: false,
        searchable: true,
        filterable: false,
        sortable: false,
        facetable: false,
        retrievable: true,
        stored: true,
        vector_dimensions: None,
        vector_search_profile: None,
        subfields: Vec::new(),
        analyzer: None,
        synonym_maps: Vec::new(),
        raw: Json::Null,
    }
}

#[test]
fn non_string_fields_are_full_text_indexed() {
    let fields = vec![
        FieldDefinition {
            name: "id".to_owned(),
            field_type: FieldType::String,
            is_key: true,
            searchable: false,
            filterable: false,
            sortable: false,
            facetable: false,
            retrievable: true,
            stored: true,
            vector_dimensions: None,
            vector_search_profile: None,
            subfields: Vec::new(),
            analyzer: None,
            synonym_maps: Vec::new(),
            raw: Json::Null,
        },
        searchable_field("flag", FieldType::Boolean),
        searchable_field("created", FieldType::DateTimeOffset),
        searchable_field("guid", FieldType::Guid),
        searchable_field("small", FieldType::Int32),
        searchable_field("big", FieldType::Int64),
        searchable_field("scores", FieldType::CollectionInt32),
    ];
    let mut engine = SearchEngine::new(tokenizers());
    engine
        .create_index("items", &fields)
        .unwrap_or_else(|e| panic!("create_index failed: {e:?}"));
    let mut fields1 = JsonMap::new();
    fields1.insert("id".to_owned(), Json::String("1".to_owned()));
    fields1.insert("flag".to_owned(), Json::Bool(true));
    fields1.insert(
        "created".to_owned(),
        Json::String("2024-01-15T10:30:00Z".to_owned()),
    );
    fields1.insert(
        "guid".to_owned(),
        Json::String("a1b2c3d4-e5f6-7890-abcd-ef1234567890".to_owned()),
    );
    fields1.insert("small".to_owned(), number(42));
    fields1.insert("big".to_owned(), number(9_999_999_999));
    fields1.insert(
        "scores".to_owned(),
        Json::Array(vec![number(10), number(20), number(30)]),
    );
    let mut fields2 = JsonMap::new();
    fields2.insert("id".to_owned(), Json::String("2".to_owned()));
    fields2.insert("flag".to_owned(), Json::Bool(false));
    fields2.insert(
        "created".to_owned(),
        Json::String("2025-06-20T14:45:00Z".to_owned()),
    );
    fields2.insert(
        "guid".to_owned(),
        Json::String("f1e2d3c4-b5a6-7890-1234-567890abcdef".to_owned()),
    );
    fields2.insert("small".to_owned(), number(99));
    fields2.insert("big".to_owned(), number(12_345_678_901_234));
    fields2.insert(
        "scores".to_owned(),
        Json::Array(vec![number(40), number(50)]),
    );
    let docs = vec![
        Document {
            key: "1".to_owned(),
            fields: fields1,
        },
        Document {
            key: "2".to_owned(),
            fields: fields2,
        },
    ];
    engine
        .index_documents("items", &docs)
        .unwrap_or_else(|e| panic!("index_documents failed: {e:?}"));
    // Boolean: "true" matches doc 1, "false" matches doc 2.
    assert_eq!(keys(&engine, "true"), vec!["1"]);
    assert_eq!(keys(&engine, "false"), vec!["2"]);
    // DateTimeOffset: the ISO 8601 string is tokenized; "2024" matches doc 1.
    assert_eq!(keys(&engine, "2024"), vec!["1"]);
    assert_eq!(keys(&engine, "2025"), vec!["2"]);
    // Guid: the string representation is indexed; a unique fragment matches.
    assert_eq!(keys(&engine, "a1b2c3d4"), vec!["1"]);
    assert_eq!(keys(&engine, "f1e2d3c4"), vec!["2"]);
    // Int32: "42" matches doc 1, "99" matches doc 2.
    assert_eq!(keys(&engine, "42"), vec!["1"]);
    assert_eq!(keys(&engine, "99"), vec!["2"]);
    // Int64: large values are indexed as their string form.
    assert_eq!(keys(&engine, "9999999999"), vec!["1"]);
    assert_eq!(keys(&engine, "12345678901234"), vec!["2"]);
    // Collection(Edm.Int32): each element is indexed individually.
    assert_eq!(keys(&engine, "10"), vec!["1"]);
    assert_eq!(keys(&engine, "50"), vec!["2"]);
}

#[test]
fn upsert_replaces_existing_key() {
    let mut engine = engine_with_docs();
    engine
        .index_documents(
            "items",
            &vec![document(
                "1",
                "Completely Different",
                "no shared tokens",
                100,
            )],
        )
        .unwrap_or_else(|e| panic!("index_documents failed: {e:?}"));
    assert!(keys(&engine, "azure").contains(&"2".to_owned()));
    assert!(!keys(&engine, "azure").contains(&"1".to_owned()));
    // The document count for a match-all is unchanged (still 3 docs).
    assert_eq!(keys(&engine, "*").len(), 3);
}

#[test]
fn delete_index_removes_search_state() {
    let mut engine = engine_with_docs();
    engine.delete_index("items");
    let query = FullTextQuery::default();
    assert!(matches!(
        engine.search("items", &query),
        Err(QueryError::IndexNotFound(_))
    ));
}

#[test]
fn reset_clears_all_indexes() {
    let mut engine = engine_with_docs();
    engine.reset();
    let query = FullTextQuery::default();
    assert!(matches!(
        engine.search("items", &query),
        Err(QueryError::IndexNotFound(_))
    ));
}

#[test]
fn analyze_uses_english_analyzer_with_stemming_and_stopwords() {
    assert_eq!(analyze("Hello  WORLD"), vec!["hello", "world"]);
    assert!(analyze("").is_empty());
    // Punctuation splits: the analyzer (not whitespace) defines tokens.
    assert_eq!(analyze("hello-world"), vec!["hello", "world"]);
    // English stemming: inflected forms reduce to their stem.
    assert_eq!(analyze("running"), vec!["run"]);
    assert_eq!(analyze("searches"), vec!["search"]);
    // English stopwords are removed.
    assert!(analyze("the").is_empty());
    assert_eq!(analyze("the quick fox"), vec!["quick", "fox"]);
}

#[test]
fn hyphenated_query_matches_split_tokens() {
    let engine = engine_with_docs();
    // "brown-fox" analyzes to ["brown", "fox"], matching document 1.
    // A whitespace-only split would look up "brown-fox" and miss.
    assert_eq!(keys(&engine, "brown-fox"), vec!["1"]);
}

#[test]
fn excluded_terms_remove_matches() {
    let engine = engine_with_docs();
    // "azure -emulators" matches doc 1 (azure search) but not doc 2.
    assert_eq!(keys(&engine, "azure -emulators"), vec!["1"]);
    // Exclusion only: everything except docs containing "azure".
    assert_eq!(keys(&engine, "-azure"), vec!["3"]);
    // A term excluded and required cancels to no matches.
    assert!(keys(&engine, "azure +azure -azure").is_empty());
}

#[test]
fn explicit_plus_is_the_default() {
    let engine = engine_with_docs();
    // `+term` is treated like a plain term (both go to the required list),
    // so under the OR default both match either document.
    assert_eq!(keys(&engine, "+azure +fox"), vec!["1", "2"]);
    assert_eq!(keys(&engine, "azure fox"), vec!["1", "2"]);
}

#[test]
fn quoted_phrases_require_adjacent_tokens() {
    let engine = engine_with_docs();
    assert_eq!(keys(&engine, r#""quick brown""#), vec!["1"]);
    // Tokens present but not adjacent.
    assert!(keys(&engine, r#""brown quick""#).is_empty());
    // Phrase combined with a term: OR (the default) matches either.
    assert_eq!(keys(&engine, r#"azure "lazy dogs""#), vec!["1", "2"]);
}

#[test]
fn field_specific_search_restricts_scope() {
    let engine = engine_with_docs();
    let query = FullTextQuery {
        required: vec![Clause::Term("azure".to_owned())],
        ..Default::default()
    };
    // Across all fields: docs 1 and 2 (title).
    assert_eq!(found(&engine, &query), vec!["1".to_owned(), "2".to_owned()]);
    // Restricted to `body`: no match ("azure" only appears in titles).
    let scoped = FullTextQuery {
        required: vec![Clause::Term("azure".to_owned())],
        fields: Some(vec!["body".to_owned()]),
        ..Default::default()
    };
    assert!(found(&engine, &scoped).is_empty());
    // Restricted to `title`: both docs.
    let scoped = FullTextQuery {
        required: vec![Clause::Term("azure".to_owned())],
        fields: Some(vec!["title".to_owned()]),
        ..Default::default()
    };
    assert_eq!(found(&engine, &scoped), vec!["1".to_owned(), "2".to_owned()]);
}

#[test]
fn parse_search_text_rejects_dangling_modifiers() {
    assert!(parse_search_text("+").is_err());
    assert!(parse_search_text("-").is_err());
    assert!(parse_search_text("azure +").is_err());
    assert!(parse_search_text(r#""unterminated"#).is_err());
    let query =
        parse_search_text(r#"a "b""c" -d"#).unwrap_or_else(|e| panic!("parse failed: {e}"));
    assert_eq!(
        query.required,
        vec![
            Clause::Term("a".to_owned()),
            Clause::Phrase("b\"c".to_owned())
        ]
    );
    assert_eq!(query.excluded, vec![Clause::Term("d".to_owned())]);
}

#[test]
fn search_mode_any_matches_union() {
    let engine = engine_with_docs();
    // Default (any/OR, matching Azure): either term matches.
    assert_eq!(keys(&engine, "azure fox"), vec!["1", "2"]);
    // All (AND): both terms must match.
    let mut all =
        parse_search_text("azure fox").unwrap_or_else(|e| panic!("parse failed: {e}"));
    all.mode = SearchMode::All;
    let keys = found(&engine, &all);
    assert_eq!(keys, vec!["1"]);
    // SearchMode parsing accepts both values case-insensitively.
    assert_eq!(SearchMode::parse("all"), Ok(SearchMode::All));
    assert_eq!(SearchMode::parse("ANY"), Ok(SearchMode::Any));
    assert!(SearchMode::parse("both").is_err());
}

#[test]
fn stemming_matches_inflected_forms() {
    let engine = engine_with_docs();
    // "dogs" stems to "dog", matching the indexed "dogs".
    assert_eq!(keys(&engine, "dog"), vec!["2"]);
    assert_eq!(keys(&engine, "dogs"), vec!["2"]);
    // "search" stems the same as indexed "Search".
    assert_eq!(keys(&engine, "searches"), vec!["1"]);
}

#[test]
fn stopwords_do_not_match() {
    let engine = engine_with_docs();
    // "the" is an English stopword: removed at index and query time.
    assert!(keys(&engine, "the").is_empty());
    // A stopword-only query matches nothing (not everything).
    let query = parse_search_text("the").unwrap_or_else(|e| panic!("parse failed: {e}"));
    assert!(found(&engine, &query).is_empty());
}

#[test]
fn fuzzy_terms_match_within_edit_distance() {
    let engine = engine_with_docs();
    // Fuzzy terms are lowercased only (no stemming): "emul" matches the
    // indexed stemmed "emul" (from "Emulators") exactly.
    assert_eq!(keys(&engine, "emul~"), vec!["2"]);
    // "emulator" is NOT stemmed for fuzzy matching, so it is 4 edits from
    // the indexed "emul" and matches nothing (Azure lowercases fuzzy
    // terms only; a stemmed query would have matched).
    assert!(keys(&engine, "emulator~").is_empty());
    // Fuzzy terms are case-insensitive: "FOX~1" matches indexed "fox".
    assert_eq!(keys(&engine, "FOX~1"), vec!["1"]);
    // One substitution away from indexed "fox" ("box" is also two away
    // from indexed "dog", so the default distance matches both).
    assert_eq!(keys(&engine, "box~1"), vec!["1"]);
    assert_eq!(keys(&engine, "box~"), vec!["1", "2"]);
    // One insertion away from indexed "fox" ("fo" is also two away from
    // indexed "dog", so the default distance matches both).
    assert_eq!(keys(&engine, "fo~1"), vec!["1"]);
    assert_eq!(keys(&engine, "fo~"), vec!["1", "2"]);
    // A bare `~` uses the default edit distance 2 (matching Azure): "qik"
    // is two deletions away from indexed "quick".
    assert_eq!(keys(&engine, "qik~"), vec!["1"]);
    assert!(keys(&engine, "qik~1").is_empty());
    // An unrelated term still matches nothing, even fuzzy.
    assert!(keys(&engine, "zzz~").is_empty());
    // Explicit distance suffixes parse ("~" defaults to 2).
    let query = parse_search_text("emulator~").unwrap_or_else(|e| panic!("parse failed: {e}"));
    assert_eq!(
        query.required,
        vec![Clause::FuzzyTerm {
            term: "emulator".to_owned(),
            distance: 2
        }]
    );
    let query = parse_search_text("emulator~1").unwrap_or_else(|e| panic!("parse failed: {e}"));
    assert_eq!(
        query.required,
        vec![Clause::FuzzyTerm {
            term: "emulator".to_owned(),
            distance: 1
        }]
    );
    // Distance above 2 is rejected explicitly.
    assert!(parse_search_text("emulator~3").is_err());
    // A bare `~` with no term is rejected.
    assert!(parse_search_text("~").is_err());
}

#[test]
fn analyze_endpoint_analyzers_tokenize() {
    // The default (English) analyzer stems and drops stopwords.
    assert_eq!(
        analyze_with_offsets_and_analyzer("Running foxes", None)
            .iter()
            .map(|t| t.token.clone())
            .collect::<Vec<_>>(),
        vec!["run", "fox"]
    );
    // `keyword` emits the whole input as one verbatim token.
    let tokens = analyze_with_offsets_and_analyzer("Running foxes", Some("keyword"));
    assert_eq!(tokens.len(), 1);
    assert_eq!(tokens[0].token, "Running foxes");
    assert_eq!(tokens[0].start_offset, 0);
    assert_eq!(tokens[0].end_offset, "Running foxes".len());
    assert!(analyze_with_offsets_and_analyzer("", Some("keyword")).is_empty());
    // `whitespace` splits without lowercasing or stemming.
    let tokens = analyze_with_offsets_and_analyzer("Running  foxes", Some("whitespace"));
    assert_eq!(
        tokens.iter().map(|t| t.token.clone()).collect::<Vec<_>>(),
        vec!["Running", "foxes"]
    );
    assert_eq!(tokens[0].start_offset, 0);
    assert_eq!(tokens[0].end_offset, "Running".len());
    assert_eq!(tokens[1].start_offset, "Running  ".len());
}

#[test]
fn search_returns_positive_bm25_scores() {
    let engine = engine_with_docs();
    let pairs = scored(&engine, "azure");
    assert_eq!(pairs.len(), 2);
    for (_, score) in &pairs {
        assert!(*score > 0.0, "BM25 scores must be positive, got {score}");
    }
}

#[test]
fn field_boosts_change_scores_not_matches() {
    let engine = engine_with_docs();
    let plain = FullTextQuery {
        required: vec![Clause::Term("azure".to_owned())],
        ..Default::default()
    };
    let plain_scores = engine
        .search("items", &plain)
        .unwrap_or_else(|e| panic!("search failed: {e:?}"));
    let mut boosts = KeyedList::new();
    boosts.put(SearchField { name: "title".to_owned(), boost: tantivy::f64_to_u64(2.0) });
    let boosted = FullTextQuery {
        required: vec![Clause::Term("azure".to_owned())],
        boosts,
        ..Default::default()
    };
    let boosted_scores = engine
        .search("items", &boosted)
        .unwrap_or_else(|e| panic!("search failed: {e:?}"));
    // Same matches...
    assert_eq!(
        plain_scores.to_vec().into_iter().map(|s| s.key).collect::<Vec<_>>(),
        boosted_scores.to_vec().into_iter().map(|s| s.key).collect::<Vec<_>>()
    );
    // ...but boosted scores are higher.
    for s in plain_scores.to_vec() {
        let higher = boosted_scores.get(&s.key).map(|b| b.score);
        assert!(
            higher.is_some_and(|b| tantivy::u64_to_f64(b) > tantivy::u64_to_f64(s.score)),
            "boosted score for {} should exceed plain score",
            s.key
        );
    }
}

// ------------------------------------------------------------------
// Per-field analyzers
// ------------------------------------------------------------------

fn field(
    name: &str,
    field_type: &str,
    searchable: bool,
    analyzer: Option<&str>,
) -> FieldDefinition {
    FieldDefinition {
        name: name.to_owned(),
        field_type: FieldType::from_normalized(field_type),
        is_key: false,
        searchable,
        filterable: false,
        sortable: false,
        facetable: false,
        retrievable: true,
        stored: true,
        vector_dimensions: None,
        vector_search_profile: None,
        subfields: Vec::new(),
        analyzer: analyzer.map(str::to_owned),
        synonym_maps: Vec::new(),
        raw: Json::Null,
    }
}

fn key_field() -> FieldDefinition {
    FieldDefinition {
        name: "id".to_owned(),
        field_type: FieldType::String,
        is_key: true,
        searchable: false,
        filterable: false,
        sortable: false,
        facetable: false,
        retrievable: true,
        stored: true,
        vector_dimensions: None,
        vector_search_profile: None,
        subfields: Vec::new(),
        analyzer: None,
        synonym_maps: Vec::new(),
        raw: Json::Null,
    }
}

fn analyzer_engine(fields: &Vec<FieldDefinition>, docs: &Vec<Document>) -> SearchEngine {
    let mut engine = SearchEngine::new(tokenizers());
    engine
        .create_index("items", fields)
        .unwrap_or_else(|e| panic!("create_index failed: {e:?}"));
    engine
        .index_documents("items", docs)
        .unwrap_or_else(|e| panic!("index_documents failed: {e:?}"));
    engine
}

fn doc_with(key: &str, pairs: &[(&str, Json)]) -> Document {
    let mut map = JsonMap::new();
    map.insert("id".to_owned(), Json::String(key.to_owned()));
    for (k, v) in pairs {
        map.insert(k.to_string(), v.duplicate());
    }
    Document {
        key: key.to_owned(),
        fields: map,
    }
}

fn search_keys(engine: &SearchEngine, query: &FullTextQuery) -> Vec<String> {
    found(engine, query)
}

#[test]
fn analyzer_tokenizer_name_maps_known_names() {
    assert_eq!(analyzer_tokenizer_name(None), "aisearch_en");
    assert_eq!(analyzer_tokenizer_name(Some("standard")), "aisearch_en");
    assert_eq!(
        analyzer_tokenizer_name(Some("en.microsoft")),
        "aisearch_en"
    );
    assert_eq!(analyzer_tokenizer_name(Some("keyword")), "aisearch_keyword");
    assert_eq!(
        analyzer_tokenizer_name(Some("whitespace")),
        "aisearch_whitespace"
    );
    assert_eq!(analyzer_tokenizer_name(Some("alphanum")), "aisearch_alphanum");
    assert_eq!(analyzer_tokenizer_name(Some("latin")), "aisearch_latin");
    assert_eq!(analyzer_tokenizer_name(Some("ngram")), "aisearch_ngram");
    assert_eq!(
        analyzer_tokenizer_name(Some("edgeNgram")),
        "aisearch_edge_ngram"
    );
    assert_eq!(analyzer_tokenizer_name(Some("chinese")), "aisearch_cjk");
    assert_eq!(
        analyzer_tokenizer_name(Some("fr.microsoft")),
        "aisearch_fr"
    );
    // Unknown names fall back to English.
    assert_eq!(
        analyzer_tokenizer_name(Some("custom.analyzer")),
        "aisearch_en"
    );
}

#[test]
fn keyword_analyzer_matches_verbatim_only() {
    let engine = analyzer_engine(
        &vec![
            key_field(),
            field("code", "Edm.String", true, Some("keyword")),
        ],
        &vec![
            doc_with("1", &[("code", Json::String("ABC-123".to_owned()))]),
            doc_with("2", &[("code", Json::String("abc 123".to_owned()))]),
        ],
    );
    // The whole value is a single token: the exact value matches.
    let exact = FullTextQuery {
        required: vec![Clause::Term("ABC-123".to_owned())],
        ..Default::default()
    };
    assert_eq!(search_keys(&engine, &exact), vec!["1"]);
    // A sub-token does not match (no splitting, no lowercasing).
    let part = FullTextQuery {
        required: vec![Clause::Term("abc".to_owned())],
        ..Default::default()
    };
    assert!(search_keys(&engine, &part).is_empty());
    // Case is preserved: lowercase does not match the uppercase value.
    let lower = FullTextQuery {
        required: vec![Clause::Term("abc-123".to_owned())],
        ..Default::default()
    };
    assert!(search_keys(&engine, &lower).is_empty());
}

#[test]
fn whitespace_analyzer_splits_without_lowercasing() {
    assert_eq!(
        analyze_with("Hello  WORLD", Some("whitespace")),
        vec!["Hello", "WORLD"]
    );
    // No stemming or stopword removal.
    assert_eq!(
        analyze_with("running the", Some("whitespace")),
        vec!["running", "the"]
    );
}

#[test]
fn latin_analyzer_lowercases_without_stemming() {
    assert_eq!(analyze_with("Running", Some("latin")), vec!["running"]);
    // No stemming (unlike the English analyzer).
    assert_eq!(analyze_with("running", Some("latin")), vec!["running"]);
    assert_eq!(analyze_with("searches", Some("latin")), vec!["searches"]);
}

#[test]
fn cjk_analyzer_emits_bigrams() {
    // A 3-character Han run yields two overlapping bigrams.
    assert_eq!(
        analyze_with("北京天", Some("chinese")),
        vec!["北京", "京天"]
    );
    // A single Han character yields a unigram.
    assert_eq!(analyze_with("中", Some("chinese")), vec!["中"]);
    // Mixed CJK + Latin: the Latin run is a verbatim token.
    assert_eq!(
        analyze_with("北京abc", Some("chinese")),
        vec!["北京", "abc"]
    );
}

#[test]
fn cjk_field_search_matches_bigram() {
    let engine = analyzer_engine(
        &vec![
            key_field(),
            field("name", "Edm.String", true, Some("chinese")),
        ],
        &vec![
            doc_with("1", &[("name", Json::String("北京大学".to_owned()))]),
            doc_with("2", &[("name", Json::String("清华大学".to_owned()))]),
        ],
    );
    // "清华" is a bigram in document 2 only.
    let query = FullTextQuery {
        required: vec![Clause::Term("清华".to_owned())],
        ..Default::default()
    };
    assert_eq!(search_keys(&engine, &query), vec!["2"]);
    // "大学" is a bigram in both documents.
    let query = FullTextQuery {
        required: vec![Clause::Term("大学".to_owned())],
        ..Default::default()
    };
    assert_eq!(search_keys(&engine, &query), vec!["1", "2"]);
}

// ------------------------------------------------------------------
// Lucene (queryType=full) queries
// ------------------------------------------------------------------

fn lucene_query(text: &str) -> FullTextQuery {
    FullTextQuery {
        lucene: Some(text.to_owned()),
        ..Default::default()
    }
}

#[test]
fn lucene_and_or_not_operators() {
    let engine = engine_with_docs();
    // `azure AND fox`: both terms must match (document 1).
    assert_eq!(
        search_keys(&engine, &lucene_query("azure AND fox")),
        vec!["1"]
    );
    // `azure OR fox`: either term (documents 1 and 2).
    assert_eq!(
        search_keys(&engine, &lucene_query("azure OR fox")),
        vec!["1", "2"]
    );
    // `azure NOT emulators`: azure minus document 2.
    assert_eq!(
        search_keys(&engine, &lucene_query("azure NOT emulators")),
        vec!["1"]
    );
    // `+azure -emulators`: modifier form.
    assert_eq!(
        search_keys(&engine, &lucene_query("+azure -emulators")),
        vec!["1"]
    );
}

#[test]
fn lucene_field_scoped_query() {
    let engine = engine_with_docs();
    // `title:azure` matches both titles; `body:azure` matches nothing.
    assert_eq!(
        search_keys(&engine, &lucene_query("title:azure")),
        vec!["1", "2"]
    );
    assert!(search_keys(&engine, &lucene_query("body:azure")).is_empty());
    // `body:fox` matches document 1 only.
    assert_eq!(search_keys(&engine, &lucene_query("body:fox")), vec!["1"]);
}

#[test]
fn lucene_fuzzy_and_wildcard() {
    let engine = engine_with_docs();
    // `fo*` wildcard prefix matches "fox" (document 1).
    assert_eq!(search_keys(&engine, &lucene_query("fo*")), vec!["1"]);
    // `emul~` fuzzy (default distance 2) matches "emul" (document 2).
    assert_eq!(search_keys(&engine, &lucene_query("emul~")), vec!["2"]);
}

#[test]
fn lucene_phrase_query() {
    let engine = engine_with_docs();
    assert_eq!(
        search_keys(&engine, &lucene_query(r#""quick brown""#)),
        vec!["1"]
    );
    assert!(search_keys(&engine, &lucene_query(r#""brown quick""#)).is_empty());
}

#[test]
fn lucene_empty_and_wildcard_match_all() {
    let engine = engine_with_docs();
    assert_eq!(search_keys(&engine, &lucene_query("")), vec!["1", "2", "3"]);
    assert_eq!(
        search_keys(&engine, &lucene_query("*")),
        vec!["1", "2", "3"]
    );
}

#[test]
fn lucene_invalid_query_is_rejected() {
    let engine = engine_with_docs();
    // Unknown field.
    let result = engine.search("items", &lucene_query("missing:azure"));
    assert!(matches!(result, Err(QueryError::InvalidQuery(_))));
    // Unbalanced quote.
    let result = engine.search("items", &lucene_query(r#""unterminated"#));
    assert!(matches!(result, Err(QueryError::InvalidQuery(_))));
}

#[test]
fn lucene_query_terms_extraction() {
    assert_eq!(
        lucene_query_terms("title:azure -fox AND \"quick brown\"~1 bar^2 baz*"),
        vec!["azure", "fox", "quick", "brown", "bar", "baz"]
    );
    // Operators and wildcards-only tokens are dropped.
    assert_eq!(lucene_query_terms("AND OR NOT *"), Vec::<String>::new());
}

#[test]
fn wildcards_become_expressions_over_every_field() {
    let names = vec!["title".to_owned(), "body".to_owned()];
    let expand = |text: &str| expand_trailing_wildcards(text, &names);
    assert_eq!(expand("plain text"), "plain text");
    assert_eq!(expand("az*"), "(title:/(?i)az.*/ OR body:/(?i)az.*/)");
    assert_eq!(expand("title:az*"), "title:/(?i)az.*/");
    assert_eq!(expand("\"quoted az*\""), "\"quoted az*\"");
    assert_eq!(regex_escaped_prefix("a.b"), "a\\.b.*");
    assert_eq!(
        split_token_affixes("+(az*)"),
        ("+(".to_owned(), "az*".to_owned(), ")".to_owned())
    );
}

#[test]
fn lucene_texts_are_checked_before_parsing() {
    let names = vec!["title".to_owned()];
    assert_eq!(lucene_parser_text("  ", &names).unwrap(), None);
    assert_eq!(lucene_parser_text(" * ", &names).unwrap(), None);
    assert_eq!(lucene_parser_text(" a ", &names).unwrap().as_deref(), Some("a"));
    assert!(quotes_balanced("a \"b\" c"));
    assert!(!quotes_balanced("a \"b"));
    match lucene_parser_text("a \"b", &names) {
        Err(QueryError::InvalidQuery(m)) => {
            assert_eq!(m, "Unterminated quoted phrase in search text.");
        }
        other => panic!("expected an error: {other:?}"),
    }
}

#[test]
fn fuzzy_suffixes_give_a_distance() {
    assert_eq!(split_fuzzy_suffix("azure").unwrap(), Clause::Term("azure".to_owned()));
    assert_eq!(
        split_fuzzy_suffix("azure~1").unwrap(),
        Clause::FuzzyTerm { term: "azure".to_owned(), distance: 1 }
    );
    assert_eq!(
        split_fuzzy_suffix("azure~").unwrap(),
        Clause::FuzzyTerm { term: "azure".to_owned(), distance: 2 }
    );
    assert!(split_fuzzy_suffix("azure~3").is_err());
}

#[test]
fn every_registered_tokenizer_tokenizes() {
    for name in registered_tokenizers() {
        assert!(!tokenize_with(name, "Word").is_empty(), "{name}");
        let blank = tokenize_with(name, "");
        assert!(blank.iter().all(|t| t.token.is_empty()), "{name}");
    }
    for name in ["keyword", "whitespace", "en.microsoft", "japanese", "sv.microsoft"] {
        assert!(known_analyzer(name), "{name}");
        assert!(known_analyzers_text().contains(name), "{name}");
        assert!(registered_tokenizers().contains(&analyzer_tokenizer_name(Some(name))));
    }
    assert!(!known_analyzer("nonsense"));
    assert_eq!(analyze_with("As Is", Some("keyword")), vec!["As Is"]);
}

#[test]
fn cjk_texts_become_bigrams_at_their_positions() {
    let tokens = cjk_tokens("\u{6771}\u{4eac}\u{90fd} ab");
    let seen: Vec<(&str, usize, usize, usize)> = tokens
        .iter()
        .map(|t| (t.token.as_str(), t.start_offset, t.end_offset, t.position))
        .collect();
    assert_eq!(
        seen,
        vec![
            ("\u{6771}\u{4eac}", 0, 6, 0),
            ("\u{4eac}\u{90fd}", 3, 9, 1),
            ("ab", 10, 12, 2),
        ]
    );
    assert!(is_cjk_char('\u{6771}'));
    assert!(!is_cjk_char('a'));
}

#[test]
fn the_best_score_of_a_key_is_kept() {
    let hit = |key: &str, score: f64| Hit {
        key: Some(key.to_owned()),
        score: tantivy::f64_to_u64(score),
    };
    let hits = vec![hit("a", 1.0), hit("b", 2.0), hit("a", 3.0), Hit { key: None, score: 0 }];
    let scores = collect_scores(&hits).to_vec();
    assert_eq!(scores.len(), 2);
    assert_eq!((scores[0].key.as_str(), scores[0].score), ("a", tantivy::f64_to_u64(3.0)));
    assert_eq!(scores[1].key, "b");
}

#[test]
fn deleted_documents_are_no_longer_found() {
    let mut engine = engine_with_docs();
    engine.delete_documents("items", &vec!["1".to_owned(), "missing".to_owned()]).unwrap();
    assert_eq!(keys(&engine, "azure"), vec!["2"]);
    assert_eq!(keys(&engine, "*"), vec!["2", "3"]);
}

#[test]
fn unknown_indexes_are_reported() {
    let mut engine = engine_with_docs();
    let unknown = QueryError::IndexNotFound("nope".to_owned());
    assert_eq!(engine.index_documents("nope", &Vec::new()).err(), Some(unknown));
    let unknown = QueryError::IndexNotFound("nope".to_owned());
    assert_eq!(engine.delete_documents("nope", &vec!["1".to_owned()]).err(), Some(unknown));
    assert!(engine.delete_documents("nope", &Vec::new()).is_ok());
    match engine.search("nope", &FullTextQuery::default()) {
        Err(e) => assert_eq!(e, QueryError::IndexNotFound("nope".to_owned())),
        Ok(_) => panic!("expected an error"),
    }
}

#[test]
fn searchable_columns_reach_into_complex_fields() {
    let fields = vec![
        key_field(),
        match FieldDefinition::from_json(json_object(
            r#"{"name": "address", "type": "Edm.ComplexType", "fields": [
                {"name": "city", "type": "Edm.String", "searchable": true, "analyzer": "keyword"},
                {"name": "zip", "type": "Edm.Int32"}
            ]}"#,
        )) {
            Ok(field) => field,
            Err(e) => panic!("{e}"),
        },
    ];
    assert!(is_engine_schema(&fields));
    let columns: Vec<(String, Option<String>)> = searchable_columns(&fields)
        .into_iter()
        .map(|c| (c.path, c.analyzer))
        .collect();
    assert!(columns.contains(&("address/city".to_owned(), Some("keyword".to_owned()))));
    assert!(!columns.iter().any(|(path, _)| path == "address/zip"));
    let doc = doc_with("1", &[("address", json_object(r#"{"city": "Oslo", "zip": 7}"#))]);
    assert_eq!(document_texts(&doc, "address/city"), vec!["Oslo"]);
    assert_eq!(text_representation(&Json::Bool(true)).as_deref(), Some("true"));
    assert_eq!(text_representation(&Json::Null), None);
}

fn json_object(text: &str) -> Json {
    fn read(v: &serde_json::Value) -> Json {
        match v {
            serde_json::Value::Null => Json::Null,
            serde_json::Value::Bool(b) => Json::Bool(*b),
            serde_json::Value::Number(n) => Json::Number(Number::PosInt(n.as_u64().unwrap())),
            serde_json::Value::String(s) => Json::String(s.clone()),
            serde_json::Value::Array(items) => Json::Array(items.iter().map(read).collect()),
            serde_json::Value::Object(map) => {
                let mut m = JsonMap::new();
                for (k, x) in map {
                    m.insert(k.clone(), read(x));
                }
                Json::Object(m)
            }
        }
    }
    read(&serde_json::from_str(text).unwrap())
}

#[test]
fn cjk_tokens_stand_in_their_text() {
    for text in [
        "\u{6771}\u{4eac}\u{90fd}\u{5e81} ab \u{65e5}",
        "x\u{6771}\u{4eac}y",
        "\u{e9}\u{65e5}\u{672c}\u{8a9e}",
    ] {
        for t in cjk_tokens(text) {
            assert_eq!(&text[t.start_offset..t.end_offset], t.token);
        }
    }
}

#[test]
fn range_words_are_no_terms() {
    assert_eq!(lucene_query_terms("price:[1 TO 5]"), vec!["1", "5"]);
    assert_eq!(lucene_query_terms("to TOO"), vec!["to", "TOO"]);
    assert_eq!(lucene_query_terms("a AND b or not c"), vec!["a", "b", "c"]);
}

#[test]
fn deeply_nested_queries_are_refused() {
    let engine = engine_with_docs();
    let nested = |depth: usize| format!("{}azure{}", "(".repeat(depth), ")".repeat(depth));
    for depth in [1, 20, MAX_NESTING] {
        assert_eq!(found(&engine, &lucene_query(&nested(depth))), vec!["1", "2"]);
    }
    for text in [nested(1_000), "(".repeat(100_000), "NOT ".repeat(1_000) + "azure"] {
        match engine.search("items", &lucene_query(&text)) {
            Err(QueryError::InvalidQuery(_)) => {}
            other => panic!("expected an error: {:?}", other.is_ok()),
        }
    }
    match engine.search("items", &lucene_query(&nested(1_000))) {
        Err(QueryError::InvalidQuery(m)) => assert_eq!(m, "The query is nested too deeply."),
        _ => panic!("expected an error"),
    }
}

#[test]
fn keys_are_replaced_as_a_whole() {
    // The key is one term, so that a document is found again by all of it.
    let mut engine = engine_with_docs();
    for key in ["4 The Key", "4 the key"] {
        engine.index_documents("items", &vec![document(key, "Azure", "x", 400)]).unwrap();
    }
    assert_eq!(keys(&engine, "400"), vec!["4 The Key", "4 the key"]);
    engine.delete_documents("items", &vec!["4 The Key".to_owned()]).unwrap();
    assert_eq!(keys(&engine, "400"), vec!["4 the key"]);
    engine.index_documents("items", &vec![document("4 the key", "Azure", "x", 500)]).unwrap();
    assert_eq!(keys(&engine, "400"), Vec::<String>::new());
    assert_eq!(keys(&engine, "500"), vec!["4 the key"]);
}

#[test]
fn equal_searches_give_equal_scores() {
    let engine = engine_with_docs();
    let (first, second) = (scored(&engine, "azure search"), scored(&engine, "azure search"));
    assert_eq!(first, second);
    assert_eq!(first.len(), 2);
    assert!(first[0].1 > first[1].1);
}

#[test]
fn flat_queries_are_taken_whatever_their_length() {
    let engine = engine_with_docs();
    let many = |part: &str| part.repeat(3 * MAX_NESTING);
    // Each wildcard becomes a group of regular expressions with a group in each.
    let wildcards = many("nothere* ") + "azu*";
    assert_eq!(found(&engine, &lucene_query(&wildcards)), vec!["1", "2"]);
    // Negations one after the other, and words that hold the letters.
    let negations = "azure ".to_owned() + &many("NOT absent ") + "NOT emulators";
    assert_eq!(found(&engine, &lucene_query(&negations)), vec!["1"]);
    let negated_groups = "azure ".to_owned() + &many("NOT (absent missing) ");
    assert_eq!(found(&engine, &lucene_query(&negated_groups)), vec!["1", "2"]);
    let words = "azure ".to_owned() + &many("NOTES CANNOT ");
    assert_eq!(found(&engine, &lucene_query(&words)), vec!["1", "2"]);
    // Parentheses that are part of a phrase or escaped, and groups side by side.
    let phrases = "azure ".to_owned() + &many("\"((\" ");
    assert_eq!(found(&engine, &lucene_query(&phrases)), vec!["1", "2"]);
    let groups = "azure ".to_owned() + &many("(absent) title:(missing) ");
    assert_eq!(found(&engine, &lucene_query(&groups)), vec!["1", "2"]);
}

#[test]
fn nesting_is_counted_in_groups_and_negations() {
    let text = |open: &str, n: usize, close: &str| open.repeat(n) + "a" + &close.repeat(n);
    let half = MAX_NESTING / 2;
    for (open, close, most) in
        [("(", ")", MAX_NESTING), ("t:(", ")", MAX_NESTING), ("NOT ", "", MAX_NESTING), ("NOT (", ")", half)]
    {
        assert!(is_shallow(&text(open, most, close)), "{open}");
        assert!(!is_shallow(&text(open, most + 1, close)), "{open}");
    }
    // What a quote, a slash, or a backslash hides closes nothing.
    for hidden in ["(\")\" ", "(')' ", "(/)/ ", "(\\) "] {
        assert!(is_shallow(&hidden.repeat(MAX_NESTING)), "{hidden}");
        assert!(!is_shallow(&hidden.repeat(MAX_NESTING + 1)), "{hidden}");
    }
    assert!(is_shallow(""));
    assert!(is_shallow(&")".repeat(3 * MAX_NESTING)));
}

#[test]
fn analyzers_serve_indexing_and_querying() {
    let fields = vec![
        key_field(),
        field("code", "Edm.String", true, Some("keyword")),
        field("name", "Edm.String", true, Some("whitespace")),
        field("text", "Edm.String", true, None),
        field("kanji", "Edm.String", true, Some("japanese")),
    ];
    let value = |s: &str| Json::String(s.to_owned());
    let docs = vec![doc_with(
        "1",
        &[
            ("code", value("Red-Wine")),
            ("name", value("Red-Wine List")),
            ("text", value("Running red wines")),
            ("kanji", value("\u{6771}\u{4eac}\u{90fd}")),
        ],
    )];
    let engine = analyzer_engine(&fields, &docs);
    for (text, matches) in [
        ("code:Red-Wine", true),
        ("code:red-wine", false),
        ("code:Red", false),
        ("name:Red-Wine", true),
        ("name:List", true),
        ("name:list", false),
        ("text:run", true),
        ("text:WINE", true),
        ("text:\"run red wine\"", true),
        ("kanji:\u{4eac}\u{90fd}", true),
        ("kanji:\u{6771}\u{90fd}", false),
    ] {
        let expected: Vec<&str> = if matches { vec!["1"] } else { Vec::new() };
        assert_eq!(found(&engine, &lucene_query(text)), expected, "{text}");
        // The same holds of the clause of a simple query.
        let (name, term) = text.split_once(':').unwrap();
        let clause = match term.strip_prefix('"') {
            Some(phrase) => Clause::Phrase(phrase.trim_end_matches('"').to_owned()),
            None => Clause::Term(term.to_owned()),
        };
        let query = FullTextQuery {
            required: vec![clause],
            fields: Some(vec![name.to_owned()]),
            ..Default::default()
        };
        assert_eq!(found(&engine, &query), expected, "{text}");
    }
}

#[test]
fn indexes_need_every_tokenizer() {
    let mut engine = SearchEngine::new(tantivy::tokenizer::TokenizerManager::new());
    match engine.create_index("items", &fields()) {
        Err(QueryError::Engine(m)) => assert_eq!(m, "tokenizer \"aisearch_en\" is missing"),
        other => panic!("expected an error: {other:?}"),
    }
    match engine.search("items", &lucene_query("a")) {
        Err(QueryError::IndexNotFound(name)) => assert_eq!(name, "items"),
        _ => panic!("expected an error"),
    }
}

#[test]
fn schemas_have_a_bound_on_their_fields() {
    let columns = |n: usize| -> Vec<FieldDefinition> {
        (0..n).map(|i| field(&format!("f{i}"), "Edm.String", true, None)).collect()
    };
    assert!(is_engine_schema(&columns(300)));
    assert!(!is_engine_schema(&columns(65_536)));
    assert!(!is_engine_schema(&columns(70_000)));
}

#[test]
fn phrases_match_tokens_one_behind_the_other() {
    let fields = vec![key_field(), field("text", "Edm.Collection(Edm.String)", true, Some("whitespace"))];
    let list = |items: &[&str]| Json::Array(items.iter().map(|s| Json::String((*s).to_owned())).collect());
    let engine = analyzer_engine(
        &fields,
        &vec![
            doc_with("1", &[("text", list(&["a b c", "d"]))]),
            doc_with("2", &[("text", list(&["a x b", "c d"]))]),
            doc_with("3", &[("text", list(&["b a a b", ""]))]),
        ],
    );
    let phrase = |text: &str| FullTextQuery {
        required: vec![Clause::Phrase(text.to_owned())],
        ..Default::default()
    };
    assert_eq!(found(&engine, &phrase("a b")), vec!["1", "3"]);
    assert_eq!(found(&engine, &phrase("a b c")), vec!["1"]);
    assert_eq!(found(&engine, &phrase("a a")), vec!["3"]);
    // A phrase does not reach from one text into the next.
    assert_eq!(found(&engine, &phrase("c d")), vec!["2"]);
    assert_eq!(found(&engine, &phrase("b c")), vec!["1"]);
    assert!(found(&engine, &phrase("b d")).is_empty());
}

#[test]
fn fuzzy_terms_count_edits() {
    let fields = vec![key_field(), field("text", "Edm.String", true, Some("whitespace"))];
    let words = ["diary", "dairy", "diaries", "dry", "abc", "ca", "ac", "\u{e9}t\u{e9}"];
    let docs = words
        .iter()
        .map(|w| doc_with(w, &[("text", Json::String((*w).to_owned()))]))
        .collect();
    let engine = analyzer_engine(&fields, &docs);
    let near = |term: &str, distance: u8| {
        let query = FullTextQuery {
            required: vec![Clause::FuzzyTerm { term: term.to_owned(), distance }],
            ..Default::default()
        };
        found(&engine, &query)
    };
    // A swap of neighbours is one edit.
    assert_eq!(near("diary", 1), vec!["dairy", "diary"]);
    assert_eq!(near("diary", 2), vec!["dairy", "diary", "dry"]);
    assert_eq!(near("dry", 2), vec!["dairy", "diary", "dry"]);
    // No other edit touches what is swapped.
    assert_eq!(near("ca", 1), vec!["ac", "ca"]);
    assert!(!near("ca", 2).contains(&"abc".to_owned()));
    assert!(near("ac", 1).contains(&"abc".to_owned()));
    // Characters count, not bytes.
    assert_eq!(near("ete", 2), vec!["\u{e9}t\u{e9}"]);
    // An index takes no more than two edits, and says so.
    let query = FullTextQuery {
        required: vec![Clause::FuzzyTerm { term: "diary".to_owned(), distance: 3 }],
        ..Default::default()
    };
    match engine.search("items", &query) {
        Err(QueryError::Engine(m)) => assert!(m.contains("Levenshtein distance of 3"), "{m}"),
        _ => panic!("expected an error"),
    }
}

#[test]
fn ngrams_come_by_start_and_length() {
    let grams = |name: &'static str, text: &str| -> Vec<(String, usize, usize, usize)> {
        tokenize_with(name, text)
            .into_iter()
            .map(|t| (t.token, t.start_offset, t.end_offset, t.position))
            .collect()
    };
    let gram = |t: &str, a: usize, b: usize| (t.to_owned(), a, b, 0);
    assert_eq!(
        grams("aisearch_ngram", "a\u{e9}B"),
        vec![
            gram("a", 0, 1),
            gram("a\u{e9}", 0, 3),
            gram("a\u{e9}b", 0, 4),
            gram("\u{e9}", 1, 3),
            gram("\u{e9}b", 1, 4),
            gram("b", 3, 4),
        ]
    );
    assert_eq!(
        grams("aisearch_edge_ngram", "a\u{e9}B"),
        vec![gram("a", 0, 1), gram("a\u{e9}", 0, 3), gram("a\u{e9}b", 0, 4)]
    );
    assert_eq!(grams("aisearch_ngram", ""), vec![]);
    let long: String = ('a'..='z').collect();
    let all = grams("aisearch_ngram", &long);
    assert_eq!(all.len(), (12..=26).sum::<usize>());
    assert_eq!(all[14].0, long[..15]);
    assert_eq!(all[15].0, "b");
}

#[test]
fn taken_names_are_told() {
    let mut engine = engine_with_docs();
    match engine.create_index("items", &fields()) {
        Err(QueryError::Engine(m)) => assert_eq!(m, "search index \"items\" already exists"),
        other => panic!("expected an error: {other:?}"),
    }
    assert_eq!(keys(&engine, "azure"), vec!["1", "2"]);
}
