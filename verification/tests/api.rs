//! Paths, request bodies, and responses.
use aisearch_emulator::api::bodies::{
    batch_items, body_invalid, body_name, body_required, parse_batch, parse_top_param,
    query_param, suggest_request_params, validate_named_body, validate_named_resource_body,
};
use aisearch_emulator::api::health::{healthcheck_port, is_healthy, read_health_reply};
use aisearch_emulator::api::requests::{
    check_access, check_version, document_by_key, read_analyze_request, read_post_resource,
    read_put_request, read_synonym_map, read_target, PairRequest, PutRequest, Target,
};
use aisearch_emulator::api::responses::{
    analyze_response, autocomplete_response, build_next_link, build_next_page_params,
    error_response, search_response, suggest_response, upload_response, wrap_value,
};
use aisearch_emulator::api::segments::{
    extract_index, is_azure_surface_path, operation_for, parse_document_key, parse_index_name,
    parse_named_resource_segment,
};
use aisearch_emulator::config::Config;
use aisearch_emulator::error::{ApiError, ErrorCode};
use aisearch_emulator::json::{Json, JsonMap, Number};
use aisearch_emulator::query::analyzers::analyze_with_offsets;
use aisearch_emulator::query::engine::KeyScore;
use aisearch_emulator::service::highlights::{DocumentHighlight, FieldHighlight};
use aisearch_emulator::service::paging::SearchOutcome;
use aisearch_emulator::service::resources::ResourceKind;
use aisearch_emulator::service::types::{
    fail_result, ok_result, ActionKind, AutocompleteCompletion, SearchQuery, Suggestion,
};
use aisearch_emulator::storage::document::Document;
use aisearch_emulator::storage::keyed::KeyedList;

fn convert(v: &serde_json::Value) -> Json {
    match v {
        serde_json::Value::Null => Json::Null,
        serde_json::Value::Bool(b) => Json::Bool(*b),
        serde_json::Value::Number(n) => Json::Number(if let Some(u) = n.as_u64() {
            Number::PosInt(u)
        } else if let Some(i) = n.as_i64() {
            Number::NegInt(i)
        } else {
            Number::Float(tantivy::f64_to_u64(n.as_f64().unwrap()))
        }),
        serde_json::Value::String(s) => Json::String(s.clone()),
        serde_json::Value::Array(items) => Json::Array(items.iter().map(convert).collect()),
        serde_json::Value::Object(map) => {
            let mut m = JsonMap::new();
            for (k, x) in map {
                m.insert(k.clone(), convert(x));
            }
            Json::Object(m)
        }
    }
}

fn json(text: &str) -> Json {
    convert(&serde_json::from_str(text).unwrap())
}

fn member(v: &Json, key: &str) -> Json {
    match v {
        Json::Object(m) => m.get(key).map_or(Json::Null, Json::duplicate),
        _ => panic!("not an object"),
    }
}

#[test]
fn next_page_params_carry_the_original_body_plus_cursor() {
    let raw = json(r#"{ "search": "azure", "top": 2, "filter": "price gt 1" }"#);
    let params = build_next_page_params(&raw, "tok123", 7);
    assert_eq!(
        params,
        json(r#"{ "search": "azure", "top": 2, "filter": "price gt 1", "continuation": "tok123", "skip": 7}"#)
    );
}

#[test]
fn next_page_params_tolerate_a_non_object_body() {
    let params = build_next_page_params(&Json::Null, "tok123", 3);
    assert_eq!(params, json(r#"{ "continuation": "tok123", "skip": 3 }"#));
}

#[test]
fn next_page_params_override_existing_cursor_keys() {
    let raw = json(r#"{ "continuation": "stale", "skip": 1 }"#);
    let params = build_next_page_params(&raw, "fresh", 9);
    assert_eq!(member(&params, "continuation"), json(r#""fresh""#));
    assert_eq!(member(&params, "skip"), json(r#"9"#));
}

#[test]
fn next_link_carries_version_and_token() {
    let link = build_next_link("items", Some("2024-07-01"), "tok123");
    assert_eq!(
        link,
        "/indexes('items')/docs/search.post.search?api-version=2024-07-01&continuation=tok123"
    );
    let link = build_next_link("items", None, "tok123");
    assert_eq!(
        link,
        "/indexes('items')/docs/search.post.search?continuation=tok123"
    );
}

fn told<T>(result: Result<T, ApiError>) -> (u16, &'static str, String) {
    match result {
        Ok(_) => panic!("expected an error"),
        Err(e) => (e.status, e.code.as_str(), e.message),
    }
}

#[test]
fn segments_give_the_quoted_name() {
    assert_eq!(parse_index_name("indexes('items')").ok().unwrap(), "items");
    assert_eq!(parse_document_key("docs('it's')").ok().unwrap(), "it's");
    for raw in ["indexes", "indexes()", "indexes('')", "indexes('a'", "indexes(a)", "docs('a')"] {
        let (status, code, message) = told(parse_index_name(raw));
        assert_eq!((status, code), (400, "InvalidIndexName"));
        assert_eq!(
            message,
            format!("Invalid index path segment {raw:?}; expected indexes('name').")
        );
    }
    assert_eq!(
        told(parse_document_key("docs()")).2,
        "Invalid document path segment \"docs()\"; expected docs('name')."
    );
}

#[test]
fn resource_segments_give_kind_and_name() {
    for (raw, kind) in [
        ("synonymmaps('n')", ResourceKind::SynonymMap),
        ("aliases('n')", ResourceKind::Alias),
        ("knowledgesources('n')", ResourceKind::KnowledgeSource),
        ("knowledgebases('n')", ResourceKind::KnowledgeBase),
    ] {
        let found = parse_named_resource_segment(raw).ok().unwrap();
        assert_eq!(found, Some((kind, "n".to_owned())));
        assert_eq!(read_target(raw).ok().unwrap(), Target::Resource(kind, "n".to_owned()));
    }
    assert_eq!(parse_named_resource_segment("indexes('n')").ok().unwrap(), None);
    assert_eq!(read_target("indexes('n')").ok().unwrap(), Target::Index("n".to_owned()));
    let (status, code, message) = told(read_target("aliases(n)"));
    assert_eq!((status, code), (400, "InvalidAlias"));
    assert_eq!(
        message,
        "Invalid alias path segment \"aliases(n)\"; expected aliases'name')."
    );
    // A synonym map's segment is shown without its prefix.
    assert_eq!(
        told(read_target("synonymmaps(n)")).2,
        "Invalid synonym map path segment \"n)\"; expected synonymmaps'name')."
    );
    assert_eq!(told(read_target("nothing")).1, "InvalidIndexName");
}

#[test]
fn guarded_paths_need_a_key() {
    for path in [
        "/indexes",
        "/indexes('a')",
        "/indexes('a')/docs/$count",
        "/servicestats",
        "/aliases",
        "/synonymmaps('a')",
        "/knowledgesources",
        "/knowledgebases('a')/retrieve",
    ] {
        assert!(is_azure_surface_path(path), "{path}");
        assert!(check_access(path, Some("k")).ok().unwrap());
        for key in [None, Some(""), Some(" \t")] {
            let (status, code, message) = told(check_access(path, key));
            assert_eq!((status, code), (401, "AuthenticationFailed"));
            assert_eq!(
                message,
                "An API key is required. Provide a non-empty 'api-key' header."
            );
        }
    }
    for path in ["/health", "/admin/reset", "/indexesx", "/", "/servicestats/x"] {
        assert!(!is_azure_surface_path(path), "{path}");
        assert!(!check_access(path, None).ok().unwrap());
    }
}

#[test]
fn only_configured_versions_are_served() {
    let config = match Config::from_values(|key| match key {
        "EMULATOR_API_VERSIONS" => Some("2024-07-01, 2025-01-01".to_owned()),
        _ => None,
    }) {
        Ok(config) => config,
        Err(e) => panic!("{}", e.to_text()),
    };
    assert!(check_version(&config, Some("2024-07-01")).is_ok());
    assert!(check_version(&config, Some("2025-01-01")).is_ok());
    assert_eq!(told(check_version(&config, None)).0, 400);
    assert_eq!(told(check_version(&config, Some("2020-01-01"))).0, 400);
}

#[test]
fn operations_are_told_from_method_and_path() {
    for (method, path, operation) in [
        ("GET", "/health", "health"),
        ("POST", "/admin/reset", "adminReset"),
        ("POST", "/indexes('a')/docs/search.index", "uploadDocuments"),
        ("POST", "/indexes('a')/docs/search.post.search", "search"),
        ("POST", "/indexes('a')/docs/search.post.autocomplete", "autocomplete"),
        ("POST", "/indexes('a')/docs/search.post.suggest", "suggest"),
        ("GET", "/indexes('a')/docs('k')", "getDocument"),
        ("PUT", "/indexes('a')/docs('k')", "unknown"),
        ("POST", "/aliases", "createAlias"),
        ("GET", "/knowledgesources", "listKnowledgeSources"),
        ("PUT", "/synonymmaps('a')", "createOrUpdateSynonymMap"),
        ("POST", "/knowledgebases('a')/retrieve", "retrieveKnowledgeBase"),
        ("PATCH", "/aliases('a')", "unknown"),
        ("PUT", "/indexes('a')", "createIndex"),
        ("DELETE", "/indexes('a')", "deleteIndex"),
        ("GET", "/indexes", "getIndex"),
        ("POST", "/indexes", "unknown"),
    ] {
        assert_eq!(operation_for(method, path), operation, "{method} {path}");
    }
}

#[test]
fn the_index_of_a_path_is_extracted() {
    assert_eq!(extract_index("/indexes('a')/docs('k')"), Some("a".to_owned()));
    assert_eq!(extract_index("/indexes('a"), None);
    assert_eq!(extract_index("/indexes('')"), None);
    assert_eq!(extract_index("/aliases('a')"), None);
    assert_eq!(extract_index("/indexes"), None);
}

#[test]
fn two_segment_paths_lead_to_a_document_or_a_retrieval() {
    let pair = |method: &str, name: &str, key: &str| document_by_key(method, name, key);
    assert_eq!(
        pair("GET", "indexes('a')", "docs('k')"),
        PairRequest::Document("a".to_owned(), "k".to_owned())
    );
    assert_eq!(pair("POST", "indexes('a')", "docs('k')"), PairRequest::NotFound);
    assert_eq!(
        pair("POST", "knowledgebases('b')", "retrieve"),
        PairRequest::Retrieve("b".to_owned())
    );
    assert_eq!(pair("GET", "knowledgebases('b')", "retrieve"), PairRequest::MethodNotAllowed);
    assert_eq!(pair("POST", "knowledgebases('b')", "other"), PairRequest::NotFound);
    let codes = [
        (pair("GET", "a", "docs('k')"), ErrorCode::InvalidIndexName),
        (pair("GET", "indexes('a')", "k"), ErrorCode::InvalidRequest),
        (pair("POST", "knowledgebases(b)", "retrieve"), ErrorCode::InvalidKnowledgeBase),
    ];
    for (request, code) in codes {
        match request {
            PairRequest::Refused(e) => assert_eq!((e.status, e.code), (400, code)),
            other => panic!("expected a refusal: {other:?}"),
        }
    }
}

#[test]
fn put_requests_are_told_apart() {
    assert_eq!(
        read_put_request("indexes('a')", &json(r#"{"name": "a"}"#)).ok().unwrap(),
        PutRequest::Index
    );
    let (status, code, message) = told(read_put_request("indexes('a')", &json("{}")));
    assert_eq!((status, code), (400, "InvalidIndex"));
    assert_eq!(
        message,
        "Index name in path (\"a\") does not match index name in body."
    );
    let body = json(r#"{"name": "s", "format": "solr", "synonyms": "a, b"}"#);
    assert_eq!(
        read_put_request("synonymmaps('s')", &body).ok().unwrap(),
        PutRequest::SynonymMap {
            name: "s".to_owned(),
            format: "solr".to_owned(),
            synonyms: "a, b".to_owned(),
        }
    );
    assert_eq!(told(read_put_request("synonymmaps('t')", &body)).1, "InvalidSynonymMap");
    let body = json(r#"{"name": "al", "indexes": ["items"]}"#);
    assert_eq!(
        read_put_request("aliases('al')", &body).ok().unwrap(),
        PutRequest::Resource { kind: ResourceKind::Alias, name: "al".to_owned() }
    );
    assert_eq!(told(read_put_request("aliases('other')", &body)).1, "InvalidAlias");
    assert_eq!(
        told(read_put_request("aliases('al')", &json(r#"{"name": "al"}"#))).2,
        "An alias must define a non-empty \"indexes\" array."
    );
}

#[test]
fn resource_bodies_are_validated() {
    let check = |kind: ResourceKind, body: &str| validate_named_resource_body(kind, &json(body));
    assert!(check(ResourceKind::Alias, r#"{"indexes": ["a"]}"#).is_ok());
    for body in ["{}", r#"{"indexes": []}"#, r#"{"indexes": "a"}"#] {
        assert_eq!(
            told(check(ResourceKind::Alias, body)).2,
            "An alias must define a non-empty \"indexes\" array."
        );
    }
    assert_eq!(
        told(check(ResourceKind::Alias, r#"{"indexes": ["a", ""]}"#)).2,
        "Alias \"indexes\" entries must be non-empty index name strings."
    );
    assert!(check(ResourceKind::KnowledgeSource, r#"{"kind": "azureBlob"}"#).is_ok());
    let named = r#"{"kind": "searchIndex", "searchIndexParameters": {"searchIndexName": "i"}}"#;
    assert!(check(ResourceKind::KnowledgeSource, named).is_ok());
    assert_eq!(
        told(check(ResourceKind::KnowledgeSource, r#"{"kind": ""}"#)).2,
        "A knowledge source must define a non-empty \"kind\"."
    );
    assert_eq!(
        told(check(ResourceKind::KnowledgeSource, r#"{"kind": "searchIndex"}"#)).1,
        "InvalidKnowledgeSource"
    );
    let named = r#"{"knowledgeSources": [{"name": "s"}]}"#;
    assert!(check(ResourceKind::KnowledgeBase, named).is_ok());
    assert_eq!(
        told(check(ResourceKind::KnowledgeBase, r#"{"knowledgeSources": []}"#)).2,
        "A knowledge base must define a non-empty \"knowledgeSources\" array."
    );
    assert_eq!(
        told(check(ResourceKind::KnowledgeBase, r#"{"knowledgeSources": [{}]}"#)).2,
        "Each \"knowledgeSources\" entry must have a non-empty \"name\"."
    );
}

#[test]
fn resource_names_come_from_the_body() {
    let body = json(r#"{"name": "al", "indexes": ["a"]}"#);
    assert_eq!(read_post_resource(ResourceKind::Alias, &body).ok().unwrap(), "al");
    assert_eq!(body_name(&body, "alias", ErrorCode::InvalidAlias).ok().unwrap(), "al");
    let (status, code, message) = told(body_name(&json("{}"), "alias", ErrorCode::InvalidAlias));
    assert_eq!((status, code), (400, "InvalidAlias"));
    assert_eq!(message, "The alias name is required.");
    assert!(validate_named_body("al", &body, "Alias", ErrorCode::InvalidAlias).is_ok());
    assert_eq!(
        told(validate_named_body("x", &body, "Alias", ErrorCode::InvalidAlias)).2,
        "Alias name in path (\"x\") does not match name in body."
    );
    assert_eq!(
        read_synonym_map(&json(r#"{"name": "m", "synonyms": "a=>b"}"#)),
        ("m".to_owned(), String::new(), "a=>b".to_owned())
    );
}

#[test]
fn batches_are_arrays_or_values() {
    let bare = json(r#"[{"@search.action": "upload", "id": "1"}, {"@search.action": "delete", "id": "2"}]"#);
    let wrapped = wrap_value(bare.duplicate());
    for batch in [&bare, &wrapped] {
        assert_eq!(batch_items(batch).ok().unwrap().len(), 2);
        let actions = parse_batch(batch).ok().unwrap();
        assert_eq!(actions[0].kind, ActionKind::Upload);
        assert_eq!(actions[0].document, json(r#"{"id": "1"}"#));
        assert_eq!(actions[1].kind, ActionKind::Delete);
    }
    assert_eq!(told(batch_items(&json("{}"))).1, "InvalidDocuments");
    let (status, code, _) = told(parse_batch(&json(r#"[{"@search.action": "shred", "id": "1"}]"#)));
    assert_eq!((status, code), (400, "UnsupportedAction"));
}

#[test]
fn bodies_can_be_missing_or_malformed() {
    assert_eq!(body_required().message, "Request body is required.");
    assert_eq!(body_invalid("oops").message, "Invalid JSON body: oops");
    assert_eq!(
        error_response(&body_invalid("oops")),
        json(r#"{"error": {"code": "InvalidRequest", "message": "Invalid JSON body: oops"}}"#)
    );
    assert_eq!(
        body_required().to_text(),
        "400 Bad Request (InvalidRequest): Request body is required."
    );
}

#[test]
fn query_parameters_are_decoded() {
    let query = "api-version=2024-07-01&search=a%20b+c&search=second&%24top=3";
    assert_eq!(query_param(query, "search"), Some("a b c".to_owned()));
    assert_eq!(query_param(query, "$top"), Some("3".to_owned()));
    assert_eq!(query_param(query, "api-version"), Some("2024-07-01".to_owned()));
    assert_eq!(query_param(query, "missing"), None);
}

#[test]
fn suggest_parameters_come_from_body_then_query() {
    let body = json(r#"{"search": "az", "suggesterName": "sg", "filter": "a eq 1"}"#);
    let p = suggest_request_params(&body, None).ok().unwrap();
    assert_eq!((p.search.as_str(), p.suggester.as_str(), p.top), ("az", "sg", 5));
    assert_eq!(p.filter.as_deref(), Some("a eq 1"));
    let query = "searchText=other&suggesterName=q&%24top=7";
    let p = suggest_request_params(&json(r#"{"search": "  "}"#), Some(query)).ok().unwrap();
    assert_eq!((p.search.as_str(), p.suggester.as_str(), p.top), ("other", "q", 7));
    assert_eq!(p.filter, None);
    let p = suggest_request_params(&body, Some("search=query&top=2")).ok().unwrap();
    assert_eq!((p.search.as_str(), p.top), ("az", 2));
    let body = json(r#"{"search": "a", "suggesterName": "s", "top": 9}"#);
    assert_eq!(suggest_request_params(&body, Some("top=2")).ok().unwrap().top, 9);
    assert_eq!(
        told(suggest_request_params(&json("{}"), None)).2,
        "The \"search\" field is required."
    );
    assert_eq!(
        told(suggest_request_params(&json(r#"{"search": "a"}"#), None)).2,
        "The \"suggesterName\" field is required."
    );
    for top in ["0", "-1", "\"5\"", "1.5"] {
        let text = format!(r#"{{"search": "a", "suggesterName": "s", "top": {top}}}"#);
        assert_eq!(
            told(suggest_request_params(&json(&text), None)).2,
            "\"top\" must be a positive integer."
        );
    }
    assert_eq!(parse_top_param("12").ok().unwrap(), 12);
    assert_eq!(parse_top_param("+12").ok().unwrap(), 12);
    for raw in ["0", "", "-1", "x", "18446744073709551616"] {
        assert_eq!(told(parse_top_param(raw)).0, 400);
    }
}

#[test]
fn analyze_requests_are_read() {
    let body = json(r#"{"text": "a b", "analyzerName": "keyword", "field": "f"}"#);
    let request = read_analyze_request(&body).ok().unwrap();
    assert_eq!(request.text, "a b");
    assert_eq!(request.analyzer.as_deref(), Some("keyword"));
    assert_eq!(request.field.as_deref(), Some("f"));
    let (status, code, message) = told(read_analyze_request(&json("{}")));
    assert_eq!((status, code), (400, "InvalidRequest"));
    assert_eq!(message, "The \"text\" field is required.");
}

#[test]
fn analyzed_tokens_are_shown_with_offsets() {
    assert_eq!(
        analyze_response(&analyze_with_offsets("Running dogs")),
        json(
            r#"{"tokens": [
                {"token": "run", "startOffset": 0, "endOffset": 7, "position": 0},
                {"token": "dog", "startOffset": 8, "endOffset": 12, "position": 1}
            ]}"#
        )
    );
}

#[test]
fn upload_results_are_shown() {
    let results = vec![
        ok_result("1".to_owned(), 201),
        fail_result("2".to_owned(), 404, "gone".to_owned()),
    ];
    assert_eq!(
        upload_response(&results),
        json(
            r#"{"value": [
                {"key": "1", "status": true, "statusCode": 201, "errorMessage": null},
                {"key": "2", "status": false, "statusCode": 404, "errorMessage": "gone"}
            ]}"#
        )
    );
}

fn document(key: &str, fields: &str) -> Document {
    match json(fields) {
        Json::Object(fields) => Document { key: key.to_owned(), fields },
        _ => panic!("not an object"),
    }
}

#[test]
fn suggestions_are_shown() {
    let completions = vec![AutocompleteCompletion {
        text: "azure".to_owned(),
        query_plus_text: "my azure".to_owned(),
    }];
    assert_eq!(
        autocomplete_response(&completions),
        json(r#"{"value": [{"text": "azure", "queryPlusText": "my azure"}]}"#)
    );
    let suggestions = vec![Suggestion {
        document: document("1", r#"{"id": "1", "title": "azure"}"#),
        text: "azure".to_owned(),
    }];
    assert_eq!(
        suggest_response(&suggestions),
        json(r#"{"value": [{"@search.text": "azure", "id": "1", "title": "azure"}]}"#)
    );
}

#[test]
fn search_responses_show_scores_highlights_and_the_next_page() {
    let mut scores = KeyedList::new();
    scores.put(KeyScore { key: "1".to_owned(), score: tantivy::f64_to_u64(2.5) });
    let mut fields = KeyedList::new();
    fields.put(FieldHighlight { field: "title".to_owned(), fragments: vec!["<em>a</em>".to_owned()] });
    let mut highlights = KeyedList::new();
    highlights.put(DocumentHighlight { key: "1".to_owned(), fields });
    let outcome = SearchOutcome {
        total: 7,
        documents: vec![
            document("1", r#"{"id": "1", "title": "a"}"#),
            document("2", r#"{"id": "2", "title": "b"}"#),
        ],
        scores,
        highlights,
        facets: Some(json(r#"{"tags": []}"#)),
        has_more: true,
        next_skip: 2,
    };
    let query = SearchQuery {
        count: true,
        select: vec!["id".to_owned()],
        ..Default::default()
    };
    let raw = json(r#"{"search": "a"}"#);
    assert_eq!(
        search_response("items", Some("2024-07-01"), &raw, &query, &outcome, Some("tok")),
        json(
            r#"{
                "@odata.context": "/$metadata#documents",
                "@odata.count": 7,
                "@search.facets": {"tags": []},
                "value": [
                    {"@search.score": 2.5, "@search.highlights": {"title": ["<em>a</em>"]}, "id": "1"},
                    {"@search.score": 1.0, "id": "2"}
                ],
                "@odata.nextLink": "/indexes('items')/docs/search.post.search?api-version=2024-07-01&continuation=tok",
                "@search.nextPageParameters": {"search": "a", "continuation": "tok", "skip": 2}
            }"#
        )
    );
    let bare = search_response("items", None, &raw, &SearchQuery::default(), &outcome, None);
    assert_eq!(member(&bare, "@odata.count"), Json::Null);
    assert_eq!(member(&bare, "@odata.nextLink"), Json::Null);
}

#[test]
fn health_replies_are_read() {
    let reply = read_health_reply("HTTP/1.1 200 OK\r\nx: y\r\n\r\n{\"status\":\"ok\"}\r\n\r\nmore");
    assert_eq!(reply.status_code, "200");
    assert_eq!(reply.body, "{\"status\":\"ok\"}");
    assert!(is_healthy(&reply.status_code, &json(&reply.body)));
    assert!(!is_healthy("500", &json(&reply.body)));
    assert!(!is_healthy("200", &json(r#"{"status": "down"}"#)));
    assert!(!is_healthy("200", &Json::Null));
    let cut = read_health_reply("HTTP/1.1");
    assert_eq!((cut.status_code.as_str(), cut.body.as_str()), ("", ""));
    let empty = read_health_reply("");
    assert_eq!((empty.status_code.as_str(), empty.body.as_str()), ("", ""));
}

#[test]
fn health_checks_ask_the_configured_port() {
    assert_eq!(healthcheck_port(Some("9090")), 9090);
    for raw in [None, Some(""), Some("x"), Some("65536")] {
        assert_eq!(healthcheck_port(raw), 8080);
    }
}

#[test]
fn resource_kinds_have_their_own_words() {
    for (kind, prefix, conflict, invalid) in [
        (ResourceKind::SynonymMap, "/synonymmaps(", "SynonymMapAlreadyExists", "InvalidSynonymMap"),
        (ResourceKind::Alias, "/aliases(", "AliasAlreadyExists", "InvalidAlias"),
        (
            ResourceKind::KnowledgeSource,
            "/knowledgesources(",
            "KnowledgeSourceAlreadyExists",
            "InvalidKnowledgeSource",
        ),
        (
            ResourceKind::KnowledgeBase,
            "/knowledgebases(",
            "KnowledgeBaseAlreadyExists",
            "InvalidKnowledgeBase",
        ),
    ] {
        assert_eq!(kind.named_path_prefix(), prefix);
        assert_eq!(kind.conflict_code(), conflict);
        assert_eq!(kind.invalid_code(), invalid);
    }
    assert_eq!(ResourceKind::Alias.named_index(), 0);
    assert_eq!(ResourceKind::KnowledgeSource.named_index(), 1);
    assert_eq!(ResourceKind::KnowledgeBase.named_index(), 2);
}
