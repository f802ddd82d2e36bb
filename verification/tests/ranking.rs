//! Ordering, paging, facets, and score lists.
use aisearch_emulator::filter::parser::parse_filter;
use aisearch_emulator::json::{Json, JsonMap, Number};
use aisearch_emulator::query::engine::KeyScore;
use aisearch_emulator::service::facets::compute_facets;
use aisearch_emulator::service::fusion::{rrf_shares, Share};
use aisearch_emulator::service::ordering::{order_scored, Scored};
use aisearch_emulator::service::paging::{
    collect_page_scores, filter_scores, find_documents, merge_scores, paginate,
    project_documents, rank_scores, VectorList,
};
use aisearch_emulator::service::types::{Facet, OrderBy};
use aisearch_emulator::storage::document::Document;
use aisearch_emulator::storage::index::IndexDefinition;
use aisearch_emulator::storage::keyed::KeyedList;

fn convert(v: &serde_json::Value) -> Json {
    match v {
        serde_json::Value::Null => Json::Null,
        serde_json::Value::Bool(b) => Json::Bool(*b),
        serde_json::Value::Number(n) => Json::Number(if let Some(u) = n.as_u64() {
            Number::PosInt(u)
        } else if let Some(i) = n.as_i64() {
            Number::NegInt(i)
        } else {
            Number::Float(tantivy::f64_to_u64(n.as_f64().unwrap()))
        }),
        serde_json::Value::String(s) => Json::String(s.clone()),
        serde_json::Value::Array(items) => Json::Array(items.iter().map(convert).collect()),
        serde_json::Value::Object(map) => {
            let mut m = JsonMap::new();
            for (k, x) in map {
                m.insert(k.clone(), convert(x));
            }
            Json::Object(m)
        }
    }
}

fn json(text: &str) -> Json {
    convert(&serde_json::from_str(text).unwrap())
}

fn rank(x: f64) -> u64 {
    tantivy::f64_to_u64(x)
}

fn scored(key: &str, score: f64, fields: &str) -> Scored {
    match json(fields) {
        Json::Object(fields) => Scored {
            document: Document { key: key.to_owned(), fields },
            score: rank(score),
        },
        _ => panic!("not an object"),
    }
}

fn keys(list: &[Scored]) -> Vec<&str> {
    list.iter().map(|s| s.document.key.as_str()).collect()
}

fn by(field: &str, descending: bool) -> OrderBy {
    OrderBy { field: field.to_owned(), descending }
}

fn scores(pairs: &[(&str, f64)]) -> KeyedList<KeyScore> {
    let mut list = KeyedList::new();
    for (key, score) in pairs {
        list.put(KeyScore { key: (*key).to_owned(), score: rank(*score) });
    }
    list
}

fn pairs(list: &KeyedList<KeyScore>) -> Vec<(String, f64)> {
    (0..list.len())
        .map(|i| (list.at(i).key.clone(), tantivy::u64_to_f64(list.at(i).score)))
        .collect()
}

#[test]
fn results_come_by_score_then_key() {
    let ordered = order_scored(
        vec![
            scored("c", 1.0, "{}"),
            scored("b", 2.0, "{}"),
            scored("a", 1.0, "{}"),
            scored("d", -1.0, "{}"),
        ],
        &Vec::new(),
    );
    assert_eq!(keys(&ordered), vec!["b", "a", "c", "d"]);
}

#[test]
fn clauses_order_before_the_key() {
    let list = || {
        vec![
            scored("1", 1.0, r#"{"n": 2, "t": "b"}"#),
            scored("2", 5.0, r#"{"n": 1, "t": "b"}"#),
            scored("3", 3.0, r#"{"n": 2, "t": "a"}"#),
            scored("4", 4.0, r#"{"t": "c"}"#),
            scored("5", 2.0, r#"{"n": null, "t": "c"}"#),
        ]
    };
    let ordered = order_scored(list(), &vec![by("n", false), by("t", false)]);
    assert_eq!(keys(&ordered), vec!["4", "5", "2", "3", "1"]);
    let ordered = order_scored(list(), &vec![by("n", true), by("t", false)]);
    assert_eq!(keys(&ordered), vec!["3", "1", "2", "5", "4"]);
    let ordered = order_scored(list(), &vec![by("@search.score", true)]);
    assert_eq!(keys(&ordered), vec!["2", "4", "3", "5", "1"]);
    let ordered = order_scored(list(), &vec![by("@search.score", false)]);
    assert_eq!(keys(&ordered), vec!["1", "5", "3", "4", "2"]);
}

#[test]
fn values_of_different_types_and_large_integers_are_ordered() {
    let ordered = order_scored(
        vec![
            scored("object", 1.0, r#"{"v": {}}"#),
            scored("array", 1.0, r#"{"v": []}"#),
            scored("text", 1.0, r#"{"v": "x"}"#),
            scored("number", 1.0, r#"{"v": 1.5}"#),
            scored("true", 1.0, r#"{"v": true}"#),
            scored("false", 1.0, r#"{"v": false}"#),
            scored("null", 1.0, r#"{"v": null}"#),
            scored("missing", 1.0, "{}"),
        ],
        &vec![by("v", false)],
    );
    assert_eq!(
        keys(&ordered),
        vec!["missing", "null", "false", "true", "number", "text", "array", "object"]
    );
    // Two integers that one floating-point number stands for.
    let ordered = order_scored(
        vec![
            scored("a", 1.0, r#"{"v": 9007199254740993}"#),
            scored("b", 1.0, r#"{"v": 9007199254740992}"#),
            scored("c", 1.0, r#"{"v": -1}"#),
        ],
        &vec![by("v", false)],
    );
    assert_eq!(keys(&ordered), vec!["c", "b", "a"]);
}

#[test]
fn ordering_keeps_every_result() {
    let list: Vec<Scored> = (0..40)
        .map(|i| scored(&format!("{:02}", (i * 7) % 40), f64::from(i % 3), "{}"))
        .collect();
    let ordered = order_scored(list, &vec![by("nothing", true)]);
    let expected: Vec<String> = (0..40).map(|i| format!("{i:02}")).collect();
    assert_eq!(keys(&ordered), expected);
}

#[test]
fn pages_tile_the_results() {
    let list = || -> Vec<Scored> {
        (0..5).map(|i| scored(&i.to_string(), 1.0, "{}")).collect()
    };
    let mut shown = Vec::new();
    let mut skip: u64 = 0;
    loop {
        let page = paginate(list(), skip, Some(2), 5);
        shown.extend(page.results.iter().map(|s| s.document.key.clone()));
        assert_eq!(page.has_more, page.next_skip < 5);
        skip = page.next_skip;
        if !page.has_more {
            break;
        }
    }
    assert_eq!(shown, vec!["0", "1", "2", "3", "4"]);
    let beyond = paginate(list(), 9, Some(2), 5);
    assert!(beyond.results.is_empty());
    assert!(!beyond.has_more);
    let all = paginate(list(), 1, None, 5);
    assert_eq!(keys(&all.results), vec!["1", "2", "3", "4"]);
    assert!(!all.has_more);
    let none = paginate(list(), 0, Some(0), 5);
    assert!(none.results.is_empty());
    assert!(!none.has_more);
}

#[test]
fn hidden_vectors_are_shown_only_when_selected() {
    let definition = match IndexDefinition::from_json(json(
        r#"{"name": "i", "fields": [
            {"name": "id", "type": "Edm.String", "key": true},
            {"name": "a", "type": "Edm.String", "retrievable": false},
            {"name": "v", "type": "Collection(Edm.Single)", "dimensions": 2, "retrievable": false}
        ]}"#,
    )) {
        Ok(definition) => definition,
        Err(e) => panic!("{e}"),
    };
    let page = vec![scored("1", 1.0, r#"{"id": "1", "a": "x", "v": [1, 2]}"#)];
    let plain = project_documents(&page, &Vec::new(), &definition);
    assert_eq!(plain[0].to_value(), json(r#"{"id": "1", "a": "x"}"#));
    let selected = project_documents(&page, &vec!["v".to_owned()], &definition);
    assert_eq!(selected[0].to_value(), json(r#"{"id": "1", "a": "x", "v": [1, 2]}"#));
    assert_eq!(pairs(&collect_page_scores(&page)), vec![("1".to_owned(), 1.0)]);
}

#[test]
fn facets_count_each_distinct_value() {
    let list = vec![
        scored("1", 1.0, r#"{"n": 1, "t": ["a", "b", null]}"#),
        scored("2", 1.0, r#"{"n": "1", "t": ["b"]}"#),
        scored("3", 1.0, r#"{"n": 1, "t": null}"#),
        scored("4", 1.0, r#"{"n": true, "t": "c"}"#),
    ];
    let facet = |field: &str, limit: Option<usize>| Facet { field: field.to_owned(), limit };
    assert_eq!(
        compute_facets(&list, &vec![facet("t", None), facet("$count", None)]),
        json(
            r#"{
                "$count": 4,
                "t": [
                    {"value": "b", "count": 2},
                    {"value": "a", "count": 1},
                    {"value": "c", "count": 1}
                ]
            }"#
        )
    );
    // A number, a text, and a boolean are three values.
    let counted = compute_facets(&list, &vec![facet("n", None)]);
    let Json::Object(map) = &counted else { panic!("not an object") };
    assert_eq!(map.get("n").unwrap().as_array().unwrap().len(), 3);
    assert_eq!(
        compute_facets(&list, &vec![facet("t", Some(1))]),
        json(r#"{"t": [{"value": "b", "count": 2}]}"#)
    );
}

#[test]
fn score_lists_are_merged_only_where_one_side_has_hits() {
    let full_text = scores(&[("a", 1.0), ("b", 2.0)]);
    let list = |hits: &[(&str, f64)]| VectorList { weight: rank(1.0), scores: scores(hits) };
    let merged = merge_scores(&full_text, &Vec::new()).unwrap();
    assert_eq!(pairs(&merged), pairs(&full_text));
    let none = scores(&[]);
    let merged = merge_scores(&none, &vec![list(&[("a", 0.5), ("b", 0.1)]), list(&[("a", 0.25), ("b", 0.75)])])
        .unwrap();
    assert_eq!(pairs(&merged), vec![("a".to_owned(), 0.5), ("b".to_owned(), 0.75)]);
    assert!(merge_scores(&full_text, &vec![list(&[("a", 0.5)])]).is_none());
}

#[test]
fn ranks_come_by_score_then_key() {
    let ranked = rank_scores(&scores(&[("b", 1.0), ("c", 2.0), ("a", 1.0)]));
    let order: Vec<&str> = ranked.iter().map(|s| s.key.as_str()).collect();
    assert_eq!(order, vec!["c", "a", "b"]);
}

#[test]
fn filtered_scores_have_passing_documents() {
    let mut documents = KeyedList::new();
    for (key, fields) in [("a", r#"{"n": 1}"#), ("b", r#"{"n": 2}"#)] {
        documents.put(scored(key, 0.0, fields).document);
    }
    let list = scores(&[("a", 1.0), ("b", 2.0), ("gone", 3.0)]);
    let filter = match parse_filter("n gt 1") {
        Ok(filter) => Some(filter),
        Err(e) => panic!("{e}"),
    };
    assert_eq!(pairs(&filter_scores(&list, &filter, &documents)), vec![("b".to_owned(), 2.0)]);
    assert_eq!(filter_scores(&list, &None, &documents).len(), 3);
    let found = find_documents(&list, &documents);
    assert_eq!(keys(&found), vec!["a", "b"]);
    assert_eq!(found[1].score, rank(2.0));
}

#[test]
fn documents_have_a_share_of_each_list_that_holds_them() {
    let list = |weight: f64, hits: &[(&str, f64)]| VectorList {
        weight: rank(weight),
        scores: scores(hits),
    };
    let fused = rrf_shares(
        &scores(&[("a", 0.5), ("b", 0.9)]),
        rank(1.0),
        &vec![list(2.0, &[("a", 0.8), ("c", 0.7), ("d", 0.7)]), list(3.0, &[])],
    );
    let share = |weight: f64, place: usize| Share { weight: rank(weight), place };
    let of = |key: &str| fused.get(key).unwrap().shares.clone();
    assert_eq!(fused.len(), 4);
    assert_eq!(of("a"), vec![share(1.0, 2), share(2.0, 1)]);
    assert_eq!(of("b"), vec![share(1.0, 1)]);
    assert_eq!(of("c"), vec![share(2.0, 2)]);
    assert_eq!(of("d"), vec![share(2.0, 3)]);
}

#[test]
fn lists_without_hits_leave_the_native_scores() {
    let full_text = scores(&[("a", 1.0), ("b", 2.0)]);
    let none = || VectorList { weight: rank(1.0), scores: scores(&[]) };
    let merged = merge_scores(&full_text, &vec![none()]).unwrap();
    assert_eq!(pairs(&merged), pairs(&full_text));
    let merged = merge_scores(&full_text, &vec![none(), none()]).unwrap();
    assert_eq!(pairs(&merged), pairs(&full_text));
    let one = VectorList { weight: rank(1.0), scores: scores(&[("c", 0.5)]) };
    assert!(merge_scores(&full_text, &vec![none(), one]).is_none());
}

#[test]
fn facets_of_one_count_come_by_value() {
    let list = vec![
        scored("1", 1.0, r#"{"n": 10, "t": "b"}"#),
        scored("2", 1.0, r#"{"n": 9, "t": "B"}"#),
        scored("3", 1.0, r#"{"n": -1, "t": "a"}"#),
        scored("4", 1.0, r#"{"n": 9.5, "t": "b"}"#),
    ];
    let facet = |field: &str| Facet { field: field.to_owned(), limit: None };
    assert_eq!(
        compute_facets(&list, &vec![facet("n"), facet("t")]),
        json(
            r#"{
                "n": [
                    {"value": -1, "count": 1},
                    {"value": 9, "count": 1},
                    {"value": 9.5, "count": 1},
                    {"value": 10, "count": 1}
                ],
                "t": [
                    {"value": "b", "count": 2},
                    {"value": "B", "count": 1},
                    {"value": "a", "count": 1}
                ]
            }"#
        )
    );
}
