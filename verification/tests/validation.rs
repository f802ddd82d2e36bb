//! Synonym rules and typed values.
use aisearch_emulator::json::{Json, JsonMap, Number};
use aisearch_emulator::encoding::is_base64_string;
use aisearch_emulator::service::parsing::{
    parse_debug, parse_facets, parse_highlight_options, parse_minimum_coverage, parse_orderby, parse_search_fields, parse_select,
    parse_suggester_fuzzy, parse_suggester_orderby, parse_suggester_search_fields,
    split_facet_string, validate_suggester_minimum_coverage,
};
use aisearch_emulator::service::scalar::{is_duration_string, is_time_string, scalar_type_ok};
use aisearch_emulator::service::synonyms::{
    parse_synonym_rules, split_synonym_terms, validate_synonym_map,
};
use aisearch_emulator::service::types::{Facet, OrderBy, VectorFilterMode};
use aisearch_emulator::service::validation::{
    check_complex_collection_value, key_display, parse_finite_f32_array, validate_document,
    FiniteF32ArrayError,
};
use aisearch_emulator::storage::definition::Suggester;
use aisearch_emulator::storage::field_type::FieldType;
use aisearch_emulator::storage::index::IndexDefinition;

fn convert(v: &serde_json::Value) -> Json {
    match v {
        serde_json::Value::Null => Json::Null,
        serde_json::Value::Bool(b) => Json::Bool(*b),
        serde_json::Value::Number(n) => Json::Number(if let Some(u) = n.as_u64() {
            Number::PosInt(u)
        } else if let Some(i) = n.as_i64() {
            Number::NegInt(i)
        } else {
            Number::Float(tantivy::f64_to_u64(n.as_f64().unwrap()))
        }),
        serde_json::Value::String(s) => Json::String(s.clone()),
        serde_json::Value::Array(items) => Json::Array(items.iter().map(convert).collect()),
        serde_json::Value::Object(map) => {
            let mut m = JsonMap::new();
            for (k, x) in map {
                m.insert(k.clone(), convert(x));
            }
            Json::Object(m)
        }
    }
}

fn json(text: &str) -> Json {
    convert(&serde_json::from_str(text).unwrap())
}

fn ok<T, E: std::fmt::Debug>(result: Result<T, E>) -> T {
    match result {
        Ok(value) => value,
        Err(err) => panic!("expected Ok, got Err: {err:?}"),
    }
}

#[test]
fn synonym_rules_parse_solr_format() {
    let rules = ok(parse_synonym_rules("USA, United States\nWashington => WA"));
    assert_eq!(rules.len(), 2);
    assert_eq!(rules[0].inputs, vec!["usa", "united", "states"]);
    assert_eq!(rules[0].outputs, vec!["usa", "united", "states"]);
    assert_eq!(rules[1].inputs, vec!["washington"]);
    assert_eq!(rules[1].outputs, vec!["wa"]);
    // Blank lines are skipped.
    assert_eq!(ok(parse_synonym_rules("\n  \na, b\n")).len(), 1);
    // Empty rules, sides, and terms are rejected.
    assert!(parse_synonym_rules("").is_ok());
    assert!(parse_synonym_rules("   ").is_ok());
    assert!(parse_synonym_rules("a, => b").is_err());
    assert!(parse_synonym_rules("=> b").is_err());
    assert!(parse_synonym_rules("a =>").is_err());
    assert!(parse_synonym_rules("a,,b").is_err());
}

#[test]
fn time_strings_require_zero_padded_clock_form() {
    for valid in [
        "00:00:00",
        "10:30:45",
        "23:59:59",
        "10:30:45.123",
        "01:02:03.000000001",
    ] {
        assert!(is_time_string(valid), "expected valid: {valid:?}");
    }
    for invalid in [
        "",
        "10:30",
        "10:30:45:00",
        "24:00:00",
        "10:60:00",
        "10:30:60",
        "1:02:03",
        "10:30:45.",
        "10:30:45.1234567890",
        "10:30:45Z",
        "not a time",
    ] {
        assert!(!is_time_string(invalid), "expected invalid: {invalid:?}");
    }
}

#[test]
fn duration_strings_require_iso_8601_form() {
    for valid in [
        "P1D",
        "P1Y2M3DT4H5M6S",
        "PT30S",
        "PT0.5S",
        "P1W",
        "P2M",
        "PT1H",
    ] {
        assert!(is_duration_string(valid), "expected valid: {valid:?}");
    }
    for invalid in [
        "", "P", "PT", "1D", "P1X", "P1Y2Y", "PT1S1H", "P1W2D", "P1WT2H", "T1H", "P1DT",
    ] {
        assert!(
            !is_duration_string(invalid),
            "expected invalid: {invalid:?}"
        );
    }
}

#[test]
fn narrow_integers_enforce_range() {
    assert!(scalar_type_ok(&FieldType::Int8, &json(r#"127"#)));
    assert!(scalar_type_ok(&FieldType::Int8, &json(r#"-128"#)));
    assert!(!scalar_type_ok(&FieldType::Int8, &json(r#"128"#)));
    assert!(!scalar_type_ok(&FieldType::Int8, &json(r#"-129"#)));
    assert!(!scalar_type_ok(&FieldType::Int8, &json(r#"1.5"#)));
    assert!(!scalar_type_ok(&FieldType::Int8, &json(r#""5""#)));
    assert!(scalar_type_ok(&FieldType::Int16, &json(r#"32767"#)));
    assert!(scalar_type_ok(&FieldType::Int16, &json(r#"-32768"#)));
    assert!(!scalar_type_ok(&FieldType::Int16, &json(r#"32768"#)));
    assert!(!scalar_type_ok(&FieldType::Int16, &json(r#"-32769"#)));
}

#[test]
fn time_duration_binary_accept_formatted_strings() {
    assert!(scalar_type_ok(&FieldType::Time, &json(r#""10:30:45""#)));
    assert!(!scalar_type_ok(&FieldType::Time, &json(r#""10:30""#)));
    assert!(!scalar_type_ok(&FieldType::Time, &json(r#"103045"#)));
    assert!(scalar_type_ok(&FieldType::Duration, &json(r#""P1DT2H""#)));
    assert!(!scalar_type_ok(&FieldType::Duration, &json(r#""tomorrow""#)));
    assert!(scalar_type_ok(&FieldType::Binary, &json(r#""aGVsbG8=""#)));
    assert!(!scalar_type_ok(
        &FieldType::Binary,
        &json(r#""*** not base64 ***""#)
    ));
    assert!(!scalar_type_ok(&FieldType::Binary, &json(r#"42"#)));
}

fn definition() -> IndexDefinition {
    match IndexDefinition::from_json(json(
        r#"{"name": "items", "fields": [
            {"name": "id", "type": "Edm.String", "key": true, "sortable": true},
            {"name": "title", "type": "Edm.String", "searchable": true, "facetable": true},
            {"name": "price", "type": "Edm.Double", "sortable": true, "facetable": true},
            {"name": "rating", "type": "Edm.Int16"},
            {"name": "spot", "type": "Edm.GeographyPoint"},
            {"name": "v", "type": "Collection(Edm.Single)", "dimensions": 2, "searchable": true},
            {"name": "rooms", "type": "Collection(Edm.ComplexType)", "fields": [
                {"name": "rate", "type": "Edm.Double"}
            ]}
        ]}"#,
    )) {
        Ok(definition) => definition,
        Err(e) => panic!("{e}"),
    }
}

#[test]
fn documents_are_checked_member_by_member() {
    let check = |text: &str| validate_document(&definition(), &json(text));
    let good = check(r#"{"id": "7", "title": "a", "rooms": [{"rate": 1.5}], "v": [1, 2.5]}"#);
    assert_eq!(good.unwrap().key, "7");
    for (text, message) in [
        ("[]", "Document must be a JSON object."),
        ("{}", "Document is missing the key field \"id\"."),
        (r#"{"id": "1", "nope": 1}"#, "Document contains unknown field \"nope\"."),
        (
            r#"{"id": "1", "title": 3}"#,
            "Value for field \"title\" is not compatible with type \"Edm.String\".",
        ),
        (
            r#"{"id": "1", "rating": 40000}"#,
            "Value for field \"rating\" is not compatible with type \"Edm.Int16\". Expected an integer in range.",
        ),
        (r#"{"id": "1", "v": [1]}"#, "Field \"v\" expects a vector of dimension 2, got 1."),
        (r#"{"id": "1", "v": [1, "x"]}"#, "Field \"v\" must contain only numeric values."),
        (r#"{"id": "1", "v": [1, 1e300]}"#, "Field \"v\" must contain only finite numeric values."),
        (
            r#"{"id": "1", "v": 1}"#,
            "Field \"v\" must be an array of numbers (vector of dimension 2).",
        ),
    ] {
        assert_eq!(check(text).err().as_deref(), Some(message), "{text}");
    }
    assert!(check(r#"{"id": "1", "rooms": [{"rate": "x"}]}"#).is_err());
    assert!(check(r#"{"id": "1", "rooms": {"rate": 1}}"#).is_err());
    assert!(check(r#"{"id": true}"#).is_err());
    assert_eq!(key_display(&json("1.5")).as_deref(), Some("1.5"));
    assert_eq!(key_display(&json("null")), None);
}

#[test]
fn vectors_hold_finite_numbers() {
    let items = |text: &str| match json(text) {
        Json::Array(items) => items,
        _ => panic!("not an array"),
    };
    assert_eq!(
        parse_finite_f32_array(&items("[1, -2.5]")),
        Ok(vec![tantivy::f64_to_u64(1.0), tantivy::f64_to_u64(-2.5)])
    );
    assert_eq!(
        parse_finite_f32_array(&items("[1, null]")),
        Err(FiniteF32ArrayError::NonNumeric)
    );
    assert_eq!(
        parse_finite_f32_array(&items("[1e300]")),
        Err(FiniteF32ArrayError::NonFinite)
    );
}

#[test]
fn binary_values_are_base64() {
    assert!(is_base64_string("aGVsbG8="));
    assert!(is_base64_string(""));
    assert!(!is_base64_string("aGVsbG8"));
    assert!(!is_base64_string("not base64!"));
}

#[test]
fn order_clauses_are_read() {
    let read = |text: &str| parse_orderby(&json(text), &definition());
    let clause = |field: &str, descending: bool| OrderBy { field: field.to_owned(), descending };
    let (clauses, raw) = read(r#""price desc, id, @search.score""#).ok().unwrap();
    assert_eq!(
        clauses,
        vec![clause("price", true), clause("id", false), clause("@search.score", false)]
    );
    assert_eq!(raw, "price desc, id, @search.score");
    let (again, _) = read(&format!("\"{raw}\"")).ok().unwrap();
    assert_eq!(again, clauses);
    let (listed, raw) = read(r#"["price asc", "id desc"]"#).ok().unwrap();
    assert_eq!(listed, vec![clause("price", false), clause("id", true)]);
    assert_eq!(raw, "price asc, id desc");
    for text in [r#""price up""#, r#""price asc now""#, "7", r#""spot""#] {
        assert!(read(text).is_err(), "{text}");
    }
}

#[test]
fn selections_and_facets_are_read() {
    let index = definition();
    assert_eq!(
        parse_select(&json(r#""id, price""#), &index).ok().unwrap(),
        vec!["id".to_owned(), "price".to_owned()]
    );
    assert_eq!(
        split_facet_string("title,count:2, price"),
        vec!["title, count:2".to_owned(), "price".to_owned()]
    );
    let facets = parse_facets(&json(r#"["title,count:2", "price", "$count"]"#), &index);
    let facet = |field: &str, limit: Option<usize>| Facet { field: field.to_owned(), limit };
    assert_eq!(
        facets.ok().unwrap(),
        vec![facet("title", Some(2)), facet("price", None), facet("$count", None)]
    );
    assert!(parse_facets(&json(r#"["id"]"#), &index).is_err());
}

#[test]
fn field_weights_are_read() {
    let index = definition();
    let fields = parse_search_fields(&json(r#""title^2.5""#), &index).ok().unwrap();
    assert_eq!(fields[0].name, "title");
    assert_eq!(fields[0].boost, tantivy::f64_to_u64(2.5));
    for text in [r#""title^0""#, r#""title^x""#, r#""price""#, r#""v""#] {
        assert!(parse_search_fields(&json(text), &index).is_err(), "{text}");
    }
    let options = |text: &str| match json(text) {
        Json::Object(map) => parse_highlight_options(&map, &index),
        _ => panic!("not an object"),
    };
    assert_eq!(
        options(r#"{"highlight": "title"}"#).ok().unwrap(),
        (vec!["title".to_owned()], "<em>".to_owned(), "</em>".to_owned())
    );
    assert!(options(r#"{"highlight": "price"}"#).is_err());
}

#[test]
fn coverage_and_debug_options_are_read() {
    let map = |text: &str| match json(text) {
        Json::Object(map) => map,
        _ => panic!("not an object"),
    };
    let coverage = |text: &str| parse_minimum_coverage(&map(text));
    assert_eq!(coverage("{}").ok().unwrap(), tantivy::f64_to_u64(0.0));
    assert_eq!(
        coverage(r#"{"minimumCoverage": 0.5}"#).ok().unwrap(),
        tantivy::f64_to_u64(0.5)
    );
    assert_eq!(
        coverage(r#"{"minimumCoverage": 2}"#).err().unwrap().message,
        "minimumCoverage must be between 0.0 and 1.0."
    );
    assert_eq!(
        coverage(r#"{"minimumCoverage": "x"}"#).err().unwrap().message,
        "minimumCoverage must be a number."
    );
    let debug = |text: &str| parse_debug(&map(text));
    assert!(!debug("{}").ok().unwrap());
    assert!(!debug(r#"{"debug": "disabled"}"#).ok().unwrap());
    assert!(debug(r#"{"debug": "all"}"#).ok().unwrap());
    assert!(debug(r#"{"debug": true}"#).ok().unwrap());
    assert_eq!(
        debug(r#"{"debug": 1}"#).err().unwrap().message,
        "debug must be a boolean or a string."
    );
}

#[test]
fn suggester_options_are_read() {
    assert!(!parse_suggester_fuzzy(None).ok().unwrap());
    assert!(parse_suggester_fuzzy(Some(&json("true"))).ok().unwrap());
    assert_eq!(
        parse_suggester_fuzzy(Some(&json("1"))).err().unwrap().message,
        "fuzzy must be a boolean."
    );
    assert!(validate_suggester_minimum_coverage(Some(&json("50"))).is_ok());
    assert_eq!(
        validate_suggester_minimum_coverage(Some(&json("true"))).err().unwrap().message,
        "minimumCoverage must be a number."
    );
}

#[test]
fn filter_modes_round_trip() {
    for mode in [VectorFilterMode::PreFilter, VectorFilterMode::PostFilter] {
        assert_eq!(VectorFilterMode::parse(mode.as_str()), Some(mode));
    }
    assert_eq!(VectorFilterMode::parse("other"), None);
    assert_eq!(VectorFilterMode::default(), VectorFilterMode::PostFilter);
}

#[test]
fn synonym_sides_hold_terms() {
    assert_eq!(
        split_synonym_terms(" usa , United States ", 1).unwrap(),
        vec!["usa".to_owned(), "united".to_owned(), "states".to_owned()]
    );
    assert_eq!(
        split_synonym_terms("a, ,b", 3).err().as_deref(),
        Some("Synonym rule 3 has an empty term; terms must be non-empty.")
    );
}

#[test]
fn suggester_fields_and_order_are_read() {
    let index = definition();
    let suggester = Suggester { name: "sg".to_owned(), search_fields: vec!["title".to_owned()] };
    let fields = |value: Option<&Json>| parse_suggester_search_fields(value, &index, &suggester);
    assert_eq!(fields(None).ok().unwrap(), None);
    assert_eq!(
        fields(Some(&json(r#""title""#))).ok().unwrap(),
        Some(vec!["title".to_owned()])
    );
    for (text, message) in [
        (
            r#""title^2""#,
            "Invalid searchFields entry \"title^2\" on suggest/autocomplete; weights ('field^N') are only supported on the search route.",
        ),
        (r#""nope""#, "searchFields references unknown field \"nope\"."),
        (
            r#""price""#,
            "Field \"price\" is not searchable; only searchable fields can be used in searchFields.",
        ),
        (
            r#""v""#,
            "Field \"v\" is not part of the suggester; searchFields must be a subset of the suggester's search fields.",
        ),
        ("[]", "searchFields is empty."),
    ] {
        assert_eq!(fields(Some(&json(text))).err().unwrap().message, message);
    }
    assert!(parse_suggester_orderby(None, &index).ok().unwrap().is_empty());
    assert_eq!(
        parse_suggester_orderby(Some(&json(r#""price desc""#)), &index).ok().unwrap().len(),
        1
    );
    assert!(parse_suggester_orderby(Some(&json(r#""nope""#)), &index).is_err());
}

#[test]
fn synonym_maps_are_validated() {
    assert!(validate_synonym_map("m", "solr", "a, b").is_ok());
    for (name, format, synonyms) in [("", "solr", "a, b"), ("m", "xml", "a, b"), ("m", "solr", " ")] {
        let refused = validate_synonym_map(name, format, synonyms).err().unwrap();
        assert_eq!((refused.status, refused.code.as_str()), (400, "InvalidSynonymMap"));
    }
}

#[test]
fn clock_parts_are_two_digits() {
    for text in ["+1:02:03", "01:+2:03", "01:02:+3", "1 :02:03", "\u{661}\u{662}:02:03"] {
        assert!(!is_time_string(text), "{text}");
    }
}

#[test]
fn time_texts_are_in_chronological_order() {
    let times = [
        "00:00:00",
        "00:00:00.000000001",
        "00:00:09.9",
        "00:00:10",
        "01:59:59.999999999",
        "02:00:00",
        "10:00:00",
        "23:59:59.12",
        "23:59:59.123",
    ];
    for pair in times.windows(2) {
        assert!(is_time_string(pair[0]) && is_time_string(pair[1]));
        assert!(pair[0] < pair[1]);
    }
}

#[test]
fn order_texts_read_back() {
    for text in [r#"" price  DESC ,id""#, r#"["price  asc", " id desc "]"#] {
        let (clauses, raw) = parse_orderby(&json(text), &definition()).ok().unwrap();
        let again = parse_orderby(&Json::String(raw.clone()), &definition()).ok().unwrap();
        assert_eq!(again, (clauses, raw));
    }
}

#[test]
fn lists_of_objects_are_checked_for_any_field() {
    let d = definition();
    let field = &d.fields[0];
    let message = |text: &str| check_complex_collection_value(field, &json(text)).unwrap_err();
    assert_eq!(
        message("7"),
        "Value for field \"id\" must be a JSON array of objects with the subfields of the complex type."
    );
    assert_eq!(
        message("[7]"),
        "Value for field \"id\" must be a JSON object with the subfields of the complex type."
    );
    assert!(message(r#"[{}, {"x": 1}]"#).starts_with("Complex field \"id\" has no subfield \"x\""));
    assert!(check_complex_collection_value(field, &json("[{}, {}]")).is_ok());
    assert!(check_complex_collection_value(field, &json("[]")).is_ok());
}
