//! Filter expressions: syntax, evaluation, and validation.
use aisearch_emulator::filter::date::{
    dateadd_value, datediff_value, normalize_datetime, parse_datetime, DateUnit, UtcTime,
};
use aisearch_emulator::filter::expr::{reverse_op, FilterExpr, FilterOp};
use aisearch_emulator::filter::parser::{parse_filter, split_lambda_field};
use aisearch_emulator::filter::token::{describe_token, tokenize, Token};
use aisearch_emulator::filter::validate::validate;
use aisearch_emulator::json::{Json, JsonMap, Number};
use aisearch_emulator::storage::index::IndexDefinition;

fn convert(v: &serde_json::Value) -> Json {
    match v {
        serde_json::Value::Null => Json::Null,
        serde_json::Value::Bool(b) => Json::Bool(*b),
        serde_json::Value::Number(n) => Json::Number(if let Some(u) = n.as_u64() {
            Number::PosInt(u)
        } else if let Some(i) = n.as_i64() {
            Number::NegInt(i)
        } else {
            Number::Float(tantivy::f64_to_u64(n.as_f64().unwrap()))
        }),
        serde_json::Value::String(s) => Json::String(s.clone()),
        serde_json::Value::Array(items) => Json::Array(items.iter().map(convert).collect()),
        serde_json::Value::Object(map) => {
            let mut m = JsonMap::new();
            for (k, x) in map {
                m.insert(k.clone(), convert(x));
            }
            Json::Object(m)
        }
    }
}

fn json(text: &str) -> Json {
    convert(&serde_json::from_str(text).unwrap())
}

fn definition() -> IndexDefinition {
    IndexDefinition::from_json(json(r#"{ "name": "items", "fields": [ {"name": "id", "type": "Edm.String", "key": true, "filterable": true}, {"name": "title", "type": "Edm.String", "filterable": true}, {"name": "price", "type": "Edm.Double", "filterable": true}, {"name": "active", "type": "Edm.Boolean", "filterable": true}, {"name": "tags", "type": "Edm.Collection(Edm.String)", "filterable": true}, {"name": "locked", "type": "Edm.String"} ] }"#))
    .unwrap_or_else(|e| panic!("valid definition: {e}"))
}

fn doc(pairs: &[(&str, Json)]) -> JsonMap {
    let mut m = JsonMap::new();
    for (k, v) in pairs {
        m.insert(k.to_string(), v.duplicate());
    }
    m
}

fn parse_ok(input: &str) -> FilterExpr {
    parse_filter(input).unwrap_or_else(|e| panic!("parse failed for {input:?}: {e}"))
}

fn matches(expr: &FilterExpr, pairs: &[(&str, Json)]) -> bool {
    expr.matches(&doc(pairs))
}

#[test]
fn parses_and_evaluates_comparisons() {
    assert!(matches(&parse_ok("price gt 10"), &[("price", json(r#"11"#))]));
    assert!(!matches(&parse_ok("price gt 10"), &[("price", json(r#"10"#))]));
    assert!(matches(&parse_ok("price ge 10"), &[("price", json(r#"10"#))]));
    assert!(matches(&parse_ok("price lt 10"), &[("price", json(r#"9.5"#))]));
    assert!(matches(&parse_ok("price le 10"), &[("price", json(r#"10"#))]));
    assert!(matches(
        &parse_ok("title eq 'hello'"),
        &[("title", json(r#""hello""#))]
    ));
    assert!(!matches(
        &parse_ok("title eq 'hello'"),
        &[("title", json(r#""Hello""#))]
    ));
    assert!(matches(
        &parse_ok("title ne 'hello'"),
        &[("title", json(r#""world""#))]
    ));
    assert!(matches(
        &parse_ok("active eq true"),
        &[("active", json(r#"true"#))]
    ));
    assert!(matches(
        &parse_ok("active ne false"),
        &[("active", json(r#"true"#))]
    ));
}

#[test]
fn missing_fields_and_type_mismatches_do_not_match() {
    assert!(!matches(&parse_ok("price gt 10"), &[]));
    assert!(!matches(
        &parse_ok("price gt 10"),
        &[("price", json(r#""ten""#))]
    ));
    assert!(matches(&parse_ok("title eq null"), &[]));
    assert!(matches(
        &parse_ok("title ne null"),
        &[("title", json(r#""x""#))]
    ));
    assert!(!matches(&parse_ok("title ne null"), &[]));
}

#[test]
fn parses_logical_operators_and_precedence() {
    // `and` binds tighter than `or`.
    let expr = parse_ok("a eq 1 or b eq 2 and c eq 3");
    assert!(matches!(expr, FilterExpr::Or(_)));
    assert!(matches(
        &expr,
        &[("a", json(r#"1"#)), ("b", json(r#"0"#)), ("c", json(r#"0"#)),]
    ));
    assert!(!matches(
        &expr,
        &[("a", json(r#"0"#)), ("b", json(r#"2"#)), ("c", json(r#"0"#)),]
    ));
    let expr = parse_ok("not (price gt 10)");
    assert!(matches(&expr, &[("price", json(r#"5"#))]));
    assert!(!matches(&expr, &[("price", json(r#"50"#))]));
    let expr = parse_ok("(title eq 'a' or title eq 'b') and active eq true");
    assert!(matches(
        &expr,
        &[("title", json(r#""b""#)), ("active", json(r#"true"#)),]
    ));
    assert!(!matches(
        &expr,
        &[("title", json(r#""b""#)), ("active", json(r#"false"#)),]
    ));
}

#[test]
fn parses_collection_any_all() {
    assert!(matches(
        &parse_ok("tags any x eq 'red'"),
        &[("tags", json(r#"["blue", "red"]"#))]
    ));
    assert!(!matches(
        &parse_ok("tags any x eq 'red'"),
        &[("tags", json(r#"["blue"]"#))]
    ));
    assert!(matches(
        &parse_ok("tags all x ne 'banned'"),
        &[("tags", json(r#"["a", "b"]"#))]
    ));
    assert!(!matches(
        &parse_ok("tags all x ne 'banned'"),
        &[("tags", json(r#"["a", "banned"]"#))]
    ));
    // Empty collection: any is false, all is vacuously true.
    assert!(!matches(
        &parse_ok("tags any x eq 'red'"),
        &[("tags", json(r#"[]"#))]
    ));
    assert!(matches(
        &parse_ok("tags all x ne 'banned'"),
        &[("tags", json(r#"[]"#))]
    ));
}

#[test]
fn parses_odata_lambda_any_all() {
    // OData lambda syntax: `field/any(var: body)` / `field/all(var: body)`.
    assert!(matches(
        &parse_ok("tags/any(t: t eq 'red')"),
        &[("tags", json(r#"["blue", "red"]"#))]
    ));
    assert!(!matches(
        &parse_ok("tags/any(t: t eq 'red')"),
        &[("tags", json(r#"["blue"]"#))]
    ));
    assert!(matches(
        &parse_ok("tags/all(t: t ne 'banned')"),
        &[("tags", json(r#"["a", "b"]"#))]
    ));
    assert!(!matches(
        &parse_ok("tags/all(t: t ne 'banned')"),
        &[("tags", json(r#"["a", "banned"]"#))]
    ));
    // The lambda variable name is arbitrary and need not match the field.
    assert!(matches(
        &parse_ok("tags/any(x: x eq 'red')"),
        &[("tags", json(r#"["red"]"#))]
    ));
    // Numeric and boolean bodies.
    assert!(matches(
        &parse_ok("tags/any(t: t gt 2)"),
        &[("tags", json(r#"[1, 3]"#))]
    ));
    assert!(matches(
        &parse_ok("tags/all(t: t eq true)"),
        &[("tags", json(r#"[true, true]"#))]
    ));
    // A lambda operator only applies when followed by '('.
    assert!(parse_filter("tags/any").is_err());
    assert!(parse_filter("tags/any(t eq 'red')").is_err());
    assert!(parse_filter("tags/any(t: t eq 'red'").is_err());
}

#[test]
fn scalar_eq_on_collection_uses_any_element_semantics() {
    assert!(matches(
        &parse_ok("tags eq 'red'"),
        &[("tags", json(r#"["blue", "red"]"#))]
    ));
    assert!(!matches(
        &parse_ok("tags eq 'red'"),
        &[("tags", json(r#"["blue"]"#))]
    ));
    assert!(matches(
        &parse_ok("tags ne 'red'"),
        &[("tags", json(r#"["blue"]"#))]
    ));
}

#[test]
fn string_escapes_and_literals() {
    assert!(matches(
        &parse_ok("title eq 'it''s'"),
        &[("title", json(r#""it's""#))]
    ));
    assert!(matches(&parse_ok("price gt -5"), &[("price", json(r#"-1"#))]));
}

#[test]
fn rejects_invalid_syntax() {
    for input in [
        "",
        "   ",
        "price",
        "price eq",
        "eq 5",
        "price = 5",
        "price eqq 5",
        "(price eq 5",
        "price eq 5)",
        "price eq 5 and",
        "price in 5",
        "price in (5",
        "price in (5,)",
        "price in ()",
        "bogus price eq 5",
        "price eq 'unterminated",
        "price eq 5 5",
        "nonsense(title, 'x')",
        "startswith(title)",
        "startswith(title, 5)",
    ] {
        assert!(parse_filter(input).is_err(), "expected error for {input:?}");
    }
}

#[test]
fn parses_and_evaluates_in_operator() {
    assert!(matches(
        &parse_ok("price in (5, 10, 15)"),
        &[("price", json(r#"10"#))]
    ));
    assert!(!matches(
        &parse_ok("price in (5, 10, 15)"),
        &[("price", json(r#"7"#))]
    ));
    assert!(matches(
        &parse_ok("title in ('a', 'b')"),
        &[("title", json(r#""b""#))]
    ));
    assert!(!matches(
        &parse_ok("title in ('a', 'b')"),
        &[("title", json(r#""c""#))]
    ));
    assert!(matches(
        &parse_ok("active in (true, false)"),
        &[("active", json(r#"false"#))]
    ));
    // Collections: any element in the list matches.
    assert!(matches(
        &parse_ok("tags in ('red', 'blue')"),
        &[("tags", json(r#"["green", "blue"]"#))]
    ));
    assert!(!matches(
        &parse_ok("tags in ('red', 'blue')"),
        &[("tags", json(r#"["green"]"#))]
    ));
    // Missing fields match only lists containing null.
    assert!(matches(&parse_ok("title in ('a', null)"), &[]));
    assert!(!matches(&parse_ok("title in ('a', 'b')"), &[]));
    // Combines with logical operators.
    assert!(matches(
        &parse_ok("price in (1, 2) or title eq 'x'"),
        &[("title", json(r#""x""#)), ("price", json(r#"9"#))]
    ));
}

#[test]
fn parses_and_evaluates_string_functions() {
    assert!(matches(
        &parse_ok("startswith(title, 'hel')"),
        &[("title", json(r#""hello world""#))]
    ));
    assert!(!matches(
        &parse_ok("startswith(title, 'hel')"),
        &[("title", json(r#""say hello""#))]
    ));
    assert!(matches(
        &parse_ok("endswith(title, 'rld')"),
        &[("title", json(r#""hello world""#))]
    ));
    assert!(!matches(
        &parse_ok("endswith(title, 'rld')"),
        &[("title", json(r#""worldly""#))]
    ));
    assert!(matches(
        &parse_ok("contains(title, 'lo wo')"),
        &[("title", json(r#""hello world""#))]
    ));
    assert!(!matches(
        &parse_ok("contains(title, 'lo wo')"),
        &[("title", json(r#""hello""#))]
    ));
    // Matching is ordinal and case-sensitive.
    assert!(!matches(
        &parse_ok("startswith(title, 'HEL')"),
        &[("title", json(r#""hello""#))]
    ));
    // Collections: any matching element satisfies the function.
    assert!(matches(
        &parse_ok("contains(tags, 'ed')"),
        &[("tags", json(r#"["green", "red"]"#))]
    ));
    assert!(!matches(
        &parse_ok("contains(tags, 'ed')"),
        &[("tags", json(r#"["blue"]"#))]
    ));
    // Missing fields and non-strings never match.
    assert!(!matches(&parse_ok("contains(title, 'x')"), &[]));
    assert!(!matches(
        &parse_ok("startswith(price, '1')"),
        &[("price", json(r#"10"#))]
    ));
}

#[test]
fn validation_checks_schema() {
    let definition = definition();
    // Unknown field.
    assert!(validate(&parse_ok("missing eq 1"), &definition).is_err());
    // Not filterable.
    assert!(validate(&parse_ok("locked eq 1"), &definition).is_err());
    // Ordering on boolean.
    assert!(validate(&parse_ok("active gt true"), &definition).is_err());
    // Ordering on collection.
    assert!(validate(&parse_ok("tags gt 'a'"), &definition).is_err());
    // any/all on non-collection.
    assert!(validate(&parse_ok("title any x eq 'a'"), &definition).is_err());
    // Valid.
    assert!(validate(&parse_ok("price gt 1 and tags any x eq 'a'"), &definition).is_ok());
    // `in` on a filterable field is valid; on unknown/non-filterable
    // fields it is rejected like any other comparison.
    assert!(validate(&parse_ok("price in (1, 2)"), &definition).is_ok());
    assert!(validate(&parse_ok("tags in ('a', 'b')"), &definition).is_ok());
    assert!(validate(&parse_ok("missing in (1, 2)"), &definition).is_err());
    assert!(validate(&parse_ok("locked in (1, 2)"), &definition).is_err());
    // String functions on string fields are valid.
    assert!(validate(&parse_ok("startswith(title, 'a')"), &definition).is_ok());
    assert!(validate(&parse_ok("contains(tags, 'a')"), &definition).is_ok());
    // String functions on non-string fields are rejected.
    assert!(validate(&parse_ok("startswith(price, '1')"), &definition).is_err());
    assert!(validate(&parse_ok("endswith(active, 'x')"), &definition).is_err());
    assert!(validate(&parse_ok("contains(missing, 'x')"), &definition).is_err());
}

fn hotels_definition() -> IndexDefinition {
    IndexDefinition::from_json(json(r#"{ "name": "hotels", "fields": [ {"name": "id", "type": "Edm.String", "key": true}, { "name": "Address", "type": "Edm.ComplexType", "fields": [ {"name": "City", "type": "Edm.String", "filterable": true}, {"name": "StateProvince", "type": "Edm.String", "filterable": true}, {"name": "Country", "type": "Edm.String"} ] } ] }"#))
    .unwrap_or_else(|e| panic!("valid definition: {e}"))
}

#[test]
fn parses_and_evaluates_complex_field_paths() {
    let expr = parse_ok("Address/StateProvince eq 'FL' and Address/City eq 'Miami'");
    assert!(matches(
        &expr,
        &[("Address", json(r#"{"City": "Miami", "StateProvince": "FL"}"#))]
    ));
    assert!(!matches(
        &expr,
        &[("Address", json(r#"{"City": "Miami", "StateProvince": "WA"}"#))]
    ));
    // A missing path segment compares like `null`.
    assert!(!matches(&expr, &[("Address", json(r#"{"City": "Miami"}"#))]));
    assert!(!matches(&expr, &[]));
    assert!(matches(
        &parse_ok("Address/Country eq null"),
        &[("Address", json(r#"{"City": "Miami"}"#))]
    ));
}

#[test]
fn validation_checks_complex_field_paths() {
    let definition = hotels_definition();
    // Valid nested path on filterable subfields.
    assert!(validate(
        &parse_ok("Address/StateProvince eq 'FL' and Address/City eq 'Miami'"),
        &definition
    )
    .is_ok());
    // Unknown nested path.
    assert!(validate(&parse_ok("Address/Missing eq 'x'"), &definition).is_err());
    // Non-filterable subfield.
    assert!(validate(&parse_ok("Address/Country eq 'USA'"), &definition).is_err());
    // Path through a non-complex field.
    assert!(validate(&parse_ok("id/City eq 'x'"), &definition).is_err());
    // Paths into a lambda element are rejected explicitly.
    assert!(validate(&parse_ok("tags/any(t: t/City eq 'x')"), &definition).is_err());
}

fn collection_complex_definition() -> IndexDefinition {
    IndexDefinition::from_json(json(r#"{ "name": "hotels", "fields": [ {"name": "id", "type": "Edm.String", "key": true}, { "name": "Rooms", "type": "Edm.Collection(Edm.ComplexType)", "fields": [ {"name": "Type", "type": "Edm.String", "filterable": true}, {"name": "Rate", "type": "Edm.Double", "filterable": true} ] } ] }"#))
    .unwrap_or_else(|e| panic!("valid definition: {e}"))
}

#[test]
fn parses_and_evaluates_collection_of_complex_paths() {
    // A direct path through a collection-of-complex field matches when any
    // element satisfies the comparison.
    let expr = parse_ok("Rooms/Type eq 'suite'");
    assert!(matches(
        &expr,
        &[("Rooms", json(r#"[{"Type": "standard"}, {"Type": "suite"}]"#))]
    ));
    assert!(!matches(&expr, &[("Rooms", json(r#"[{"Type": "standard"}]"#))]));
    assert!(matches(
        &parse_ok("Rooms/Type ne 'suite'"),
        &[("Rooms", json(r#"[{"Type": "standard"}]"#))]
    ));
    // Ordering through a collection is existential.
    assert!(matches(
        &parse_ok("Rooms/Rate gt 100"),
        &[("Rooms", json(r#"[{"Rate": 50}, {"Rate": 150}]"#))]
    ));
    assert!(!matches(
        &parse_ok("Rooms/Rate gt 100"),
        &[("Rooms", json(r#"[{"Rate": 50}]"#))]
    ));
    // String functions and `in` through a collection.
    assert!(matches(
        &parse_ok("startswith(Rooms/Type, 'sui')"),
        &[("Rooms", json(r#"[{"Type": "suite"}]"#))]
    ));
    assert!(matches(
        &parse_ok("Rooms/Type in ('suite', 'loft')"),
        &[("Rooms", json(r#"[{"Type": "suite"}]"#))]
    ));
    assert!(!matches(
        &parse_ok("Rooms/Type in ('suite', 'loft')"),
        &[("Rooms", json(r#"[{"Type": "standard"}]"#))]
    ));
    // Validation accepts filterable collection-of-complex subfield paths.
    let definition = collection_complex_definition();
    assert!(validate(&parse_ok("Rooms/Type eq 'suite'"), &definition).is_ok());
    assert!(validate(&parse_ok("Rooms/Rate gt 100"), &definition).is_ok());
}

fn dated_definition() -> IndexDefinition {
    IndexDefinition::from_json(json(r#"{ "name": "articles", "fields": [ {"name": "id", "type": "Edm.String", "key": true}, {"name": "title", "type": "Edm.String", "filterable": true}, {"name": "body", "type": "Edm.String", "filterable": true}, {"name": "published", "type": "Edm.DateTimeOffset", "filterable": true}, {"name": "archived", "type": "Edm.DateTimeOffset", "filterable": true}, {"name": "price", "type": "Edm.Double", "filterable": true} ] }"#))
    .unwrap_or_else(|e| panic!("valid definition: {e}"))
}

#[test]
fn parses_and_evaluates_datepart() {
    // 2024-03-15 is a Friday (dayofweek 5), ISO week 11, day 75 of leap 2024.
    let doc = [("published", json(r#""2024-03-15T10:30:45Z""#))];
    assert!(matches(
        &parse_ok("datepart(year, published) eq 2024"),
        &doc
    ));
    assert!(matches(
        &parse_ok("datepart(quarter, published) eq 1"),
        &doc
    ));
    assert!(matches(&parse_ok("datepart(month, published) eq 3"), &doc));
    assert!(matches(&parse_ok("datepart(week, published) eq 11"), &doc));
    assert!(matches(&parse_ok("datepart(day, published) eq 15"), &doc));
    assert!(matches(&parse_ok("datepart(hour, published) eq 10"), &doc));
    assert!(matches(
        &parse_ok("datepart(minute, published) eq 30"),
        &doc
    ));
    assert!(matches(
        &parse_ok("datepart(second, published) eq 45"),
        &doc
    ));
    assert!(matches(
        &parse_ok("datepart(dayofweek, published) eq 5"),
        &doc
    ));
    assert!(matches(
        &parse_ok("datepart(dayofyear, published) eq 75"),
        &doc
    ));
    assert!(!matches(
        &parse_ok("datepart(year, published) eq 2023"),
        &doc
    ));
    // Missing or unparseable dates never match.
    assert!(!matches(
        &parse_ok("datepart(year, published) eq 2024"),
        &[]
    ));
    assert!(!matches(
        &parse_ok("datepart(year, published) eq 2024"),
        &[("published", json(r#""not a date""#))]
    ));
}

#[test]
fn parses_and_evaluates_dateadd() {
    let doc = [("published", json(r#""2024-03-15T10:30:00Z""#))];
    assert!(matches(
        &parse_ok("dateadd(day, 1, published) gt utcdatetime('2024-03-15T10:30:00Z')"),
        &doc
    ));
    assert!(matches(
        &parse_ok("dateadd(month, -1, published) eq utcdatetime('2024-02-15T10:30:00Z')"),
        &doc
    ));
    assert!(matches(
        &parse_ok("dateadd(year, 1, published) gt utcdatetime('2025-01-01T00:00:00Z')"),
        &doc
    ));
    assert!(!matches(
        &parse_ok("dateadd(day, 1, published) lt utcdatetime('2024-03-15T10:30:00Z')"),
        &doc
    ));
    // Missing dates never match.
    assert!(!matches(
        &parse_ok("dateadd(day, 1, published) gt utcdatetime('2024-01-01T00:00:00Z')"),
        &[]
    ));
}

#[test]
fn parses_and_evaluates_datediff() {
    let doc = [
        ("published", json(r#""2024-03-15T00:00:00Z""#)),
        ("archived", json(r#""2024-03-10T00:00:00Z""#)),
    ];
    assert!(matches(
        &parse_ok("datediff(day, archived, published) eq 5"),
        &doc
    ));
    assert!(matches(
        &parse_ok("datediff(day, published, archived) eq -5"),
        &doc
    ));
    assert!(matches(
        &parse_ok("datediff(hour, archived, published) eq 120"),
        &doc
    ));
    assert!(matches(
        &parse_ok(
            "datediff(month, archived, published) eq 0 and datediff(year, archived, published) eq 0"
        ),
        &doc
    ));
    // Literal endpoints.
    assert!(matches(
        &parse_ok("datediff(day, utcdatetime('2024-03-01T00:00:00Z'), published) eq 14"),
        &doc
    ));
    // Missing dates never match.
    assert!(!matches(
        &parse_ok("datediff(day, archived, published) eq 5"),
        &[("published", json(r#""2024-03-15T00:00:00Z""#))]
    ));
}

#[test]
fn parses_and_evaluates_utcdatetime_comparisons() {
    let doc = [("published", json(r#""2024-06-01T12:00:00Z""#))];
    assert!(matches(
        &parse_ok("published gt utcdatetime('2024-01-01T00:00:00Z')"),
        &doc
    ));
    assert!(!matches(
        &parse_ok("published lt utcdatetime('2024-01-01T00:00:00Z')"),
        &doc
    ));
    // Leading utcdatetime with a reversed operator.
    assert!(matches(
        &parse_ok("utcdatetime('2024-01-01T00:00:00Z') lt published"),
        &doc
    ));
    assert!(matches(
        &parse_ok("utcdatetime('2024-06-01T12:00:00Z') eq published"),
        &doc
    ));
    // Timezone offsets normalize to UTC for comparison.
    assert!(matches(
        &parse_ok("published eq utcdatetime('2024-06-01T14:00:00+02:00')"),
        &doc
    ));
    // Missing dates never match.
    assert!(!matches(
        &parse_ok("published gt utcdatetime('2024-01-01T00:00:00Z')"),
        &[]
    ));
}

#[test]
fn parses_and_evaluates_search_functions() {
    let doc = [("title", json(r#""Azure Search Basics""#))];
    // `search.ismatch` is case-insensitive substring matching.
    assert!(matches(&parse_ok("search.ismatch('azure', title)"), &doc));
    assert!(matches(&parse_ok("search.ismatch('SEARCH', title)"), &doc));
    assert!(!matches(&parse_ok("search.ismatch('solr', title)"), &doc));
    // The documented multi-field string form fans out to an OR.
    let doc = [("title", json(r#""hello""#)), ("body", json(r#""azure world""#))];
    assert!(matches(
        &parse_ok("search.ismatch('azure', 'title,body')"),
        &doc
    ));
    assert!(!matches(&parse_ok("search.ismatch('azure', title)"), &doc));
    // `search.ismatchscoring` is an alias for filtering.
    assert!(matches(
        &parse_ok("search.ismatchscoring('azure', body)"),
        &doc
    ));
    // Missing fields never match.
    assert!(!matches(&parse_ok("search.ismatch('azure', title)"), &[]));
}

#[test]
fn parses_and_evaluates_isempty_isnull() {
    assert!(matches(&parse_ok("search.isempty(title)"), &[]));
    assert!(matches(
        &parse_ok("search.isempty(title)"),
        &[("title", json(r#"null"#))]
    ));
    assert!(matches(
        &parse_ok("search.isempty(title)"),
        &[("title", json(r#""""#))]
    ));
    assert!(matches(
        &parse_ok("search.isempty(title)"),
        &[("title", json(r#"[]"#))]
    ));
    assert!(!matches(
        &parse_ok("search.isempty(title)"),
        &[("title", json(r#""x""#))]
    ));
    assert!(matches(&parse_ok("search.isnull(title)"), &[]));
    assert!(matches(
        &parse_ok("search.isnull(title)"),
        &[("title", json(r#"null"#))]
    ));
    assert!(!matches(
        &parse_ok("search.isnull(title)"),
        &[("title", json(r#""""#))]
    ));
    assert!(!matches(
        &parse_ok("search.isnull(title)"),
        &[("title", json(r#""x""#))]
    ));
}

#[test]
fn rejects_invalid_date_and_search_syntax() {
    for input in [
        "datepart(year published) eq 2024",
        "datepart(century, published) eq 21",
        "datepart(year) eq 2024",
        "dateadd(day, 1.5, published) gt utcdatetime('2024-01-01T00:00:00Z')",
        "dateadd(fortnight, 1, published) eq utcdatetime('2024-01-01T00:00:00Z')",
        "datediff(day, published) eq 5",
        "published gt utcdatetime('not a date')",
        "published gt utcdatetime(5)",
        "search.ismatch(title)",
        "search.ismatch('azure')",
        "search.unknownfunc(title)",
        "search.isempty()",
        "search.isnull(title, body)",
    ] {
        assert!(parse_filter(input).is_err(), "expected error for {input:?}");
    }
}

#[test]
fn validation_checks_date_and_search_fields() {
    let definition = dated_definition();
    assert!(validate(&parse_ok("datepart(year, published) eq 2024"), &definition).is_ok());
    assert!(validate(
        &parse_ok("published gt utcdatetime('2024-01-01T00:00:00Z')"),
        &definition
    )
    .is_ok());
    assert!(validate(&parse_ok("search.ismatch('a', title)"), &definition).is_ok());
    assert!(validate(&parse_ok("search.isempty(title)"), &definition).is_ok());
    assert!(validate(&parse_ok("search.isnull(title)"), &definition).is_ok());
    // Date functions on non-date fields are rejected.
    assert!(validate(&parse_ok("datepart(year, title) eq 2024"), &definition).is_err());
    assert!(validate(
        &parse_ok("price gt utcdatetime('2024-01-01T00:00:00Z')"),
        &definition
    )
    .is_err());
    // `search.ismatch` on a non-string field is rejected.
    assert!(validate(&parse_ok("search.ismatch('a', price)"), &definition).is_err());
    // Unknown fields are rejected like any other comparison.
    assert!(validate(&parse_ok("search.isempty(missing)"), &definition).is_err());
    assert!(validate(&parse_ok("datepart(year, missing) eq 2024"), &definition).is_err());
}

fn time(text: &str) -> UtcTime {
    parse_datetime(text).unwrap_or_else(|| panic!("not a time: {text}"))
}

#[test]
fn times_are_read_and_written_in_utc() {
    assert_eq!(time("1970-01-02T00:00:01Z").secs, 86_401);
    for text in [
        "2024-03-01T12:30:45Z",
        "2024-03-01T14:30:45+02:00",
        "2024-03-01T12:30:45",
        "2024-03-01 12:30:45",
    ] {
        assert_eq!(normalize_datetime(text).as_deref(), Some("2024-03-01T12:30:45.000Z"));
    }
    assert_eq!(
        normalize_datetime("2024-03-01").as_deref(),
        Some("2024-03-01T00:00:00.000Z")
    );
    assert_eq!(
        normalize_datetime("2024-03-01T12:30:45.678Z").as_deref(),
        Some("2024-03-01T12:30:45.678Z")
    );
    assert_eq!(normalize_datetime("yesterday"), None);
    assert_eq!(normalize_datetime("2024-13-01"), None);
}

#[test]
fn calendar_units_are_added() {
    let added = |unit: DateUnit, n: i64, text: &str| dateadd_value(unit, n, time(text));
    assert_eq!(
        added(DateUnit::Month, 1, "2024-01-31").as_deref(),
        Some("2024-02-29T00:00:00.000Z")
    );
    assert_eq!(
        added(DateUnit::Quarter, -1, "2024-03-31").as_deref(),
        Some("2023-12-31T00:00:00.000Z")
    );
    assert_eq!(
        added(DateUnit::Year, 1, "2024-02-29").as_deref(),
        Some("2025-02-28T00:00:00.000Z")
    );
    assert_eq!(
        added(DateUnit::Week, 1, "2024-02-28").as_deref(),
        Some("2024-03-06T00:00:00.000Z")
    );
    assert_eq!(
        added(DateUnit::Second, -1, "2024-01-01").as_deref(),
        Some("2023-12-31T23:59:59.000Z")
    );
    assert_eq!(added(DateUnit::Year, i64::MAX, "2024-01-01"), None);
    assert_eq!(added(DateUnit::Day, i64::MIN, "2024-01-01"), None);
}

#[test]
fn whole_units_between_times_are_counted() {
    let between = |unit: DateUnit, a: &str, b: &str| datediff_value(unit, time(a), time(b));
    assert_eq!(between(DateUnit::Day, "2024-01-01", "2024-01-03T23:00:00Z"), Some(2));
    assert_eq!(between(DateUnit::Day, "2024-01-03T23:00:00Z", "2024-01-01"), Some(-2));
    assert_eq!(between(DateUnit::Hour, "2024-01-01", "2024-01-02"), Some(24));
    assert_eq!(between(DateUnit::Week, "2024-01-01", "2024-01-14"), Some(1));
    // What was added is counted.
    for unit in [DateUnit::Week, DateUnit::Day, DateUnit::Hour, DateUnit::Minute, DateUnit::Second] {
        for n in [-1_000, 0, 3] {
            let later = dateadd_value(unit, n, time("2024-02-29")).unwrap();
            assert_eq!(between(unit, "2024-02-29", &later), Some(n));
            assert_eq!(between(unit, &later, "2024-02-29"), Some(-n));
        }
    }
    let t = "2024-02-29T10:00:00Z";
    for unit in [DateUnit::Year, DateUnit::Quarter, DateUnit::Month, DateUnit::Minute] {
        assert_eq!(between(unit, t, t), Some(0));
    }
}

#[test]
fn reversed_comparisons_hold_of_swapped_operands() {
    assert_eq!(reverse_op(FilterOp::Lt), FilterOp::Gt);
    assert_eq!(reverse_op(FilterOp::Ge), FilterOp::Le);
    assert_eq!(reverse_op(FilterOp::Ne), FilterOp::Ne);
    for text in ["utcdatetime('2024-01-01') lt day", "day gt utcdatetime('2024-01-01')"] {
        assert!(matches(&parse_ok(text), &[("day", json(r#""2024-01-02""#))]));
        assert!(!matches(&parse_ok(text), &[("day", json(r#""2024-01-01""#))]));
    }
}

#[test]
fn ne_and_null_comparisons_hold_of_missing_fields() {
    assert!(matches(&parse_ok("price ne 3"), &[]));
    assert!(!matches(&parse_ok("price eq 3"), &[]));
    assert!(matches(&parse_ok("price eq null"), &[]));
    assert!(!matches(&parse_ok("price ne null"), &[]));
    assert!(!matches(&parse_ok("price lt 3"), &[]));
}

#[test]
fn empty_collections_satisfy_all_but_not_any() {
    let fields = [("tags", json("[]"))];
    assert!(!matches(&parse_ok("tags/any(t: t eq 'a')"), &fields));
    assert!(matches(&parse_ok("tags/all(t: t eq 'a')"), &fields));
    assert!(!matches(&parse_ok("tags/all(t: t eq 'a')"), &[]));
}

#[test]
fn tokens_are_read() {
    assert_eq!(
        tokenize("a/b eq 'it''s'").unwrap(),
        vec![
            Token::Ident("a/b".to_owned()),
            Token::Ident("eq".to_owned()),
            Token::String("it's".to_owned()),
        ]
    );
    assert_eq!(
        tokenize("(-1.5,x:y)").unwrap(),
        vec![
            Token::LParen,
            Token::Number(tantivy::f64_to_u64(-1.5)),
            Token::Comma,
            Token::Ident("x".to_owned()),
            Token::Colon,
            Token::Ident("y".to_owned()),
            Token::RParen,
        ]
    );
    assert!(tokenize("'open").is_err());
    assert!(tokenize("a & b").is_err());
    assert!(!describe_token(None).is_empty());
    assert_eq!(
        split_lambda_field("tags/any"),
        Some(("tags".to_owned(), "any".to_owned()))
    );
    assert_eq!(split_lambda_field("tags"), None);
}

#[test]
fn only_empty_values_are_empty() {
    let empty = |value: &str| matches(&parse_ok("search.isempty(title)"), &[("title", json(value))]);
    for value in ["null", r#""""#, "[]"] {
        assert!(empty(value), "{value}");
    }
    // A collection is empty only without elements, whatever these are.
    for value in [r#"["", null]"#, "[null]", r#"[""]"#, "0", "{}", "false"] {
        assert!(!empty(value), "{value}");
    }
    let rooms = |value: &str| {
        matches(&parse_ok("search.isempty(Rooms/Type)"), &[("Rooms", json(value))])
    };
    assert!(rooms(r#"[{"Type": ""}, {"Type": null}]"#));
    assert!(!rooms(r#"[{"Type": ""}, {"Type": "suite"}]"#));
    // A null field is null, a collection that holds a null is not.
    let null = |value: &str| matches(&parse_ok("search.isnull(title)"), &[("title", json(value))]);
    assert!(null("null"));
    assert!(!null("[null]"));
    assert!(!null("[]"));
}

#[test]
fn booleans_have_no_order() {
    let definition = IndexDefinition::from_json(json(r#"{ "name": "items", "fields": [ {"name": "id", "type": "Edm.String", "key": true}, {"name": "active", "type": "Edm.Boolean", "filterable": true}, {"name": "flags", "type": "Edm.Collection(Edm.Boolean)", "filterable": true}, {"name": "sizes", "type": "Edm.Collection(Edm.Int32)", "filterable": true}, {"name": "Rooms", "type": "Edm.Collection(Edm.ComplexType)", "fields": [ {"name": "Free", "type": "Edm.Boolean", "filterable": true} ] } ] }"#))
        .unwrap_or_else(|e| panic!("valid definition: {e}"));
    for text in [
        "active gt true",
        "active gt 1",
        "active lt 'x'",
        "active ge null",
        "id gt true",
        "flags/any(f: f gt true)",
        "flags/any(f: f le 1)",
        "sizes/any(s: s lt false)",
        "Rooms/any(r: r/Free ge 0)",
    ] {
        assert!(validate(&parse_ok(text), &definition).is_err(), "{text}");
    }
    for text in [
        "active eq true",
        "active ne 1",
        "flags/any(f: f eq true)",
        "sizes/all(s: s lt 3)",
        "Rooms/any(r: r/Free ne false)",
    ] {
        assert!(validate(&parse_ok(text), &definition).is_ok(), "{text}");
    }
}

#[test]
fn lambdas_reach_into_the_elements() {
    let rooms = [("Rooms", json(r#"[{"Type": "standard", "Rate": 80}, {"Type": "suite", "Rate": 150}]"#))];
    assert!(matches(&parse_ok("Rooms/any(r: r/Type eq 'suite')"), &rooms));
    assert!(!matches(&parse_ok("Rooms/any(r: r/Type eq 'loft')"), &rooms));
    assert!(matches(&parse_ok("Rooms/all(r: r/Rate ge 80)"), &rooms));
    assert!(!matches(&parse_ok("Rooms/all(r: r/Rate gt 80)"), &rooms));
    // A subfield that an element lacks compares like null.
    assert!(matches(&parse_ok("Rooms/any(r: r/View eq null)"), &rooms));
    assert!(!matches(&parse_ok("Rooms/any(r: r/View eq 'sea')"), &rooms));
}

#[test]
fn units_between_times_change_sign_with_direction() {
    let between = |unit: DateUnit, a: &str, b: &str| datediff_value(unit, time(a), time(b));
    // Not a whole quarter, nor a whole year, either way.
    assert_eq!(between(DateUnit::Quarter, "2024-04-01", "2024-05-01"), Some(0));
    assert_eq!(between(DateUnit::Quarter, "2024-05-01", "2024-04-01"), Some(0));
    assert_eq!(between(DateUnit::Year, "2024-01-31", "2023-06-01"), Some(0));
    assert_eq!(between(DateUnit::Year, "2024-01-31", "2022-12-01"), Some(-1));
    assert_eq!(between(DateUnit::Month, "2024-03-15", "2024-01-31"), Some(-2));
    for unit in [
        DateUnit::Year,
        DateUnit::Quarter,
        DateUnit::Month,
        DateUnit::Week,
        DateUnit::Day,
        DateUnit::Hour,
        DateUnit::Minute,
        DateUnit::Second,
    ] {
        for (a, b) in [
            ("2024-05-17T03:04:05Z", "2021-11-30T23:59:59Z"),
            ("2023-12-31", "2024-02-29T12:00:00Z"),
        ] {
            let there = between(unit, a, b).unwrap();
            assert_eq!(between(unit, b, a), Some(-there));
        }
    }
    // A leap second is a second.
    assert_eq!(between(DateUnit::Second, "2016-12-31T23:59:59Z", "2016-12-31T23:59:60Z"), Some(1));
}

#[test]
fn normalized_texts_are_in_chronological_order() {
    let times = [
        ("0000-01-01", "0000-01-01T00:00:00.000Z"),
        ("0999-12-31T23:59:59Z", "0999-12-31T23:59:59.000Z"),
        ("1969-12-31T23:59:59.999Z", "1969-12-31T23:59:59.999Z"),
        ("1970-01-01T02:00:00+02:00", "1970-01-01T00:00:00.000Z"),
        ("1972-02-29", "1972-02-29T00:00:00.000Z"),
        ("1972-03-01T00:00:00", "1972-03-01T00:00:00.000Z"),
        ("2016-12-31T23:59:59.9999Z", "2016-12-31T23:59:59.999Z"),
        ("2016-12-31T23:59:60.5Z", "2016-12-31T23:59:60.500Z"),
        ("2017-01-01", "2017-01-01T00:00:00.000Z"),
        ("9999-12-31T23:59:59Z", "9999-12-31T23:59:59.000Z"),
    ];
    let mut last = String::new();
    for (text, expected) in times {
        let normal = normalize_datetime(text).unwrap_or_else(|| panic!("{text} is a time"));
        assert_eq!(normal, expected);
        assert!(last < normal, "{last} {normal}");
        last = normal;
    }
}

#[test]
fn lambdas_order_all_but_booleans_and_collections() {
    let definition = IndexDefinition::from_json(json(r#"{ "name": "items", "fields": [ {"name": "id", "type": "Edm.String", "key": true}, {"name": "took", "type": "Edm.Duration", "filterable": true}, {"name": "blobs", "type": "Edm.Collection(Edm.Binary)", "filterable": true}, {"name": "Runs", "type": "Edm.Collection(Edm.ComplexType)", "fields": [ {"name": "Took", "type": "Edm.Duration", "filterable": true}, {"name": "Blob", "type": "Edm.Binary", "filterable": true}, {"name": "Tags", "type": "Edm.Collection(Edm.String)", "filterable": true} ] } ] }"#))
        .unwrap_or_else(|e| panic!("valid definition: {e}"));
    for text in ["Runs/any(r: r/Took gt 'PT1S')", "Runs/all(r: r/Blob le 'AA==')", "blobs/any(b: b lt 'AA==')"] {
        assert!(validate(&parse_ok(text), &definition).is_ok(), "{text}");
    }
    // Outside of a lambda such types only know equality.
    for text in ["took gt 'PT1S'", "Runs/any(r: r/Tags gt 'a')"] {
        assert!(validate(&parse_ok(text), &definition).is_err(), "{text}");
    }
}

#[test]
fn quoted_literals_read_back() {
    for text in ["", "'", "''", "it's", "a'b'", "'quoted'", "plain text", "\u{e9}'\u{4eac}"] {
        let literal = format!("'{}'", text.replace('\'', "''"));
        assert_eq!(tokenize(&literal).unwrap(), vec![Token::String(text.to_owned())]);
        let within = format!("title eq {literal} and x");
        assert_eq!(tokenize(&within).unwrap()[2], Token::String(text.to_owned()));
    }
}
