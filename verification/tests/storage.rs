//! Storage and index definitions.
use aisearch_emulator::json::{Json, JsonMap, Number};
use aisearch_emulator::json::{rank_integer, IntegerOf};
use aisearch_emulator::storage::definition::FieldDefinition;
use aisearch_emulator::storage::document::Document;
use aisearch_emulator::storage::field_type::{normalize_field_type, FieldType};
use aisearch_emulator::storage::index::IndexDefinition;
use aisearch_emulator::storage::keyed::KeyedList;
use aisearch_emulator::storage::memory::{InMemoryStorage, StorageError};

fn convert(v: &serde_json::Value) -> Json {
    match v {
        serde_json::Value::Null => Json::Null,
        serde_json::Value::Bool(b) => Json::Bool(*b),
        serde_json::Value::Number(n) => Json::Number(if let Some(u) = n.as_u64() {
            Number::PosInt(u)
        } else if let Some(i) = n.as_i64() {
            Number::NegInt(i)
        } else {
            Number::Float(tantivy::f64_to_u64(n.as_f64().unwrap()))
        }),
        serde_json::Value::String(s) => Json::String(s.clone()),
        serde_json::Value::Array(items) => Json::Array(items.iter().map(convert).collect()),
        serde_json::Value::Object(map) => {
            let mut m = JsonMap::new();
            for (k, x) in map {
                m.insert(k.clone(), convert(x));
            }
            Json::Object(m)
        }
    }
}

fn json(text: &str) -> Json {
    convert(&serde_json::from_str(text).unwrap())
}

fn ok<T, E: std::fmt::Debug>(result: Result<T, E>) -> T {
    match result {
        Ok(value) => value,
        Err(err) => panic!("expected Ok, got Err: {err:?}"),
    }
}

fn err<T, E: std::fmt::Debug>(result: Result<T, E>) -> E {
    match result {
        Ok(_) => panic!("expected Err, got Ok"),
        Err(err) => err,
    }
}


fn test_index(name: &str) -> IndexDefinition {
    ok(IndexDefinition::from_json(json(&format!(
        r#"{{"name": "{name}", "fields": [
            {{"name": "id", "type": "Edm.String", "key": true}},
            {{"name": "title", "type": "Edm.String", "searchable": true}}
        ]}}"#
    ))))
}

fn doc(key: &str, title: &str) -> Document {
    let mut fields = JsonMap::new();
    fields.insert("id".to_owned(), Json::String(key.to_owned()));
    fields.insert("title".to_owned(), Json::String(title.to_owned()));
    Document {
        key: key.to_owned(),
        fields,
    }
}

#[test]
fn create_get_delete_index() {
    let mut storage = InMemoryStorage::new();
    let index = test_index("items");
    ok(storage.create_index(&index));
    assert_eq!(storage.get_index("items").as_ref(), Some(&index));
    assert!(storage.delete_index("items"));
    assert!(!storage.delete_index("items"));
    assert!(storage.get_index("items").is_none());
}

#[test]
fn duplicate_index_rejected() {
    let mut storage = InMemoryStorage::new();
    let index = test_index("items");
    ok(storage.create_index(&index));
    let storage_error = err(storage.create_index(&index));
    assert_eq!(
        storage_error,
        StorageError::IndexAlreadyExists("items".to_owned())
    );
}

#[test]
fn documents_round_trip_and_ordered_by_key() {
    let mut storage = InMemoryStorage::new();
    ok(storage.create_index(&test_index("items")));
    ok(storage.put_documents("items", vec![doc("3", "c"), doc("1", "a"), doc("2", "b")]));
    let docs = ok(storage.get_documents("items"));
    let keys: Vec<_> = docs.iter().map(|d| d.key.as_str()).collect();
    assert_eq!(keys, vec!["1", "2", "3"]);
}

#[test]
fn put_documents_unknown_index_fails() {
    let mut storage = InMemoryStorage::new();
    let storage_error = err(storage.put_documents("missing", vec![doc("1", "a")]));
    assert_eq!(
        storage_error,
        StorageError::IndexNotFound("missing".to_owned())
    );
}

#[test]
fn reset_clears_all_state() {
    let mut storage = InMemoryStorage::new();
    ok(storage.create_index(&test_index("items")));
    ok(storage.put_documents("items", vec![doc("1", "a")]));
    storage.reset();
    assert!(storage.list_index_names().is_empty());
}

#[test]
fn index_definition_parsing_validates() {
    assert!(IndexDefinition::from_json(json(r#"{"name": "x"}"#)).is_err());
    assert!(IndexDefinition::from_json(json(r#"{"name": "x", "fields": []}"#)).is_err());
    assert!(IndexDefinition::from_json(json(r#"{ "name": "x", "fields": [{"name": "id"}] }"#))
    .is_err());
    let index = test_index("x");
    let key = index
        .key_field()
        .unwrap_or_else(|| panic!("missing key field"));
    assert_eq!(key.name, "id");
    let title = index
        .field("title")
        .unwrap_or_else(|| panic!("missing title field"));
    assert!(title.searchable);
}

fn keys(list: &KeyedList<Document>) -> Vec<String> {
    (0..list.len()).map(|i| list.at(i).key.clone()).collect()
}

fn title(list: &KeyedList<Document>, key: &str) -> Option<String> {
    let found = list.get(key)?;
    found.fields.get("title").and_then(Json::as_str).map(str::to_owned)
}

#[test]
fn keyed_lists_stay_in_the_order_of_keys() {
    let mut list = KeyedList::new();
    for key in ["b", "c", "a"] {
        list.put(doc(key, "first"));
    }
    assert_eq!(keys(&list), vec!["a", "b", "c"]);
    list.put(doc("b", "second"));
    assert_eq!(keys(&list), vec!["a", "b", "c"]);
    assert_eq!(title(&list, "b").as_deref(), Some("second"));
    assert_eq!(title(&list, "a").as_deref(), Some("first"));
    list.get_mut("a").unwrap().fields.insert("title".to_owned(), Json::String("x".to_owned()));
    assert_eq!(title(&list, "a").as_deref(), Some("x"));
    assert!(list.get_mut("z").is_none());
    // Removing what was put gives the list before.
    list.put(doc("z", "last"));
    assert!(list.remove("z"));
    assert!(!list.remove("z"));
    assert_eq!(keys(&list), vec!["a", "b", "c"]);
    list.clear();
    assert_eq!(list.len(), 0);
}

#[test]
fn replaced_definitions_drop_their_documents() {
    let mut storage = InMemoryStorage::new();
    ok(storage.create_index(&test_index("b")));
    storage.upsert_index(&test_index("a"));
    assert_eq!(storage.list_index_names(), vec!["a", "b"]);
    ok(storage.put_documents("b", vec![doc("1", "one"), doc("2", "two")]));
    ok(storage.delete_documents("b", &vec!["1".to_owned(), "missing".to_owned()]));
    assert_eq!(ok(storage.get_document("b", "1")), None);
    assert_eq!(ok(storage.get_documents("b")).len(), 1);
    storage.upsert_index(&test_index("b"));
    assert_eq!(ok(storage.get_documents("b")).len(), 0);
    let unknown = StorageError::IndexNotFound("c".to_owned());
    assert_eq!(err(storage.delete_documents("c", &Vec::new())), unknown);
    assert_eq!(err(storage.get_documents("c")), unknown);
    assert!(unknown.to_text().contains("c"));
}

#[test]
fn field_types_round_trip() {
    for name in ["Edm.String", "Edm.Collection(Edm.Single)", "Edm.ComplexType", "Edm.Nonsense"] {
        assert_eq!(FieldType::from_normalized(name).as_str(), name);
    }
    assert_eq!(normalize_field_type("Collection(Edm.String)"), "Edm.Collection(Edm.String)");
    assert_eq!(normalize_field_type("Edm.String"), "Edm.String");
    let texts = FieldType::from_normalized("Edm.Collection(Edm.String)");
    assert!(texts.is_collection());
    assert_eq!(texts.inner_type(), Some(FieldType::String));
    assert_eq!(FieldType::String.inner_type(), None);
    assert!(FieldType::CollectionComplexType.is_complex_type());
    assert!(FieldType::CollectionHalf.is_vector_field_type());
    assert!(!FieldType::CollectionDouble.is_vector_field_type());
}

#[test]
fn vector_fields_have_dimensions() {
    let field = |raw: &str| ok(FieldDefinition::from_json(json(raw)));
    let vector = field(r#"{"name": "v", "type": "Collection(Edm.Single)", "dimensions": 3}"#);
    assert!(vector.is_vector_field());
    assert_eq!(vector.vector_dimensions, Some(3));
    let zero = field(r#"{"name": "v", "type": "Collection(Edm.Single)", "dimensions": 0}"#);
    assert!(!zero.is_vector_field());
    assert!(zero.has_dimensions_property());
    let plain = field(r#"{"name": "v", "type": "Collection(Edm.Single)"}"#);
    assert!(plain.is_collection() && !plain.has_dimensions_property());
}

#[test]
fn field_paths_lead_into_documents() {
    let document = match json(
        r#"{"address": {"city": "Oslo"}, "rooms": [{"rate": 1}, {"rate": 2}], "tags": ["a", "b"]}"#,
    ) {
        Json::Object(fields) => Document { key: "1".to_owned(), fields },
        _ => panic!("not an object"),
    };
    let resolve = |path: &str| -> Vec<Json> {
        document.resolve_path(path).into_iter().map(Json::duplicate).collect()
    };
    assert_eq!(resolve("address/city"), vec![json("\"Oslo\"")]);
    assert_eq!(resolve("rooms/rate"), vec![json("1"), json("2")]);
    assert_eq!(resolve("tags"), vec![json(r#"["a", "b"]"#)]);
    assert!(resolve("address/street").is_empty());
    let definition = ok(IndexDefinition::from_json(json(
        r#"{"name": "i", "fields": [
            {"name": "id", "type": "Edm.String", "key": true},
            {"name": "address", "type": "Edm.ComplexType", "fields": [
                {"name": "city", "type": "Edm.String"}
            ]}
        ]}"#,
    )));
    assert_eq!(definition.field_path("address/city").unwrap().name, "city");
    assert!(definition.field_path("address/street").is_none());
    assert_eq!(definition.key_field().unwrap().name, "id");
}

#[test]
fn values_are_written_as_text() {
    let value = json(r#"{"b": [1, -2, 1.5, true, null], "a": "q\"\n"}"#);
    assert_eq!(value.to_text(), r#"{"a":"q\"\n","b":[1,-2,1.5,true,null]}"#);
    assert_eq!(Number::PosInt(7).text(), "7");
    assert_eq!(Number::NegInt(-7).rank(), tantivy::f64_to_u64(-7.0));
    assert_eq!(rank_integer(tantivy::f64_to_u64(-3.0)), IntegerOf::Value(-3));
    assert_eq!(rank_integer(tantivy::f64_to_u64(0.5)), IntegerOf::NoInteger);
    assert_eq!(rank_integer(tantivy::f64_to_u64(1e300)), IntegerOf::OutOfRange);
}

#[test]
fn members_are_found_after_insertion() {
    let mut map = JsonMap::new();
    map.insert("b".to_owned(), Json::Bool(true));
    map.insert("a".to_owned(), Json::Null);
    map.insert("b".to_owned(), Json::Bool(false));
    assert_eq!(map.len(), 2);
    assert_eq!(map.get("b").and_then(Json::as_bool), Some(false));
    assert!(map.get("a").unwrap().is_null());
    assert!(map.get_or("x", "b").is_some());
    assert!(map.get_or("x", "y").is_none());
    let order: Vec<&str> = map.entries.iter().map(|(key, _)| key.as_str()).collect();
    assert_eq!(order, vec!["a", "b"]);
}
