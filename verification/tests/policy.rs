//! The forwarding-policy vocabulary: JSON text and value forms of
//! `AllOrList`.

use auth_boundary::config::{
    all_or_list_to_json, deserialize_all_or_list, serialize_all_or_list, All, AllOrList,
};
use auth_boundary::json::JsonValue;

/// Reads JSON text into the crate's value model.
fn json_value_from_text(text: &str) -> JsonValue {
    fn convert(v: serde_json::Value) -> JsonValue {
        match v {
            serde_json::Value::Null => JsonValue::Null,
            serde_json::Value::Bool(b) => JsonValue::Bool(b),
            serde_json::Value::Number(n) => JsonValue::Number(n.to_string()),
            serde_json::Value::String(s) => JsonValue::Str(s),
            serde_json::Value::Array(items) => {
                JsonValue::Array(items.into_iter().map(convert).collect())
            }
            serde_json::Value::Object(m) => {
                JsonValue::Object(m.into_iter().map(|(k, v)| (k, convert(v))).collect())
            }
        }
    }
    convert(serde_json::from_str(text).expect("test input is valid JSON"))
}

#[test]
fn test_all_or_list_serialization_all() {
    let all = AllOrList::<String>::All(All(()));
    let all_json = serialize_all_or_list(&all);
    assert_eq!(all_json, r#""*""#);
}

#[test]
fn test_all_or_list_serialization_list() {
    let list = AllOrList::<String>::List(vec!["item1".to_string(), "item2".to_string()]);
    let list_json = serialize_all_or_list(&list);
    assert_eq!(list_json, r#"["item1","item2"]"#);
}

#[test]
fn test_all_or_list_deserialization_all() {
    let all = deserialize_all_or_list(&json_value_from_text(r#""*""#)).unwrap();
    assert!(matches!(all, AllOrList::All(_)));
}

#[test]
fn test_all_or_list_deserialization_list() {
    let list = deserialize_all_or_list(&json_value_from_text(r#"["item1","item2"]"#)).unwrap();
    assert_eq!(
        list,
        AllOrList::List(vec!["item1".to_string(), "item2".to_string()])
    );
}

#[test]
fn test_all_or_list_failed_deserialization_string_value() {
    let result = deserialize_all_or_list(&json_value_from_text(r#""invalid""#));
    assert!(
        result.is_err(),
        "Deserialization should have failed: {result:#?}"
    );
}

#[test]
fn test_all_or_list_failed_deserialization_object_value() {
    let result = deserialize_all_or_list(&json_value_from_text(r#""{}""#));
    assert!(
        result.is_err(),
        "Deserialization should have failed: {result:#?}"
    );
}

#[test]
fn test_all_or_list_rejects_non_string_values() {
    assert!(deserialize_all_or_list(&json_value_from_text("true")).is_err());
    assert!(deserialize_all_or_list(&json_value_from_text("3")).is_err());
    assert!(deserialize_all_or_list(&json_value_from_text("{}")).is_err());
    assert!(deserialize_all_or_list(&json_value_from_text(r#"["a",1]"#)).is_err());
}

#[test]
fn test_all_or_list_round_trip_through_value() {
    let list = AllOrList::<String>::List(vec!["authorization".to_string()]);
    let text = serialize_all_or_list(&list);
    let back = deserialize_all_or_list(&json_value_from_text(&text)).unwrap();
    assert_eq!(back, list);

    let all = AllOrList::<String>::All(All(()));
    let text = serialize_all_or_list(&all);
    let back = deserialize_all_or_list(&json_value_from_text(&text)).unwrap();
    assert!(matches!(back, AllOrList::All(_)));
}

#[test]
fn test_serialization_escapes_quotes_and_controls() {
    let list = AllOrList::<String>::List(vec!["a\"b\\c".to_string(), "x\ny".to_string()]);
    let text = serialize_all_or_list(&list);
    assert_eq!(text, "[\"a\\\"b\\\\c\",\"x\\u000ay\"]");
    let back = deserialize_all_or_list(&json_value_from_text(&text)).unwrap();
    assert_eq!(back, list);
}

#[test]
fn test_all_or_list_round_trip_through_json_value() {
    let list = AllOrList::<String>::List(vec!["item1".to_string(), "item2".to_string()]);
    let v = all_or_list_to_json(&list);
    assert_eq!(deserialize_all_or_list(&v).unwrap(), list);
    let all = AllOrList::<String>::All(All(()));
    let v = all_or_list_to_json(&all);
    assert!(matches!(deserialize_all_or_list(&v).unwrap(), AllOrList::All(_)));
}
