//! Names, header sets and session variables.

use auth_boundary::headers::HeaderMap;
use auth_boundary::json::JsonValue;
use auth_boundary::names::normalize_name;
use auth_boundary::session::{
    Role, SessionVariableName, SessionVariableValue, SessionVariables,
};

#[test]
fn test_normalize_name_lower_cases_ascii() {
    assert_eq!(normalize_name("X-Hasura-Role").unwrap(), "x-hasura-role");
    assert_eq!(normalize_name("x-hasura-role").unwrap(), "x-hasura-role");
    assert_eq!(normalize_name("STATUS_2.a").unwrap(), "status_2.a");
}

#[test]
fn test_normalize_name_rejects_malformed_input() {
    assert_eq!(normalize_name(""), None);
    assert_eq!(normalize_name("has space"), None);
    assert_eq!(normalize_name("bang!"), None);
    assert_eq!(normalize_name("r\u{f4}le"), None);
}

#[test]
fn test_session_variable_name_parse() {
    let n = SessionVariableName::parse("X-Hasura-User-Id").unwrap();
    assert_eq!(n.as_str(), "x-hasura-user-id");
    assert!(SessionVariableName::parse("{}").is_none());
}

#[test]
fn test_role_compares_by_value() {
    assert_eq!(Role::new("admin"), Role::new("admin"));
    assert_ne!(Role::new("admin"), Role::new("user"));
    assert_eq!(Role::new("admin").as_str(), "admin");
}

#[test]
fn test_header_map_insert_replaces_existing_name() {
    let mut m = HeaderMap::new();
    m.insert("foo".to_string(), "one".to_string());
    m.insert("bar".to_string(), "2".to_string());
    m.insert("foo".to_string(), "three".to_string());
    assert_eq!(m.len(), 2);
    assert_eq!(m.get("foo"), Some(&"three".to_string()));
    assert_eq!(m.get("bar"), Some(&"2".to_string()));
    assert_eq!(m.get("baz"), None);
    assert!(m.contains_name("foo"));
    assert!(!m.contains_name("baz"));
}

#[test]
fn test_header_map_keeps_insertion_order() {
    let mut m = HeaderMap::new();
    m.insert("b".to_string(), "1".to_string());
    m.insert("a".to_string(), "2".to_string());
    assert_eq!(m.entry(0).0, "b");
    assert_eq!(m.entry(1).0, "a");
}

#[test]
fn test_session_variables_insert_and_get() {
    let mut vars = SessionVariables::new();
    vars.insert(
        SessionVariableName::parse("x-hasura-role").unwrap(),
        SessionVariableValue::Parsed(JsonValue::Str("admin".to_string())),
    );
    vars.insert(
        SessionVariableName::parse("x-hasura-user-id").unwrap(),
        SessionVariableValue::Parsed(JsonValue::Number("7".to_string())),
    );
    assert_eq!(vars.len(), 2);
    let role = vars.get("x-hasura-role").unwrap();
    assert_eq!(role.as_str(), Some(&"admin".to_string()));
    let id = vars.get("x-hasura-user-id").unwrap();
    assert_eq!(id.as_str(), None);
    assert!(vars.get("x-hasura-missing").is_none());
}
