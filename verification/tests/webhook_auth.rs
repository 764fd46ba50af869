//! The webhook protocol layer: request building and response
//! interpretation.

use auth_boundary::config::{
    All, AllOrList, AuthHookConfigV3, AuthHookConfigV3Body, AuthHookConfigV3Headers,
    AuthHookConfigV3POST, AuthHookConfigV3POSTHeaders, AuthHookMethod, EnvironmentValue,
};
use auth_boundary::headers::{ignore_header, HeaderMap};
use auth_boundary::json::JsonValue;
use auth_boundary::session::{Identity, Role, SessionVariableName};
use auth_boundary::webhook::{
    auth_hook_url_v2, get_auth_hook_request_v1, get_auth_hook_request_v2,
    identity_from_hook_response, AuthHookPostRequestBody, AuthHookRequest, Error, InternalError,
};
use auth_boundary::session::{
    RoleAuthorization, SessionVariableList, SessionVariableValue, SessionVariables,
};

fn header_map(entries: &[(&str, &str)]) -> HeaderMap {
    let mut m = HeaderMap::new();
    for (k, v) in entries {
        m.insert(k.to_string(), v.to_string());
    }
    m
}

fn names_of(m: &HeaderMap) -> Vec<String> {
    let mut out = Vec::new();
    let mut i = 0;
    while i < m.len() {
        out.push(m.entry(i).0.clone());
        i += 1;
    }
    out
}

#[test]
fn test_ignore_header_matches_fixed_exclusion_set() {
    for name in [
        "accept",
        "accept-datetime",
        "accept-encoding",
        "accept-language",
        "cache-control",
        "connection",
        "content-length",
        "content-md5",
        "content-type",
        "dnt",
        "host",
        "origin",
        "referer",
        "user-agent",
    ] {
        assert!(ignore_header(name), "{name} should be excluded");
    }
    assert!(!ignore_header("foo"));
    assert!(!ignore_header("x-api-key"));
    assert!(!ignore_header("authorization"));
    assert!(!ignore_header("accept2"));
}

#[test]
fn test_v1_get_forwards_all_but_excluded() {
    let client = header_map(&[
        ("foo", "baz"),
        ("accept", "*/*"),
        ("content-type", "application/json"),
        ("x-api-key", "1234"),
        ("user-agent", "curl"),
    ]);
    let request = get_auth_hook_request_v1(&AuthHookMethod::Get, &client);
    match request {
        AuthHookRequest::Get { headers } => {
            assert_eq!(names_of(&headers), vec!["foo".to_string(), "x-api-key".to_string()]);
            assert_eq!(headers.get("foo"), Some(&"baz".to_string()));
            assert_eq!(headers.get("x-api-key"), Some(&"1234".to_string()));
        }
        AuthHookRequest::Post { .. } => panic!("GET expected"),
    }
}

#[test]
fn test_v1_post_sends_no_wire_headers_and_embeds_all() {
    let client = header_map(&[("foo", "baz"), ("content-type", "application/json")]);
    let request = get_auth_hook_request_v1(&AuthHookMethod::Post, &client);
    match request {
        AuthHookRequest::Post { headers, body } => {
            assert_eq!(headers.len(), 0);
            let embedded = body.headers();
            assert_eq!(embedded.len(), 2);
            assert_eq!(embedded.get("foo"), Some(&"baz".to_string()));
            assert_eq!(embedded.get("content-type"), Some(&"application/json".to_string()));
        }
        AuthHookRequest::Get { .. } => panic!("POST expected"),
    }
}

#[test]
fn test_post_body_json_text() {
    let client = header_map(&[("foo", "baz")]);
    let request = get_auth_hook_request_v1(&AuthHookMethod::Post, &client);
    match request {
        AuthHookRequest::Post { body, .. } => {
            assert_eq!(body.to_json_text(), r#"{"headers":{"foo":"baz"}}"#);
        }
        AuthHookRequest::Get { .. } => panic!("POST expected"),
    }
}

#[test]
fn test_empty_post_body_json_text() {
    assert_eq!(AuthHookPostRequestBody::new().to_json_text(), r#"{"headers":{}}"#);
}

fn v3_post_config(
    headers: Option<AuthHookConfigV3Headers>,
    body: Option<AuthHookConfigV3Body>,
) -> AuthHookConfigV3 {
    AuthHookConfigV3::POST(AuthHookConfigV3POST {
        url: EnvironmentValue { value: "http://auth-hook.example/validate-request".to_string() },
        custom_headers_config: Some(AuthHookConfigV3POSTHeaders { headers, body }),
    })
}

#[test]
fn test_v3_list_policy_forwards_only_listed_and_additional_wins() {
    let client = header_map(&[("foo", "baz"), ("authorization", "s3cr3t"), ("x-other", "1")]);
    let policy = AuthHookConfigV3Headers {
        forward: AllOrList::List(vec!["authorization".to_string(), "foo".to_string()]),
        additional: vec![("user-agent".to_string(), "engine".to_string()),
                         ("foo".to_string(), "override".to_string())],
    };
    let config = v3_post_config(Some(policy), None);
    match get_auth_hook_request_v2(&config, &client) {
        AuthHookRequest::Post { headers, body } => {
            assert_eq!(headers.get("authorization"), Some(&"s3cr3t".to_string()));
            assert_eq!(headers.get("foo"), Some(&"override".to_string()));
            assert_eq!(headers.get("user-agent"), Some(&"engine".to_string()));
            assert_eq!(headers.get("x-other"), None);
            assert_eq!(headers.len(), 3);
            assert_eq!(body.headers().len(), 0);
        }
        AuthHookRequest::Get { .. } => panic!("POST expected"),
    }
}

#[test]
fn test_v3_body_wildcard_keeps_common_headers() {
    let client = header_map(&[("foo", "baz"), ("content-type", "application/json")]);
    let body_policy = AuthHookConfigV3Body {
        headers: Some(AuthHookConfigV3Headers {
            forward: AllOrList::All(All(())),
            additional: vec![],
        }),
    };
    let config = v3_post_config(None, Some(body_policy));
    match get_auth_hook_request_v2(&config, &client) {
        AuthHookRequest::Post { headers, body } => {
            assert_eq!(headers.len(), 0);
            // Body-embedded forwarding never applies the exclusion set.
            assert_eq!(body.headers().len(), 2);
            assert_eq!(
                body.headers().get("content-type"),
                Some(&"application/json".to_string())
            );
        }
        AuthHookRequest::Get { .. } => panic!("POST expected"),
    }
}

#[test]
fn test_v3_wire_wildcard_applies_exclusion_set() {
    let client = header_map(&[("foo", "baz"), ("content-type", "application/json")]);
    let policy = AuthHookConfigV3Headers {
        forward: AllOrList::All(All(())),
        additional: vec![],
    };
    let config = v3_post_config(Some(policy), None);
    match get_auth_hook_request_v2(&config, &client) {
        AuthHookRequest::Post { headers, .. } => {
            assert_eq!(names_of(&headers), vec!["foo".to_string()]);
        }
        AuthHookRequest::Get { .. } => panic!("POST expected"),
    }
}

#[test]
fn test_v3_without_custom_config_falls_back_to_v1() {
    let client = header_map(&[("foo", "baz"), ("accept", "*/*")]);
    let config = AuthHookConfigV3::POST(AuthHookConfigV3POST {
        url: EnvironmentValue { value: "http://auth-hook.example/validate-request".to_string() },
        custom_headers_config: None,
    });
    match get_auth_hook_request_v2(&config, &client) {
        AuthHookRequest::Post { headers, body } => {
            assert_eq!(headers.len(), 0);
            assert_eq!(body.headers().len(), 2);
        }
        AuthHookRequest::Get { .. } => panic!("POST expected"),
    }
}

#[test]
fn test_auth_hook_url_v2_accepts_and_rejects() {
    let good = AuthHookConfigV3::POST(AuthHookConfigV3POST {
        url: EnvironmentValue { value: "http://auth-hook.example/validate-request".to_string() },
        custom_headers_config: None,
    });
    let url = auth_hook_url_v2(&good).unwrap();
    assert_eq!(url.as_str(), "http://auth-hook.example/validate-request");

    let bad = AuthHookConfigV3::POST(AuthHookConfigV3POST {
        url: EnvironmentValue { value: "not a url".to_string() },
        custom_headers_config: None,
    });
    match auth_hook_url_v2(&bad) {
        Err(Error::Internal(InternalError::InvalidUrl(s))) => assert_eq!(s, "not a url"),
        other => panic!("InvalidUrl expected, got {other:?}"),
    }
}

fn ok_response_body() -> Vec<(String, JsonValue)> {
    vec![
        ("x-hasura-role".to_string(), JsonValue::Str("test-role".to_string())),
        ("x-hasura-test-role-id".to_string(), JsonValue::Str("1".to_string())),
    ]
}

fn expected_specific(role: &str, vars: &[(&str, &str)]) -> Identity {
    let mut session_variables = SessionVariables::new();
    for (k, v) in vars {
        session_variables.insert(
            SessionVariableName::parse(k).unwrap(),
            SessionVariableValue::Parsed(JsonValue::Str(v.to_string())),
        );
    }
    let test_role = Role::new(role);
    Identity::Specific {
        default_role: Role::new(role),
        allowed_roles: vec![(
            test_role,
            RoleAuthorization {
                role: Role::new(role),
                session_variables,
                allowed_session_variables_from_request: SessionVariableList::List(Vec::new()),
            },
        )],
    }
}

#[test]
fn test_successful_webhook_auth_yields_specific_identity() {
    let auth_response = identity_from_hook_response(200, ok_response_body(), None).unwrap();
    let expected = expected_specific(
        "test-role",
        &[("x-hasura-role", "test-role"), ("x-hasura-test-role-id", "1")],
    );
    assert_eq!(auth_response, expected);
}

#[test]
fn test_allow_non_hasura_session_variables_in_response() {
    let mut body = ok_response_body();
    body.push(("status".to_string(), JsonValue::Str("true".to_string())));
    let auth_response = identity_from_hook_response(200, body, None).unwrap();
    let expected = expected_specific(
        "test-role",
        &[
            ("x-hasura-role", "test-role"),
            ("x-hasura-test-role-id", "1"),
            ("status", "true"),
        ],
    );
    assert_eq!(auth_response, expected);
}

#[test]
fn test_unparseable_response_keys_are_dropped() {
    let mut body = ok_response_body();
    body.push(("not a name!".to_string(), JsonValue::Str("x".to_string())));
    body.push((String::new(), JsonValue::Null));
    let auth_response = identity_from_hook_response(200, body, None).unwrap();
    let expected = expected_specific(
        "test-role",
        &[("x-hasura-role", "test-role"), ("x-hasura-test-role-id", "1")],
    );
    assert_eq!(auth_response, expected);
}

#[test]
fn test_response_keys_are_normalized_and_later_binding_wins() {
    let body = vec![
        ("x-hasura-role".to_string(), JsonValue::Str("first".to_string())),
        ("X-Hasura-Role".to_string(), JsonValue::Str("second".to_string())),
    ];
    let auth_response = identity_from_hook_response(200, body, None).unwrap();
    let expected = expected_specific("second", &[("x-hasura-role", "second")]);
    assert_eq!(auth_response, expected);
}

#[test]
fn test_role_emulation() {
    let body = vec![
        ("x-hasura-role".to_string(), JsonValue::Str("test-admin-role".to_string())),
        ("x-hasura-user-id".to_string(), JsonValue::Str("1".to_string())),
    ];
    let emulation = Role::new("test-admin-role");
    let auth_response = identity_from_hook_response(200, body, Some(&emulation)).unwrap();
    assert_eq!(auth_response, Identity::RoleEmulationEnabled(Role::new("test-admin-role")));
}

#[test]
fn test_deny_role_emulation() {
    let body = vec![
        ("x-hasura-role".to_string(), JsonValue::Str("user".to_string())),
        ("x-hasura-user-id".to_string(), JsonValue::Str("1".to_string())),
    ];
    let emulation = Role::new("test-admin-role");
    let auth_response = identity_from_hook_response(200, body, Some(&emulation)).unwrap();
    let expected = expected_specific(
        "user",
        &[("x-hasura-role", "user"), ("x-hasura-user-id", "1")],
    );
    assert_eq!(auth_response, expected);
}

#[test]
fn test_401_denies_authentication_whatever_the_body() {
    let r = identity_from_hook_response(401, Vec::new(), None);
    assert_eq!(r, Err(Error::AuthenticationFailed));
    let r = identity_from_hook_response(401, ok_response_body(), None);
    assert_eq!(r, Err(Error::AuthenticationFailed));
}

#[test]
fn test_unexpected_status_is_an_internal_fault_naming_it() {
    for status in [100u16, 204, 302, 403, 500, 599] {
        let r = identity_from_hook_response(status, ok_response_body(), None);
        assert_eq!(
            r,
            Err(Error::Internal(InternalError::AuthHookUnexpectedStatus(status))),
            "status {status}"
        );
    }
}

#[test]
fn test_missing_role_variable_is_distinct_internal_fault() {
    let body = vec![("x-hasura-user-id".to_string(), JsonValue::Str("1".to_string()))];
    let r = identity_from_hook_response(200, body, None);
    assert_eq!(r, Err(Error::Internal(InternalError::RoleSessionVariableNotFound)));
}

#[test]
fn test_non_string_role_variable_is_distinct_internal_fault() {
    let body = vec![("x-hasura-role".to_string(), JsonValue::Number("1".to_string()))];
    let r = identity_from_hook_response(200, body, None);
    assert_eq!(r, Err(Error::Internal(InternalError::RoleSessionVariableMustBeString)));
}

#[test]
fn test_error_status_codes() {
    assert_eq!(Error::AuthenticationFailed.to_status_code(), 403);
    assert_eq!(
        Error::Internal(InternalError::RoleSessionVariableNotFound).to_status_code(),
        500
    );
    assert_eq!(
        Error::ErrorInConvertingHeaderValueToString {
            header_name: "foo".to_string(),
            error: "bad bytes".to_string(),
        }
        .to_status_code(),
        400
    );
    assert!(Error::Internal(InternalError::RoleSessionVariableNotFound).is_internal());
    assert!(!Error::AuthenticationFailed.is_internal());
}

#[test]
fn test_error_messages_render_like_the_engine() {
    assert_eq!(
        Error::AuthenticationFailed.message(),
        "The Authentication hook has denied to execute the request."
    );
    assert_eq!(
        Error::Internal(InternalError::AuthHookUnexpectedStatus(503)).message(),
        "Internal Error - The authentication hook has returned the status 503. \
         Only 200 and 401 response status are recognized."
    );
    assert_eq!(
        Error::Internal(InternalError::RoleSessionVariableNotFound).message(),
        "Internal Error - 'x-hasura-role' session variable not found in the webhook response."
    );
    assert_eq!(
        Error::Internal(InternalError::InvalidUrl("not a url".to_string())).message(),
        "Internal Error - Invalid URL: not a url"
    );
    assert_eq!(
        Error::ErrorInConvertingHeaderValueToString {
            header_name: "foo".to_string(),
            error: "bad bytes".to_string(),
        }
        .message(),
        "Error in converting the header value corresponding to the foo to a String - bad bytes"
    );
}
