use serde_json::Value;
use ucp_schema::compose::{
    capability_short_name, check_composition, compose_schemas, detect_direction,
    extract_capabilities, extract_jsonrpc_payload, schema_location, starts_with, Capability,
    ComposeError, DetectedDirection,
};
use ucp_schema::{Direction, Json};

fn to_json(v: &Value) -> Json {
    match v {
        Value::Null => Json::Null,
        Value::Bool(b) => Json::Bool(*b),
        Value::Number(n) => Json::Number(n.to_string()),
        Value::String(s) => Json::String(s.clone()),
        Value::Array(a) => Json::Array(a.iter().map(to_json).collect()),
        Value::Object(m) => Json::Object(m.iter().map(|(k, v)| (k.clone(), to_json(v))).collect()),
    }
}

fn from_json(j: &Json) -> Value {
    match j {
        Json::Null => Value::Null,
        Json::Bool(b) => Value::Bool(*b),
        Json::Number(n) => serde_json::from_str(n).unwrap(),
        Json::String(s) => Value::String(s.clone()),
        Json::Array(a) => Value::Array(a.iter().map(from_json).collect()),
        Json::Object(m) => {
            Value::Object(m.iter().map(|(k, v)| (k.clone(), from_json(v))).collect())
        }
    }
}

fn parse(text: &str) -> Json {
    to_json(&serde_json::from_str::<Value>(text).unwrap())
}

fn value(text: &str) -> Value {
    serde_json::from_str(text).unwrap()
}

fn cap(name: &str, extends: Option<&str>) -> Capability {
    Capability {
        name: name.to_string(),
        version: "2026-01-11".to_string(),
        schema_url: format!("https://ucp.dev/schemas/{}.json", name),
        extends: extends.map(|p| p.to_string()),
    }
}

const PAYLOAD: &str = r#"{
    "ucp": {
        "capabilities": {
            "dev.ucp.shopping.checkout": [
                {"version": "2026-01-11", "schema": "https://ucp.dev/schemas/shopping/checkout.json"},
                {"version": "2025-01-01", "schema": "https://ucp.dev/schemas/shopping/old.json"}
            ],
            "dev.ucp.shopping.discount": [{
                "version": "2026-01-11",
                "schema": "https://ucp.dev/schemas/shopping/discount.json",
                "extends": "dev.ucp.shopping.checkout"
            }],
            "dev.ucp.shopping.fulfillment": [{
                "version": "2026-01-11",
                "schema": "https://ucp.dev/schemas/shopping/fulfillment.json",
                "extends": "dev.ucp.shopping.checkout"
            }]
        }
    },
    "id": "123"
}"#;

#[test]
fn capabilities_come_in_declaration_order() {
    let caps = extract_capabilities(&parse(PAYLOAD)).unwrap();
    let names: Vec<&str> = caps.iter().map(|c| c.name.as_str()).collect();
    assert_eq!(
        names,
        vec!["dev.ucp.shopping.checkout", "dev.ucp.shopping.discount", "dev.ucp.shopping.fulfillment"]
    );
    assert_eq!(caps[0].schema_url, "https://ucp.dev/schemas/shopping/checkout.json");
    assert_eq!(caps[0].extends, None);
    assert_eq!(caps[1].extends.as_deref(), Some("dev.ucp.shopping.checkout"));
    assert_eq!(caps[2].version, "2026-01-11");
}

#[test]
fn empty_capabilities_are_rejected() {
    let err = extract_capabilities(&parse(r#"{"ucp":{"capabilities":{}},"id":"123"}"#)).unwrap_err();
    assert!(matches!(err, ComposeError::NoCapabilities));
    assert!(err.message().contains("no capabilities"));
    assert!(matches!(
        extract_capabilities(&parse(r#"{"id":"123"}"#)),
        Err(ComposeError::NoCapabilities)
    ));
}

#[test]
fn composition_with_extensions_is_an_ordered_allof() {
    let caps = vec![
        cap("checkout", None),
        cap("discount", Some("checkout")),
        cap("fulfillment", Some("checkout")),
    ];
    let schemas = vec![
        parse(r#"{"title":"checkout"}"#),
        parse(r#"{"title":"discount"}"#),
        parse(r#"{"title":"fulfillment"}"#),
    ];
    let out = from_json(&compose_schemas(&caps, &schemas).unwrap());
    assert_eq!(
        out,
        value(r#"{"allOf":[{"title":"checkout"},{"title":"discount"},{"title":"fulfillment"}]}"#)
    );
}

#[test]
fn root_listed_after_extension_still_leads() {
    let caps = vec![cap("discount", Some("checkout")), cap("checkout", None)];
    let schemas = vec![parse(r#"{"title":"discount"}"#), parse(r#"{"title":"checkout"}"#)];
    assert_eq!(check_composition(&caps).unwrap(), 1);
    let out = from_json(&compose_schemas(&caps, &schemas).unwrap());
    assert_eq!(out, value(r#"{"allOf":[{"title":"checkout"},{"title":"discount"}]}"#));
}

#[test]
fn single_root_is_returned_unchanged() {
    let caps = vec![cap("checkout", None)];
    let schemas = vec![parse(r#"{"type":"object","properties":{"id":{"ucp_request":"omit"}}}"#)];
    let out = from_json(&compose_schemas(&caps, &schemas).unwrap());
    assert_eq!(out, value(r#"{"type":"object","properties":{"id":{"ucp_request":"omit"}}}"#));
}

#[test]
fn composition_errors() {
    let none = vec![cap("a", Some("b")), cap("b", Some("a"))];
    assert!(matches!(check_composition(&none), Err(ComposeError::NoRoot)));

    let two = vec![cap("a", None), cap("b", None)];
    match check_composition(&two) {
        Err(ComposeError::MultipleRoots { names }) => assert_eq!(names, vec!["a", "b"]),
        other => panic!("unexpected {:?}", other),
    }
    let err = check_composition(&two).unwrap_err();
    assert_eq!(err.message(), "multiple root capabilities: a b");
    assert_eq!(err.exit_code(), 2);

    let orphan = vec![cap("a", None), cap("b", Some("nonexistent"))];
    match check_composition(&orphan) {
        Err(ComposeError::UnknownParent { name, parent }) => {
            assert_eq!(name, "b");
            assert_eq!(parent, "nonexistent");
        }
        other => panic!("unexpected {:?}", other),
    }
    assert!(check_composition(&orphan).unwrap_err().message().contains("unknown parent"));

    let fetch = ComposeError::FetchFailed { url: "x.json".to_string(), reason: "gone".to_string() };
    assert_eq!(fetch.message(), "failed to fetch schema x.json: gone");
    assert_eq!(fetch.exit_code(), 3);
}

#[test]
fn payload_direction_is_detected() {
    assert_eq!(detect_direction(&parse(PAYLOAD)), Some(DetectedDirection::Response));
    assert_eq!(
        detect_direction(&parse(r#"{"meta":{"profile":"https://agent.example/profile"},"checkout":{}}"#)),
        Some(DetectedDirection::Request)
    );
    assert_eq!(detect_direction(&parse(r#"{"ucp":{"capabilities":{}}}"#)), None);
    assert_eq!(detect_direction(&parse(r#"{"meta":{"profile":5}}"#)), None);
    assert_eq!(detect_direction(&parse(r#"{"type":"object"}"#)), None);
    assert_eq!(DetectedDirection::Response.direction(), Direction::Response);
    assert_eq!(DetectedDirection::Request.direction(), Direction::Request);
}

#[test]
fn remote_urls_map_to_local_files() {
    assert_eq!(
        schema_location(
            "https://ucp.dev/draft/schemas/checkout.json",
            Some("fixtures"),
            Some("https://ucp.dev/draft")
        ),
        "fixtures/schemas/checkout.json"
    );
    assert_eq!(
        schema_location("https://other.dev/x.json", Some("fixtures"), Some("https://ucp.dev/draft")),
        "https://other.dev/x.json"
    );
    assert_eq!(
        schema_location("https://ucp.dev/draft/x.json", Some("fixtures"), None),
        "https://ucp.dev/draft/x.json"
    );
    assert!(starts_with("abc", "ab"));
    assert!(!starts_with("ab", "abc"));
}

#[test]
fn request_envelope_payload_is_found_by_short_name() {
    let caps = vec![
        cap("dev.ucp.shopping.discount", Some("dev.ucp.shopping.checkout")),
        cap("dev.ucp.shopping.checkout", None),
    ];
    let envelope = parse(r#"{"meta":{"profile":"https://agent.example/p"},"checkout":{"id":"1"}}"#);
    let (payload, key) = extract_jsonrpc_payload(&envelope, &caps).unwrap();
    assert_eq!(key, "checkout");
    assert_eq!(from_json(payload), value(r#"{"id":"1"}"#));
    let other = parse(r#"{"cart":{}}"#);
    assert!(extract_jsonrpc_payload(&other, &caps).is_none());
    assert_eq!(capability_short_name("plain"), "plain");
    assert_eq!(capability_short_name("a.b."), "");
}
