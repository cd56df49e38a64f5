use serde_json::Value;
use ucp_schema::{
    get_visibility, resolve, strip_annotations, Direction, Json, ResolveError, ResolveOptions,
    Visibility,
};

fn to_json(v: &Value) -> Json {
    match v {
        Value::Null => Json::Null,
        Value::Bool(b) => Json::Bool(*b),
        Value::Number(n) => Json::Number(n.to_string()),
        Value::String(s) => Json::String(s.clone()),
        Value::Array(a) => Json::Array(a.iter().map(to_json).collect()),
        Value::Object(m) => Json::Object(m.iter().map(|(k, v)| (k.clone(), to_json(v))).collect()),
    }
}

fn from_json(j: &Json) -> Value {
    match j {
        Json::Null => Value::Null,
        Json::Bool(b) => Value::Bool(*b),
        Json::Number(n) => serde_json::from_str(n).unwrap(),
        Json::String(s) => Value::String(s.clone()),
        Json::Array(a) => Value::Array(a.iter().map(from_json).collect()),
        Json::Object(m) => {
            Value::Object(m.iter().map(|(k, v)| (k.clone(), from_json(v))).collect())
        }
    }
}

fn parse(text: &str) -> Json {
    to_json(&serde_json::from_str::<Value>(text).unwrap())
}

fn value(text: &str) -> Value {
    serde_json::from_str(text).unwrap()
}

fn resolved(schema: &Json, options: &ResolveOptions) -> Value {
    from_json(&resolve(schema, options).unwrap())
}

// === Visibility Parsing Tests ===

#[test]
fn get_visibility_shorthand_omit() {
    let prop = parse(r#"{"type": "string", "ucp_request": "omit"}"#);
    let (vis, _) = get_visibility(&prop, Direction::Request, "create", "/test").unwrap();
    assert_eq!(vis, Visibility::Omit);
}

#[test]
fn get_visibility_shorthand_required() {
    let prop = parse(r#"{"type": "string", "ucp_request": "required"}"#);
    let (vis, _) = get_visibility(&prop, Direction::Request, "create", "/test").unwrap();
    assert_eq!(vis, Visibility::Required);
}

#[test]
fn get_visibility_object_form() {
    let prop = parse(
        r#"{"type": "string", "ucp_request": {"create": "omit", "update": "required"}}"#,
    );
    let (vis, _) = get_visibility(&prop, Direction::Request, "create", "/test").unwrap();
    assert_eq!(vis, Visibility::Omit);

    let (vis, _) = get_visibility(&prop, Direction::Request, "update", "/test").unwrap();
    assert_eq!(vis, Visibility::Required);
}

#[test]
fn get_visibility_schema_transition_object() {
    let prop = parse(
        r#"{
            "type": "string",
            "ucp_request": {
                "update": {
                    "transition": {
                        "from": "required",
                        "to": "omit",
                        "description": "Legacy id will be removed in v2."
                    }
                }
            }
        }"#,
    );
    let (vis, dep) = get_visibility(&prop, Direction::Request, "update", "/test").unwrap();
    assert_eq!(vis, Visibility::Required);
    let info = dep.unwrap();
    assert_eq!(info.from, "required");
    assert_eq!(info.to, "omit");
    assert_eq!(info.description, "Legacy id will be removed in v2.");
}

#[test]
fn get_visibility_missing_annotation() {
    let prop = parse(r#"{"type": "string"}"#);
    let (vis, _) = get_visibility(&prop, Direction::Request, "create", "/test").unwrap();
    assert_eq!(vis, Visibility::Include);
}

#[test]
fn get_visibility_missing_operation_in_dict() {
    let prop = parse(r#"{"type": "string", "ucp_request": {"create": "omit"}}"#);
    // "update" not in dict, should default to include
    let (vis, _) = get_visibility(&prop, Direction::Request, "update", "/test").unwrap();
    assert_eq!(vis, Visibility::Include);
}

#[test]
fn get_visibility_response_direction() {
    let prop = parse(r#"{"type": "string", "ucp_response": "omit"}"#);
    let (vis, _) = get_visibility(&prop, Direction::Response, "create", "/test").unwrap();
    assert_eq!(vis, Visibility::Omit);

    // Request direction should see include (no ucp_request annotation)
    let (vis, _) = get_visibility(&prop, Direction::Request, "create", "/test").unwrap();
    assert_eq!(vis, Visibility::Include);
}

#[test]
fn get_visibility_invalid_type_errors() {
    let prop = parse(r#"{"type": "string", "ucp_request": 123}"#);
    let result = get_visibility(&prop, Direction::Request, "create", "/test");
    assert!(matches!(result, Err(ResolveError::InvalidAnnotationType { .. })));
}

#[test]
fn get_visibility_unknown_visibility_errors() {
    let prop = parse(r#"{"type": "string", "ucp_request": "readonly"}"#);
    let result = get_visibility(&prop, Direction::Request, "create", "/test");
    assert!(matches!(
        result,
        Err(ResolveError::UnknownVisibility { value, .. }) if value == "readonly"
    ));
}

#[test]
fn get_visibility_unknown_in_dict_errors() {
    let prop = parse(r#"{"type": "string", "ucp_request": {"create": "maybe"}}"#);
    let result = get_visibility(&prop, Direction::Request, "create", "/test");
    assert!(matches!(
        result,
        Err(ResolveError::UnknownVisibility { value, .. }) if value == "maybe"
    ));
}

#[test]
fn get_visibility_invalid_schema_transition_errors() {
    let prop = parse(
        r#"{
            "type": "string",
            "ucp_request": {
                "update": {
                    "transition": {
                        "from": "required",
                        "to": "omit"
                    }
                }
            }
        }"#,
    );
    let result = get_visibility(&prop, Direction::Request, "update", "/test");
    assert!(matches!(result, Err(ResolveError::InvalidSchemaTransition { .. })));
}

// === Transformation Tests ===

#[test]
fn resolve_omit_removes_field() {
    let schema = parse(
        r#"{
            "type": "object",
            "properties": {
                "id": { "type": "string", "ucp_request": "omit" },
                "name": { "type": "string" }
            }
        }"#,
    );
    let options = ResolveOptions::new(Direction::Request, "create");
    let result = resolved(&schema, &options);

    assert!(result["properties"].get("id").is_none());
    assert!(result["properties"].get("name").is_some());
}

#[test]
fn resolve_omit_removes_from_required() {
    let schema = parse(
        r#"{
            "type": "object",
            "required": ["id", "name"],
            "properties": {
                "id": { "type": "string", "ucp_request": "omit" },
                "name": { "type": "string" }
            }
        }"#,
    );
    let options = ResolveOptions::new(Direction::Request, "create");
    let result = resolved(&schema, &options);

    let required = result["required"].as_array().unwrap();
    assert!(!required.contains(&value(r#""id""#)));
    assert!(required.contains(&value(r#""name""#)));
}

#[test]
fn resolve_required_adds_to_required() {
    let schema = parse(
        r#"{
            "type": "object",
            "properties": {
                "id": { "type": "string", "ucp_request": "required" }
            }
        }"#,
    );
    let options = ResolveOptions::new(Direction::Request, "create");
    let result = resolved(&schema, &options);

    let required = result["required"].as_array().unwrap();
    assert!(required.contains(&value(r#""id""#)));
}

#[test]
fn resolve_optional_removes_from_required() {
    let schema = parse(
        r#"{
            "type": "object",
            "required": ["id"],
            "properties": {
                "id": { "type": "string", "ucp_request": "optional" }
            }
        }"#,
    );
    let options = ResolveOptions::new(Direction::Request, "create");
    let result = resolved(&schema, &options);

    let required = result["required"].as_array().unwrap();
    assert!(!required.contains(&value(r#""id""#)));
}

#[test]
fn resolve_schema_transition_emits_transition_info() {
    let schema = parse(
        r#"{
            "type": "object",
            "required": ["id"],
            "properties": {
                "id": {
                    "type": "string",
                    "ucp_request": {
                        "transition": {
                            "from": "required",
                            "to": "optional",
                            "description": "Will become optional in v2."
                        }
                    }
                }
            }
        }"#,
    );
    let options = ResolveOptions::new(Direction::Request, "create");
    let result = resolved(&schema, &options);

    assert!(result["properties"].get("id").is_some());
    let required = result["required"].as_array().unwrap();
    assert!(required.contains(&value(r#""id""#)));
    let transition = result["properties"]["id"]
        .get("x-ucp-schema-transition")
        .unwrap();
    assert_eq!(transition["from"], "required");
    assert_eq!(transition["to"], "optional");
    assert_eq!(transition["description"], "Will become optional in v2.");
    assert!(result["properties"]["id"].get("deprecated").is_none());
}

#[test]
fn resolve_schema_transition_sets_deprecated_when_to_omit() {
    let schema = parse(
        r#"{
            "type": "object",
            "required": ["id"],
            "properties": {
                "id": {
                    "type": "string",
                    "ucp_request": {
                        "transition": {
                            "from": "optional",
                            "to": "omit",
                            "description": "Will be removed in v2."
                        }
                    }
                }
            }
        }"#,
    );
    let options = ResolveOptions::new(Direction::Request, "create");
    let result = resolved(&schema, &options);

    assert!(result["properties"].get("id").is_some());
    let required = result["required"].as_array().unwrap();
    assert!(!required.contains(&value(r#""id""#)));
    assert!(result["properties"]["id"]
        .get("x-ucp-schema-transition")
        .is_some());
    assert_eq!(result["properties"]["id"]["deprecated"], true);
}

#[test]
fn resolve_schema_transition_per_operation() {
    let schema = parse(
        r#"{
            "type": "object",
            "required": ["id"],
            "properties": {
                "id": {
                    "type": "string",
                    "ucp_request": {
                        "create": "omit",
                        "update": {
                            "transition": {
                                "from": "required",
                                "to": "omit",
                                "description": "Removing in v2."
                            }
                        }
                    }
                }
            }
        }"#,
    );

    let options = ResolveOptions::new(Direction::Request, "create");
    let result = resolved(&schema, &options);
    assert!(result["properties"].get("id").is_none());

    let options = ResolveOptions::new(Direction::Request, "update");
    let result = resolved(&schema, &options);
    assert!(result["properties"].get("id").is_some());
    let required = result["required"].as_array().unwrap();
    assert!(required.contains(&value(r#""id""#)));
    assert_eq!(
        result["properties"]["id"]["x-ucp-schema-transition"]["description"],
        "Removing in v2."
    );
}

#[test]
fn resolve_include_preserves_original() {
    let schema = parse(
        r#"{
            "type": "object",
            "required": ["id"],
            "properties": {
                "id": { "type": "string" },
                "name": { "type": "string" }
            }
        }"#,
    );
    let options = ResolveOptions::new(Direction::Request, "create");
    let result = resolved(&schema, &options);

    // Both fields should be present
    assert!(result["properties"].get("id").is_some());
    assert!(result["properties"].get("name").is_some());

    // Required should be preserved
    let required = result["required"].as_array().unwrap();
    assert!(required.contains(&value(r#""id""#)));
    assert!(!required.contains(&value(r#""name""#)));
}

#[test]
fn resolver_resolve_strips_annotations() {
    let schema = parse(
        r#"{
            "type": "object",
            "properties": {
                "id": {
                    "type": "string",
                    "ucp_request": "required",
                    "ucp_response": "omit"
                }
            }
        }"#,
    );
    let options = ResolveOptions::new(Direction::Request, "create");
    let result = resolved(&schema, &options);

    // Annotations should be stripped
    assert!(result["properties"]["id"].get("ucp_request").is_none());
    assert!(result["properties"]["id"].get("ucp_response").is_none());
}

#[test]
fn resolve_empty_schema_after_filtering() {
    let schema = parse(
        r#"{
            "type": "object",
            "required": ["id"],
            "properties": {
                "id": { "type": "string", "ucp_request": "omit" }
            }
        }"#,
    );
    let options = ResolveOptions::new(Direction::Request, "create");
    let result = resolved(&schema, &options);

    // Properties should be empty object
    assert_eq!(result["properties"], value("{}"));
    // Required should be empty array
    assert_eq!(result["required"], value("[]"));
}

// === Strip Annotations Tests ===

#[test]
fn strip_annotations_removes_all_ucp() {
    let schema = parse(
        r#"{
            "type": "object",
            "properties": {
                "id": {
                    "type": "string",
                    "ucp_request": "omit",
                    "ucp_response": "required"
                }
            }
        }"#,
    );
    let result = from_json(&strip_annotations(&schema));

    assert!(result["properties"]["id"].get("ucp_request").is_none());
    assert!(result["properties"]["id"].get("ucp_response").is_none());
}
