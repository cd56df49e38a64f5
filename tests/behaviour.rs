use serde_json::Value;
use ucp_schema::cli::{
    cli_err, cli_err_ctx, determine_direction, plan_validate, report_error, validation_report,
    Report, ValidateMode,
};
use ucp_schema::compose::DetectedDirection;
use ucp_schema::types::is_valid_schema_transition;
use ucp_schema::{
    get_visibility, resolve, strip_annotations, Direction, Json, ResolveError, ResolveOptions,
    Visibility,
};

fn to_json(v: &Value) -> Json {
    match v {
        Value::Null => Json::Null,
        Value::Bool(b) => Json::Bool(*b),
        Value::Number(n) => Json::Number(n.to_string()),
        Value::String(s) => Json::String(s.clone()),
        Value::Array(a) => Json::Array(a.iter().map(to_json).collect()),
        Value::Object(m) => Json::Object(m.iter().map(|(k, v)| (k.clone(), to_json(v))).collect()),
    }
}

fn from_json(j: &Json) -> Value {
    match j {
        Json::Null => Value::Null,
        Json::Bool(b) => Value::Bool(*b),
        Json::Number(n) => serde_json::from_str(n).unwrap(),
        Json::String(s) => Value::String(s.clone()),
        Json::Array(a) => Value::Array(a.iter().map(from_json).collect()),
        Json::Object(m) => {
            Value::Object(m.iter().map(|(k, v)| (k.clone(), from_json(v))).collect())
        }
    }
}

fn parse(text: &str) -> Json {
    to_json(&serde_json::from_str::<Value>(text).unwrap())
}

fn value(text: &str) -> Value {
    serde_json::from_str(text).unwrap()
}

fn resolved(text: &str, direction: Direction, op: &str) -> Value {
    let options = ResolveOptions::new(direction, op);
    from_json(&resolve(&parse(text), &options).unwrap())
}

fn resolve_err(text: &str, direction: Direction, op: &str) -> ResolveError {
    let options = ResolveOptions::new(direction, op);
    match resolve(&parse(text), &options) {
        Ok(v) => panic!("expected an error, got {}", from_json(&v)),
        Err(e) => e,
    }
}

fn has_annotation(v: &Value) -> bool {
    match v {
        Value::Object(m) => m
            .iter()
            .any(|(k, v)| k == "ucp_request" || k == "ucp_response" || has_annotation(v)),
        Value::Array(a) => a.iter().any(has_annotation),
        _ => false,
    }
}

#[test]
fn omit_removes_field_and_required_entry_exactly() {
    let out = resolved(
        r#"{"type":"object","required":["id","name"],"properties":{"id":{"type":"string","ucp_request":"omit"},"name":{"type":"string"}}}"#,
        Direction::Request,
        "create",
    );
    assert_eq!(
        out,
        value(r#"{"type":"object","properties":{"name":{"type":"string"}},"required":["name"]}"#)
    );
    let keys: Vec<&String> = out.as_object().unwrap().keys().collect();
    assert_eq!(keys, vec!["type", "required", "properties"]);
}

#[test]
fn operation_dispatch_ignores_case() {
    let schema = r#"{"type":"object","properties":{"id":{"type":"string","ucp_request":{"create":"omit","update":"required"}}}}"#;
    let out = resolved(schema, Direction::Request, "CREATE");
    assert!(out["properties"].get("id").is_none());
    let out = resolved(schema, Direction::Request, "update");
    assert_eq!(out["properties"]["id"], value(r#"{"type":"string"}"#));
    assert_eq!(out["required"], value(r#"["id"]"#));
}

#[test]
fn options_keep_operation_in_lower_case() {
    let options = ResolveOptions::new(Direction::Response, "UpDate").strict(true);
    assert_eq!(options.operation, "update");
    assert_eq!(options.direction, Direction::Response);
    assert!(options.strict);
}

#[test]
fn transition_to_omit_keeps_from_state_and_deprecates() {
    let out = resolved(
        r#"{"type":"object","required":["id"],"properties":{"id":{"type":"string","ucp_request":{"transition":{"from":"required","to":"omit","description":"Removed in v2"}}}}}"#,
        Direction::Request,
        "create",
    );
    assert_eq!(
        out["properties"]["id"],
        value(
            r#"{"type":"string","x-ucp-schema-transition":{"from":"required","to":"omit","description":"Removed in v2"},"deprecated":true}"#
        )
    );
    assert_eq!(out["required"], value(r#"["id"]"#));
}

#[test]
fn allof_weakening_base_required_is_rejected() {
    let err = resolve_err(
        r#"{"allOf":[{"required":["id"],"properties":{"id":{"type":"string"}}},{"properties":{"id":{"type":"string","ucp_request":"optional"}}}]}"#,
        Direction::Request,
        "create",
    );
    match err {
        ResolveError::MonotonicityViolation { path, field, base_status, attempted } => {
            assert_eq!(path, "/allOf/0/properties/id");
            assert_eq!(field, "id");
            assert_eq!(base_status, "required");
            assert_eq!(attempted, "optional");
        }
        other => panic!("unexpected error {:?}", other),
    }
}

#[test]
fn allof_omit_on_base_required_is_rejected() {
    let err = resolve_err(
        r#"{"allOf":[{"required":["id"],"properties":{"id":{"type":"string"}}},{"properties":{"id":{"ucp_request":"omit"}}}]}"#,
        Direction::Request,
        "create",
    );
    assert!(matches!(
        err,
        ResolveError::MonotonicityViolation { attempted, .. } if attempted == "omit"
    ));
}

#[test]
fn allof_annotation_propagates_to_base() {
    let out = resolved(
        r#"{"allOf":[{"properties":{"id":{"type":"string"},"note":{"type":"string"}}},{"properties":{"note":{"ucp_request":"omit"}}}]}"#,
        Direction::Request,
        "create",
    );
    assert_eq!(out["allOf"][0]["properties"], value(r#"{"id":{"type":"string"}}"#));
    assert_eq!(out["allOf"][1]["properties"], value("{}"));
}

#[test]
fn allof_required_extension_is_accepted() {
    let out = resolved(
        r#"{"allOf":[{"required":["id"],"properties":{"id":{"type":"string"}}},{"properties":{"id":{"ucp_request":"required"}}}]}"#,
        Direction::Request,
        "create",
    );
    assert_eq!(out["allOf"][0]["required"], value(r#"["id"]"#));
    assert_eq!(out["allOf"][1]["required"], value(r#"["id"]"#));
}

#[test]
fn allof_type_conflict_is_rejected() {
    let err = resolve_err(
        r#"{"allOf":[{"properties":{"id":{"type":"string"}}},{"properties":{"id":{"type":"integer"}}}]}"#,
        Direction::Request,
        "create",
    );
    match err {
        ResolveError::TypeConflict { path, base_type, ext_type } => {
            assert_eq!(path, "/allOf/properties/id");
            assert_eq!(base_type, "string");
            assert_eq!(ext_type, "integer");
        }
        other => panic!("unexpected error {:?}", other),
    }
}

#[test]
fn allof_array_types_are_not_compared() {
    let out = resolved(
        r#"{"allOf":[{"properties":{"id":{"type":["string","null"]}}},{"properties":{"id":{"type":"integer"}}}]}"#,
        Direction::Request,
        "create",
    );
    assert_eq!(out["allOf"][1]["properties"]["id"], value(r#"{"type":"integer"}"#));
}

#[test]
fn strict_composition_uses_unevaluated_properties() {
    let options = ResolveOptions::new(Direction::Request, "create").strict(true);
    let schema = parse(
        r#"{"allOf":[{"type":"object","properties":{"a":{"type":"object","properties":{"b":{"type":"string"}}}}},{"properties":{"c":{"type":"string"}}}]}"#,
    );
    let out = from_json(&resolve(&schema, &options).unwrap());
    assert_eq!(out["unevaluatedProperties"], Value::Bool(false));
    assert!(out.get("additionalProperties").is_none());
    assert!(out["allOf"][0].get("additionalProperties").is_none());
    assert!(out["allOf"][1].get("additionalProperties").is_none());
    assert_eq!(
        out["allOf"][0]["properties"]["a"]["additionalProperties"],
        Value::Bool(false)
    );
}

#[test]
fn strict_overwrites_true_and_keeps_schemas() {
    let options = ResolveOptions::new(Direction::Request, "create").strict(true);
    let out = from_json(
        &resolve(
            &parse(
                r#"{"type":"object","additionalProperties":true,"properties":{"m":{"type":"object","additionalProperties":{"type":"string"}}}}"#,
            ),
            &options,
        )
        .unwrap(),
    );
    assert_eq!(out["additionalProperties"], Value::Bool(false));
    assert_eq!(
        out["properties"]["m"]["additionalProperties"],
        value(r#"{"type":"string"}"#)
    );
}

#[test]
fn not_strict_leaves_objects_open() {
    let out = resolved(r#"{"type":"object","properties":{}}"#, Direction::Request, "create");
    assert!(out.get("additionalProperties").is_none());
}

#[test]
fn resolution_removes_annotations_at_any_depth() {
    let out = resolved(
        r#"{"type":"object","properties":{"a":{"type":"object","ucp_response":"omit","properties":{"b":{"type":"string","ucp_request":"required"}}}},"$defs":{"d":{"properties":{"e":{"ucp_request":"optional"}}}},"items":[{"ucp_request":"omit"}]}"#,
        Direction::Request,
        "create",
    );
    assert!(!has_annotation(&out));
    assert_eq!(out["properties"]["a"]["required"], value(r#"["b"]"#));
}

#[test]
fn required_has_no_repeats_and_names_properties() {
    let out = resolved(
        r#"{"required":["a","b"],"properties":{"a":{"ucp_request":"required"},"b":{"ucp_request":"optional"},"c":{"ucp_request":"required"}}}"#,
        Direction::Request,
        "create",
    );
    assert_eq!(out["required"], value(r#"["a","c"]"#));
}

#[test]
fn stripped_schema_resolves_alike_for_all_directions() {
    let schema = parse(
        r#"{"type":"object","required":["id"],"properties":{"id":{"type":"string","ucp_request":"omit","ucp_response":{"read":"optional"}}}}"#,
    );
    let stripped = strip_annotations(&schema);
    let a = resolved_json(&stripped, Direction::Request, "create");
    let b = resolved_json(&stripped, Direction::Response, "read");
    assert_eq!(a, b);
    assert_eq!(
        a,
        value(r#"{"type":"object","properties":{"id":{"type":"string"}},"required":["id"]}"#)
    );
}

fn resolved_json(schema: &Json, direction: Direction, op: &str) -> Value {
    from_json(&resolve(schema, &ResolveOptions::new(direction, op)).unwrap())
}

#[test]
fn empty_and_plain_schemas_pass_through() {
    assert_eq!(resolved("{}", Direction::Request, "create"), value("{}"));
    assert_eq!(resolved("true", Direction::Request, "create"), value("true"));
    assert_eq!(
        resolved(r#"{"enum":[1,2.5,"x"],"const":null}"#, Direction::Response, "read"),
        value(r#"{"enum":[1,2.5,"x"],"const":null}"#)
    );
}

#[test]
fn error_paths_use_item_indexes() {
    let mut items = Vec::new();
    for _ in 0..10 {
        items.push(r#"{"type":"string"}"#.to_string());
    }
    items.push(r#"{"properties":{"x":{"ucp_request":"bogus"}}}"#.to_string());
    let schema = format!(r#"{{"anyOf":[{}]}}"#, items.join(","));
    let err = resolve_err(&schema, Direction::Request, "create");
    match err {
        ResolveError::UnknownVisibility { path, value } => {
            assert_eq!(path, "/anyOf/10/properties/x");
            assert_eq!(value, "bogus");
        }
        other => panic!("unexpected error {:?}", other),
    }
}

#[test]
fn invalid_annotation_type_in_operation_map() {
    let prop = parse(r#"{"ucp_request":{"create":5}}"#);
    let err = get_visibility(&prop, Direction::Request, "create", "/p").unwrap_err();
    match err {
        ResolveError::InvalidAnnotationType { path, actual } => {
            assert_eq!(path, "/p/create");
            assert_eq!(actual, "number");
        }
        other => panic!("unexpected error {:?}", other),
    }
}

#[test]
fn transition_with_equal_states_is_rejected() {
    let prop = parse(
        r#"{"ucp_request":{"transition":{"from":"omit","to":"omit","description":"x"}}}"#,
    );
    let err = get_visibility(&prop, Direction::Request, "create", "/p").unwrap_err();
    match err {
        ResolveError::InvalidSchemaTransition { path, message } => {
            assert_eq!(path, "/p");
            assert_eq!(
                message,
                r#""from" (omit) and "to" (omit) must be distinct visibility values"#
            );
        }
        other => panic!("unexpected error {:?}", other),
    }
}

#[test]
fn transition_without_description_is_rejected() {
    let prop = parse(r#"{"ucp_request":{"transition":{"from":"required","to":"optional"}}}"#);
    let err = get_visibility(&prop, Direction::Request, "create", "/p").unwrap_err();
    assert!(matches!(
        err,
        ResolveError::InvalidSchemaTransition { message, .. }
            if message == r#"missing required field "description""#
    ));
}

#[test]
fn operation_entry_wins_over_transition() {
    let prop = parse(
        r#"{"ucp_request":{"create":"optional","transition":{"from":"required","to":"omit","description":"x"}}}"#,
    );
    let (vis, t) = get_visibility(&prop, Direction::Request, "create", "/p").unwrap();
    assert_eq!(vis, Visibility::Optional);
    assert!(t.is_none());
    let (vis, t) = get_visibility(&prop, Direction::Request, "read", "/p").unwrap();
    assert_eq!(vis, Visibility::Required);
    assert_eq!(t.unwrap().to, "omit");
}

#[test]
fn strip_annotations_reaches_arrays() {
    let out = from_json(&strip_annotations(&parse(
        r#"{"anyOf":[{"ucp_request":"omit","type":"string"}],"ucp_response":"omit"}"#,
    )));
    assert_eq!(out, value(r#"{"anyOf":[{"type":"string"}]}"#));
}

#[test]
fn visibility_names_round_trip() {
    for v in [Visibility::Include, Visibility::Required, Visibility::Optional, Visibility::Omit] {
        assert_eq!(Visibility::parse(v.as_str()), Some(v));
    }
    assert_eq!(Visibility::parse("Omit"), None);
    assert!(is_valid_schema_transition("required", "optional"));
    assert!(!is_valid_schema_transition("required", "required"));
    assert!(!is_valid_schema_transition("required", "gone"));
}

#[test]
fn direction_flags_take_precedence() {
    assert_eq!(determine_direction(true, false, Some(Direction::Response)), Some(Direction::Request));
    assert_eq!(determine_direction(false, true, Some(Direction::Request)), Some(Direction::Response));
    assert_eq!(determine_direction(false, false, Some(Direction::Response)), Some(Direction::Response));
    assert_eq!(determine_direction(false, false, None), None);
    assert_eq!(Direction::Request.annotation_key(), "ucp_request");
    assert_eq!(Direction::Response.annotation_key(), "ucp_response");
}

#[test]
fn errors_report_text_and_exit_code() {
    let err = ResolveError::UnknownVisibility { path: "/p".to_string(), value: "x".to_string() };
    assert_eq!(err.message(), r#"unknown visibility "x" at /p"#);
    assert_eq!(err.exit_code(), 2);
    let (report, code) = cli_err(false, &err);
    assert_eq!(code, 2);
    assert!(matches!(report, Report::Text(s) if s == r#"Error: unknown visibility "x" at /p"#));
    let (report, _) = cli_err_ctx(false, "bundling refs", &err);
    assert!(matches!(
        report,
        Report::Text(s) if s == r#"Error: bundling refs: unknown visibility "x" at /p"#
    ));
}

#[test]
fn json_reports_have_the_error_envelope() {
    match report_error(true, "boom") {
        Report::Document(doc) => assert_eq!(
            from_json(&doc),
            value(r#"{"valid":false,"errors":[{"path":"","message":"boom"}]}"#)
        ),
        _ => panic!("expected a JSON report"),
    }
}

#[test]
fn validate_modes_and_directions() {
    let r = plan_validate(true, false, true, false, false, false, None);
    assert!(matches!(r, Err(m) if m.contains("do not apply with explicit --schema")));
    assert_eq!(
        plan_validate(false, true, false, false, false, false, Some(DetectedDirection::Response)),
        Ok((ValidateMode::Profile, Direction::Request))
    );
    assert_eq!(
        plan_validate(true, false, false, false, false, false, Some(DetectedDirection::Response)),
        Ok((ValidateMode::ExplicitSchema, Direction::Response))
    );
    assert_eq!(
        plan_validate(true, false, false, false, false, false, None),
        Ok((ValidateMode::ExplicitSchema, Direction::Request))
    );
    assert_eq!(
        plan_validate(false, false, true, false, true, false, Some(DetectedDirection::Response)),
        Ok((ValidateMode::SelfDescribingResponse, Direction::Request))
    );
    assert_eq!(
        plan_validate(false, false, false, false, false, false, Some(DetectedDirection::Request)),
        Ok((ValidateMode::JsonRpcRequest, Direction::Request))
    );
    let r = plan_validate(false, false, false, false, false, false, None);
    assert!(matches!(r, Err(m) if m.starts_with("cannot infer direction")));
}

#[test]
fn validation_reports() {
    let (report, code) = validation_report(true, None);
    assert_eq!(code, 0);
    match report {
        Report::Document(doc) => assert_eq!(from_json(&doc), value(r#"{"valid":true}"#)),
        _ => panic!("expected a JSON report"),
    }
    let (report, code) = validation_report(false, None);
    assert_eq!(code, 0);
    assert!(matches!(report, Report::Output(s) if s == "Valid"));
    let errs = vec![("/id".to_string(), "\"id\" is a required property".to_string())];
    let (report, code) = validation_report(true, Some(errs.clone()));
    assert_eq!(code, 1);
    match report {
        Report::Document(doc) => assert_eq!(
            from_json(&doc),
            value(r#"{"valid":false,"errors":[{"path":"/id","message":"\"id\" is a required property"}]}"#)
        ),
        _ => panic!("expected a JSON report"),
    }
    let (report, code) = validation_report(false, Some(errs));
    assert_eq!(code, 1);
    assert!(matches!(report, Report::Text(s) if s == "Validation failed:\n  /id: \"id\" is a required property"));
}

#[test]
fn annotation_named_members_and_odd_shapes_lose_annotations() {
    let out = resolved(
        r#"{"required":["ucp_request","a"],"properties":{"ucp_request":{"type":"string"},"a":{"type":"string"}},"anyOf":{"ucp_request":"omit","x":1},"$defs":{"ucp_response":{"type":"string"}}}"#,
        Direction::Request,
        "create",
    );
    assert!(!has_annotation(&out));
    assert_eq!(out["properties"], value(r#"{"a":{"type":"string"}}"#));
    assert_eq!(out["required"], value(r#"["a"]"#));
    assert_eq!(out["anyOf"], value(r#"{"x":1}"#));
    assert_eq!(out["$defs"], value("{}"));
}

#[test]
fn required_keeps_its_place_or_comes_last() {
    let out = resolved(
        r#"{"properties":{"a":{"ucp_request":"required"}},"type":"object"}"#,
        Direction::Request,
        "create",
    );
    let keys: Vec<&String> = out.as_object().unwrap().keys().collect();
    assert_eq!(keys, vec!["properties", "type", "required"]);
    let out = resolved(
        r#"{"required":[],"type":"object","properties":{"a":{"ucp_request":"required"}}}"#,
        Direction::Request,
        "create",
    );
    let keys: Vec<&String> = out.as_object().unwrap().keys().collect();
    assert_eq!(keys, vec!["required", "type", "properties"]);
    assert_eq!(out["required"], value(r#"["a"]"#));
}
