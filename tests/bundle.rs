use serde_json::Value;
use ucp_schema::bundle::{bundle_refs, BundleError};
use ucp_schema::pointer::resolve_pointer;
use ucp_schema::Json;

fn to_json(v: &Value) -> Json {
    match v {
        Value::Null => Json::Null,
        Value::Bool(b) => Json::Bool(*b),
        Value::Number(n) => Json::Number(n.to_string()),
        Value::String(s) => Json::String(s.clone()),
        Value::Array(a) => Json::Array(a.iter().map(to_json).collect()),
        Value::Object(m) => Json::Object(m.iter().map(|(k, v)| (k.clone(), to_json(v))).collect()),
    }
}

fn from_json(j: &Json) -> Value {
    match j {
        Json::Null => Value::Null,
        Json::Bool(b) => Value::Bool(*b),
        Json::Number(n) => serde_json::from_str(n).unwrap(),
        Json::String(s) => Value::String(s.clone()),
        Json::Array(a) => Value::Array(a.iter().map(from_json).collect()),
        Json::Object(m) => {
            Value::Object(m.iter().map(|(k, v)| (k.clone(), from_json(v))).collect())
        }
    }
}

fn parse(text: &str) -> Json {
    to_json(&serde_json::from_str::<Value>(text).unwrap())
}

fn value(text: &str) -> Value {
    serde_json::from_str(text).unwrap()
}

fn bundle(doc: &Json) -> Result<Json, BundleError> {
    bundle_refs(doc, "schema.json", &Vec::new())
}

fn bundled(text: &str) -> Value {
    from_json(&bundle(&parse(text)).unwrap())
}

#[test]
fn internal_defs_are_inlined_and_siblings_dropped() {
    let out = bundled(
        r##"{"$defs":{"name":{"type":"string","minLength":1}},"properties":{"a":{"$ref":"#/$defs/name","description":"dropped"}}}"##,
    );
    assert_eq!(out["properties"]["a"], value(r#"{"type":"string","minLength":1}"#));
}

#[test]
fn self_root_reference_is_preserved() {
    let out = bundled(
        r##"{"$defs":{"node":{"type":"object","properties":{"children":{"type":"array","items":{"$ref":"#"}}}}},"properties":{"tree":{"$ref":"#/$defs/node"}}}"##,
    );
    assert_eq!(out["properties"]["tree"]["properties"]["children"]["items"], value(r##"{"$ref":"#"}"##));
}

#[test]
fn nested_references_are_inlined_first() {
    let out = bundled(
        r##"{"$defs":{"a":{"$ref":"#/$defs/b"},"b":{"type":"integer"}},"items":{"$ref":"#/$defs/a"}}"##,
    );
    assert_eq!(out["items"], value(r#"{"type":"integer"}"#));
    assert_eq!(out["$defs"]["a"], value(r#"{"type":"integer"}"#));
}

#[test]
fn circular_references_are_rejected() {
    let err = bundle(&parse(
        r##"{"$defs":{"a":{"$ref":"#/$defs/b"},"b":{"$ref":"#/$defs/a"}},"items":{"$ref":"#/$defs/a"}}"##,
    ))
    .unwrap_err();
    match err {
        BundleError::CircularReference { chain } => {
            // "$defs" comes first, so the cycle is met from "a"'s reference to "b".
            assert_eq!(chain, vec!["schema.json#/$defs/b", "schema.json#/$defs/a", "schema.json#/$defs/b"]);
        }
        other => panic!("unexpected {:?}", other),
    }
}

#[test]
fn missing_pointer_is_rejected() {
    let err = bundle(&parse(r##"{"items":{"$ref":"#/$defs/none"}}"##)).unwrap_err();
    assert!(matches!(
        err,
        BundleError::PointerNotFound { pointer, in_document } if pointer == "#/$defs/none" && in_document == "schema.json"
    ));
    assert_eq!(BundleError::DepthExceeded.exit_code(), 2);
}

#[test]
fn external_documents_are_asked_for_then_inlined() {
    let doc = parse(r#"{"type":"object","properties":{"tree":{"$ref":"types/node.json"}}}"#);
    let err = bundle_refs(&doc, "dir/schema.json", &Vec::new()).unwrap_err();
    assert!(matches!(err, BundleError::DocumentNotLoaded { ref location } if location == "dir/types/node.json"));
    assert_eq!(err.message(), "document not loaded: dir/types/node.json");
    let node = parse(
        r##"{"type":"object","properties":{"value":{"type":"string"},"children":{"type":"array","items":{"$ref":"#"}}}}"##,
    );
    let docs = vec![("dir/types/node.json".to_string(), node)];
    let out = from_json(&bundle_refs(&doc, "dir/schema.json", &docs).unwrap());
    assert_eq!(
        out,
        value(
            r##"{"type":"object","properties":{"tree":{"type":"object","properties":{"value":{"type":"string"},"children":{"type":"array","items":{"$ref":"#"}}}}}}"##
        )
    );
}

#[test]
fn fragments_of_other_documents_resolve_there() {
    let doc = parse(r#"{"properties":{"a":{"$ref":"defs.json#/$defs/x"}}}"#);
    let defs = parse(r##"{"$defs":{"x":{"$ref":"#/$defs/y"},"y":{"type":"integer"}}}"##);
    let docs = vec![("defs.json".to_string(), defs)];
    let out = from_json(&bundle_refs(&doc, "schema.json", &docs).unwrap());
    assert_eq!(out["properties"]["a"], value(r#"{"type":"integer"}"#));
}

#[test]
fn circular_documents_are_rejected() {
    let doc = parse(r#"{"properties":{"start":{"$ref":"types/a.json"}}}"#);
    let a = parse(r#"{"type":"object","properties":{"b":{"$ref":"b.json"}}}"#);
    let b = parse(r#"{"type":"object","properties":{"a":{"$ref":"a.json"}}}"#);
    let docs = vec![("types/a.json".to_string(), a), ("types/b.json".to_string(), b)];
    let err = bundle_refs(&doc, "schema.json", &docs).unwrap_err();
    match &err {
        BundleError::CircularReference { chain } => {
            assert_eq!(chain, &vec!["types/a.json#", "types/b.json#", "types/a.json#"]);
        }
        other => panic!("unexpected {:?}", other),
    }
    assert_eq!(
        err.message(),
        "circular reference: -> types/a.json# -> types/b.json# -> types/a.json#"
    );
}

#[test]
fn bundling_twice_changes_nothing() {
    let doc = parse(
        r##"{"$defs":{"n":{"type":"object","properties":{"next":{"$ref":"#"}}}},"allOf":[{"$ref":"#/$defs/n"}]}"##,
    );
    let once = bundle(&doc).unwrap();
    let twice = bundle(&once).unwrap();
    assert_eq!(from_json(&once), from_json(&twice));
    assert_eq!(from_json(&once)["allOf"][0]["properties"]["next"], value(r##"{"$ref":"#"}"##));
}

#[test]
fn documents_without_references_are_unchanged() {
    let text = r#"{"type":"object","properties":{"a":{"type":"array","items":[1,2]}}}"#;
    assert_eq!(bundled(text), value(text));
}

#[test]
fn pointers_unescape_and_index_arrays() {
    let doc = parse(r#"{"a/b":{"m~n":[10,20,{"k":"v"}]}}"#);
    let p: Vec<char> = "/a~1b/m~0n/2/k".chars().collect();
    assert_eq!(from_json(resolve_pointer(&doc, &p).unwrap()), value(r#""v""#));
    let p: Vec<char> = "/a~1b/m~0n/01".chars().collect();
    assert!(resolve_pointer(&doc, &p).is_none());
    let p: Vec<char> = "/a~1b/m~0n/3".chars().collect();
    assert!(resolve_pointer(&doc, &p).is_none());
    let p: Vec<char> = Vec::new();
    assert_eq!(from_json(resolve_pointer(&doc, &p).unwrap()), from_json(&doc));
}
