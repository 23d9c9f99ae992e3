use resc_client::json::{canonicalize, is_placeholder_backend, validate_runtime_profile, JsonValue};

fn from_serde(v: &serde_json::Value) -> JsonValue {
    match v {
        serde_json::Value::Null => JsonValue::Null,
        serde_json::Value::Bool(b) => JsonValue::Bool(*b),
        serde_json::Value::Number(n) => JsonValue::Number(n.to_string()),
        serde_json::Value::String(s) => JsonValue::Str(s.clone()),
        serde_json::Value::Array(items) => JsonValue::Array(items.iter().map(from_serde).collect()),
        serde_json::Value::Object(m) => JsonValue::Object(m.iter().map(|(k, v)| (k.clone(), from_serde(v))).collect()),
    }
}

fn parse(text: &str) -> Result<JsonValue, String> {
    serde_json::from_str::<serde_json::Value>(text).map(|v| from_serde(&v)).map_err(|e| e.to_string())
}

#[test]
fn canonicalize_sorts_and_minifies() {
    let v = parse("{\"b\": 2, \"a\": {\"d\": 4, \"c\": 3}}").unwrap();
    assert_eq!(canonicalize(&v).as_bytes(), b"{\"a\":{\"c\":3,\"d\":4},\"b\":2}");
}

#[test]
fn canonical_form_matches_the_json_writer() {
    let text = "{\"z\":[1,true,null,\"q\\\"\\n\\u0001\u{e9}\"],\"a\":-5,\"m\":{}}";
    let v: serde_json::Value = serde_json::from_str(text).unwrap();
    let mut sorted = std::collections::BTreeMap::new();
    if let serde_json::Value::Object(m) = &v {
        for (k, x) in m {
            sorted.insert(k.clone(), x.clone());
        }
    }
    let expected = serde_json::to_string(&sorted).unwrap();
    assert_eq!(canonicalize(&from_serde(&v)), expected);
    assert_eq!(canonicalize(&from_serde(&v)), "{\"a\":-5,\"m\":{},\"z\":[1,true,null,\"q\\\"\\n\\u0001\u{e9}\"]}");
}

#[test]
fn placeholder_and_backend_checks() {
    let ok = "{\"decoder_backend\":\"sw1-lowdelay\",\"id\":1}";
    assert!(validate_runtime_profile(ok, parse(ok)).is_ok());
    let placeholder = "{\"decoder_backend\":\"TBD-A00\"}";
    assert!(is_placeholder_backend(&parse(placeholder).unwrap()));
    let err = validate_runtime_profile(placeholder, parse(placeholder)).unwrap_err();
    assert!(err.contains("TBD-A00"), "got: {err}");
    assert_eq!(err, "decoder_backend is the TBD-A00 placeholder \u{2014} rejected outside A0.0 tooling (ERR-02)");
    let unknown = "{\"decoder_backend\":\"h\\\"x\"}";
    assert_eq!(
        validate_runtime_profile(unknown, parse(unknown)).unwrap_err(),
        "unknown decoder_backend: Some(\"h\\\"x\")"
    );
    let missing = "{\"id\":1}";
    assert_eq!(validate_runtime_profile(missing, parse(missing)).unwrap_err(), "unknown decoder_backend: None");
    let spaced = "{\"decoder_backend\": \"sw1-lowdelay\"}";
    assert_eq!(
        validate_runtime_profile(spaced, parse(spaced)).unwrap_err(),
        "profile bytes are not in canonical form"
    );
    assert!(validate_runtime_profile("{", parse("{")).unwrap_err().starts_with("profile parse: "));
}

#[test]
fn object_keys_come_out_in_code_point_order() {
    let num = |t: &str| JsonValue::Number(t.to_string());
    let v = JsonValue::Object(vec![
        ("b".to_string(), num("1")),
        ("ab".to_string(), num("2")),
        ("B".to_string(), num("3")),
        ("a".to_string(), num("4")),
    ]);
    assert_eq!(canonicalize(&v), "{\"B\":3,\"a\":4,\"ab\":2,\"b\":1}");
}
