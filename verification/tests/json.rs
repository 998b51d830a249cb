use mission_control::json::{json_to_string, str_eq, JsonValue};

fn lib(v: &serde_json::Value) -> JsonValue {
    match v {
        serde_json::Value::Null => JsonValue::Null,
        serde_json::Value::Bool(b) => JsonValue::Bool(*b),
        serde_json::Value::Number(n) => JsonValue::Number(n.to_string()),
        serde_json::Value::String(s) => JsonValue::Str(s.clone()),
        serde_json::Value::Array(a) => JsonValue::Array(a.iter().map(lib).collect()),
        serde_json::Value::Object(m) => JsonValue::Object(m.iter().map(|(k, v)| (k.clone(), lib(v))).collect()),
    }
}

#[test]
fn compact_text_matches_serde_json() {
    let texts = [
        r#"null"#,
        r#"[true,false,1,-2.5,"x"]"#,
        r#"{"a":{"b":[1,{"c":null}]},"command":"cargo test"}"#,
        r#""quote \" backslash \\ slash / newline \n tab \t cr \r""#,
        r#""bell \u0007 esc \u001b del \u007f é ✓ 🦀""#,
        r#"{"":[],"k":{}}"#,
    ];
    for t in texts {
        let v: serde_json::Value = serde_json::from_str(t).unwrap();
        assert_eq!(json_to_string(&lib(&v)), serde_json::to_string(&v).unwrap(), "for {t}");
    }
}

#[test]
fn string_equality() {
    assert!(str_eq("abc", "abc"));
    assert!(!str_eq("abc", "abd"));
    assert!(!str_eq("ab", "abc"));
    assert!(str_eq("", ""));
}

#[test]
fn member_lookup_takes_the_first_entry() {
    let v = JsonValue::Object(vec![
        ("k".to_string(), JsonValue::Str("first".to_string())),
        ("k".to_string(), JsonValue::Str("second".to_string())),
    ]);
    assert_eq!(v.get("k").and_then(|x| x.as_str()), Some("first"));
    assert!(v.get("missing").is_none());
    assert_eq!(JsonValue::Bool(true).as_bool(), Some(true));
    assert_eq!(JsonValue::Null.as_str(), None);
}
