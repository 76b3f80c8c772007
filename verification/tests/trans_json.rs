use trans_json::TransError;
use trans_json::TransJson;

/// Decodes the field `key` of `v`, itself JSON encoded as a string
/// (the stringified-subdocument convention).
fn nested(v: &serde_json::Value, key: &str) -> serde_json::Value {
    serde_json::from_str(v[key].as_str().unwrap()).unwrap()
}

fn check_small(json: &str) {
    let v: serde_json::Value = serde_json::from_str(json).unwrap();
    let inner = nested(&v, "other_struct");
    assert_eq!(inner["value"].as_i64().unwrap(), 42);
}

#[test]
fn small() {
    // one line and use escape
    let s: &str = &r#"{"other_struct":"{\"value\":42}"}"#;
    check_small(s);

    // one line and not use escape
    let s: &str = &r#"{"other_struct":{"value":42}}"#;
    let translator = TransJson::new(s);
    let json = translator.escape().unwrap();
    check_small(&json);

    // multi line and use escape
    let s: &str = &r#"
    {
        "other_struct": "{
            \"value\": 42
        }"
    }
    "#;
    let translator = TransJson::new(s);
    let json = translator.oneline();
    check_small(&json);

    // multi line and not use escape
    let s: &str = &r#"
    {
        "other_struct": {
            "value": 42
        }
    }
    "#;
    let translator = TransJson::new(s);
    let json = translator.trans().unwrap();
    check_small(&json);
}

fn check_big(json: &str) {
    let v: serde_json::Value = serde_json::from_str(json).unwrap();
    let d = nested(&v, "other_struct");
    let arr = nested(&d, "other_structs");
    let items = arr.as_array().unwrap();
    assert_eq!(items.len(), 1);
    assert_eq!(items[0]["value"].as_i64().unwrap(), 42);
}

#[test]
fn big() {
    // one line and use escape
    let s: &str = r#"{"other_struct":"{\"other_structs\":\"[{\\\"value\\\":42}]\"}"}"#;
    check_big(s);

    // one line and not use escape
    let s = r#"{"other_struct":{"other_structs":[{"value":42}]}}"#;
    let translator = TransJson::new(s);
    let json = translator.escape().unwrap();
    check_big(&json);

    // multi line and use escape
    let s = r#"
    {
        "other_struct" : "{
            \"other_structs\" : \"[
                {
                    \\\"value\\\" : 42
                }
            ]\"
        }"
    }
    "#;
    let translator = TransJson::new(s);
    let json = translator.oneline();
    check_big(&json);

    // multi line and not use escape
    let s = r#"
    {
        "other_struct" : {
            "other_structs" : [
                {
                    "value" : 42
                }
            ]
        }
    }
    "#;
    let translator = TransJson::new(s);
    let json = translator.trans().unwrap();
    check_big(&json);
}

#[test]
fn array() {
    let s = r#"
    [
        {
            "value": 42
        },
        {
            "value": 28
        }
    ]
    "#;
    let translator = TransJson::new(s);
    let json = translator.trans().unwrap();
    let v: serde_json::Value = serde_json::from_str(&json).unwrap();
    let items = v.as_array().unwrap();
    assert_eq!(items.len(), 2);
    assert_eq!(items[0]["value"].as_i64().unwrap(), 42);
    assert_eq!(items[1]["value"].as_i64().unwrap(), 28);
}

#[test]
fn escape_single_nesting_exact() {
    let s = r#"{"other_struct":{"value":42}}"#;
    let json = TransJson::new(s).escape().unwrap();
    assert_eq!(json, r#"{"other_struct":"{\"value\":42}"}"#);
}

#[test]
fn escape_double_nesting_exact() {
    let s = r#"{"other_struct":{"other_structs":[{"value":42}]}}"#;
    let json = TransJson::new(s).escape().unwrap();
    assert_eq!(json, r#"{"other_struct":"{\"other_structs\":\"[{\\\"value\\\":42}]\"}"}"#);
}

#[test]
fn escape_root_array_unquoted() {
    let s = r#"[{"value":42},{"value":28}]"#;
    let json = TransJson::new(s).escape().unwrap();
    assert_eq!(json, r#"[{"value":42},{"value":28}]"#);
}

#[test]
fn escape_depth_runs() {
    // Quote escape runs of lengths 0, 1 and 3 backslashes appear at
    // depths 0, 1 and 2.
    let s = r#"{"a":{"b":{"c":"x"}}}"#;
    let json = TransJson::new(s).escape().unwrap();
    assert_eq!(json, r#"{"a":"{\"b\":\"{\\\"c\\\":\\\"x\\\"}\"}"}"#);
}

#[test]
fn escape_malformed_reports_error() {
    let s = r#"{"a": {"b": 1}"#;
    let r = TransJson::new(s).escape();
    assert!(matches!(r, Err(TransError::UnterminatedStructure)));
    let r = TransJson::new(s).trans();
    assert!(matches!(r, Err(TransError::UnterminatedStructure)));
}

#[test]
fn escape_unclosed_array_reports_error() {
    let r = TransJson::new(r#"[{"value":42}"#).escape();
    assert!(matches!(r, Err(TransError::UnterminatedStructure)));
}

#[test]
fn oneline_removes_line_breaks_exact() {
    let s = "a\r\nb\nc\r";
    let json = TransJson::new(s).oneline();
    assert_eq!(json, "abc");
}

#[test]
fn oneline_idempotent_concrete() {
    let s = "line one\r\nline two\n";
    let once = TransJson::new(s).oneline();
    let twice = TransJson::new(&once).oneline();
    assert_eq!(once, twice);
    assert_eq!(once, "line oneline two");
}

#[test]
fn empty_input() {
    assert_eq!(TransJson::new("").oneline(), "");
    assert_eq!(TransJson::new("").escape().unwrap(), "");
    assert_eq!(TransJson::new("").trans().unwrap(), "");
}

#[test]
fn plain_text_passes_through() {
    let s = r#""just a string""#;
    assert_eq!(TransJson::new(s).escape().unwrap(), s);
    assert_eq!(TransJson::new(s).trans().unwrap(), s);
}
