use text_redaction::json::{JsonValue, Redact};

#[test]
fn can_redact_value_by_key() {
    let json = r#"{"bar":"baz","key":"value"}"#;
    let redact = Redact::default().add_keys(vec!["bar"]);
    assert_eq!(
        redact.redact_str(json).unwrap(),
        r#"{"bar":"[TEXT_REDACTED]","key":"value"}"#
    );
}

#[test]
fn can_redact_value_by_path() {
    let json = r#"{"a":{"b":{"key":"redact_me"},"foo":"bar","key":"skip-redaction"},"key":"skip-redaction"}"#;
    let redact = Redact::default().add_paths(vec!["a.foo"]);
    assert_eq!(
        redact.redact_str(json).unwrap(),
        r#"{"a":{"b":{"key":"redact_me"},"foo":"[TEXT_REDACTED]","key":"skip-redaction"},"key":"skip-redaction"}"#
    );
}

#[test]
fn can_redact_value_by_prefix_path() {
    let json = r#"{"a":{"b":{"key":"redact_me"},"foo":"bar","key":"skip-redaction"},"key":"skip-redaction1"}"#;
    let redact = Redact::default().add_paths(vec!["a.*"]);
    assert_eq!(
        redact.redact_str(json).unwrap(),
        r#"{"a":"[TEXT_REDACTED]","key":"skip-redaction1"}"#
    );
}

#[test]
fn can_redact_value_combination() {
    let json = r#"{"bar":{"b":{"key":"skip-redaction"},"foo":"skip-redaction","key":"redact_me"},"baz":"skip-redaction","foo":{"b":{"key":"redact_me"},"foo":"redact_me","key":"redact_me"},"key":"redact_me"}"#;
    let redact = Redact::default()
        .add_paths(vec!["foo.*", "bar.key"])
        .add_keys(vec!["key"]);
    assert_eq!(
        redact.redact_str(json).unwrap(),
        r#"{"bar":{"b":{"key":"[TEXT_REDACTED]"},"foo":"skip-redaction","key":"[TEXT_REDACTED]"},"baz":"skip-redaction","foo":"[TEXT_REDACTED]","key":"[TEXT_REDACTED]"}"#
    );
}

#[test]
fn can_redact_value_array() {
    let redact = Redact::default();
    let mut array_value = JsonValue::Array(vec![
        JsonValue::String("value-1".to_string()),
        JsonValue::String("value-2".to_string()),
    ]);
    redact.redact_value_array(&mut array_value);
    assert_eq!(
        array_value,
        JsonValue::Array(vec![
            JsonValue::String("[TEXT_REDACTED]".to_string()),
            JsonValue::String("[TEXT_REDACTED]".to_string()),
        ])
    );
}

#[test]
fn redact_value_array_leaves_non_array_alone() {
    let redact = Redact::default();
    let mut value = JsonValue::String("keep".to_string());
    redact.redact_value_array(&mut value);
    assert_eq!(value, JsonValue::String("keep".to_string()));
}

#[test]
fn redact_str_rejects_malformed_json() {
    let redact = Redact::default();
    assert!(redact.redact_str("{not json").is_err());
}

#[test]
fn redact_str_round_trips_untouched_document() {
    let redact = Redact::default();
    let json = r#"{"b":false,"n":12.5,"s":"t","v":null,"z":[1,2]}"#;
    assert_eq!(redact.redact_str(json).unwrap(), json);
}

#[test]
fn redact_value_walks_in_place() {
    let redact = Redact::default().add_keys(vec!["secret"]);
    let mut tree = JsonValue::Object(vec![(
        "outer".to_string(),
        JsonValue::Object(vec![(
            "secret".to_string(),
            JsonValue::String("hidden".to_string()),
        )]),
    )]);
    redact.redact_value(&mut tree, String::new());
    assert_eq!(
        tree,
        JsonValue::Object(vec![(
            "outer".to_string(),
            JsonValue::Object(vec![(
                "secret".to_string(),
                JsonValue::String("[TEXT_REDACTED]".to_string()),
            )]),
        )])
    );
}
