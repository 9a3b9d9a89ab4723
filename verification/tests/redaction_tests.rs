use std::io::Cursor;

use text_redaction::data::Position;
use text_redaction::{Pattern, Redaction};

const TEXT: &str = "foo,bar,baz,extra";

#[test]
fn test_by_pattern() {
    let pattern = Pattern::new("(foo)", 1).unwrap();
    let patterns = vec![
        Pattern::new("(bar)", 1).unwrap(),
        Pattern::new("(baz)", 1).unwrap(),
    ];
    assert_eq!(
        Redaction::new()
            .add_pattern(pattern)
            .add_patterns(patterns)
            .redact_str(TEXT),
        "[TEXT_REDACTED],[TEXT_REDACTED],[TEXT_REDACTED],extra"
    );
}

#[test]
fn test_bt_value() {
    assert_eq!(
        Redaction::new()
            .add_value("foo")
            .unwrap()
            .add_values(vec!["bar", "baz"])
            .unwrap()
            .redact_str(TEXT),
        "[TEXT_REDACTED],[TEXT_REDACTED],[TEXT_REDACTED],extra"
    );
}

#[test]
fn can_redact_str() {
    let pattern = Pattern::new("(bar)", 1).unwrap();
    let redaction = Redaction::new().add_pattern(pattern);
    assert_eq!(redaction.redact_str(TEXT), "foo,[TEXT_REDACTED],baz,extra");
}

#[test]
fn can_redact_str_with_info() {
    let pattern = Pattern::new("(bar)", 1).unwrap();
    let redaction = Redaction::new().add_pattern(pattern);
    let info = redaction.redact_str_with_info(TEXT);
    assert_eq!(info.string, "foo,[TEXT_REDACTED],baz,extra");
    assert_eq!(info.captures.len(), 1);
    assert_eq!(info.captures[0].text, "bar");
    assert_eq!(
        info.captures[0].position,
        Some(Position { line: 1, start_offset: 4, end_offset: 7 })
    );
}

#[test]
fn can_redact_reader() {
    let pattern = Pattern::new("(bar)", 1).unwrap();
    let redaction = Redaction::new().add_pattern(pattern);
    let out = redaction.redact_reader(Cursor::new(TEXT.as_bytes())).unwrap();
    assert_eq!(out, "foo,[TEXT_REDACTED],baz,extra");
}

#[test]
fn can_redact_reader_with_info() {
    let pattern = Pattern::new("(bar)", 1).unwrap();
    let redaction = Redaction::new().add_pattern(pattern);
    let info = redaction
        .redact_reader_with_info(Cursor::new(TEXT.as_bytes()))
        .unwrap();
    assert_eq!(info.string, "foo,[TEXT_REDACTED],baz,extra");
    assert_eq!(info.captures.len(), 1);
    assert_eq!(info.captures[0].text, "bar");
}

#[test]
fn can_redact_with_multiple_patterns() {
    let patterns = vec![
        Pattern::new("(bar)", 1).unwrap(),
        Pattern::new("(foo),(bar),(baz)", 3).unwrap(),
    ];
    let redaction = Redaction::new().add_patterns(patterns);
    assert_eq!(
        redaction.redact_str(TEXT),
        "foo,[TEXT_REDACTED],[TEXT_REDACTED],extra"
    );
}

#[test]
fn can_redact_with_placeholder_text() {
    let pattern = Pattern::new("(bar)", 1).unwrap();
    let redaction = Redaction::custom("[HIDDEN_TEXT]").add_pattern(pattern);
    assert_eq!(redaction.redact_str(TEXT), "foo,[HIDDEN_TEXT],baz,extra");
}

#[test]
fn can_redact_json() {
    let pattern = Pattern::new("(redact-by-pattern)", 1).unwrap();
    let json = r#"{"all-path":{"b":{"key":"redact_me"},"foo":"redact_me","key":"redact_me"},"by-pattern":"redact-by-pattern","by-value":"bar","key":"redact_me","skip":"skip-redaction","specific-key":{"b":{"key":"skip-redaction"},"foo":"skip-redaction","key":"redact_me"}}"#;
    let redaction = Redaction::default()
        .add_pattern(pattern)
        .add_path("all-path.*")
        .add_path("specific-key.key")
        .add_key("key")
        .add_value("bar")
        .unwrap();
    assert_eq!(
        redaction.redact_json(json).unwrap(),
        r#"{"all-path":"[TEXT_REDACTED]","by-pattern":"[TEXT_REDACTED]","by-value":"[TEXT_REDACTED]","key":"[TEXT_REDACTED]","skip":"skip-redaction","specific-key":{"b":{"key":"[TEXT_REDACTED]"},"foo":"skip-redaction","key":"[TEXT_REDACTED]"}}"#
    );
}

#[test]
fn redact_json_rejects_malformed_text() {
    let redaction = Redaction::new();
    let r = redaction.redact_json("no json here");
    assert!(r.is_err());
}

#[test]
fn escaped_value_matches_literally_only() {
    let redaction = Redaction::new().add_value("a.b").unwrap();
    assert_eq!(redaction.redact_str("aXb,a.b"), "aXb,[TEXT_REDACTED]");
}
