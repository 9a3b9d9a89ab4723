use text_redaction::data::{Position, RedactError};
use text_redaction::{Pattern, Redaction};

#[test]
fn placeholder_output_is_fixed_point() {
    let redaction = Redaction::new().add_pattern(Pattern::new("(bar)", 1).unwrap());
    let once = redaction.redact_str("foo,bar");
    assert_eq!(once, "foo,[TEXT_REDACTED]");
    let twice = redaction.redact_str(&once);
    assert_eq!(twice, once);
}

#[test]
fn capture_order_follows_rule_declaration_order() {
    let redaction = Redaction::new()
        .add_pattern(Pattern::new("(bar,baz)", 1).unwrap())
        .add_pattern(Pattern::new("(foo,bar)", 1).unwrap());
    let info = redaction.redact_str_with_info("foo,bar,baz");
    let texts: Vec<&str> = info.captures.iter().map(|c| c.text.as_str()).collect();
    assert_eq!(texts, vec!["bar,baz", "foo,bar"]);
    assert_eq!(info.string, "foo,[TEXT_REDACTED]");
}

#[test]
fn each_capture_consumes_one_first_occurrence() {
    let redaction = Redaction::new().add_pattern(Pattern::new("(foo)", 1).unwrap());
    assert_eq!(
        redaction.redact_str("foo,foo"),
        "[TEXT_REDACTED],[TEXT_REDACTED]"
    );
}

#[test]
fn group_selection_redacts_only_the_requested_group() {
    let redaction = Redaction::new().add_pattern(Pattern::new("(foo),(bar)", 2).unwrap());
    assert_eq!(redaction.redact_str("foo,bar"), "foo,[TEXT_REDACTED]");
}

#[test]
fn path_redaction_hits_one_value_key_redaction_hits_all() {
    let doc = r#"{"a":{"b":{"key":"x"},"foo":"y","key":"z"},"key":"w"}"#;

    let by_path = Redaction::new().add_path("a.foo");
    assert_eq!(
        by_path.redact_json(doc).unwrap(),
        r#"{"a":{"b":{"key":"x"},"foo":"[TEXT_REDACTED]","key":"z"},"key":"w"}"#
    );

    let by_key = Redaction::new().add_key("key");
    assert_eq!(
        by_key.redact_json(doc).unwrap(),
        r#"{"a":{"b":{"key":"[TEXT_REDACTED]"},"foo":"y","key":"[TEXT_REDACTED]"},"key":"[TEXT_REDACTED]"}"#
    );
}

#[test]
fn prefix_path_collapses_whole_subtree_to_one_string() {
    let doc = r#"{"a":{"b":{"key":"x"},"foo":"y","key":"z"},"key":"w"}"#;
    let redaction = Redaction::new().add_path("a.*");
    assert_eq!(
        redaction.redact_json(doc).unwrap(),
        r#"{"a":"[TEXT_REDACTED]","key":"w"}"#
    );
}

#[test]
fn array_key_redaction_preserves_shape() {
    let doc = r#"{"arr":["x","y","z"],"other":["x"]}"#;
    let redaction = Redaction::new().add_key("arr");
    assert_eq!(
        redaction.redact_json(doc).unwrap(),
        r#"{"arr":["[TEXT_REDACTED]","[TEXT_REDACTED]","[TEXT_REDACTED]"],"other":["x"]}"#
    );
}

#[test]
fn position_reports_line_and_byte_offsets() {
    let redaction = Redaction::new().add_pattern(Pattern::new("(foo)", 1).unwrap());
    let info = redaction.redact_str_with_info("a\nb\nfoo");
    assert_eq!(info.captures.len(), 1);
    assert_eq!(info.captures[0].text, "foo");
    assert_eq!(
        info.captures[0].position,
        Some(Position { line: 3, start_offset: 4, end_offset: 7 })
    );
}

#[test]
fn batch_value_validation_names_every_failing_value() {
    let bad = "x".repeat(4_000_000);
    let r = Redaction::new().add_values(vec!["ok", bad.as_str()]);
    match r {
        Err(RedactError::InvalidPattern { values }) => {
            assert_eq!(values, vec![bad]);
        },
        _ => panic!("expected every failing value to be named"),
    }
}

#[test]
fn redaction_on_empty_input_is_empty() {
    let redaction = Redaction::new().add_pattern(Pattern::new("(bar)", 1).unwrap());
    assert_eq!(redaction.redact_str(""), "");
}
