use text_redaction::data::Position;
use text_redaction::engine::try_capture;
use text_redaction::pattern::Redact;
use text_redaction::Pattern;

const TEXT: &str = "foo,bar,baz,foo";

fn texts(info: &text_redaction::data::Info) -> Vec<String> {
    info.captures.iter().map(|c| c.text.clone()).collect()
}

#[test]
fn pattern_can_redact_patterns() {
    let pattern = Pattern::new("(bar)", 1).unwrap();
    let redaction = Redact::default().add_pattern(pattern);
    let info = redaction.redact_patterns(TEXT, false);
    assert_eq!(info.string, "foo,[TEXT_REDACTED],baz,foo");
    assert_eq!(texts(&info), vec!["bar".to_string()]);
    assert!(info.captures[0].position.is_none());
}

#[test]
fn can_redact_patterns_empty_string() {
    let pattern = Pattern::new("(?i)CARGO_.*=(.*)", 1).unwrap();
    let redaction = Redact::default().add_pattern(pattern);
    let info = redaction.redact_patterns("CARGO_PKG_DESCRIPTION=", false);
    assert_eq!(info.string, "CARGO_PKG_DESCRIPTION=");
    assert!(info.captures.is_empty());
}

#[test]
fn pattern_can_redact_multiple_patterns() {
    let pattern1 = Pattern::new("(bar)", 1).unwrap();
    let pattern2 = Pattern::new("(baz),(foo)", 2).unwrap();
    let redaction = Redact::default().add_patterns(vec![pattern1, pattern2]);
    let info = redaction.redact_patterns(TEXT, false);
    assert_eq!(info.string, "[TEXT_REDACTED],[TEXT_REDACTED],baz,foo");
    assert_eq!(texts(&info), vec!["bar".to_string(), "foo".to_string()]);
}

#[test]
fn pattern_can_redact_patterns_with_info() {
    let pattern = Pattern::new("(bar)", 1).unwrap();
    let redaction = Redact::default().add_pattern(pattern);
    let info = redaction.redact_patterns(TEXT, true);
    assert_eq!(info.string, "foo,[TEXT_REDACTED],baz,foo");
    assert_eq!(texts(&info), vec!["bar".to_string()]);
    assert_eq!(
        info.captures[0].position,
        Some(Position { line: 1, start_offset: 4, end_offset: 7 })
    );
}

#[test]
fn pattern_can_try_capture() {
    let rows = try_capture(TEXT, &Pattern::new("(foo)", 1).unwrap(), false);
    assert_eq!(
        rows,
        vec![("foo".to_string(), None), ("foo".to_string(), None)]
    );
}

#[test]
fn pattern_can_try_capture_with_info() {
    let text = "bar\n        foo\n        baz\n        foo\n        ";
    let rows = try_capture(text, &Pattern::new("(foo)", 1).unwrap(), true);
    assert_eq!(
        rows,
        vec![
            (
                "foo".to_string(),
                Some(Position { line: 2, start_offset: 12, end_offset: 15 })
            ),
            (
                "foo".to_string(),
                Some(Position { line: 4, start_offset: 36, end_offset: 39 })
            ),
        ]
    );
}

#[test]
fn pattern_can_try_capture_with_info_single_line() {
    let rows = try_capture(TEXT, &Pattern::new("(foo)", 1).unwrap(), true);
    assert_eq!(
        rows,
        vec![
            (
                "foo".to_string(),
                Some(Position { line: 1, start_offset: 0, end_offset: 3 })
            ),
            (
                "foo".to_string(),
                Some(Position { line: 1, start_offset: 12, end_offset: 15 })
            ),
        ]
    );
}

#[test]
fn engine_can_try_capture() {
    let rows = try_capture(TEXT, &Pattern::new("(foo)", 1).unwrap(), false);
    assert_eq!(
        rows,
        vec![("foo".to_string(), None), ("foo".to_string(), None)]
    );
}

#[test]
fn engine_can_try_capture_with_info() {
    let rows = try_capture(TEXT, &Pattern::new("(foo)", 1).unwrap(), true);
    assert_eq!(
        rows,
        vec![
            (
                "foo".to_string(),
                Some(Position { line: 1, start_offset: 0, end_offset: 3 })
            ),
            (
                "foo".to_string(),
                Some(Position { line: 1, start_offset: 12, end_offset: 15 })
            ),
        ]
    );
}

#[test]
fn try_capture_group_not_participating() {
    let rows = try_capture("aaa", &Pattern::new("(x)|(a)", 1).unwrap(), false);
    assert!(rows.is_empty());
    let rows = try_capture("aaa", &Pattern::new("(x)|(a)", 5).unwrap(), false);
    assert!(rows.is_empty());
}

#[test]
fn pattern_new_rejects_invalid_expression() {
    let r = Pattern::new("(", 1);
    assert!(r.is_err());
    let p = Pattern::new("(bar)", 2).unwrap();
    assert_eq!(p.expression(), "(bar)");
    assert_eq!(p.group, 2);
}
