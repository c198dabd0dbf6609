use termojinal::notification::{escape_for_applescript, notification_script};

#[test]
fn escapes_quotes_in_body() {
    let body = r#"He said "hello" and it's done"#;
    let title = r#"termojinal "test""#;
    let escaped_body = escape_for_applescript(body);
    let escaped_title = escape_for_applescript(title);
    assert!(!escaped_body.contains('"') || escaped_body.contains("\\\""));
    assert!(!escaped_title.contains('"') || escaped_title.contains("\\\""));
}

#[test]
fn escaping_doubles_backslashes_before_quotes() {
    assert_eq!(escape_for_applescript(r#"a\b"#), r#"a\\b"#);
    assert_eq!(escape_for_applescript(r#"say "hi""#), r#"say \"hi\""#);
    assert_eq!(escape_for_applescript(r#"\""#), r#"\\\""#);
    assert_eq!(escape_for_applescript("plain"), "plain");
}

#[test]
fn script_with_and_without_sound() {
    assert_eq!(
        notification_script("termojinal", "done", false),
        r#"display notification "done" with title "termojinal""#
    );
    assert_eq!(
        notification_script("t\"x", "b", true),
        r#"display notification "b" with title "t\"x" sound name "default""#
    );
}
