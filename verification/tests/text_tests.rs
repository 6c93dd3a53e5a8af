// Tests for text sanitization and timestamp rendering.

use nurunuru_core::{escape_html, format_timestamp_ja, sanitize_text, strip_html_tags};

#[test]
fn test_sanitize_removes_control_characters() {
    assert_eq!(sanitize_text("ab\u{0}cd\u{7f}e"), "abcde");
    assert_eq!(sanitize_text("line1\nline2\ttab\rret"), "line1\nline2\ttab\rret");
    assert_eq!(sanitize_text("\u{1}\u{8}\u{b}\u{c}\u{e}\u{1f}x"), "x");
}

#[test]
fn test_escape_html_entities() {
    assert_eq!(escape_html("<a href=\"x\">&'`</a>"), "&lt;a href&#x3D;&quot;x&quot;&gt;&amp;&#x27;&#x60;&lt;&#x2F;a&gt;");
    assert_eq!(escape_html("plain text"), "plain text");
}

#[test]
fn test_strip_html_tags() {
    assert_eq!(strip_html_tags("<p>hello <b>world</b></p>"), "hello world");
    assert_eq!(strip_html_tags("no tags"), "no tags");
    assert_eq!(strip_html_tags("<unclosed tag"), "");
}

#[test]
fn test_format_timestamp_just_now() {
    let now: u64 = 1_700_000_000;
    assert_eq!(format_timestamp_ja(now - 30, now), "たった今");
}

#[test]
fn test_format_timestamp_minutes_hours_days() {
    let now: u64 = 1_700_000_000;
    assert_eq!(format_timestamp_ja(now - 120, now), "2分");
    assert_eq!(format_timestamp_ja(now - 7200, now), "2時間");
    assert_eq!(format_timestamp_ja(now - 2 * 86400, now), "2日");
}

#[test]
fn test_format_timestamp_older_than_a_week() {
    let timestamp: u64 = 1_700_000_000;
    let now = timestamp + 700_000;
    // 1_700_000_000 s is day 19675; day 330 of a 365-day year maps to
    // month 12, day 1 under the 30-day-month approximation
    assert_eq!(format_timestamp_ja(timestamp, now), "12月1日");
}
