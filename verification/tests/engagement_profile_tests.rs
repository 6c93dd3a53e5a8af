// Tests for engagement accumulation and profile-content parsing.

use nurunuru_core::{accumulate_engagement, parse_profile_content};

#[test]
fn test_accumulate_engagement_counts_targets() {
    let event_ids = vec!["e1".to_string(), "e2".to_string()];
    let likes = vec![
        "e1".to_string(),
        "e2".to_string(),
        "e1".to_string(),
        "other".to_string(),
    ];
    let reposts = vec!["e2".to_string()];
    let replies = vec!["e1".to_string(), "e1".to_string(), "e1".to_string()];
    let zaps: Vec<String> = Vec::new();

    let table = accumulate_engagement(&event_ids, &likes, &reposts, &replies, &zaps);

    let e1 = table.get("e1").copied().unwrap();
    assert_eq!(e1.likes, 2);
    assert_eq!(e1.reposts, 0);
    assert_eq!(e1.replies, 3);
    assert_eq!(e1.zaps, 0);
    assert_eq!(e1.quotes, 0);

    let e2 = table.get("e2").copied().unwrap();
    assert_eq!(e2.likes, 1);
    assert_eq!(e2.reposts, 1);
    assert_eq!(e2.replies, 0);

    // targets outside the requested ids never enter the table
    assert!(table.get("other").is_none());
}

#[test]
fn test_parse_profile_content_fields() {
    let content = "{\"name\":\"Alice\",\"about\":\"hi\",\"nip05\":\"alice@example.com\"}";
    let profile = parse_profile_content(content, "pubkeyhex").unwrap();
    assert_eq!(profile.name, "Alice");
    // display_name falls back to name
    assert_eq!(profile.display_name, "Alice");
    assert_eq!(profile.about, "hi");
    assert_eq!(profile.nip05, "alice@example.com");
    assert_eq!(profile.picture, "");
    assert_eq!(profile.pubkey, "pubkeyhex");
}

#[test]
fn test_parse_profile_content_display_name_priority() {
    let content = "{\"display_name\":\"The Display\"}";
    let profile = parse_profile_content(content, "pk").unwrap();
    // name falls back to display_name
    assert_eq!(profile.name, "The Display");
    assert_eq!(profile.display_name, "The Display");
}

#[test]
fn test_parse_profile_content_invalid_json() {
    assert!(parse_profile_content("not json", "pk").is_none());
    assert!(parse_profile_content("{\"name\": }", "pk").is_none());
}

#[test]
fn test_parse_profile_content_non_string_field() {
    // a numeric field is not a string value and falls back to empty
    let content = "{\"name\":42}";
    let profile = parse_profile_content(content, "pk").unwrap();
    assert_eq!(profile.name, "");
}
