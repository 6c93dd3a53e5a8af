// Tests for relay URL validation, relay list building and
// proximity-based relay ranking.

use nurunuru_core::{
    build_relay_list, filter_valid_relays, find_nearest_relays, gps_relay_database,
    is_valid_relay_url, GpsRelay, RelayConfig,
};

#[test]
fn test_valid_wss() {
    assert!(is_valid_relay_url("wss://relay.damus.io", false));
}

#[test]
fn test_invalid_ws() {
    assert!(!is_valid_relay_url("ws://relay.damus.io", false));
}

#[test]
fn test_invalid_onion() {
    assert!(!is_valid_relay_url("wss://relay.onion", false));
}

#[test]
fn test_localhost_blocked() {
    assert!(!is_valid_relay_url("wss://localhost", false));
}

#[test]
fn test_localhost_allowed() {
    assert!(is_valid_relay_url("wss://localhost", true));
}

#[test]
fn test_invalid_not_a_url() {
    assert!(!is_valid_relay_url("not a url", false));
}

#[test]
fn test_filter_valid_relays_keeps_valid() {
    let config = RelayConfig::default();
    let relays = vec![
        "wss://relay.damus.io".to_string(),
        "ws://plain.example".to_string(),
        "wss://nos.lol".to_string(),
    ];
    let filtered = filter_valid_relays(&relays, &config);
    assert_eq!(filtered, vec!["wss://relay.damus.io".to_string(), "wss://nos.lol".to_string()]);
}

#[test]
fn test_filter_valid_relays_falls_back_to_default() {
    let config = RelayConfig::default();
    let relays = vec!["ws://plain.example".to_string(), "http://x.example".to_string()];
    let filtered = filter_valid_relays(&relays, &config);
    assert_eq!(filtered, vec!["wss://yabu.me".to_string()]);
}

#[test]
fn test_build_relay_list_dedupes() {
    let mut config = RelayConfig::default();
    config.default_relay = "wss://a.example".to_string();
    config.fallback_relays = vec![
        "wss://b.example".to_string(),
        "wss://a.example".to_string(),
        "wss://c.example".to_string(),
        "wss://b.example".to_string(),
    ];
    let relays = build_relay_list(&config);
    assert_eq!(
        relays,
        vec![
            "wss://a.example".to_string(),
            "wss://b.example".to_string(),
            "wss://c.example".to_string(),
        ]
    );
}

#[test]
fn test_gps_relay_database_size() {
    let db = gps_relay_database();
    assert_eq!(db.len(), 36);
    assert_eq!(db[0].url, "wss://yabu.me");
}

fn node(url: &str, priority: u32) -> GpsRelay {
    GpsRelay {
        url: url.to_string(),
        lat: 0,
        lon: 0,
        name: url.to_string(),
        region: "T".to_string(),
        priority,
    }
}

#[test]
fn test_priority_beats_distance() {
    // a priority-1 node a thousand kilometers away outranks a priority-2
    // node one kilometer away
    let scored = vec![(node("far-tier1", 1), 1_000_000u64), (node("near-tier2", 2), 1_000u64)];
    let best = find_nearest_relays(scored, 2);
    assert_eq!(best.len(), 2);
    assert_eq!(best[0].0.url, "far-tier1");
    assert_eq!(best[1].0.url, "near-tier2");
}

#[test]
fn test_nearest_relays_orders_by_distance_within_tier() {
    let scored = vec![
        (node("c", 1), 300u64),
        (node("a", 1), 100u64),
        (node("b", 1), 200u64),
        (node("d", 2), 1u64),
    ];
    let best = find_nearest_relays(scored, 3);
    assert_eq!(best.len(), 3);
    assert_eq!(best[0].0.url, "a");
    assert_eq!(best[1].0.url, "b");
    assert_eq!(best[2].0.url, "c");
}
