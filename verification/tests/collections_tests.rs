// Tests for the string set and map containers and the fixed-point
// arithmetic helpers.

use nurunuru_core::{add_sat, mul_milli, mul_sat, StrMap, StringSet};

#[test]
fn test_string_set_membership() {
    let mut s = StringSet::new();
    assert!(!s.contains("a"));
    s.insert("a".to_string());
    s.insert("b".to_string());
    assert!(s.contains("a"));
    assert!(s.contains("b"));
    assert!(!s.contains("c"));
}

#[test]
fn test_str_map_last_insert_wins() {
    let mut m: StrMap<u64> = StrMap::new();
    assert!(m.get("k").is_none());
    m.insert("k".to_string(), 1);
    m.insert("k".to_string(), 2);
    assert_eq!(m.get("k").copied(), Some(2));
    m.insert("other".to_string(), 7);
    assert_eq!(m.get("k").copied(), Some(2));
    assert_eq!(m.get("other").copied(), Some(7));
}

#[test]
fn test_saturating_arithmetic() {
    assert_eq!(add_sat(1, 2), 3);
    assert_eq!(add_sat(u64::MAX, 1), u64::MAX);
    assert_eq!(mul_sat(3, 4), 12);
    assert_eq!(mul_sat(u64::MAX, 2), u64::MAX);
    // 1.5 * 2.0 = 3.0 in thousandths
    assert_eq!(mul_milli(1500, 2000), 3000);
    // 0.5 * 0.5 = 0.25
    assert_eq!(mul_milli(500, 500), 250);
}
