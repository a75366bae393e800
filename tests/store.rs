use sinadb::database::Database;

const SEC: u128 = 1_000_000_000;

fn sorted(mut v: Vec<(String, String)>) -> Vec<(String, String)> {
    v.sort();
    v
}

fn pair(k: &str, v: &str) -> (String, String) {
    (k.to_string(), v.to_string())
}

#[test]
fn get_of_unset_key_is_absent() {
    let mut db = Database::new();
    assert_eq!(db.get("missing"), None);
    assert_eq!(db.get(""), None);
    db.set("a".to_string(), "1".to_string(), None);
    assert_eq!(db.get("b"), None);
}

#[test]
fn set_then_get_returns_value() {
    let mut db = Database::new();
    db.set("foo".to_string(), "bar".to_string(), None);
    assert_eq!(db.get("foo"), Some("bar".to_string()));
    db.set("foo".to_string(), "baz".to_string(), None);
    assert_eq!(db.get("foo"), Some("baz".to_string()));
}

#[test]
fn ttl_of_one_second_expires_lazily() {
    let mut db = Database::new();
    db.set_at("k".to_string(), "v".to_string(), Some(1), 0);
    assert!(!db.is_expired_at("k", SEC));
    assert_eq!(db.get_at("k", SEC), Some("v".to_string()));
    assert!(db.is_expired_at("k", SEC + 1));
    // listings do not evict
    assert_eq!(db.get_all(), Some(vec![pair("k", "v")]));
    assert_eq!(db.get_at("k", SEC + 1), None);
    assert!(!db.is_expired_at("k", SEC + 1));
    assert!(!db.is_expired_at("k", u128::MAX));
    assert_eq!(db.get_keys(), None);
}

#[test]
fn ttl_with_real_clock_is_alive_at_once() {
    let mut db = Database::new();
    db.set("k".to_string(), "v".to_string(), Some(1));
    assert_eq!(db.get("k"), Some("v".to_string()));
    assert!(!db.is_expired("k"));
}

#[test]
fn plain_set_keeps_earlier_deadline() {
    let mut db = Database::new();
    db.set_at("k".to_string(), "v".to_string(), Some(2), 0);
    db.set_at("k".to_string(), "w".to_string(), None, SEC);
    assert_eq!(db.get_at("k", 2 * SEC), Some("w".to_string()));
    assert_eq!(db.get_at("k", 2 * SEC + 1), None);
}

#[test]
fn zero_ttl_never_expires() {
    let mut db = Database::new();
    db.set_at("k".to_string(), "v".to_string(), Some(0), 0);
    assert!(!db.is_expired_at("k", u128::MAX));
    assert_eq!(db.get_at("k", u128::MAX), Some("v".to_string()));
}

#[test]
fn deadline_past_clock_range_saturates() {
    let mut db = Database::new();
    db.set_at("k".to_string(), "v".to_string(), Some(u64::MAX), u128::MAX - 5);
    assert!(!db.is_expired_at("k", u128::MAX));
    db.set_at("j".to_string(), "v".to_string(), Some(3), 10);
    assert!(!db.is_expired_at("j", 3 * SEC + 10));
    assert!(db.is_expired_at("j", 3 * SEC + 11));
}

#[test]
fn delete_reports_presence() {
    let mut db = Database::new();
    db.set("k".to_string(), "v".to_string(), Some(5));
    assert!(db.delete("k"));
    assert_eq!(db.get("k"), None);
    assert!(!db.delete("k"));
    assert!(!db.delete("never"));
    assert!(!db.is_expired_at("k", u128::MAX));
}

#[test]
fn prefix_and_suffix_listings() {
    let mut db = Database::new();
    db.set("abc".to_string(), "1".to_string(), None);
    db.set("abd".to_string(), "2".to_string(), None);
    db.set("xyz".to_string(), "3".to_string(), None);
    assert_eq!(sorted(db.get_sw("ab").unwrap()), vec![pair("abc", "1"), pair("abd", "2")]);
    assert_eq!(db.get_ew("c"), Some(vec![pair("abc", "1")]));
    assert_eq!(db.get_sw("q"), None);
    assert_eq!(db.get_ew("abcd"), None);
    assert_eq!(sorted(db.get_sw("").unwrap()).len(), 3);
    assert_eq!(db.get_ew("xyz"), Some(vec![pair("xyz", "3")]));
}

#[test]
fn get_all_and_get_keys() {
    let mut db = Database::new();
    assert_eq!(db.get_all(), None);
    assert_eq!(db.get_keys(), None);
    db.set("b".to_string(), "2".to_string(), None);
    db.set("a".to_string(), "1".to_string(), None);
    db.set("b".to_string(), "3".to_string(), None);
    assert_eq!(sorted(db.get_all().unwrap()), vec![pair("a", "1"), pair("b", "3")]);
    let mut keys = db.get_keys().unwrap();
    keys.sort();
    assert_eq!(keys, vec!["a".to_string(), "b".to_string()]);
}
