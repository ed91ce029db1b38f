use rustdb::store::KvStore;

#[test]
fn test_put_get_roundtrip() {
    let mut store = KvStore::new();
    store.put("alice".to_string(), "30".to_string());
    assert_eq!(store.get("alice"), Some("30".to_string()));
}

#[test]
fn test_get_missing() {
    let store = KvStore::new();
    assert_eq!(store.get("alice"), None);
}

#[test]
fn test_delete_then_get() {
    let mut store = KvStore::new();
    store.put("alice".to_string(), "30".to_string());
    assert!(store.delete("alice"));
    assert_eq!(store.get("alice"), None);
}

#[test]
fn test_delete_missing_is_not_fatal() {
    let mut store = KvStore::new();
    assert!(!store.delete("alice"));
    assert_eq!(store.get("alice"), None);
}

#[test]
fn test_overwrite_keeps_one_entry() {
    let mut store = KvStore::new();
    store.put("alice".to_string(), "30".to_string());
    store.put("alice".to_string(), "31".to_string());
    assert_eq!(store.get("alice"), Some("31".to_string()));
    let snap = store.snapshot_all();
    assert_eq!(snap.len(), 1);
    assert_eq!(snap[0].key, "alice");
    assert_eq!(snap[0].value, "31");
}

#[test]
fn test_distinct_puts_all_visible() {
    let mut store = KvStore::new();
    let pairs = [("a", "1"), ("b", "2"), ("c", "3"), ("d", "4"), ("e", "5")];
    for (k, v) in pairs.iter() {
        store.put(k.to_string(), v.to_string());
    }
    for (k, v) in pairs.iter() {
        assert_eq!(store.get(k), Some(v.to_string()));
    }
}

#[test]
fn test_contains() {
    let mut store = KvStore::new();
    assert!(!store.contains("k"));
    store.put("k".to_string(), "v".to_string());
    assert!(store.contains("k"));
}

#[test]
fn test_snapshot_lists_exactly_live_entries() {
    let mut store = KvStore::new();
    store.put("alice".to_string(), "30".to_string());
    store.put("bob".to_string(), "25".to_string());
    store.put("carol".to_string(), "40".to_string());
    assert!(store.delete("bob"));
    let snap = store.snapshot_all();
    assert_eq!(snap.len(), 2);
    assert_eq!(snap[0].key, "alice");
    assert_eq!(snap[0].value, "30");
    assert_eq!(snap[1].key, "carol");
    assert_eq!(snap[1].value, "40");
}

#[test]
fn test_snapshot_of_empty_store() {
    let store = KvStore::new();
    assert!(store.snapshot_all().is_empty());
}

#[test]
fn test_empty_key_and_value() {
    let mut store = KvStore::new();
    store.put("".to_string(), "".to_string());
    assert_eq!(store.get(""), Some("".to_string()));
    assert!(store.delete(""));
    assert_eq!(store.get(""), None);
}
