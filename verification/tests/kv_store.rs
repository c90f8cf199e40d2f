use simple_kv_store::kv_store::KvStore;
use simple_kv_store::types::{StorageConfig, Value};

fn empty_store() -> KvStore {
    KvStore::new(&StorageConfig::default(), None, 0).0
}

fn entry(key: &str, data: &str, expires_at: Option<u64>) -> (String, Value) {
    (key.to_string(), Value { data: data.to_string(), expires_at })
}

fn sorted(mut listing: Vec<(String, String)>) -> Vec<(String, String)> {
    listing.sort();
    listing
}

#[test]
fn default_config_points_at_storage() {
    let config = StorageConfig::default();
    assert_eq!(config.directory, "storage");
    assert_eq!(config.snapshot_path(), "storage/kv_store.json");
    assert_eq!(config.clone().directory, "storage");
}

#[test]
fn new_store_takes_its_path_from_the_config() {
    let config = StorageConfig { directory: "data/here".to_string() };
    let (store, rewrite) = KvStore::new(&config, None, 17);
    assert_eq!(store.file_path(), "data/here/kv_store.json");
    assert!(!rewrite);
}

#[test]
fn missing_or_unreadable_snapshot_starts_empty() {
    let (store, rewrite) = KvStore::new(&StorageConfig::default(), None, 1_700_000_000);
    assert!(store.is_empty());
    assert_eq!(store.len(), 0);
    assert!(store.list(1_700_000_000).is_empty());
    assert_eq!(store.get("anything", 1_700_000_000), None);
    assert!(!rewrite);
}

#[test]
fn set_then_get_returns_the_payload() {
    let mut store = empty_store();
    store.set("name".to_string(), "Ada".to_string());
    assert_eq!(store.get("name", 5), Some("Ada".to_string()));
    assert_eq!(store.get("Name", 5), None);
    assert_eq!(store.len(), 1);
    assert!(!store.is_empty());
}

#[test]
fn payload_is_kept_verbatim() {
    let mut store = empty_store();
    let payload = "  { \"a\" : 1 }\n\ttab \u{1F600} ";
    store.set_with_ttl("k".to_string(), payload.to_string(), None, 9);
    assert_eq!(store.get("k", 9), Some(payload.to_string()));
}

#[test]
fn round_trip_through_a_snapshot() {
    let mut store = empty_store();
    store.set("a".to_string(), "1".to_string());
    store.set_with_ttl("b".to_string(), "2".to_string(), Some(100), 1000);
    store.set_with_ttl("c".to_string(), "3".to_string(), None, 1000);
    store.set("a".to_string(), "one".to_string());
    let snapshot = store.snapshot();
    assert_eq!(snapshot.len(), 3);

    let (restarted, rewrite) = KvStore::new(&StorageConfig::default(), Some(snapshot), 1050);
    assert!(!rewrite);
    for key in ["a", "b", "c", "d"] {
        assert_eq!(restarted.get(key, 1050), store.get(key, 1050));
        assert_eq!(restarted.get_ttl(key, 1050), store.get_ttl(key, 1050));
    }
    assert_eq!(restarted.get("a", 1050), Some("one".to_string()));
    assert_eq!(restarted.get("b", 1050), Some("2".to_string()));
    assert_eq!(restarted.get_ttl("b", 1050), Some(50));
    assert_eq!(sorted(restarted.list(1050)), sorted(store.list(1050)));
}

#[test]
fn expiry_boundary_is_the_deadline_itself() {
    let mut store = empty_store();
    store.set_with_ttl("k".to_string(), "v".to_string(), Some(1), 100);
    assert_eq!(store.get("k", 100), Some("v".to_string()));
    assert_eq!(store.get_ttl("k", 100), Some(1));
    assert_eq!(store.list(100), vec![("k".to_string(), "v".to_string())]);
    assert_eq!(store.get("k", 101), None);
    assert_eq!(store.get_ttl("k", 101), None);
    assert!(store.list(101).is_empty());
    assert!(store.get_all(101).is_empty());
    assert_eq!(store.get("k", 102), None);
    assert_eq!(store.len(), 1);
}

#[test]
fn zero_ttl_is_lapsed_at_once() {
    let mut store = empty_store();
    store.set_with_ttl("k".to_string(), "v".to_string(), Some(0), 100);
    assert_eq!(store.get("k", 100), None);
    assert!(store.list(100).is_empty());
}

#[test]
fn overwrite_replaces_payload_and_deadline() {
    let mut store = empty_store();
    store.set_with_ttl("k".to_string(), "a".to_string(), None, 100);
    store.set_with_ttl("k".to_string(), "b".to_string(), Some(5), 100);
    assert_eq!(store.get("k", 100), Some("b".to_string()));
    assert_eq!(store.get_ttl("k", 100), Some(5));
    assert_eq!(store.get_ttl("k", 102), Some(3));
    assert_eq!(store.len(), 1);

    store.set("k".to_string(), "c".to_string());
    assert_eq!(store.get("k", 1_000_000), Some("c".to_string()));
    assert_eq!(store.get_ttl("k", 100), None);
    assert_eq!(store.len(), 1);
}

#[test]
fn delete_is_idempotent() {
    let mut store = empty_store();
    assert_eq!(store.delete("k", 10), None);
    store.set("k".to_string(), "v".to_string());
    assert_eq!(store.delete("k", 10), Some("v".to_string()));
    assert_eq!(store.delete("k", 10), None);
    assert_eq!(store.delete("k", 10), None);
    assert_eq!(store.get("k", 10), None);
    assert!(store.is_empty());
}

#[test]
fn delete_of_a_lapsed_key_returns_nothing_and_removes_it() {
    let mut store = empty_store();
    store.set_with_ttl("k".to_string(), "v".to_string(), Some(5), 100);
    store.set("other".to_string(), "w".to_string());
    assert_eq!(store.len(), 2);
    assert_eq!(store.delete("k", 105), None);
    assert_eq!(store.len(), 1);
    assert_eq!(store.get("other", 105), Some("w".to_string()));
}

#[test]
fn entries_without_ttl_never_lapse() {
    let mut store = empty_store();
    store.set("k".to_string(), "v".to_string());
    store.set_with_ttl("l".to_string(), "w".to_string(), None, 7);
    assert_eq!(store.get("k", u64::MAX), Some("v".to_string()));
    assert_eq!(store.get("l", u64::MAX), Some("w".to_string()));
    assert_eq!(store.get_ttl("k", u64::MAX), None);
    assert!(!store.cleanup_expired(u64::MAX));
    assert_eq!(store.len(), 2);
    assert_eq!(store.list(u64::MAX).len(), 2);
}

#[test]
fn lapsed_entries_of_a_snapshot_never_surface() {
    let snapshot = vec![
        entry("old", "gone", Some(50)),
        entry("edge", "gone too", Some(100)),
        entry("fresh", "here", Some(101)),
        entry("forever", "stays", None),
    ];
    let (store, rewrite) = KvStore::new(&StorageConfig::default(), Some(snapshot), 100);
    assert!(rewrite);
    assert_eq!(store.get("old", 100), None);
    assert_eq!(store.get("edge", 100), None);
    assert_eq!(store.get("fresh", 100), Some("here".to_string()));
    assert_eq!(store.get("forever", 100), Some("stays".to_string()));
    assert_eq!(
        sorted(store.list(100)),
        vec![
            ("forever".to_string(), "stays".to_string()),
            ("fresh".to_string(), "here".to_string()),
        ]
    );
    assert_eq!(store.len(), 2);
    assert_eq!(store.snapshot().len(), 2);
}

#[test]
fn snapshot_without_lapsed_entries_needs_no_rewrite() {
    let snapshot = vec![entry("a", "1", Some(200)), entry("b", "2", None)];
    let (store, rewrite) = KvStore::new(&StorageConfig::default(), Some(snapshot), 100);
    assert!(!rewrite);
    assert_eq!(store.len(), 2);
}

#[test]
fn later_pair_of_a_snapshot_wins() {
    let snapshot = vec![entry("k", "first", None), entry("j", "x", None), entry("k", "last", Some(9))];
    let (store, _) = KvStore::new(&StorageConfig::default(), Some(snapshot), 1);
    assert_eq!(store.len(), 2);
    assert_eq!(store.get("k", 1), Some("last".to_string()));
    assert_eq!(store.get_ttl("k", 1), Some(8));
}

#[test]
fn cleanup_drops_exactly_the_lapsed() {
    let mut store = empty_store();
    store.set_with_ttl("a".to_string(), "1".to_string(), Some(10), 100);
    store.set_with_ttl("b".to_string(), "2".to_string(), Some(20), 100);
    store.set("c".to_string(), "3".to_string());
    assert!(!store.cleanup_expired(109));
    assert_eq!(store.len(), 3);
    assert!(store.cleanup_expired(110));
    assert_eq!(store.len(), 2);
    assert_eq!(store.get("b", 110), Some("2".to_string()));
    assert!(!store.cleanup_expired(110));
    assert!(store.cleanup_expired(5000));
    assert_eq!(store.len(), 1);
    assert_eq!(store.list(5000), vec![("c".to_string(), "3".to_string())]);
    assert_eq!(store.file_path(), "storage/kv_store.json");
}

#[test]
fn deadline_saturates_at_the_last_second() {
    let mut store = empty_store();
    store.set_with_ttl("k".to_string(), "v".to_string(), Some(10), u64::MAX - 1);
    let all = store.get_all(u64::MAX - 1);
    assert_eq!(all.len(), 1);
    assert_eq!(all[0].1.expires_at, Some(u64::MAX));
    assert_eq!(store.get_ttl("k", u64::MAX - 1), Some(1));
    assert_eq!(store.get("k", u64::MAX), None);

    store.set_with_ttl("m".to_string(), "v".to_string(), Some(u64::MAX), u64::MAX);
    assert_eq!(store.get("m", u64::MAX), None);
}

#[test]
fn ttl_is_the_time_left() {
    let mut store = empty_store();
    store.set_with_ttl("k".to_string(), "v".to_string(), Some(60), 1000);
    assert_eq!(store.get_ttl("k", 1000), Some(60));
    assert_eq!(store.get_ttl("k", 1059), Some(1));
    assert_eq!(store.get_ttl("k", 1060), None);
    assert_eq!(store.get_ttl("absent", 1000), None);
    store.set("plain".to_string(), "v".to_string());
    assert_eq!(store.get_ttl("plain", 1000), None);
}

#[test]
fn get_all_holds_the_live_entries_and_snapshot_all() {
    let mut store = empty_store();
    store.set_with_ttl("a".to_string(), "1".to_string(), Some(10), 100);
    store.set_with_ttl("b".to_string(), "2".to_string(), Some(20), 100);
    let mut live = store.get_all(115);
    assert_eq!(live.len(), 1);
    let (key, value) = live.remove(0);
    assert_eq!(key, "b");
    assert_eq!(value.data, "2");
    assert_eq!(value.expires_at, Some(120));
    assert!(!value.is_expired(119));
    assert!(value.is_expired(120));
    assert_eq!(value.clone().data, "2");
    assert_eq!(store.snapshot().len(), 2);
    assert_eq!(store.len(), 2);
}

#[test]
fn listing_holds_each_live_key_once() {
    let mut store = empty_store();
    for round in 0..3 {
        for key in ["x", "y", "z"] {
            store.set_with_ttl(key.to_string(), format!("{key}{round}"), Some(10), 100);
        }
    }
    store.set_with_ttl("y".to_string(), "late".to_string(), Some(1), 100);
    assert_eq!(
        sorted(store.list(105)),
        vec![("x".to_string(), "x2".to_string()), ("z".to_string(), "z2".to_string())]
    );
}
