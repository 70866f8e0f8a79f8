use sha2::{Digest, Sha256};
use tablebase::cache::{
    access_name, access_path, access_stamp_text, artifact_cached, cache_database_name, cache_key,
    database_path, parse_access_stamp, temp_path, CacheEntry, CacheStore, LeaseTable,
};
use tablebase::model::ImportOptions;

fn expected_key(path: &str, len: u64, modified: u128, delimiter: Option<&str>, header: u8) -> String {
    let mut message = Vec::new();
    message.extend_from_slice(&1u32.to_le_bytes());
    message.extend_from_slice(path.as_bytes());
    message.extend_from_slice(&len.to_le_bytes());
    message.extend_from_slice(&modified.to_le_bytes());
    match delimiter {
        Some(d) => {
            message.push(1);
            message.extend_from_slice(d.as_bytes());
        }
        None => message.push(0),
    }
    message.push(header);
    Sha256::digest(&message).iter().take(16).map(|b| format!("{b:02x}")).collect()
}

#[test]
fn cache_key_hashes_fingerprint_and_options() {
    let auto = ImportOptions::default();
    let key = cache_key("/data/a.csv", 17, 1_700_000_000_123_456_789, &auto);
    assert_eq!(key.len(), 32);
    assert_eq!(key, expected_key("/data/a.csv", 17, 1_700_000_000_123_456_789, None, 2));
    let explicit = ImportOptions { delimiter: Some(",".into()), header: Some(true) };
    let other = cache_key("/data/a.csv", 17, 1_700_000_000_123_456_789, &explicit);
    assert_eq!(other, expected_key("/data/a.csv", 17, 1_700_000_000_123_456_789, Some(","), 1));
    assert_ne!(key, other);
    let absent = ImportOptions { delimiter: None, header: Some(false) };
    assert_eq!(
        cache_key("/data/a.csv", 17, 1_700_000_000_123_456_789, &absent),
        expected_key("/data/a.csv", 17, 1_700_000_000_123_456_789, None, 0)
    );
    assert_eq!(key, cache_key("/data/a.csv", 17, 1_700_000_000_123_456_789, &auto));
    assert_ne!(key, cache_key("/data/a.csv", 18, 1_700_000_000_123_456_789, &auto));
}

#[test]
fn an_explicit_delimiter_is_never_taken_for_auto_detection() {
    let auto = ImportOptions::default();
    let literal = ImportOptions { delimiter: Some("<auto>".into()), header: None };
    let a = cache_key("/data/a.csv", 17, 5, &auto);
    let b = cache_key("/data/a.csv", 17, 5, &literal);
    assert_ne!(a, b);
    assert_eq!(b, expected_key("/data/a.csv", 17, 5, Some("<auto>"), 2));
    assert!(a.chars().all(|c| c.is_ascii_digit() || ('a'..='f').contains(&c)));
}

#[test]
fn cache_file_names() {
    assert_eq!(database_path("/c", "k1"), "/c/k1.duckdb");
    assert_eq!(access_path("/c/", "k1"), "/c/k1.access");
    assert_eq!(temp_path("/c", "k1", 42, 7), "/c/.k1.42.7.tmp.duckdb");
    assert!(cache_database_name("k1.duckdb"));
    assert!(!cache_database_name(".k1.42.7.tmp.duckdb"));
    assert!(!cache_database_name("k1.access"));
    assert!(!cache_database_name(".duckdb"));
    assert!(!cache_database_name("k1.duckdbx"));
    assert_eq!(access_name("k1.duckdb"), "k1.access");
}

#[test]
fn access_stamps_round_trip() {
    for now in [0u128, 7, 1_700_000_000_123_456_789, u128::MAX] {
        assert_eq!(parse_access_stamp(&access_stamp_text(now)), now);
        assert_eq!(access_stamp_text(now), now.to_string());
    }
    assert_eq!(parse_access_stamp("+5"), 5);
    assert_eq!(parse_access_stamp(""), 0);
    assert_eq!(parse_access_stamp("+"), 0);
    assert_eq!(parse_access_stamp("-1"), 0);
    assert_eq!(parse_access_stamp("12a"), 0);
    assert_eq!(parse_access_stamp(" 12"), 0);
    assert_eq!(parse_access_stamp("340282366920938463463374607431768211456"), 0);
    for text in ["0042", "+0", "99999999999999999999999999999999999999999", "1e3"] {
        assert_eq!(parse_access_stamp(text), text.parse::<u128>().unwrap_or(0), "{text}");
    }
}

#[test]
fn leases_count_up_and_down() {
    let mut table = LeaseTable::new();
    assert_eq!(table.count("/c/a.duckdb"), 0);
    table.acquire("/c/a.duckdb");
    table.acquire("/c/a.duckdb");
    table.acquire("/c/b.duckdb");
    assert_eq!(table.count("/c/a.duckdb"), 2);
    assert_eq!(table.count("/c/b.duckdb"), 1);
    table.release("/c/a.duckdb");
    assert_eq!(table.count("/c/a.duckdb"), 1);
    table.release("/c/a.duckdb");
    assert_eq!(table.count("/c/a.duckdb"), 0);
    table.release("/c/a.duckdb");
    assert_eq!(table.count("/c/a.duckdb"), 0);
    assert_eq!(table.count("/c/b.duckdb"), 1);
}

#[test]
fn store_leases_and_temp_paths() {
    let mut store = CacheStore::at("/c".to_string(), 100);
    assert_eq!(store.target_path("k"), "/c/k.duckdb");
    assert_eq!(store.next_temp_path("k", 9), "/c/.k.9.0.tmp.duckdb");
    assert_eq!(store.next_temp_path("k", 9), "/c/.k.9.1.tmp.duckdb");
    let lease = store.lease("/c/k.duckdb");
    let second = store.clone_lease(&lease);
    assert_eq!(store.lease_count("/c/k.duckdb"), 2);
    store.release(lease);
    assert_eq!(store.lease_count("/c/k.duckdb"), 1);
    store.release(second);
    assert_eq!(store.lease_count("/c/k.duckdb"), 0);
}

fn entry(path: &str, size: u64, accessed: u128) -> CacheEntry {
    CacheEntry { path: path.to_string(), size, accessed }
}

#[test]
fn eviction_skips_leased_entries() {
    let mut store = CacheStore::at("/c".to_string(), 1);
    let lease = store.lease("/c/first.duckdb");
    let entries = vec![entry("/c/first.duckdb", 10, 5), entry("/c/second.duckdb", 10, 1)];
    let mut pass = store.start_eviction(&entries).unwrap();
    assert_eq!(pass.next_victim(), Some(1));
    pass.record_removed(1);
    assert_eq!(pass.next_victim(), None);
    store.release(lease);
    let mut pass = store.start_eviction(&entries).unwrap();
    assert_eq!(pass.next_victim(), Some(1));
    pass.record_removed(1);
    assert_eq!(pass.next_victim(), Some(0));
    pass.record_removed(0);
    assert_eq!(pass.next_victim(), None);
}

#[test]
fn eviction_goes_oldest_first_and_stops_under_the_cap() {
    let store = CacheStore::at("/c".to_string(), 15);
    let entries = vec![
        entry("/c/a.duckdb", 10, 30),
        entry("/c/b.duckdb", 10, 10),
        entry("/c/c.duckdb", 10, 20),
        entry("/c/d.duckdb", 10, 10),
    ];
    let mut pass = store.start_eviction(&entries).unwrap();
    assert_eq!(pass.next_victim(), Some(1));
    pass.record_removed(1);
    assert_eq!(pass.next_victim(), Some(3));
    // A removal that failed is not recorded; the pass moves on.
    assert_eq!(pass.next_victim(), Some(2));
    pass.record_removed(2);
    assert_eq!(pass.next_victim(), Some(0));
    pass.record_removed(0);
    assert_eq!(pass.next_victim(), None);
}

#[test]
fn eviction_does_nothing_under_the_cap() {
    let store = CacheStore::at("/c".to_string(), u64::MAX);
    let entries = vec![entry("/c/a.duckdb", 10, 30)];
    let mut pass = store.start_eviction(&entries).unwrap();
    assert_eq!(pass.next_victim(), None);
}

#[test]
fn eviction_refuses_an_overflowing_total() {
    let store = CacheStore::at("/c".to_string(), 1);
    let entries = vec![entry("/c/a.duckdb", u64::MAX, 1), entry("/c/b.duckdb", 1, 2)];
    assert!(store.start_eviction(&entries).is_none());
}

#[test]
fn cached_only_when_reused_without_force() {
    assert!(artifact_cached(true, false));
    assert!(!artifact_cached(true, true));
    assert!(!artifact_cached(false, false));
}
