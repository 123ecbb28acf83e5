use ohos_server::session_shm::{shm_size, ShmSessionStore, BUCKET_SIZE, DATA_MAX_LEN, DEFAULT_NUM_BUCKETS, HDR_SIZE};

#[test]
fn shm_put_then_get_gives_data_back() {
    let mut store = ShmSessionStore::new("/ohos_test", 16);
    assert_eq!(store.name(), "/ohos_test");
    assert!(store.put("abc", b"{\"user\":\"x\"}"));
    assert_eq!(store.get("abc"), Some(b"{\"user\":\"x\"}".to_vec()));
    assert_eq!(store.get("other"), None);
}

#[test]
fn shm_put_overwrites_same_session() {
    let mut store = ShmSessionStore::new("/ohos_test", 8);
    assert!(store.put("s1", b"one"));
    assert!(store.put("s1", b"two"));
    assert_eq!(store.get("s1"), Some(b"two".to_vec()));
}

#[test]
fn shm_remove_then_get_is_none() {
    let mut store = ShmSessionStore::new("/ohos_test", 8);
    assert!(store.put("s1", b"one"));
    assert!(store.remove("s1"));
    assert_eq!(store.get("s1"), None);
    assert!(!store.remove("s1"));
}

#[test]
fn shm_refuses_oversized_data() {
    let mut store = ShmSessionStore::new("/ohos_test", 8);
    let big = vec![7u8; DATA_MAX_LEN + 1];
    assert!(!store.put("s1", &big));
    assert_eq!(store.get("s1"), None);
    let fits = vec![7u8; DATA_MAX_LEN];
    assert!(store.put("s1", &fits));
    assert_eq!(store.get("s1").map(|d| d.len()), Some(DATA_MAX_LEN));
}

#[test]
fn shm_full_table_refuses_new_session() {
    let mut store = ShmSessionStore::new("/ohos_test", 2);
    assert!(store.put("a", b"1"));
    assert!(store.put("b", b"2"));
    assert!(!store.put("c", b"3"));
    assert_eq!(store.get("a"), Some(b"1".to_vec()));
    assert_eq!(store.get("b"), Some(b"2".to_vec()));
    assert!(store.remove("a"));
    assert!(store.put("c", b"3"));
    assert_eq!(store.get("c"), Some(b"3".to_vec()));
    assert_eq!(store.get("b"), Some(b"2".to_vec()));
}

#[test]
fn shm_size_counts_header_and_buckets() {
    assert_eq!(shm_size(10), (HDR_SIZE + 10 * BUCKET_SIZE) as u64);
    assert_eq!(shm_size(0), HDR_SIZE as u64 + DEFAULT_NUM_BUCKETS as u64 * BUCKET_SIZE as u64);
    assert_eq!(shm_size(0), 62914624);
}

#[test]
fn shm_remove_then_get_of_a_lone_copy() {
    let mut store = ShmSessionStore::new("/ohos_test", 2);
    assert!(store.put("a", b"A"));
    assert!(store.put("c", b"C"));
    assert!(store.remove("c"));
    assert_eq!(store.get("c"), None);
    assert_eq!(store.get("a"), Some(b"A".to_vec()));
}

#[test]
fn shm_rewrite_after_a_removal_leaves_a_stale_copy() {
    // "a" and "c" start their probes at the same bucket of a two-bucket table.
    let mut store = ShmSessionStore::new("/ohos_test", 2);
    assert!(store.put("a", b"A"));
    assert!(store.put("c", b"old"));
    assert!(store.remove("a"));
    assert!(store.put("c", b"new"));
    assert_eq!(store.get("c"), Some(b"new".to_vec()));
    assert!(store.remove("c"));
    assert_eq!(store.get("c"), Some(b"old".to_vec()));
}
