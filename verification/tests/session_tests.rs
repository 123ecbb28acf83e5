use ohos_server::session::{fast_hash, generate_session_id, session_id_from, Session, SessionStore};

#[test]
fn test_session_create_and_get() {
    let mut store = SessionStore::new("TEST_SESSION", 3600);
    let id = store.create();
    assert_eq!(id.len(), 32);

    let session = store.get(&id);
    assert!(session.is_some());
    assert_eq!(session.unwrap().id, id);
}

#[test]
fn test_session_data() {
    let mut store = SessionStore::new("TEST_SESSION", 3600);
    let id = store.create();

    let mut session = store.get(&id).unwrap();
    session.set("username".to_string(), "alice".to_string());
    store.update(session);

    let session = store.get(&id).unwrap();
    assert_eq!(session.get("username").unwrap(), "alice");
}

#[test]
fn test_parse_cookie() {
    let mut store = SessionStore::new("OHOS_SESSION", 3600);
    let id = store.create();

    let cookie = format!("OHOS_SESSION={}; Path=/", id);
    let parsed = store.parse_session_id(Some(&cookie));
    assert_eq!(parsed, Some(id));
}

#[test]
fn test_invalid_cookie() {
    let store = SessionStore::new("OHOS_SESSION", 3600);
    let parsed = store.parse_session_id(Some("OTHER=abc123"));
    assert!(parsed.is_none());
}

#[test]
fn fnv_hash_of_known_inputs() {
    assert_eq!(fast_hash(b""), 14695981039346656037);
    assert_eq!(fast_hash(b"a"), 0xaf63dc4c8601ec8c);
}

#[test]
fn session_ids_are_lowercase_hex_of_length_32() {
    let id = generate_session_id();
    assert_eq!(id.len(), 32);
    assert!(id.chars().all(|c| c.is_ascii_digit() || ('a'..='f').contains(&c)));
    let other = session_id_from(0, 0, &[]);
    assert_eq!(other.len(), 32);
}

#[test]
fn session_ids_depend_on_time_and_entropy() {
    let a = session_id_from(1, 2, &[3, 4]);
    let b = session_id_from(1, 2, &[3, 4]);
    let c = session_id_from(2, 2, &[3, 4]);
    assert_eq!(a, b);
    assert_ne!(a, c);
}

#[test]
fn cookie_is_found_among_others_and_trimmed() {
    let store = SessionStore::new("SID", 60);
    assert_eq!(store.parse_session_id(Some("a=1;  SID=xyz ; b=2")), Some("xyz".to_string()));
    assert_eq!(store.parse_session_id(Some("SID=first; SID=second")), Some("first".to_string()));
    assert_eq!(store.parse_session_id(None), None);
    assert_eq!(store.parse_session_id(Some("SIDX=1")), None);
}

#[test]
fn set_and_delete_cookie_headers() {
    let store = SessionStore::new("SID", 3600);
    assert_eq!(store.build_set_cookie("abc"), "SID=abc; HttpOnly; SameSite=Lax; Path=/; Max-Age=3600");
    assert_eq!(store.build_delete_cookie(), "SID=; HttpOnly; SameSite=Lax; Path=/; Max-Age=0");
    assert_eq!(store.cookie_name(), "SID");
}

#[test]
fn a_built_cookie_parses_back_to_its_id() {
    let store = SessionStore::new("OHOS_SESSION", 100);
    let header = store.build_set_cookie("0123abcd");
    assert_eq!(store.parse_session_id(Some(&header)), Some("0123abcd".to_string()));
}

#[test]
fn removed_sessions_are_gone() {
    let mut store = SessionStore::new("S", 3600);
    let id = store.create();
    assert!(store.get(&id).is_some());
    store.remove(&id);
    assert!(store.get(&id).is_none());
    assert!(store.get("missing").is_none());
}

#[test]
fn get_mut_returns_the_session() {
    let mut store = SessionStore::new("S", 3600);
    let id = store.create();
    let s = store.get_mut(&id).unwrap();
    assert_eq!(s.id, id);
}

#[test]
fn cleanup_keeps_fresh_sessions() {
    let mut store = SessionStore::new("S", 3600);
    let id = store.create();
    store.cleanup();
    assert!(store.get(&id).is_some());
}

#[test]
fn cleanup_at_a_later_time_drops_expired_sessions() {
    let mut store = SessionStore::new("S", 1);
    let id = store.create();
    let far = u128::MAX / 2;
    store.cleanup_at(far);
    assert!(store.get(&id).is_none());
}

#[test]
fn session_values_can_be_set_replaced_and_removed() {
    let mut store = SessionStore::new("S", 3600);
    let id = store.create();
    let mut s: Session = store.get(&id).unwrap();
    assert!(s.get("k").is_none());
    s.set("k".to_string(), "v1".to_string());
    s.set("k".to_string(), "v2".to_string());
    assert_eq!(s.get("k").unwrap(), "v2");
    assert_eq!(s.remove("k"), Some("v2".to_string()));
    assert!(s.get("k").is_none());
    assert_eq!(s.remove("k"), None);
}

#[test]
fn a_lookup_refreshes_the_last_access() {
    let mut store = SessionStore::new("S", 3600);
    let id = store.create();
    let first = store.get(&id).unwrap();
    let again = store.get(&id).unwrap();
    assert!(again.last_access >= first.last_access);
    assert!(again.last_access >= again.created_at);
}

#[test]
fn created_ids_are_hex_and_parse_back() {
    let mut store = SessionStore::new("OHOS_SESSION", 3600);
    let id = store.create();
    assert_eq!(id.len(), 32);
    assert!(id.chars().all(|c| c.is_ascii_digit() || ('a'..='f').contains(&c)));
    assert_eq!(store.parse_session_id(Some(&format!("OHOS_SESSION={}; Path=/", id))), Some(id.clone()));
    assert_eq!(store.parse_session_id(Some("OHOS_SESSION=")), None);
    let header = store.build_set_cookie(&id);
    assert_eq!(store.parse_session_id(Some(&header)), Some(id));
}

#[test]
fn the_delete_cookie_carries_no_session() {
    let store = SessionStore::new("OHOS_SESSION", 3600);
    assert_eq!(store.build_delete_cookie(), "OHOS_SESSION=; HttpOnly; SameSite=Lax; Path=/; Max-Age=0");
    assert_eq!(store.parse_session_id(Some(&store.build_delete_cookie())), None);
}

#[test]
fn created_ids_are_all_new() {
    let mut store = SessionStore::new("S", 3600);
    let mut seen = std::collections::HashSet::new();
    for _ in 0..200 {
        let id = store.create();
        assert!(seen.insert(id));
    }
}

#[test]
fn setting_a_value_never_moves_the_last_access_back() {
    let mut store = SessionStore::new("S", 3600);
    let id = store.create();
    let mut s = store.get(&id).unwrap();
    let before = s.last_access;
    s.set("k".to_string(), "v".to_string());
    assert!(s.last_access >= before);
    let _ = s.remove("k");
    assert!(s.last_access >= before);
}
