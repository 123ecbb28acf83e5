use ohos_server::strmap::StrMap;

#[test]
fn insert_get_replace_remove() {
    let mut m: StrMap<u32> = StrMap::new();
    assert_eq!(m.len(), 0);
    m.insert("a".to_string(), 1);
    m.insert("b".to_string(), 2);
    m.insert("a".to_string(), 3);
    assert_eq!(m.len(), 2);
    assert_eq!(m.get("a"), Some(&3));
    assert!(m.contains_key("b"));
    assert!(!m.contains_key("c"));
    assert_eq!(m.remove("a"), Some(3));
    assert_eq!(m.remove("a"), None);
    assert_eq!(m.len(), 1);
    let (k, v) = m.entry_at(0);
    assert_eq!((k.as_str(), *v), ("b", 2));
}

#[test]
fn retain_by_mask_keeps_the_marked_entries() {
    let mut m: StrMap<u32> = StrMap::new();
    for (i, k) in ["x", "y", "z"].iter().enumerate() {
        m.insert(k.to_string(), i as u32);
    }
    m.retain_mask(&[true, false, true]);
    assert_eq!(m.len(), 2);
    assert!(m.contains_key("x"));
    assert!(!m.contains_key("y"));
    assert!(m.contains_key("z"));
    let c = m.copy_map();
    assert_eq!(c.get("z"), Some(&2));
}

#[test]
fn text_maps_duplicate() {
    let mut m: StrMap<String> = StrMap::new();
    m.insert("k".to_string(), "v".to_string());
    let d = m.duplicate();
    assert_eq!(d.get("k"), Some(&"v".to_string()));
}
