use term_mux::registry::Registry;

#[test]
fn registry_insert_lookup_take_and_keys() {
    let mut r: Registry<u8> = Registry::new();
    assert!(!r.contains_id(&"a".to_string()));
    assert!(r.keys().is_empty());

    r.insert("a".to_string(), 1);
    r.insert("b".to_string(), 2);
    assert!(r.contains_id(&"a".to_string()));
    assert!(r.contains_id(&"b".to_string()));
    assert_eq!(r.keys(), vec!["a".to_string(), "b".to_string()]);
    assert_eq!(r.get_by_id(&"b".to_string()), Some(&2));
    assert_eq!(r.get_by_id(&"c".to_string()), None);

    assert_eq!(r.take_by_id(&"a".to_string()), Some(1));
    assert_eq!(r.take_by_id(&"a".to_string()), None);
    assert!(!r.contains_id(&"a".to_string()));

    r.remove_id(&"b".to_string());
    r.remove_id(&"b".to_string());
    assert!(r.keys().is_empty());
}
