use robot_admin::strmap::{Duplicate, StringMap};

#[test]
fn string_map_insert_get_remove() {
    let mut m: StringMap<String> = StringMap::new();
    assert!(m.is_empty());
    assert_eq!(m.len(), 0);
    assert_eq!(m.insert("a".to_string(), "1".to_string()), None);
    assert_eq!(m.insert("b".to_string(), "2".to_string()), None);
    assert_eq!(m.len(), 2);
    assert!(!m.is_empty());
    assert_eq!(m.get("a"), Some(&"1".to_string()));
    assert_eq!(m.get("b"), Some(&"2".to_string()));
    assert_eq!(m.get("c"), None);
    assert!(m.contains_key("a"));
    assert!(!m.contains_key("c"));
    // Setting a key again replaces the value and keeps the place.
    assert_eq!(m.insert("a".to_string(), "3".to_string()), Some("1".to_string()));
    assert_eq!(m.len(), 2);
    assert_eq!(m.key_at(0), "a");
    assert_eq!(m.value_at(0), "3");
    assert_eq!(m.key_at(1), "b");
    assert_eq!(m.position("b"), Some(1));
    assert_eq!(m.position("zz"), None);
    assert_eq!(m.remove("a"), Some("3".to_string()));
    assert_eq!(m.remove("a"), None);
    assert_eq!(m.len(), 1);
    assert_eq!(m.key_at(0), "b");
    assert_eq!(m.position("b"), Some(0));
}

#[test]
fn string_map_replace_and_remove_by_index() {
    let mut m: StringMap<String> = StringMap::new();
    m.insert("a".to_string(), "1".to_string());
    m.insert("b".to_string(), "2".to_string());
    m.insert("c".to_string(), "3".to_string());
    assert_eq!(m.replace_at(1, "two".to_string()), "2");
    assert_eq!(m.get("b"), Some(&"two".to_string()));
    assert_eq!(m.remove_at(0), ("a".to_string(), "1".to_string()));
    assert_eq!(m.len(), 2);
    assert_eq!(m.key_at(0), "b");
    assert_eq!(m.key_at(1), "c");
    assert_eq!(m.get("a"), None);
}

#[test]
fn string_map_copies_are_independent() {
    let mut m: StringMap<String> = StringMap::new();
    m.insert("a".to_string(), "1".to_string());
    let copy = m.duplicate();
    let clone = m.clone();
    m.insert("a".to_string(), "changed".to_string());
    m.insert("b".to_string(), "2".to_string());
    assert_eq!(copy.len(), 1);
    assert_eq!(copy.get("a"), Some(&"1".to_string()));
    assert_eq!(clone.len(), 1);
    assert_eq!(clone.get("a"), Some(&"1".to_string()));
    assert_eq!("x".to_string().duplicate(), "x");
}

#[test]
fn string_map_free_key_avoids_the_keys_it_holds() {
    let mut m: StringMap<String> = StringMap::new();
    assert_eq!(m.free_key("a".to_string()), "a");
    m.insert("a".to_string(), "1".to_string());
    assert_eq!(m.free_key("a".to_string()), "a-");
    assert_eq!(m.free_key("b".to_string()), "b");
    m.insert("a-".to_string(), "2".to_string());
    m.insert("a---".to_string(), "3".to_string());
    assert_eq!(m.free_key("a".to_string()), "a--");
    assert_eq!(m.free_key("a-".to_string()), "a--");
    assert_eq!(m.free_key(String::new()), "");
}
