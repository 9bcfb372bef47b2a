use stik::keyed::KeyedMap;

#[test]
fn keyed_map_sets_gets_and_removes() {
    let mut m: KeyedMap<u32> = KeyedMap::new();
    assert_eq!(m.len(), 0);
    m.insert("a", 1);
    m.insert("b", 2);
    m.insert("a", 3);
    assert_eq!(m.len(), 2);
    assert_eq!(m.get("a"), Some(&3));
    assert_eq!(m.get("c"), None);
    m.remove("a");
    assert_eq!(m.get("a"), None);
    assert_eq!(m.len(), 1);
}

#[test]
fn keyed_map_moves_and_prunes() {
    let mut m: KeyedMap<&str> = KeyedMap::new();
    m.insert("x/1", "one");
    m.insert("x/2", "two");
    m.insert("y/3", "three");
    m.move_key("x/1", "y/1");
    assert_eq!(m.get("y/1"), Some(&"one"));
    assert_eq!(m.get("x/1"), None);
    m.move_key("missing", "z");
    assert_eq!(m.get("z"), None);
    m.remove_with_prefix("y/");
    let mut keys = m.keys();
    keys.sort();
    assert_eq!(keys, vec!["x/2".to_string()]);
    m.move_key("x/2", "x/2");
    assert_eq!(m.get("x/2"), Some(&"two"));
}
