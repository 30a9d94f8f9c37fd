use std::collections::HashMap;
use varj::VarjMap;

#[test]
fn from_hash_map() {
    let (expected, hash_map) = matching_varj_and_hash_maps();
    let actual = VarjMap::from_hash_map(hash_map);
    assert_eq!(expected, actual);
}

#[test]
fn into_hash_map() {
    let (varj_map, expected) = matching_varj_and_hash_maps();
    let actual = varj_map.into_hash_map();
    assert_eq!(expected, actual);
}

#[test]
fn from_hash_map_entries_are_usable() {
    let mut hash_map: HashMap<String, String> = HashMap::new();
    hash_map.insert("greeting".to_string(), "hello".to_string());
    hash_map.insert("name".to_string(), "world".to_string());
    let map = VarjMap::from_hash_map(hash_map);
    assert_eq!(Some("hello"), map.get("greeting"));
    assert_eq!(Some("world"), map.get("name"));
    assert_eq!(None, map.get("missing"));
    let rendered = map
        .render("{{ greeting }}, {{ name }}!")
        .expect("both keys are set");
    assert_eq!("hello, world!", rendered);
}

#[test]
fn get_returns_latest_value() {
    let mut map = VarjMap::new();
    assert_eq!(None, map.get("k"));
    map.insert("k", "first");
    assert_eq!(Some("first"), map.get("k"));
    map.insert("k", "second");
    assert_eq!(Some("second"), map.get("k"));
}

#[test]
fn with_capacity_starts_empty() {
    let map = VarjMap::with_capacity(8);
    assert_eq!(None, map.get("anything"));
}

#[test]
fn equality_ignores_insertion_order() {
    let mut a = VarjMap::new();
    a.insert("one", "1");
    a.insert("two", "2");
    let mut b = VarjMap::new();
    b.insert("two", "2");
    b.insert("one", "1");
    assert_eq!(a, b);
}

#[test]
fn equality_sees_values_and_keys() {
    let mut a = VarjMap::new();
    a.insert("one", "1");
    let mut b = VarjMap::new();
    b.insert("one", "changed");
    assert_ne!(a, b);
    let mut c = VarjMap::new();
    c.insert("other", "1");
    assert_ne!(a, c);
    assert_ne!(a, VarjMap::new());
    assert_ne!(VarjMap::new(), a);
}

fn matching_varj_and_hash_maps() -> (VarjMap, HashMap<String, String>) {
    let key1 = "testKey1";
    let value1 = "testValue1";

    let key2 = "testKey2";
    let value2 = "testValue2";

    let mut hash_map = HashMap::with_capacity(2);
    hash_map.insert(key1.to_string(), value1.to_string());
    hash_map.insert(key2.to_string(), value2.to_string());

    let mut varj_map = VarjMap::with_capacity(2);
    varj_map.insert(key1, value1);
    varj_map.insert(key2, value2);

    (varj_map, hash_map)
}
