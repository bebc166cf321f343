use keyring_core::attributes::{externalize_attributes, parse_attributes, AttrMap};
use keyring_core::Error;

fn parsed_ok(keys: &[&str], attrs: Option<&[(&str, &str)]>) -> AttrMap {
    match parse_attributes(keys, attrs) {
        Ok(map) => map,
        Err(_) => panic!("attributes should parse"),
    }
}

#[test]
fn test_parse_attributes() {
    let attrs = [("key1", "value1"), ("key2", "true"), ("key3", "false")];
    assert_eq!(parsed_ok(&["key1"], None).len(), 0);
    let parsed = parsed_ok(&["key1", "*key2", "*key3"], Some(&attrs[..]));
    assert_eq!(parsed.len(), 3);
    assert_eq!(parsed.get("key1"), Some(&"value1".to_string()));
    assert_eq!(parsed.get("key2"), Some(&"true".to_string()));
    assert_eq!(parsed.get("key3"), Some(&"false".to_string()));
    let bad_attrs = [("key1", "t")];
    match parse_attributes(&["*key1"], Some(&bad_attrs[..])) {
        Err(Error::Invalid(key, msg)) => {
            assert_eq!(key, "key1");
            assert_eq!(msg, "must be `true` or `false`");
        }
        _ => panic!("Incorrect error for invalid boolean attribute"),
    }
    match parse_attributes(&["other_key"], Some(&bad_attrs[..])) {
        Err(Error::Invalid(key, msg)) => {
            assert_eq!(key, "key1");
            assert_eq!(msg, "unknown key");
        }
        _ => panic!("Incorrect error for unknown attribute"),
    }
}

#[test]
fn test_externalize_attributes() {
    let attrs = [("key1", "value1"), ("key2", "true"), ("key3", "false")];
    let externalized = externalize_attributes(&attrs);
    assert_eq!(externalized.len(), 3);
    assert_eq!(externalized.get("key1"), Some(&"value1".to_string()));
    assert_eq!(externalized.get("key2"), Some(&"true".to_string()));
    assert_eq!(externalized.get("key3"), Some(&"false".to_string()));
}

#[test]
fn later_pair_overrides_earlier() {
    let attrs = [("key", "first"), ("other", "x"), ("key", "second")];
    let externalized = externalize_attributes(&attrs);
    assert_eq!(externalized.len(), 2);
    assert_eq!(externalized.get("key"), Some(&"second".to_string()));
    assert!(externalized.contains_key("other"));
    assert!(!externalized.contains_key("missing"));
}

#[test]
fn empty_pairs_parse_to_empty_map() {
    let none: [(&str, &str); 0] = [];
    let parsed = parsed_ok(&["a"], Some(&none[..]));
    assert!(parsed.is_empty());
}

#[test]
fn boolean_key_accepts_both_values_and_star_is_stripped() {
    let attrs = [("flag", "false")];
    let parsed = parsed_ok(&["*flag"], Some(&attrs[..]));
    assert_eq!(parsed.get("flag"), Some(&"false".to_string()));
    assert_eq!(parsed.get("*flag"), None);
}

#[test]
fn first_offending_pair_is_reported() {
    let attrs = [("good", "v"), ("bad1", "v"), ("bad2", "v")];
    match parse_attributes(&["good"], Some(&attrs[..])) {
        Err(Error::Invalid(key, msg)) => {
            assert_eq!(key, "bad1");
            assert_eq!(msg, "unknown key");
        }
        _ => panic!("expected an Invalid error"),
    }
}

#[test]
fn attr_map_insert_replaces() {
    let mut map = AttrMap::new();
    map.insert("a".to_string(), "1".to_string());
    map.insert("b".to_string(), "2".to_string());
    map.insert("a".to_string(), "3".to_string());
    assert_eq!(map.len(), 2);
    assert_eq!(map.get("a"), Some(&"3".to_string()));
    assert_eq!(map.get("b"), Some(&"2".to_string()));
}
