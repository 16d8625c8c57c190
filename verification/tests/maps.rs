use structmap_derive::ordered_map::{compare_keys, GenericMap, KeyOrder};
use structmap_derive::string_map::StringMap;
use structmap_derive::value::Value;

#[test]
fn compare_keys_is_lexicographic() {
    assert_eq!(compare_keys("a", "b"), KeyOrder::Before);
    assert_eq!(compare_keys("b", "a"), KeyOrder::After);
    assert_eq!(compare_keys("mc", "mc"), KeyOrder::Same);
    assert_eq!(compare_keys("", ""), KeyOrder::Same);
    assert_eq!(compare_keys("", "a"), KeyOrder::Before);
    assert_eq!(compare_keys("mc", "mc0"), KeyOrder::Before);
    assert_eq!(compare_keys("mc1", "mc"), KeyOrder::After);
    assert_eq!(compare_keys("MCs", "mc0"), KeyOrder::Before);
    assert_eq!(compare_keys("mc0", "mc1"), KeyOrder::Before);
    assert_eq!(compare_keys("z", "\u{e9}"), KeyOrder::Before);
    assert_eq!(compare_keys("\u{1F600}", "\u{e9}"), KeyOrder::After);
}

#[test]
fn compare_keys_agrees_with_the_order_of_strings() {
    let samples = ["", "a", "ab", "b", "B", "mc", "mc0", "MCs", "\u{e9}", "\u{1F600}x"];
    for a in samples {
        for b in samples {
            let expected = if a < b {
                KeyOrder::Before
            } else if a == b {
                KeyOrder::Same
            } else {
                KeyOrder::After
            };
            assert_eq!(compare_keys(a, b), expected);
        }
    }
}

#[test]
fn new_map_is_empty() {
    let m = GenericMap::new();
    assert_eq!(m.len(), 0);
    assert!(m.keys().is_empty());
    assert!(!m.contains_key("mc"));
    assert!(m.get("mc").is_none());
}

#[test]
fn keys_are_walked_in_ascending_order() {
    let mut m = GenericMap::new();
    assert_eq!(m.insert(String::from("mc1"), Value::I64(2)), None);
    assert_eq!(m.insert(String::from("mc"), Value::I64(3)), None);
    assert_eq!(m.insert(String::from("mc0"), Value::I64(1)), None);
    assert_eq!(m.insert(String::from("MCs"), Value::I64(4)), None);
    assert_eq!(m.len(), 4);
    assert_eq!(
        m.keys(),
        vec![
            String::from("MCs"),
            String::from("mc"),
            String::from("mc0"),
            String::from("mc1")
        ]
    );
    assert_eq!(m.get("mc0"), Some(&Value::I64(1)));
    assert_eq!(m.get("mc1"), Some(&Value::I64(2)));
    assert_eq!(m.get("mc"), Some(&Value::I64(3)));
    assert_eq!(m.get("MCs"), Some(&Value::I64(4)));
    assert_eq!(m.get("mcs"), None);
}

#[test]
fn insert_under_a_held_key_replaces_and_returns_the_old_value() {
    let mut m = GenericMap::new();
    m.insert(String::from("a"), Value::U8(1));
    m.insert(String::from("b"), Value::U8(2));
    let previous = m.insert(String::from("a"), Value::Str(String::from("new")));
    assert_eq!(previous, Some(Value::U8(1)));
    assert_eq!(m.len(), 2);
    assert_eq!(m.get("a"), Some(&Value::Str(String::from("new"))));
    assert_eq!(m.get("b"), Some(&Value::U8(2)));
    assert_eq!(m.keys(), vec![String::from("a"), String::from("b")]);
}

#[test]
fn contains_key_tells_held_keys_from_others() {
    let mut m = GenericMap::new();
    m.insert(String::from("b"), Value::Bool(true));
    assert!(m.contains_key("b"));
    assert!(!m.contains_key("a"));
    assert!(!m.contains_key("c"));
    assert!(!m.contains_key(""));
    assert!(!m.contains_key("bb"));
}

#[test]
fn new_string_map_is_empty() {
    let m = StringMap::new();
    assert_eq!(m.len(), 0);
    assert!(m.keys().is_empty());
    assert!(!m.contains_key("mc"));
    assert_eq!(m.get("mc"), None);
}

#[test]
fn string_map_keeps_keys_sorted_and_replaces() {
    let mut m = StringMap::new();
    assert_eq!(m.insert(String::from("mc1"), String::from("2")), None);
    assert_eq!(m.insert(String::from("MCs"), String::from("3")), None);
    assert_eq!(m.insert(String::from("mc0"), String::from("1")), None);
    assert_eq!(
        m.insert(String::from("mc1"), String::from("two")),
        Some(String::from("2"))
    );
    assert_eq!(m.len(), 3);
    assert_eq!(
        m.keys(),
        vec![
            String::from("MCs"),
            String::from("mc0"),
            String::from("mc1")
        ]
    );
    assert_eq!(m.get("mc0"), Some(String::from("1")));
    assert_eq!(m.get("mc1"), Some(String::from("two")));
    assert_eq!(m.get("MCs"), Some(String::from("3")));
    assert!(m.contains_key("MCs"));
    assert!(!m.contains_key("mc"));
    assert_eq!(m.get("mc"), None);
}
