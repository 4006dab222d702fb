use find_nearby_twitterer::params::Params;

#[test]
fn new_mapping_is_empty() {
    let params = Params::new();
    assert_eq!(params.len(), 0);
    assert_eq!(params.get("a"), None);
    assert!(!params.contains_key("a"));
    assert_eq!(params.position("a"), None);
}

#[test]
fn insert_then_get() {
    let mut params = Params::new();
    params.insert("a", "1");
    params.insert("b", "2");
    assert_eq!(params.len(), 2);
    assert_eq!(params.get("a"), Some("1"));
    assert_eq!(params.get("b"), Some("2"));
    assert_eq!(params.get("c"), None);
    assert!(params.contains_key("b"));
    assert!(!params.contains_key("c"));
}

#[test]
fn last_insert_wins() {
    let mut params = Params::new();
    params.insert("a", "1");
    params.insert("b", "2");
    params.insert("a", "3");
    assert_eq!(params.len(), 2);
    assert_eq!(params.get("a"), Some("3"));
    assert_eq!(params.position("a"), Some(0));
    assert_eq!(params.key_at(0), "a");
    assert_eq!(params.value_at(0), "3");
    assert_eq!(params.key_at(1), "b");
    assert_eq!(params.value_at(1), "2");
}

#[test]
fn keys_are_compared_exactly() {
    let mut params = Params::new();
    params.insert("key", "1");
    params.insert("Key", "2");
    params.insert("key ", "3");
    params.insert("", "4");
    assert_eq!(params.len(), 4);
    assert_eq!(params.get("key"), Some("1"));
    assert_eq!(params.get("Key"), Some("2"));
    assert_eq!(params.get("key "), Some("3"));
    assert_eq!(params.get(""), Some("4"));
}

#[test]
fn extend_takes_every_entry_and_replaces_values() {
    let mut left = Params::new();
    left.insert("a", "1");
    left.insert("b", "2");
    let mut right = Params::new();
    right.insert("b", "20");
    right.insert("c", "30");
    left.extend(&right);
    assert_eq!(left.len(), 3);
    assert_eq!(left.get("a"), Some("1"));
    assert_eq!(left.get("b"), Some("20"));
    assert_eq!(left.get("c"), Some("30"));
    assert_eq!(right.len(), 2);
    assert_eq!(right.get("b"), Some("20"));
}

#[test]
fn extend_with_nothing_changes_nothing() {
    let mut left = Params::new();
    left.insert("a", "1");
    left.extend(&Params::new());
    assert_eq!(left.len(), 1);
    assert_eq!(left.get("a"), Some("1"));
}

#[test]
fn clone_is_independent() {
    let mut first = Params::new();
    first.insert("a", "1");
    let mut second = first.clone();
    second.insert("a", "2");
    second.insert("b", "3");
    assert_eq!(first.len(), 1);
    assert_eq!(first.get("a"), Some("1"));
    assert_eq!(second.len(), 2);
    assert_eq!(second.get("a"), Some("2"));
}
