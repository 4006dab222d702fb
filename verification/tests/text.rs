use find_nearby_twitterer::text::{decimal_string, digits_string, insert_sorted, join, precedes};

#[test]
fn decimal_of_small_numbers() {
    assert_eq!(decimal_string(0), "0");
    assert_eq!(decimal_string(7), "7");
    assert_eq!(decimal_string(10), "10");
    assert_eq!(decimal_string(1318622958), "1318622958");
    assert_eq!(decimal_string(1002003), "1002003");
}

#[test]
fn decimal_of_negative_numbers() {
    assert_eq!(decimal_string(-1), "-1");
    assert_eq!(decimal_string(-90), "-90");
}

#[test]
fn decimal_of_the_extremes() {
    assert_eq!(decimal_string(i64::MAX), "9223372036854775807");
    assert_eq!(decimal_string(i64::MIN), "-9223372036854775808");
}

#[test]
fn decimal_agrees_with_the_standard_formatting() {
    for n in [-1000i64, -11, -10, -9, 9, 99, 100, 101, 4294967296, 1700000000] {
        assert_eq!(decimal_string(n), n.to_string());
    }
}

#[test]
fn precedes_is_lexicographic() {
    assert!(precedes("", ""));
    assert!(precedes("", "a"));
    assert!(!precedes("a", ""));
    assert!(precedes("a", "a"));
    assert!(precedes("a", "b"));
    assert!(!precedes("b", "a"));
    assert!(precedes("a", "ab"));
    assert!(!precedes("ab", "a"));
    assert!(precedes("B", "a"));
    assert!(precedes("a%20", "a1"));
    assert!(precedes("a1", "a="));
    assert!(precedes("abc", "abd"));
    assert!(!precedes("abd", "abc"));
}

#[test]
fn precedes_orders_other_characters_by_code_point() {
    assert!(precedes("z", "é"));
    assert!(!precedes("é", "z"));
    assert!(precedes("é", "é"));
    assert!(precedes("é", "éa"));
    assert!(precedes("é", "☃"));
    assert!(!precedes("𝄞", "☃"));
    assert!(precedes("a☃", "b"));
}

#[test]
fn precedes_agrees_with_the_order_of_strings() {
    let texts = ["", "a", "A", "a=1", "a%3D", "b", "ab", "~", "-", "0", "é", "z☃", "zz"];
    for x in texts {
        for y in texts {
            assert_eq!(precedes(x, y), x <= y, "{:?} and {:?}", x, y);
        }
    }
}

#[test]
fn join_puts_the_separator_between_parts() {
    let none: Vec<String> = Vec::new();
    assert_eq!(join(&none, "&"), "");
    assert_eq!(join(&vec!["a".to_string()], "&"), "a");
    assert_eq!(join(&vec!["a".to_string(), "b".to_string(), "c".to_string()], "&"), "a&b&c");
    assert_eq!(join(&vec!["".to_string(), "".to_string()], ", "), ", ");
    assert_eq!(join(&vec!["".to_string(), "x".to_string()], "&"), "&x");
}

#[test]
fn insert_sorted_keeps_the_list_sorted() {
    let mut list: Vec<String> = Vec::new();
    for item in ["m", "a", "z", "m", "b", "", "ab"] {
        insert_sorted(&mut list, item.to_string());
    }
    assert_eq!(list, vec!["", "a", "ab", "b", "m", "m", "z"]);
}

#[test]
fn digits_of_natural_numbers() {
    assert_eq!(digits_string(0), "0");
    assert_eq!(digits_string(9), "9");
    assert_eq!(digits_string(10), "10");
    assert_eq!(digits_string(907), "907");
    assert_eq!(digits_string(u64::MAX), "18446744073709551615");
}
