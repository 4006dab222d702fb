use find_nearby_twitterer::users::{in_location, index_of_id, mutual, users_in_location, User};
use regex::Regex;

fn user(id: &str, username: &str, location: Option<&str>) -> User {
    User {
        id: id.to_string(),
        name: username.to_uppercase(),
        username: username.to_string(),
        location: location.map(|l| l.to_string()),
        description: None,
    }
}

fn ids(users: &[User]) -> Vec<String> {
    users.iter().map(|u| u.id.clone()).collect()
}

#[test]
fn location_is_matched_in_lower_case() {
    let tokyo = Regex::new("tokyo").unwrap();
    assert!(in_location(&user("1", "a", Some("Tokyo, Japan")), &tokyo));
    assert!(in_location(&user("1", "a", Some("TOKYO")), &tokyo));
    assert!(in_location(&user("1", "a", Some("east tokyo")), &tokyo));
    assert!(!in_location(&user("1", "a", Some("Kyoto")), &tokyo));
    assert!(!in_location(&user("1", "a", Some("")), &tokyo));
}

#[test]
fn user_without_location_never_matches() {
    let any = Regex::new(".*").unwrap();
    assert!(!in_location(&user("1", "a", None), &any));
    assert!(in_location(&user("1", "a", Some("")), &any));
}

#[test]
fn upper_case_pattern_matches_no_lowered_location() {
    let upper = Regex::new("Tokyo").unwrap();
    assert!(!in_location(&user("1", "a", Some("Tokyo")), &upper));
}

#[test]
fn pattern_is_a_regular_expression() {
    let either = Regex::new("^(osaka|kobe)$").unwrap();
    assert!(in_location(&user("1", "a", Some("Osaka")), &either));
    assert!(in_location(&user("1", "a", Some("KOBE")), &either));
    assert!(!in_location(&user("1", "a", Some("Osaka, Japan")), &either));
}

#[test]
fn users_in_location_keeps_the_order() {
    let users = vec![
        user("1", "a", Some("Tokyo")),
        user("2", "b", None),
        user("3", "c", Some("Osaka")),
        user("4", "d", Some("west TOKYO")),
        user("5", "e", Some("tokyo")),
    ];
    let found = users_in_location(&users, &Regex::new("tokyo").unwrap());
    assert_eq!(ids(&found), vec!["1", "4", "5"]);
    assert_eq!(found[1].username, "d");
    assert_eq!(found[1].name, "D");
    assert_eq!(found[1].location, Some("west TOKYO".to_string()));
    assert_eq!(found[1].description, None);
    assert_eq!(users.len(), 5);
}

#[test]
fn users_in_location_of_nobody() {
    let nobody: Vec<User> = Vec::new();
    assert!(users_in_location(&nobody, &Regex::new("x").unwrap()).is_empty());
    let users = vec![user("1", "a", Some("Tokyo")), user("2", "b", None)];
    assert!(users_in_location(&users, &Regex::new("paris").unwrap()).is_empty());
}

#[test]
fn mutual_users_follow_both_ways() {
    let followers = vec![user("1", "a", None), user("2", "b", None), user("3", "c", None)];
    let following = vec![
        user("9", "z", None),
        user("3", "c3", Some("here")),
        user("7", "y", None),
        user("1", "a1", None),
    ];
    let both = mutual(&followers, &following);
    assert_eq!(ids(&both), vec!["3", "1"]);
    assert_eq!(both[0].username, "c3");
    assert_eq!(both[0].location, Some("here".to_string()));
    assert_eq!(both[1].username, "a1");
}

#[test]
fn mutual_with_nobody() {
    let nobody: Vec<User> = Vec::new();
    let some = vec![user("1", "a", None)];
    assert!(mutual(&nobody, &some).is_empty());
    assert!(mutual(&some, &nobody).is_empty());
    assert_eq!(ids(&mutual(&some, &some)), vec!["1"]);
}

#[test]
fn index_of_id_finds_the_last_user_with_the_id() {
    let users = vec![
        user("1", "first", None),
        user("2", "b", None),
        user("1", "second", None),
        user("3", "c", None),
    ];
    assert_eq!(index_of_id(&users, "1"), Some(2));
    assert_eq!(index_of_id(&users, "2"), Some(1));
    assert_eq!(index_of_id(&users, "3"), Some(3));
    assert_eq!(index_of_id(&users, "4"), None);
    assert_eq!(index_of_id(&users, ""), None);
    assert_eq!(index_of_id(&Vec::new(), "1"), None);
}
