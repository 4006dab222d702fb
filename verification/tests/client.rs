use find_nearby_twitterer::auth::sign_with;
use find_nearby_twitterer::client::Twit;
use find_nearby_twitterer::error::FetchError;
use find_nearby_twitterer::params::Params;

fn client() -> Twit {
    Twit::new("ck".to_string(), "cs".to_string(), "tok".to_string(), "ts".to_string())
}

#[test]
fn user_request() {
    let mut body = Params::new();
    body.insert("user.fields", "id,name,username,location,description");
    let call = client().get_user("jack", &body);
    assert_eq!(call.method, "GET");
    assert_eq!(call.url, "https://api.twitter.com/2/users/by/username/jack");
    assert_eq!(call.params.len(), 1);
    assert_eq!(call.params.get("user.fields"), Some("id,name,username,location,description"));
}

#[test]
fn timeline_request() {
    let call = client().get_timeline("12".to_string());
    assert_eq!(call.method, "GET");
    assert_eq!(call.url, "https://api.twitter.com/2/users/12/timelines/reverse_chronological");
    assert_eq!(call.params.len(), 2);
    assert_eq!(call.params.get("expansions"), Some("author_id"));
    assert_eq!(call.params.get("user.fields"), Some("id,name,username"));
}

#[test]
fn followers_request() {
    let call = client().get_followers(&"12".to_string());
    assert_eq!(call.method, "GET");
    assert_eq!(call.url, "https://api.twitter.com/2/users/12/followers");
    assert_eq!(call.params.len(), 2);
    assert_eq!(call.params.get("max_results"), Some("1000"));
    assert_eq!(call.params.get("user.fields"), Some("id,name,username,location,description"));
}

#[test]
fn following_request() {
    let call = client().get_following(&"12".to_string());
    assert_eq!(call.method, "GET");
    assert_eq!(call.url, "https://api.twitter.com/2/users/12/following");
    assert_eq!(call.params.len(), 2);
    assert_eq!(call.params.get("max_results"), Some("1000"));
    assert_eq!(call.params.get("user.fields"), Some("id,name,username,location,description"));
}

fn field<'a>(header: &'a str, name: &str) -> &'a str {
    let mark = format!("{}=\"", name);
    let start = header.find(&mark).unwrap() + mark.len();
    let end = start + header[start..].find('"').unwrap();
    &header[start..end]
}

#[test]
fn authorize_signs_what_is_sent() {
    let mut twit = client();
    let call = twit.get_followers(&"1".to_string());
    let signed = match twit.authorize(call) {
        Ok(signed) => signed,
        Err(error) => panic!("refused with {:?}", error),
    };
    assert_eq!(signed.method, "GET");
    assert_eq!(signed.url, "https://api.twitter.com/2/users/1/followers");
    assert_eq!(signed.form.len(), 2);
    assert_eq!(signed.form.get("max_results"), Some("1000"));
    let timestamp = field(&signed.auth_header, "oauth_timestamp").to_string();
    let nonce = field(&signed.auth_header, "oauth_nonce").to_string();
    assert_eq!(nonce, format!("{}.0", timestamp));
    let again = match sign_with(
        &signed.url,
        &signed.method,
        "ck",
        "tok",
        "cs",
        "ts",
        &signed.form,
        &timestamp,
        &nonce,
    ) {
        Ok(sig) => sig,
        Err(error) => panic!("refused with {:?}", error),
    };
    assert_eq!(again.signature, signed.signature);
    assert_eq!(again.auth_header, signed.auth_header);
}

#[test]
fn requests_of_one_client_carry_different_nonces() {
    let mut twit = client();
    assert_eq!(twit.signed(), 0);
    let lookup = twit.get_user("jack", &Params::new());
    let first = twit.authorize(lookup).ok().unwrap();
    let page = twit.get_followers(&"1".to_string());
    let second = twit.authorize(page).ok().unwrap();
    let same = twit.get_followers(&"1".to_string());
    let third = twit.authorize(same).ok().unwrap();
    assert_eq!(twit.signed(), 3);
    let nonces = [
        field(&first.auth_header, "oauth_nonce").to_string(),
        field(&second.auth_header, "oauth_nonce").to_string(),
        field(&third.auth_header, "oauth_nonce").to_string(),
    ];
    assert!(nonces[0].ends_with(".0"));
    assert!(nonces[1].ends_with(".1"));
    assert!(nonces[2].ends_with(".2"));
    assert_ne!(nonces[0], nonces[1]);
    assert_ne!(nonces[1], nonces[2]);
    assert_ne!(nonces[0], nonces[2]);
}

#[test]
fn authorize_refuses_the_name_of_a_protocol_parameter() {
    let mut twit = client();
    for name in [
        "oauth_consumer_key",
        "oauth_nonce",
        "oauth_timestamp",
        "oauth_signature_method",
        "oauth_version",
        "oauth_token",
    ] {
        let mut body = Params::new();
        body.insert("user.fields", "id");
        body.insert(name, "x");
        let call = twit.get_user("jack", &body);
        match twit.authorize(call) {
            Err(error) => assert_eq!(error, FetchError::Signing),
            Ok(_) => panic!("{} must be refused", name),
        }
        assert_eq!(twit.signed(), 0);
    }
}

#[test]
fn authorize_accepts_other_names() {
    let mut twit = client();
    let mut body = Params::new();
    body.insert("oauth_signature", "x");
    body.insert("oauth", "y");
    body.insert("pagination_token", "z");
    let call = twit.get_user("jack", &body);
    assert!(twit.authorize(call).is_ok());
    assert_eq!(twit.signed(), 1);
}
