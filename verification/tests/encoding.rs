use find_nearby_twitterer::encoding::{encode, keeps_byte};

#[test]
fn unreserved_characters_are_never_encoded() {
    let all = "ABCDEFGHIJKLMNOPQRSTUVWXYZabcdefghijklmnopqrstuvwxyz0123456789-._~";
    assert_eq!(encode(all), all);
}

#[test]
fn empty_text_stays_empty() {
    assert_eq!(encode(""), "");
}

#[test]
fn space_becomes_percent_20() {
    assert_eq!(encode(" "), "%20");
    assert_eq!(encode("a b c"), "a%20b%20c");
}

#[test]
fn plus_is_encoded() {
    assert_eq!(encode("+"), "%2B");
    assert_eq!(encode("1+1"), "1%2B1");
}

#[test]
fn reserved_characters_are_always_encoded() {
    assert_eq!(encode("&"), "%26");
    assert_eq!(encode("="), "%3D");
    assert_eq!(encode("?"), "%3F");
    assert_eq!(encode("/"), "%2F");
    assert_eq!(encode(":"), "%3A");
    assert_eq!(encode("a=b&c=d"), "a%3Db%26c%3Dd");
    assert_eq!(encode("https://h.example/p?q"), "https%3A%2F%2Fh.example%2Fp%3Fq");
}

#[test]
fn percent_itself_is_encoded() {
    assert_eq!(encode("%"), "%25");
    assert_eq!(encode("%20"), "%2520");
}

#[test]
fn hexadecimal_digits_are_upper_case() {
    assert_eq!(encode("*"), "%2A");
    assert_eq!(encode("/"), "%2F");
    assert_eq!(encode("\u{7f}"), "%7F");
    assert_eq!(encode("\n"), "%0A");
    assert_eq!(encode("\0"), "%00");
}

#[test]
fn other_punctuation_is_encoded() {
    assert_eq!(encode("!\"#$'()*,;<>@[\\]^`{|}"), "%21%22%23%24%27%28%29%2A%2C%3B%3C%3E%40%5B%5C%5D%5E%60%7B%7C%7D");
}

#[test]
fn every_byte_of_a_multibyte_character_is_encoded() {
    assert_eq!(encode("é"), "%C3%A9");
    assert_eq!(encode("☃"), "%E2%98%83");
    assert_eq!(encode("𝄞"), "%F0%9D%84%9E");
    assert_eq!(encode("naïve café"), "na%C3%AFve%20caf%C3%A9");
}

#[test]
fn output_holds_only_unreserved_characters_and_percent() {
    let out = encode("a&b=c?d/e:f+g h~i-j.k_l%m\u{1F600}");
    assert!(out.bytes().all(|b| b == b'%' || keeps_byte(b)));
}

#[test]
fn keeps_byte_tells_the_unreserved_bytes() {
    for b in 0u8..=255 {
        let expected = b.is_ascii_alphanumeric() || b == b'-' || b == b'.' || b == b'_' || b == b'~';
        assert_eq!(keeps_byte(b), expected, "byte {}", b);
    }
}

#[test]
fn encoding_agrees_with_the_percent_encoding_crate() {
    let text = "Hello Ladies + Gentlemen, a signed OAuth request!";
    let by_crate = text
        .bytes()
        .map(|b| {
            if keeps_byte(b) {
                (b as char).to_string()
            } else {
                percent_encoding::percent_encode_byte(b).to_string()
            }
        })
        .collect::<String>();
    assert_eq!(encode(text), by_crate);
    assert_eq!(
        encode(text),
        "Hello%20Ladies%20%2B%20Gentlemen%2C%20a%20signed%20OAuth%20request%21"
    );
}
