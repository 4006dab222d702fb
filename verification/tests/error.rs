use find_nearby_twitterer::error::{failure_of_status, FetchError};

#[test]
fn statuses_from_200_to_299_are_successes() {
    assert_eq!(failure_of_status(200), None);
    assert_eq!(failure_of_status(201), None);
    assert_eq!(failure_of_status(204), None);
    assert_eq!(failure_of_status(299), None);
}

#[test]
fn every_other_status_is_a_failure_that_names_it() {
    assert_eq!(failure_of_status(199), Some(FetchError::Status(199)));
    assert_eq!(failure_of_status(300), Some(FetchError::Status(300)));
    assert_eq!(failure_of_status(304), Some(FetchError::Status(304)));
    assert_eq!(failure_of_status(401), Some(FetchError::Status(401)));
    assert_eq!(failure_of_status(429), Some(FetchError::Status(429)));
    assert_eq!(failure_of_status(500), Some(FetchError::Status(500)));
    assert_eq!(failure_of_status(0), Some(FetchError::Status(0)));
    assert_eq!(failure_of_status(u16::MAX), Some(FetchError::Status(u16::MAX)));
}

#[test]
fn status_is_told_for_every_code() {
    for code in 0..=u16::MAX {
        let expected =
            if (200..300).contains(&code) { None } else { Some(FetchError::Status(code)) };
        assert_eq!(failure_of_status(code), expected);
    }
}
