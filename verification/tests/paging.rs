use find_nearby_twitterer::error::FetchError;
use find_nearby_twitterer::paging::{
    replay, Envelope, Meta, Outcome, Paginator, Reply, Turn, PAGE_DELAY_MILLIS,
};
use find_nearby_twitterer::params::Params;

fn base() -> Params {
    let mut params = Params::new();
    params.insert("max_results", "1000");
    params.insert("user.fields", "id,name");
    params
}

fn page(items: Vec<u32>, next: Option<&str>) -> Reply<u32> {
    Reply::Page(Envelope {
        data: items,
        meta: Some(Meta {
            result_count: None,
            previous_token: None,
            next_token: next.map(|t| t.to_string()),
        }),
    })
}

fn bare_page(items: Vec<u32>) -> Reply<u32> {
    Reply::Page(Envelope { data: items, meta: None })
}

fn done_items(outcome: Outcome<u32>) -> Vec<u32> {
    match outcome {
        Outcome::Done(items) => items,
        Outcome::Failed(error) => panic!("failed with {:?}", error),
        Outcome::Waiting(_) => panic!("the fetch is not over"),
    }
}

#[test]
fn first_request_carries_no_token() {
    let pager: Paginator<u32> = Paginator::new(base());
    let request = pager.request();
    assert_eq!(request.len(), 2);
    assert_eq!(request.get("max_results"), Some("1000"));
    assert_eq!(request.get("user.fields"), Some("id,name"));
    assert_eq!(request.get("pagination_token"), None);
    assert!(pager.items().is_empty());
}

#[test]
fn next_request_carries_the_token_of_the_page() {
    let pager: Paginator<u32> = Paginator::new(base());
    let pager = match pager.accept(page(vec![1, 2], Some("t2"))) {
        Turn::Next(pager) => pager,
        _ => panic!("another page is due"),
    };
    assert_eq!(pager.items(), &vec![1, 2]);
    let request = pager.request();
    assert_eq!(request.len(), 3);
    assert_eq!(request.get("max_results"), Some("1000"));
    assert_eq!(request.get("user.fields"), Some("id,name"));
    assert_eq!(request.get("pagination_token"), Some("t2"));
    let pager = match pager.accept(page(vec![3], Some("t3"))) {
        Turn::Next(pager) => pager,
        _ => panic!("another page is due"),
    };
    assert_eq!(pager.request().get("pagination_token"), Some("t3"));
    assert_eq!(pager.request().len(), 3);
}

#[test]
fn token_replaces_a_base_parameter_of_the_same_name() {
    let mut params = base();
    params.insert("pagination_token", "stale");
    let pager: Paginator<u32> = Paginator::new(params);
    assert_eq!(pager.request().get("pagination_token"), Some("stale"));
    let pager = match pager.accept(page(vec![], Some("fresh"))) {
        Turn::Next(pager) => pager,
        _ => panic!("another page is due"),
    };
    assert_eq!(pager.request().get("pagination_token"), Some("fresh"));
    assert_eq!(pager.request().len(), 3);
}

#[test]
fn all_pages_are_fetched_in_order() {
    let replies = vec![
        page(vec![1, 2], Some("2")),
        page(vec![3], Some("3")),
        page(vec![], Some("4")),
        bare_page(vec![4, 5, 6]),
    ];
    let result = replay(base(), replies);
    assert_eq!(result.requests, 4);
    assert_eq!(done_items(result.outcome), vec![1, 2, 3, 4, 5, 6]);
}

#[test]
fn last_page_may_have_meta_without_next_token() {
    let replies = vec![page(vec![1], Some("2")), page(vec![2], Some("3")), page(vec![3], None)];
    let result = replay(base(), replies);
    assert_eq!(result.requests, 3);
    assert_eq!(done_items(result.outcome), vec![1, 2, 3]);
}

#[test]
fn single_page_without_meta() {
    let result = replay(base(), vec![bare_page(vec![7, 8])]);
    assert_eq!(result.requests, 1);
    assert_eq!(done_items(result.outcome), vec![7, 8]);
}

#[test]
fn page_without_next_token_stops_at_once() {
    let stop = Reply::Page(Envelope {
        data: vec![2u32],
        meta: Some(Meta {
            result_count: Some(1000),
            previous_token: Some("1".to_string()),
            next_token: None,
        }),
    });
    let replies = vec![page(vec![1], Some("2")), stop, page(vec![3], Some("4")), bare_page(vec![4])];
    let result = replay(base(), replies);
    assert_eq!(result.requests, 2);
    assert_eq!(done_items(result.outcome), vec![1, 2]);
}

#[test]
fn failure_ends_the_fetch_without_items() {
    let replies = vec![
        page(vec![1], Some("2")),
        page(vec![2], Some("3")),
        Reply::Failed(FetchError::Transport),
        bare_page(vec![4]),
    ];
    let result = replay(base(), replies);
    assert_eq!(result.requests, 3);
    match result.outcome {
        Outcome::Failed(error) => assert_eq!(error, FetchError::Transport),
        _ => panic!("the fetch must fail"),
    }
}

#[test]
fn failure_of_the_first_request() {
    let replies: Vec<Reply<u32>> = vec![Reply::Failed(FetchError::Status(429))];
    let result = replay(base(), replies);
    assert_eq!(result.requests, 1);
    match result.outcome {
        Outcome::Failed(error) => assert_eq!(error, FetchError::Status(429)),
        _ => panic!("the fetch must fail"),
    }
}

#[test]
fn decode_failure_is_reported_as_such() {
    let turn = Paginator::<u32>::new(base()).accept(Reply::Failed(FetchError::Decode));
    assert_eq!(turn.pause_millis(), 0);
    match turn {
        Turn::Failed(error) => assert_eq!(error, FetchError::Decode),
        _ => panic!("the fetch must fail"),
    }
}

#[test]
fn replay_waits_when_the_replies_run_out() {
    let result = replay(base(), vec![page(vec![1], Some("2")), page(vec![2], Some("3"))]);
    assert_eq!(result.requests, 2);
    match result.outcome {
        Outcome::Waiting(pager) => {
            assert_eq!(pager.items(), &vec![1, 2]);
            assert_eq!(pager.request().get("pagination_token"), Some("3"));
        }
        _ => panic!("the fetch is not over"),
    }
    let nothing: Vec<Reply<u32>> = Vec::new();
    let result = replay(base(), nothing);
    assert_eq!(result.requests, 0);
    match result.outcome {
        Outcome::Waiting(pager) => assert_eq!(pager.request().get("pagination_token"), None),
        _ => panic!("the fetch is not over"),
    }
}

#[test]
fn pause_follows_every_page_and_no_failure() {
    assert_eq!(PAGE_DELAY_MILLIS, 3000);
    let more = Paginator::<u32>::new(base()).accept(page(vec![1], Some("2")));
    assert_eq!(more.pause_millis(), 3000);
    let last = Paginator::<u32>::new(base()).accept(bare_page(vec![1]));
    assert_eq!(last.pause_millis(), 3000);
    let failed = Paginator::<u32>::new(base()).accept(Reply::Failed(FetchError::Transport));
    assert_eq!(failed.pause_millis(), 0);
}

#[test]
fn single_answer_needs_no_meta() {
    let bare = Envelope { data: "profile".to_string(), meta: None };
    assert_eq!(bare.into_data(), "profile");
    let full = Envelope {
        data: 5u8,
        meta: Some(Meta {
            result_count: Some(3),
            previous_token: None,
            next_token: Some("more".to_string()),
        }),
    };
    assert_eq!(full.into_data(), 5);
}
