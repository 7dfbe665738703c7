use toot_feed::order::text_le;
use toot_feed::source::{FETCH_TIMEOUT_SECS, MAX_IN_FLIGHT, STATUSES_PATH};
use toot_feed::{
    check_status, fetch_targets, statuses_url, subscriptions_or_none, ConfigurationError,
    FetchError, Subscription,
};

fn subscription(account: &str, url: &str) -> Subscription {
    Subscription { account: account.to_string(), url: url.to_string() }
}

#[test]
fn the_address_is_the_base_url_and_the_path() {
    assert_eq!(STATUSES_PATH, "/statuses");
    assert_eq!(
        statuses_url(&subscription("A", "https://a.example/api/v1/accounts/1")),
        "https://a.example/api/v1/accounts/1/statuses"
    );
    assert_eq!(statuses_url(&subscription("B", "")), "/statuses");
    assert_eq!(statuses_url(&subscription("C", "https://c.example/")), "https://c.example//statuses");
}

#[test]
fn one_target_for_each_subscription_in_order() {
    let subscriptions = vec![subscription("A", "urlA"), subscription("B", "urlB")];
    assert_eq!(fetch_targets(&subscriptions), vec!["urlA/statuses", "urlB/statuses"]);
    assert_eq!(subscriptions[0].url, "urlA");
    assert_eq!(subscriptions[0].account, "A");
}

#[test]
fn no_subscriptions_no_targets() {
    assert!(fetch_targets(&Vec::new()).is_empty());
}

#[test]
fn a_list_that_failed_to_load_is_an_empty_list() {
    assert!(subscriptions_or_none(Err(ConfigurationError::Missing)).is_empty());
    assert!(subscriptions_or_none(Err(ConfigurationError::Undecodable)).is_empty());
}

#[test]
fn a_loaded_list_is_taken_as_it_is() {
    let list = subscriptions_or_none(Ok(vec![subscription("A", "urlA"), subscription("B", "urlB")]));
    assert_eq!(list.len(), 2);
    assert_eq!(list[0].account, "A");
    assert_eq!(list[0].url, "urlA");
    assert_eq!(list[1].account, "B");
    assert_eq!(list[1].url, "urlB");
}

#[test]
fn success_is_a_status_from_200_to_299() {
    assert!(check_status(200).is_ok());
    assert!(check_status(204).is_ok());
    assert!(check_status(299).is_ok());
    assert!(matches!(check_status(199), Err(FetchError::Status { code: 199 })));
    assert!(matches!(check_status(300), Err(FetchError::Status { code: 300 })));
    assert!(matches!(check_status(404), Err(FetchError::Status { code: 404 })));
    assert!(matches!(check_status(500), Err(FetchError::Status { code: 500 })));
    assert!(matches!(check_status(0), Err(FetchError::Status { code: 0 })));
}

#[test]
fn the_limits_are_set() {
    assert_eq!(FETCH_TIMEOUT_SECS, 10);
    assert_eq!(MAX_IN_FLIGHT, 8);
}

#[test]
fn timestamps_compare_as_text() {
    assert!(text_le("2024-01-01T00:00:00Z", "2024-01-02T00:00:00Z"));
    assert!(!text_le("2024-01-02T00:00:00Z", "2024-01-01T00:00:00Z"));
    assert!(text_le("2024-01-01T00:00:00Z", "2024-01-01T00:00:00Z"));
    assert!(text_le("", ""));
    assert!(text_le("", "a"));
    assert!(!text_le("a", ""));
    assert!(text_le("2024", "2024-01"));
    assert!(!text_le("2024-01", "2024"));
    assert!(text_le("9", "a"));
    assert!(!text_le("b", "abc"));
}

#[test]
fn text_order_agrees_with_the_order_of_strings() {
    let samples = [
        "", "a", "ab", "abc", "b", "é", "z", "日本", "🐘", "2024-01-01T00:00:00Z",
        "2024-01-01T00:00:00.000Z", "2024-01-01T00:00:00+01:00", "~", "\u{7f}", "\u{80}",
        "\u{7ff}", "\u{800}", "\u{ffff}", "\u{10000}", "\u{10ffff}",
    ];
    for a in samples.iter() {
        for b in samples.iter() {
            assert_eq!(text_le(a, b), a <= b);
        }
    }
}

#[test]
fn timestamps_of_one_form_are_ordered_as_their_numbers() {
    let stamps = [
        "2023-12-31T23:59:59Z",
        "2024-01-01T00:00:00Z",
        "2024-01-01T00:00:01Z",
        "2024-01-02T00:00:00Z",
        "2024-02-01T00:00:00Z",
        "2024-10-01T00:00:00Z",
        "2025-01-01T00:00:00Z",
    ];
    let number = |s: &str| -> u64 {
        s.chars().filter(|c| c.is_ascii_digit()).fold(0, |n, c| n * 10 + c.to_digit(10).unwrap() as u64)
    };
    assert_eq!(number("2024-01-02T00:00:00Z"), 20240102000000);
    for a in stamps.iter() {
        for b in stamps.iter() {
            assert_eq!(text_le(a, b), number(a) <= number(b));
        }
    }
}
