use toot_feed::{
    aggregate, feed_body, fetch_targets, render, subscriptions_or_none, Account,
    ConfigurationError, FetchError, FetchOutcome, Subscription, TootContext,
};

fn subscription(account: &str, url: &str) -> Subscription {
    Subscription { account: account.to_string(), url: url.to_string() }
}

fn toot(username: &str, content: &str, created_at: &str) -> TootContext {
    TootContext {
        account: Account {
            avatar: String::new(),
            url: String::new(),
            username: username.to_string(),
        },
        content: content.to_string(),
        created_at: created_at.to_string(),
    }
}

fn alice() -> FetchOutcome {
    Ok(vec![
        toot("alice", "hi", "2024-01-02T00:00:00Z"),
        toot("alice", "", "2024-01-03T00:00:00Z"),
    ])
}

fn bob() -> FetchOutcome {
    Ok(vec![toot("bob", "yo", "2024-01-01T00:00:00Z")])
}

fn fetch_with(subscriptions: &Vec<Subscription>, remote: fn(&str) -> FetchOutcome) -> Vec<FetchOutcome> {
    fetch_targets(subscriptions).iter().map(|url| remote(url.as_str())).collect()
}

fn both_answer(url: &str) -> FetchOutcome {
    match url {
        "urlA/statuses" => alice(),
        "urlB/statuses" => bob(),
        _ => Err(FetchError::Status { code: 404 }),
    }
}

fn b_times_out(url: &str) -> FetchOutcome {
    match url {
        "urlA/statuses" => alice(),
        _ => Err(FetchError::Transport),
    }
}

fn b_answers_500(url: &str) -> FetchOutcome {
    match url {
        "urlA/statuses" => alice(),
        _ => Err(FetchError::Status { code: 500 }),
    }
}

fn posts(feed: &Vec<TootContext>) -> Vec<(String, String, String)> {
    feed.iter()
        .map(|t| (t.account.username.clone(), t.content.clone(), t.created_at.clone()))
        .collect()
}

fn post(username: &str, content: &str, created_at: &str) -> (String, String, String) {
    (username.to_string(), content.to_string(), created_at.to_string())
}

#[test]
fn both_subscriptions_answer() {
    let subscriptions = vec![subscription("A", "urlA"), subscription("B", "urlB")];
    let feed = aggregate(fetch_with(&subscriptions, both_answer));
    assert_eq!(
        posts(&feed),
        vec![post("alice", "hi", "2024-01-02T00:00:00Z"), post("bob", "yo", "2024-01-01T00:00:00Z")]
    );
}

#[test]
fn the_newest_post_is_dropped_if_it_is_a_boost() {
    let subscriptions = vec![subscription("A", "urlA"), subscription("B", "urlB")];
    let feed = aggregate(fetch_with(&subscriptions, both_answer));
    assert!(feed.iter().all(|t| t.created_at != "2024-01-03T00:00:00Z"));
    assert_eq!(feed[0].created_at, "2024-01-02T00:00:00Z");
}

#[test]
fn the_second_subscription_times_out() {
    let subscriptions = vec![subscription("A", "urlA"), subscription("B", "urlB")];
    let outcomes = fetch_with(&subscriptions, b_times_out);
    assert_eq!(outcomes.len(), 2);
    let feed = aggregate(outcomes);
    assert_eq!(posts(&feed), vec![post("alice", "hi", "2024-01-02T00:00:00Z")]);
}

#[test]
fn the_second_subscription_answers_500() {
    let subscriptions = vec![subscription("A", "urlA"), subscription("B", "urlB")];
    let feed = aggregate(fetch_with(&subscriptions, b_answers_500));
    assert_eq!(posts(&feed), vec![post("alice", "hi", "2024-01-02T00:00:00Z")]);
    let body = feed_body(fetch_with(&subscriptions, b_answers_500));
    assert_eq!(body, render(&vec![toot("alice", "hi", "2024-01-02T00:00:00Z")]));
    assert!(body.contains("alice"));
    assert!(!body.contains("bob"));
}

#[test]
fn an_empty_list_of_subscriptions_gives_an_empty_body() {
    let subscriptions: Vec<Subscription> = Vec::new();
    let outcomes = fetch_with(&subscriptions, both_answer);
    assert!(outcomes.is_empty());
    assert_eq!(feed_body(outcomes), "");
}

#[test]
fn a_list_that_cannot_be_read_gives_an_empty_body() {
    let subscriptions = subscriptions_or_none(Err(ConfigurationError::Missing));
    assert_eq!(feed_body(fetch_with(&subscriptions, both_answer)), "");
    let subscriptions = subscriptions_or_none(Err(ConfigurationError::Undecodable));
    assert_eq!(feed_body(fetch_with(&subscriptions, both_answer)), "");
}

#[test]
fn the_order_of_the_subscriptions_does_not_change_the_posts() {
    let one = vec![subscription("A", "urlA"), subscription("B", "urlB")];
    let other = vec![subscription("B", "urlB"), subscription("A", "urlA")];
    assert_eq!(
        posts(&aggregate(fetch_with(&one, both_answer))),
        posts(&aggregate(fetch_with(&other, both_answer)))
    );
}
