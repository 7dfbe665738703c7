use toot_feed::render::{
    render_entry, AFTER_AVATAR, AFTER_NAME, AFTER_PROFILE, AFTER_STAMP, BLOCK_HEAD, BLOCK_TAIL,
};
use toot_feed::{
    escape_html, feed_body, render, Account, FetchError, FetchOutcome, TootContext,
};

fn toot(username: &str, content: &str, created_at: &str) -> TootContext {
    TootContext {
        account: Account {
            avatar: format!("https://example.social/avatars/{}.png", username),
            url: format!("https://example.social/@{}", username),
            username: username.to_string(),
        },
        content: content.to_string(),
        created_at: created_at.to_string(),
    }
}

#[test]
fn escape_leaves_plain_text_alone() {
    assert_eq!(escape_html("hello world"), "hello world");
    assert_eq!(escape_html(""), "");
    assert_eq!(escape_html("2024-01-02T00:00:00Z"), "2024-01-02T00:00:00Z");
    assert_eq!(escape_html("grüße 🐘 日本語"), "grüße 🐘 日本語");
}

#[test]
fn escape_writes_each_markup_character_as_a_reference() {
    assert_eq!(escape_html("&"), "&amp;");
    assert_eq!(escape_html("<"), "&lt;");
    assert_eq!(escape_html(">"), "&gt;");
    assert_eq!(escape_html("\""), "&quot;");
    assert_eq!(escape_html("'"), "&#x27;");
}

#[test]
fn escape_neutralises_a_script_tag() {
    assert_eq!(
        escape_html("<script>alert('x')</script>"),
        "&lt;script&gt;alert(&#x27;x&#x27;)&lt;/script&gt;"
    );
    assert_eq!(escape_html("a < b && c > d"), "a &lt; b &amp;&amp; c &gt; d");
    assert_eq!(escape_html("&amp;"), "&amp;amp;");
    assert_eq!(escape_html("\" onload=\"x"), "&quot; onload=&quot;x");
}

#[test]
fn escaped_text_holds_no_tag_and_no_quote() {
    let escaped = escape_html("<a href=\"x\" title='y'>&</a>");
    assert!(!escaped.contains('<'));
    assert!(!escaped.contains('>'));
    assert!(!escaped.contains('"'));
    assert!(!escaped.contains('\''));
}

#[test]
fn a_block_has_the_fixed_shape() {
    let mut out = String::new();
    render_entry(&mut out, &toot("alice", "hi", "2024-01-02T00:00:00Z"));
    let expected = "
            <div style=\"border: 1px solid #000; background-color: #eef; padding: 5px; margin: 5px\">
                <div style=\"display: flow-root\">
                    <img src=\"https://example.social/avatars/alice.png\" align=\"left\" width=\"64\" height=\"64\" />
                    <a href=\"https://example.social/@alice\" target=\"_blank\">alice</a><br />
                    2024-01-02T00:00:00Z
                </div>
                <div>
                    hi
                </div>
            </div>
            ";
    assert_eq!(out, expected);
}

#[test]
fn a_block_is_the_frame_around_the_escaped_fields() {
    let entry = TootContext {
        account: Account {
            avatar: "https://a.example/?x=1&y=2".to_string(),
            url: "https://a.example/@\"quoted\"".to_string(),
            username: "<b>al</b>".to_string(),
        },
        content: "it's <i>fine</i>".to_string(),
        created_at: "2024-01-02T00:00:00Z".to_string(),
    };
    let mut out = String::from("before");
    render_entry(&mut out, &entry);
    let expected = format!(
        "before{}{}{}{}{}{}{}{}{}{}{}",
        BLOCK_HEAD,
        "https://a.example/?x=1&amp;y=2",
        AFTER_AVATAR,
        "https://a.example/@&quot;quoted&quot;",
        AFTER_PROFILE,
        "&lt;b&gt;al&lt;/b&gt;",
        AFTER_NAME,
        "2024-01-02T00:00:00Z",
        AFTER_STAMP,
        "it&#x27;s &lt;i&gt;fine&lt;/i&gt;",
        BLOCK_TAIL,
    );
    assert_eq!(out, expected);
}

#[test]
fn a_tag_in_a_name_or_text_makes_no_tag_in_the_page() {
    let plain = render(&vec![toot("x", "y", "2024-01-02T00:00:00Z")]);
    let hostile = render(&vec![toot(
        "<script>steal()</script>",
        "<img src=x onerror=\"run()\">",
        "2024-01-02T00:00:00Z",
    )]);
    assert_eq!(hostile.matches('<').count(), plain.matches('<').count());
    assert_eq!(hostile.matches('>').count(), plain.matches('>').count());
    assert_eq!(hostile.matches('"').count(), plain.matches('"').count());
    assert!(!hostile.contains("<script>"));
    assert!(hostile.contains("&lt;script&gt;steal()&lt;/script&gt;"));
}

#[test]
fn render_keeps_the_order_it_is_given() {
    let first = toot("bob", "yo", "2024-01-01T00:00:00Z");
    let second = toot("alice", "hi", "2024-01-02T00:00:00Z");
    let mut expected = String::new();
    render_entry(&mut expected, &first);
    render_entry(&mut expected, &second);
    let body = render(&vec![
        toot("bob", "yo", "2024-01-01T00:00:00Z"),
        toot("alice", "hi", "2024-01-02T00:00:00Z"),
    ]);
    assert_eq!(body, expected);
    assert!(body.find("bob").unwrap() < body.find("alice").unwrap());
}

#[test]
fn render_leaves_nothing_out() {
    let body = render(&vec![
        toot("alice", "", "2024-01-03T00:00:00Z"),
        toot("alice", "hi", "2024-01-02T00:00:00Z"),
    ]);
    assert_eq!(body.matches(BLOCK_HEAD).count(), 2);
}

#[test]
fn render_of_nothing_is_empty() {
    assert_eq!(render(&Vec::new()), "");
}

#[test]
fn render_gives_the_same_page_every_time() {
    let make = || vec![toot("alice", "hi", "2024-01-02T00:00:00Z"), toot("bob", "yo", "2024-01-01T00:00:00Z")];
    assert_eq!(render(&make()), render(&make()));
}

#[test]
fn no_subscriptions_give_an_empty_body() {
    assert_eq!(feed_body(Vec::new()), "");
}

#[test]
fn all_fetches_failed_give_an_empty_body() {
    let outcomes: Vec<FetchOutcome> =
        vec![Err(FetchError::Transport), Err(FetchError::Status { code: 500 })];
    assert_eq!(feed_body(outcomes), "");
}

#[test]
fn the_body_holds_the_feed_newest_first() {
    let outcomes: Vec<FetchOutcome> = vec![
        Ok(vec![
            toot("alice", "hi", "2024-01-02T00:00:00Z"),
            toot("alice", "", "2024-01-03T00:00:00Z"),
        ]),
        Ok(vec![toot("bob", "yo", "2024-01-01T00:00:00Z")]),
    ];
    let body = feed_body(outcomes);
    let expected = render(&vec![
        toot("alice", "hi", "2024-01-02T00:00:00Z"),
        toot("bob", "yo", "2024-01-01T00:00:00Z"),
    ]);
    assert_eq!(body, expected);
    assert!(!body.contains("2024-01-03T00:00:00Z"));
}

#[test]
fn the_body_of_a_partly_failed_fetch_holds_the_rest() {
    let outcomes: Vec<FetchOutcome> = vec![
        Ok(vec![
            toot("alice", "hi", "2024-01-02T00:00:00Z"),
            toot("alice", "", "2024-01-03T00:00:00Z"),
        ]),
        Err(FetchError::Status { code: 500 }),
    ];
    let body = feed_body(outcomes);
    assert_eq!(body, render(&vec![toot("alice", "hi", "2024-01-02T00:00:00Z")]));
}

#[test]
fn plain_fields_stand_in_the_block_as_they_are() {
    let entry = toot("alice", "hi there", "2024-01-02T00:00:00Z");
    let mut out = String::new();
    render_entry(&mut out, &entry);
    assert!(out.contains("src=\"https://example.social/avatars/alice.png\""));
    assert!(out.contains("href=\"https://example.social/@alice\""));
    assert!(out.contains(">alice</a>"));
    assert!(out.contains("2024-01-02T00:00:00Z"));
    assert!(out.contains("hi there"));
}

#[test]
fn feeds_that_differ_give_pages_that_differ() {
    let feeds = || -> Vec<Vec<TootContext>> {
        vec![
            Vec::new(),
            vec![toot("alice", "a<b", "2024-01-02T00:00:00Z")],
            vec![toot("alice", "a&lt;b", "2024-01-02T00:00:00Z")],
            vec![toot("alice", "a", "2024-01-02T00:00:00Z")],
            vec![toot("alice", "a", "2024-01-02T00:00:00Z"), toot("alice", "a", "2024-01-02T00:00:00Z")],
            vec![toot("alice</a>", "a", "2024-01-02T00:00:00Z")],
            vec![toot("alice", "a\n                </div>", "2024-01-02T00:00:00Z")],
            vec![toot("alice", "a", "2024-01-02T00:00:00Z\n")],
            vec![toot("alice", "\na", "2024-01-02T00:00:00Z")],
        ]
    };
    let pages: Vec<String> = feeds().iter().map(|feed| render(feed)).collect();
    for i in 0..pages.len() {
        for j in 0..pages.len() {
            assert_eq!(pages[i] == pages[j], i == j);
        }
    }
}
