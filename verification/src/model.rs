//! The records that flow through the feed: subscriptions, authors and posts.

use vstd::prelude::*;

verus! {

/// One remote account to aggregate, identified by the base URL of its feed.
#[derive(Debug)]
pub struct Subscription {
    pub account: String,
    pub url: String,
}

/// The author of a post, as the remote service describes them.
#[derive(Debug)]
pub struct Account {
    pub avatar: String,
    pub url: String,
    pub username: String,
}

/// A single post of a remote account.
#[derive(Debug)]
pub struct TootContext {
    pub account: Account,
    pub content: String,
    pub created_at: String,
}

/// What a [`Subscription`] holds, as plain text.
pub struct SubscriptionView {
    pub account: Seq<char>,
    pub url: Seq<char>,
}

/// What an [`Account`] holds, as plain text.
pub struct AccountView {
    pub avatar: Seq<char>,
    pub url: Seq<char>,
    pub username: Seq<char>,
}

/// What a [`TootContext`] holds, as plain text.
pub struct EntryView {
    pub account: AccountView,
    pub content: Seq<char>,
    pub created_at: Seq<char>,
}

impl View for Subscription {
    type V = SubscriptionView;

    open spec fn view(&self) -> SubscriptionView {
        SubscriptionView { account: self.account@, url: self.url@ }
    }
}

impl View for Account {
    type V = AccountView;

    open spec fn view(&self) -> AccountView {
        AccountView { avatar: self.avatar@, url: self.url@, username: self.username@ }
    }
}

impl View for TootContext {
    type V = EntryView;

    open spec fn view(&self) -> EntryView {
        EntryView { account: self.account@, content: self.content@, created_at: self.created_at@ }
    }
}

/// The posts of a sequence, each as plain text, in the same order.
pub open spec fn entry_views(entries: Seq<TootContext>) -> Seq<EntryView> {
    entries.map_values(|e: TootContext| e@)
}

/// The views of a sequence that grew by one post at its end.
pub proof fn lemma_entry_views_push(entries: Seq<TootContext>, e: TootContext)
    ensures
        entry_views(entries.push(e)) == entry_views(entries).push(e@),
{
    assert(entry_views(entries.push(e)) =~= entry_views(entries).push(e@));
}

/// The views of two sequences put end to end.
pub proof fn lemma_entry_views_add(front: Seq<TootContext>, back: Seq<TootContext>)
    ensures
        entry_views(front + back) == entry_views(front) + entry_views(back),
{
    assert(entry_views(front + back) =~= entry_views(front) + entry_views(back));
}

/// The views of a sequence into which one post was put at index `at`.
pub proof fn lemma_entry_views_insert(entries: Seq<TootContext>, at: int, e: TootContext)
    requires
        0 <= at <= entries.len(),
    ensures
        entry_views(entries.insert(at, e)) == entry_views(entries).insert(at, e@),
{
    assert(entry_views(entries.insert(at, e)) =~= entry_views(entries).insert(at, e@));
}

impl TootContext {
    /// Whether the post carries text of its own.
    pub fn has_content(&self) -> (r: bool)
        ensures
            r == (self@.content.len() > 0),
    {
        !self.content.as_str().is_empty()
    }
}

} // verus!
