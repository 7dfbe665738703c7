//! From the outcomes of the fetches to the feed.
//!
//! Every subscription is fetched on its own and ends in an outcome. The feed
//! is made from the outcomes alone: the posts of all fetches that succeeded,
//! without those that carry no text, the newest first.

use vstd::prelude::*;
use crate::arrange::{
    arranged, lemma_arranged_newest_first, lemma_arranged_same_posts, neighbours_in_order,
    newest_first, sort_newest_first,
};
use crate::fetch::{FetchError, FetchOutcome};
use crate::filter::{
    drop_empty, is_substantive, lemma_substantive_exact, lemma_substantive_in_order, substantive,
};
use crate::merge::{
    lemma_all_failed, lemma_failed_is_absent, lemma_merged_length, merge, merged, total_returned,
};
use crate::model::{entry_views, EntryView, TootContext};

verus! {

/// The feed that a list of outcomes gives.
pub open spec fn feed_of(outcomes: Seq<FetchOutcome>) -> Seq<EntryView> {
    arranged(substantive(merged(outcomes)))
}

/// Whether `s` is a feed as an aggregation gives it: every post carries
/// text, and the posts stand newest first.
pub open spec fn is_feed(s: Seq<EntryView>) -> bool {
    &&& forall|i: int| 0 <= i < s.len() ==> is_substantive(#[trigger] s[i])
    &&& newest_first(s)
}

/// What an aggregation gives is a feed.
pub proof fn lemma_feed_is_feed(outcomes: Seq<FetchOutcome>)
    ensures
        is_feed(feed_of(outcomes)),
{
    let kept = substantive(merged(outcomes));
    let feed = feed_of(outcomes);
    lemma_arranged_newest_first(kept);
    assert forall|i: int| 0 <= i < feed.len() implies is_substantive(#[trigger] feed[i]) by {
        broadcast use vstd::seq_lib::group_to_multiset_ensures;

        lemma_feed_holds(outcomes, feed[i]);
        assert(feed.contains(feed[i]));
        assert(feed.to_multiset().count(feed[i]) > 0);
    }
}

/// The feed holds the posts with text that the fetches returned, each as
/// often as it was returned, and no other post.
pub proof fn lemma_feed_holds(outcomes: Seq<FetchOutcome>, e: EntryView)
    ensures
        feed_of(outcomes).to_multiset().count(e) == if is_substantive(e) {
            merged(outcomes).to_multiset().count(e)
        } else {
            0
        },
{
    lemma_arranged_same_posts(substantive(merged(outcomes)));
    lemma_substantive_exact(merged(outcomes), e);
}

/// The feed stands newest first: no post stands before a newer one, and so
/// each post is at least as new as the one behind it.
pub proof fn lemma_feed_newest_first(outcomes: Seq<FetchOutcome>)
    ensures
        newest_first(feed_of(outcomes)),
        neighbours_in_order(feed_of(outcomes)),
{
    lemma_arranged_newest_first(substantive(merged(outcomes)));
}

/// The feed holds no more posts than the fetches returned.
pub proof fn lemma_feed_length(outcomes: Seq<FetchOutcome>)
    ensures
        substantive(merged(outcomes)).len() <= total_returned(outcomes),
        feed_of(outcomes).len() == substantive(merged(outcomes)).len(),
        feed_of(outcomes).len() <= total_returned(outcomes),
{
    lemma_merged_length(outcomes);
    lemma_substantive_in_order(merged(outcomes));
    lemma_arranged_same_posts(substantive(merged(outcomes)));
}

/// A fetch that fails harms no other: the feed is the one that the other
/// subscriptions give without it.
pub proof fn lemma_failure_is_absence(outcomes: Seq<FetchOutcome>, k: int, error: FetchError)
    requires
        0 <= k < outcomes.len(),
    ensures
        feed_of(outcomes.update(k, Err(error))) == feed_of(outcomes.remove(k)),
{
    lemma_failed_is_absent(outcomes, k, error);
}

/// Without a post returned there is no feed: no subscriptions, or all of
/// them failed, gives the empty feed.
pub proof fn lemma_nothing_returned(outcomes: Seq<FetchOutcome>)
    requires
        forall|i: int| 0 <= i < outcomes.len() ==> #[trigger] outcomes[i] is Err,
    ensures
        feed_of(outcomes) == Seq::<EntryView>::empty(),
{
    lemma_all_failed(outcomes);
    reveal(Seq::filter);
    assert(substantive(Seq::<EntryView>::empty()) =~= Seq::<EntryView>::empty());
}

/// Makes the feed from the outcomes of all fetches: merges what was
/// returned, drops the posts without text, and orders the rest newest first.
pub fn aggregate(outcomes: Vec<FetchOutcome>) -> (feed: Vec<TootContext>)
    ensures
        entry_views(feed@) == feed_of(outcomes@),
        is_feed(entry_views(feed@)),
        neighbours_in_order(entry_views(feed@)),
        forall|e: EntryView|
            #[trigger] entry_views(feed@).to_multiset().count(e) == if is_substantive(e) {
                merged(outcomes@).to_multiset().count(e)
            } else {
                0
            },
        feed@.len() <= total_returned(outcomes@),
{
    proof {
        lemma_feed_length(outcomes@);
        lemma_feed_newest_first(outcomes@);
        lemma_feed_is_feed(outcomes@);
        assert forall|e: EntryView|
            #[trigger] feed_of(outcomes@).to_multiset().count(e) == if is_substantive(e) {
                merged(outcomes@).to_multiset().count(e)
            } else {
                0
            } by {
            lemma_feed_holds(outcomes@, e);
        }
    }
    sort_newest_first(drop_empty(merge(outcomes)))
}

} // verus!
