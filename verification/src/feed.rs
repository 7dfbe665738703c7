//! From the outcomes of the fetches to the body of the answer.

use vstd::prelude::*;
use crate::aggregate::{aggregate, feed_of, lemma_nothing_returned};
use crate::fetch::FetchOutcome;
use crate::model::EntryView;
use crate::render::{block, page, render};

verus! {

/// The body of the answer: the feed that the outcomes give, rendered. There
/// is a body for every list of outcomes.
pub fn feed_body(outcomes: Vec<FetchOutcome>) -> (body: String)
    ensures
        body@ == page(feed_of(outcomes@)),
{
    let feed = aggregate(outcomes);
    render(&feed)
}

/// Where nothing was returned the body is empty: with no subscriptions, or
/// with every fetch failed.
pub proof fn lemma_nothing_returned_empty_body(outcomes: Seq<FetchOutcome>)
    requires
        forall|i: int| 0 <= i < outcomes.len() ==> #[trigger] outcomes[i] is Err,
    ensures
        page(feed_of(outcomes)) == Seq::<char>::empty(),
{
    lemma_nothing_returned(outcomes);
    assert(feed_of(outcomes).map_values(|e: EntryView| block(e)) =~= Seq::<Seq<char>>::empty());
}

} // verus!
