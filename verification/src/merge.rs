//! Putting what the fetches returned into one list.
//!
//! The outcomes are taken in the order of the subscriptions. An outcome that
//! holds posts adds them, in the order in which they were returned. A failed
//! fetch adds nothing, and takes nothing away from the others.

use vstd::prelude::*;
use crate::fetch::{FetchError, FetchOutcome};
use crate::model::{entry_views, lemma_entry_views_add, EntryView, TootContext};

verus! {

/// The posts that one outcome adds to the feed: those it returned, and none
/// where the fetch failed.
pub open spec fn contribution(outcome: FetchOutcome) -> Seq<EntryView> {
    match outcome {
        Ok(entries) => entry_views(entries@),
        Err(_) => Seq::empty(),
    }
}

/// The contributions of all outcomes, one after the other.
pub open spec fn merged(outcomes: Seq<FetchOutcome>) -> Seq<EntryView> {
    outcomes.map_values(|o: FetchOutcome| contribution(o)).flatten()
}

/// How many posts the fetches returned, all outcomes taken together.
pub open spec fn total_returned(outcomes: Seq<FetchOutcome>) -> nat
    decreases outcomes.len(),
{
    if outcomes.len() == 0 {
        0
    } else {
        total_returned(outcomes.drop_last()) + contribution(outcomes.last()).len()
    }
}

/// Merging yields as many posts as the fetches returned.
pub proof fn lemma_merged_length(outcomes: Seq<FetchOutcome>)
    ensures
        merged(outcomes).len() == total_returned(outcomes),
    decreases outcomes.len(),
{
    let parts = outcomes.map_values(|o: FetchOutcome| contribution(o));
    if outcomes.len() > 0 {
        let front = outcomes.drop_last();
        lemma_merged_length(front);
        assert(parts =~= front.map_values(|o: FetchOutcome| contribution(o)).push(
            contribution(outcomes.last()),
        ));
        front.map_values(|o: FetchOutcome| contribution(o)).lemma_flatten_push(
            contribution(outcomes.last()),
        );
    }
}

/// Merging two lists of outcomes one after the other merges their posts one
/// after the other.
pub proof fn lemma_merged_add(front: Seq<FetchOutcome>, back: Seq<FetchOutcome>)
    ensures
        merged(front + back) == merged(front) + merged(back),
{
    let f = |o: FetchOutcome| contribution(o);
    assert((front + back).map_values(f) =~= front.map_values(f) + back.map_values(f));
    vstd::seq_lib::lemma_flatten_concat(front.map_values(f), back.map_values(f));
}

/// A fetch that fails harms no other: the posts merged are those that the
/// other outcomes give without it.
pub proof fn lemma_failed_is_absent(outcomes: Seq<FetchOutcome>, k: int, error: FetchError)
    requires
        0 <= k < outcomes.len(),
    ensures
        merged(outcomes.update(k, Err(error))) == merged(outcomes.remove(k)),
{
    let f = |o: FetchOutcome| contribution(o);
    let head = outcomes.subrange(0, k);
    let tail = outcomes.subrange(k + 1, outcomes.len() as int);
    let failed: Seq<FetchOutcome> = seq![Err(error)];
    assert(outcomes.update(k, Err(error)) =~= head + failed + tail);
    assert(outcomes.remove(k) =~= head + tail);
    lemma_merged_add(head + failed, tail);
    lemma_merged_add(head, failed);
    lemma_merged_add(head, tail);
    assert(merged(failed) =~= Seq::<EntryView>::empty()) by {
        assert(failed.map_values(f) =~= seq![Seq::<EntryView>::empty()]);
        failed.map_values(f).lemma_flatten_singleton();
    }
    assert(merged(head) + merged(failed) =~= merged(head));
}

/// The posts of a subscription that answered are all merged, in the order
/// it gave them, whatever became of the other fetches: they stand together,
/// behind the posts of the outcomes before it.
pub proof fn lemma_contribution_intact(outcomes: Seq<FetchOutcome>, k: int)
    requires
        0 <= k < outcomes.len(),
    ensures
        merged(outcomes) == merged(outcomes.subrange(0, k)) + contribution(outcomes[k]) + merged(
            outcomes.subrange(k + 1, outcomes.len() as int),
        ),
{
    let f = |o: FetchOutcome| contribution(o);
    let head = outcomes.subrange(0, k);
    let tail = outcomes.subrange(k + 1, outcomes.len() as int);
    let one: Seq<FetchOutcome> = seq![outcomes[k]];
    assert(outcomes =~= head + one + tail);
    lemma_merged_add(head + one, tail);
    lemma_merged_add(head, one);
    assert(merged(one) =~= contribution(outcomes[k])) by {
        assert(one.map_values(f) =~= seq![contribution(outcomes[k])]);
        one.map_values(f).lemma_flatten_singleton();
    }
}

/// Where no fetch succeeded nothing is merged. This holds of no outcomes at
/// all as well.
pub proof fn lemma_all_failed(outcomes: Seq<FetchOutcome>)
    requires
        forall|i: int| 0 <= i < outcomes.len() ==> #[trigger] outcomes[i] is Err,
    ensures
        merged(outcomes) == Seq::<EntryView>::empty(),
    decreases outcomes.len(),
{
    let f = |o: FetchOutcome| contribution(o);
    if outcomes.len() > 0 {
        let front = outcomes.drop_last();
        lemma_all_failed(front);
        assert(outcomes =~= front.push(outcomes.last()));
        assert(outcomes.map_values(f) =~= front.map_values(f).push(contribution(outcomes.last())));
        front.map_values(f).lemma_flatten_push(contribution(outcomes.last()));
        assert(merged(outcomes) =~= Seq::<EntryView>::empty());
    } else {
        assert(outcomes.map_values(f) =~= Seq::<Seq<EntryView>>::empty());
    }
}

/// The posts that one outcome adds to the feed.
pub fn absorb(outcome: FetchOutcome) -> (entries: Vec<TootContext>)
    ensures
        entry_views(entries@) == contribution(outcome),
{
    match outcome {
        Ok(entries) => entries,
        Err(_) => {
            let none: Vec<TootContext> = Vec::new();
            assert(entry_views(none@) =~= Seq::<EntryView>::empty());
            none
        },
    }
}

/// Puts the posts of all outcomes into one list, outcome after outcome. A
/// failed fetch adds nothing and takes nothing away.
pub fn merge(outcomes: Vec<FetchOutcome>) -> (all: Vec<TootContext>)
    ensures
        entry_views(all@) == merged(outcomes@),
        all@.len() == total_returned(outcomes@),
{
    let ghost given = outcomes@;
    let mut all: Vec<TootContext> = Vec::new();
    assert(merged(given.take(0)) =~= entry_views(all@)) by {
        assert(given.take(0).map_values(|o: FetchOutcome| contribution(o)) =~= Seq::<
            Seq<EntryView>,
        >::empty());
    }
    for outcome in it: outcomes
        invariant
            it.seq() == given,
            it.index() <= given.len(),
            entry_views(all@) == merged(given.take(it.index())),
    {
        proof {
            let seen = given.take(it.index());
            let parts = seen.map_values(|o: FetchOutcome| contribution(o));
            assert(given.take(it.index() + 1) =~= seen.push(outcome));
            assert(seen.push(outcome).map_values(|o: FetchOutcome| contribution(o)) =~= parts.push(
                contribution(outcome),
            ));
            parts.lemma_flatten_push(contribution(outcome));
        }
        let ghost before = all@;
        let mut entries = absorb(outcome);
        proof {
            lemma_entry_views_add(before, entries@);
        }
        all.append(&mut entries);
    }
    assert(given.take(given.len() as int) =~= given);
    proof {
        lemma_merged_length(given);
    }
    all
}

} // verus!
