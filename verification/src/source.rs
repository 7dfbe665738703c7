//! Where the posts come from: the list of subscriptions and the address at
//! which each of them is fetched.

use vstd::prelude::*;
use crate::model::{Subscription, SubscriptionView};

verus! {

/// What follows a subscription's base URL in the address of its posts.
pub const STATUSES_PATH: &'static str = "/statuses";

/// The seconds after which a fetch that has not ended counts as failed.
pub const FETCH_TIMEOUT_SECS: u64 = 10;

/// The number of fetches that may be under way at one time.
pub const MAX_IN_FLIGHT: usize = 8;

/// Why there is no list of subscriptions.
#[derive(Debug)]
pub enum ConfigurationError {
    /// The list could not be read.
    Missing,
    /// What was read is not a list of subscriptions.
    Undecodable,
}

/// The address at which the posts of a subscription are fetched.
pub open spec fn target_of(subscription: SubscriptionView) -> Seq<char> {
    subscription.url + STATUSES_PATH@
}

/// The subscriptions to aggregate: the list that was loaded, and none where
/// loading failed.
pub fn subscriptions_or_none(loaded: Result<Vec<Subscription>, ConfigurationError>) -> (list: Vec<
    Subscription,
>)
    ensures
        match loaded {
            Ok(found) => list == found,
            Err(_) => list@ == Seq::<Subscription>::empty(),
        },
{
    match loaded {
        Ok(found) => found,
        Err(_) => Vec::new(),
    }
}

/// The address at which the posts of a subscription are fetched.
pub fn statuses_url(subscription: &Subscription) -> (url: String)
    ensures
        url@ == target_of(subscription@),
{
    let mut url = subscription.url.clone();
    url.append(STATUSES_PATH);
    url
}

/// The addresses to fetch, one for each subscription and in their order.
pub fn fetch_targets(subscriptions: &Vec<Subscription>) -> (targets: Vec<String>)
    ensures
        targets@.len() == subscriptions@.len(),
        forall|i: int|
            0 <= i < targets@.len() ==> (#[trigger] targets@[i])@ == target_of(subscriptions@[i]@),
{
    let mut targets: Vec<String> = Vec::new();
    let mut i: usize = 0;
    while i < subscriptions.len()
        invariant
            i <= subscriptions@.len(),
            targets@.len() == i,
            forall|k: int|
                0 <= k < i ==> (#[trigger] targets@[k])@ == target_of(subscriptions@[k]@),
        decreases subscriptions@.len() - i,
    {
        targets.push(statuses_url(&subscriptions[i]));
        i += 1;
    }
    targets
}

} // verus!
