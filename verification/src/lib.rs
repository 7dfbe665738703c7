//! Aggregation of posts from several remote accounts into one feed,
//! newest first, rendered as an embeddable HTML fragment.
//!
//! The library takes the list of subscriptions and says which addresses to
//! fetch. It takes the outcomes of the fetches and gives the body of the
//! answer. Fetching itself is left to the program that uses the library.

pub mod aggregate;
pub mod arrange;
pub mod escape;
pub mod feed;
pub mod fetch;
pub mod filter;
pub mod merge;
pub mod model;
pub mod order;
pub mod render;
pub mod source;

pub use aggregate::aggregate;
pub use arrange::sort_newest_first;
pub use escape::escape_html;
pub use feed::feed_body;
pub use fetch::{check_status, FetchError, FetchOutcome};
pub use filter::drop_empty;
pub use merge::merge;
pub use model::{Account, Subscription, TootContext};
pub use render::render;
pub use source::{fetch_targets, statuses_url, subscriptions_or_none, ConfigurationError};
