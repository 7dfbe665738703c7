//! How the fetch of one subscription ends.
//!
//! A fetch is one request to the address of a subscription. It ends with the
//! posts that the remote service returned, or with the reason why there are
//! none. The reasons are told apart, and all of them are treated alike: the
//! subscription adds no posts.

use vstd::prelude::*;
use crate::model::TootContext;

verus! {

/// Why a subscription returned no posts.
#[derive(Debug)]
pub enum FetchError {
    /// The request did not get through, or its answer did not arrive in time.
    Transport,
    /// The remote service answered with a status other than success.
    Status { code: u16 },
    /// The answer was not a list of posts.
    Decode,
}

/// How the fetch of one subscription ended.
pub type FetchOutcome = Result<Vec<TootContext>, FetchError>;

/// Whether an HTTP status says that the request succeeded.
pub open spec fn is_success(code: u16) -> bool {
    200 <= code <= 299
}

/// Tells a status of success from one that makes the fetch fail.
pub fn check_status(code: u16) -> (checked: Result<(), FetchError>)
    ensures
        is_success(code) ==> checked == Ok::<(), FetchError>(()),
        !is_success(code) ==> checked == Err::<(), FetchError>(FetchError::Status { code }),
{
    if 200 <= code && code <= 299 {
        Ok(())
    } else {
        Err(FetchError::Status { code })
    }
}

} // verus!
