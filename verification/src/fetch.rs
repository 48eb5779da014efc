//! Content-retrieval decisions: what to do with a response when fetching
//! resolved bytes. A success is consumed; a redirection carrying a target is
//! followed exactly once, without the session credential (the CDN hop); any
//! other status fails with its numeric code.

use vstd::prelude::*;

verus! {

/// The step the fetcher takes on a response.
#[derive(Clone, Debug)]
pub enum FetchStep {
    /// The response is a success: use its body.
    UseBody,
    /// The response redirects: make one unauthenticated request to the
    /// carried location, and no more.
    FollowCdn(String),
    /// Any other status: fail, carrying the numeric code.
    Fail(u16),
}

/// Decide the fetch step from a response's status code and `Location`
/// header.
pub fn plan_fetch_response(status: u16, location: Option<String>) -> (r: FetchStep)
    ensures
        match r {
            FetchStep::UseBody => 200 <= status < 300,
            FetchStep::FollowCdn(u) => 300 <= status < 400 && (match location {
                Some(l) => u == l,
                None => false,
            }),
            FetchStep::Fail(code) => code == status && !(200 <= status < 300) && !(300 <= status
                < 400 && location is Some),
        },
{
    if 300 <= status && status < 400 {
        match location {
            Some(l) => FetchStep::FollowCdn(l),
            None => FetchStep::Fail(status),
        }
    } else if 200 <= status && status < 300 {
        FetchStep::UseBody
    } else {
        FetchStep::Fail(status)
    }
}

} // verus!
