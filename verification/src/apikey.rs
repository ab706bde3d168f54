//! API-key authentication: extracting the presented key and comparing it
//! against the configured one. Requests whose key does not match are
//! answered 401 at the boundary.

use vstd::prelude::*;
use crate::text::remove_all;

verus! {

/// The request guard that admits only calls carrying the configured key.
pub struct ApiKeyGuard;

/// The body of a request that registers a torrent by hand.
pub struct TorrentInput {
    pub info_hash: String,
}

/// The presented key of a POST request: the Authorization header with
/// every `Bearer ` marker removed.
pub fn bearer_token(header: &str) -> (r: String)
    ensures
        r@ == remove_all(header@, "Bearer "@),
{
    proof {
        reveal_strlit("Bearer ");
    }
    crate::text::remove_occurrences(header, "Bearer ")
}

/// Whether a presented key authenticates: only a present key equal to a
/// configured key does; a missing key on either side is refused.
pub fn check_api_key(presented: Option<String>, configured: Option<String>) -> (r: bool)
    ensures
        r == (presented is Some && configured is Some && presented->0@ == configured->0@),
{
    match (presented, configured) {
        (Some(p), Some(c)) => p == c,
        _ => false,
    }
}

} // verus!
