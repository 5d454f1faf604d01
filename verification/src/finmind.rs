//! The FinMind market-data source.
//!
//! The HTTP exchange itself lives outside the verified core; this module
//! holds the credential and the verified interpretation of the service's
//! response status.

use vstd::prelude::*;
use crate::crawler;

verus! {

/// Access to the FinMind service: just the API token.
pub struct Finmind {
    token: String,
}

impl Finmind {
    /// The stored credential.
    pub closed spec fn spec_token(&self) -> Seq<char> {
        self.token@
    }

    pub fn new(token: &str) -> (r: Finmind)
        ensures
            r.spec_token() == token@,
    {
        Finmind { token: token.to_owned() }
    }

    /// The stored API token, for the code that performs the request.
    pub fn token(&self) -> (r: &String)
        ensures
            r@ == self.spec_token(),
    {
        &self.token
    }
}

/// Maps a FinMind response status to the fetch outcome: 200 is success,
/// 400 a bad request, 402 the rate limit, anything else unknown.
pub fn classify_response_status(status: usize) -> (r: Result<(), crawler::Error>)
    ensures
        r is Ok <==> status == 200,
        r matches Err(e) ==> e == (match status {
            400usize => crawler::Error::BadRequest,
            402usize => crawler::Error::RateLimitReached,
            _ => crawler::Error::Unknown,
        }),
{
    match status {
        200 => Ok(()),
        400 => Err(crawler::Error::BadRequest),
        402 => Err(crawler::Error::RateLimitReached),
        _ => Err(crawler::Error::Unknown),
    }
}

} // verus!
