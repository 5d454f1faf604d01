//! Ingestion utilities: refreshing the record store from a data source.
//!
//! The fetch loop itself (network, sleeping out a rate limit) lives outside
//! the verified core; the decision of what to do with each fetch outcome is
//! the verified `fetch_directive`.

use vstd::prelude::*;
use std::rc::Rc;
use crate::backend;
use crate::backend::BackendOp;
use crate::crawler;
use crate::crawler::Crawler;
use crate::schema::RawData;

verus! {

/// Failures of an ingestion run, tagged with the failing subsystem.
#[derive(Debug)]
pub enum Error {
    Backend(backend::Error),
    Crawler(crawler::Error),
}

impl core::convert::From<backend::Error> for Error {
    fn from(err: backend::Error) -> (r: Error) {
        Error::Backend(err)
    }
}

impl vstd::std_specs::convert::FromSpecImpl<backend::Error> for Error {
    open spec fn obeys_from_spec() -> bool {
        true
    }

    open spec fn from_spec(err: backend::Error) -> Error {
        Error::Backend(err)
    }
}

impl core::convert::From<crawler::Error> for Error {
    fn from(err: crawler::Error) -> (r: Error) {
        Error::Crawler(err)
    }
}

impl vstd::std_specs::convert::FromSpecImpl<crawler::Error> for Error {
    open spec fn obeys_from_spec() -> bool {
        true
    }

    open spec fn from_spec(err: crawler::Error) -> Error {
        Error::Crawler(err)
    }
}

/// What the ingestion loop should do with one fetch outcome.
#[derive(Debug, Clone, Copy, PartialEq, Eq, Structural)]
pub enum FetchDirective {
    /// The fetch succeeded: store the records and move on.
    StoreRecords,
    /// The source is rate limited: pause, then retry the same request.
    RetryAfterPause,
    /// Any other failure: abort the run.
    Abort,
}

/// The retry policy of the ingestion loop: store on success, pause and
/// retry only on a rate limit, abort on every other failure.
pub fn fetch_directive(outcome: &Result<Vec<RawData>, crawler::Error>) -> (r: FetchDirective)
    ensures
        r == (match outcome {
            Ok(_) => FetchDirective::StoreRecords,
            Err(crawler::Error::RateLimitReached) => FetchDirective::RetryAfterPause,
            Err(_) => FetchDirective::Abort,
        }),
{
    match outcome {
        Ok(_) => FetchDirective::StoreRecords,
        Err(crawler::Error::RateLimitReached) => FetchDirective::RetryAfterPause,
        Err(_) => FetchDirective::Abort,
    }
}

/// The ingestion front end: a data source and the store it fills.  The
/// fetch-and-store loop around it is unverified I/O and lives with the
/// surrounding program.
pub struct Utils<C: Crawler, B: BackendOp> {
    pub crawler: Rc<C>,
    pub backend_op: Rc<B>,
}

impl<C: Crawler, B: BackendOp> Utils<C, B> {
    pub fn new(crawler: Rc<C>, backend_op: Rc<B>) -> (r: Self)
        ensures
            r.crawler == crawler,
            r.backend_op == backend_op,
    {
        Utils { crawler, backend_op }
    }
}

} // verus!
