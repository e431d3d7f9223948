//! Fetch policy for one archive cell: cache short-circuit and HTTP status
//! classification.

use vstd::prelude::*;

verus! {

/// Result of the fetch stage for one cell.
///
/// `Cached` means the local cache file already existed and no request was
/// made. `Downloaded` means the remote served the archive body. `NotFound`
/// records a 404: a legitimate signal that no data exists for the period.
/// `Failed` carries any other non-success status; the cell is abandoned but
/// the run continues.
#[derive(Clone, Copy, Debug, PartialEq, Eq, Structural)]
pub enum FetchOutcome {
    Cached,
    Downloaded,
    NotFound,
    Failed(u16),
}

/// Whether an HTTP status code counts as success (2xx).
pub open spec fn spec_is_success(status: u16) -> bool {
    200 <= status < 300
}

/// The outcome the fetch policy assigns to a response status:
/// success streams the body to the cache file, 404 is valid absence,
/// anything else fails the cell.
pub open spec fn spec_classify_response(status: u16) -> FetchOutcome {
    if spec_is_success(status) {
        FetchOutcome::Downloaded
    } else if status == 404 {
        FetchOutcome::NotFound
    } else {
        FetchOutcome::Failed(status)
    }
}

/// Only a downloaded body may be written to the local cache; a 404 or a
/// failed cell leaves no file behind.
pub open spec fn spec_writes_file(outcome: FetchOutcome) -> bool {
    outcome == FetchOutcome::Downloaded
}

/// The full decision on a response status: the outcome assigned to the
/// cell, and whether the body is streamed to the cache file. Only a
/// successful download writes; a 404 and a failure leave no file behind.
pub open spec fn spec_after_status(status: u16) -> (FetchOutcome, bool) {
    let outcome = spec_classify_response(status);
    (outcome, spec_writes_file(outcome))
}

/// The first step of the fetch policy: an existing cache file
/// short-circuits the fetch, and no request is made for the cell.
#[derive(Clone, Copy, Debug, PartialEq, Eq, Structural)]
pub enum FetchPlan {
    /// The cache file exists: the cell's outcome is `Cached`, without any
    /// network call.
    UseCache,
    /// No cache file: request the archive URL.
    Request,
}

/// Decide the first step of a cell's fetch from whether its cache file
/// already exists. The file's existence is the durable "fetched" marker, so
/// a restarted run skips completed cells here.
pub fn plan_fetch(cached: bool) -> (plan: FetchPlan)
    ensures
        cached ==> plan is UseCache,
        !cached ==> plan is Request,
{
    if cached {
        FetchPlan::UseCache
    } else {
        FetchPlan::Request
    }
}

/// Decide what a response status means for the cell: its outcome, and
/// whether the body is written to the cache file.
pub fn response_action(status: u16) -> (r: (FetchOutcome, bool))
    ensures
        r == spec_after_status(status),
        r.1 <==> r.0 == FetchOutcome::Downloaded,
{
    let outcome = classify_response(status);
    let write = match outcome {
        FetchOutcome::Downloaded => true,
        _ => false,
    };
    (outcome, write)
}

/// Classify the HTTP status of an archive response.
pub fn classify_response(status: u16) -> (outcome: FetchOutcome)
    ensures
        outcome == spec_classify_response(status),
        outcome == FetchOutcome::NotFound <==> status == 404,
        outcome == FetchOutcome::Downloaded <==> spec_is_success(status),
{
    if 200 <= status && status < 300 {
        FetchOutcome::Downloaded
    } else if status == 404 {
        FetchOutcome::NotFound
    } else {
        FetchOutcome::Failed(status)
    }
}

} // verus!

