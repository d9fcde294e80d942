//! Routing for the query endpoint: `POST /` carries queries, everything
//! else is not found.
use vstd::prelude::*;
use vstd::string::*;

verus! {

/// Where a request goes.
#[derive(Debug, Clone, Copy, PartialEq, Eq, Structural)]
pub enum Route {
    GraphQLQuery,
    NotFound,
}

/// How handling a routed request ended.
#[derive(Debug, Clone, Copy, PartialEq, Eq, Structural)]
pub enum QueryOutcome {
    /// The query ran and its result was serialized.
    Answered,
    /// The body could not be read or is not a valid query request.
    Malformed,
    /// The query could not be carried out.
    Failed,
}

pub const STATUS_OK: u16 = 200;
pub const STATUS_BAD_REQUEST: u16 = 400;
pub const STATUS_NOT_FOUND: u16 = 404;
pub const STATUS_INTERNAL_SERVER_ERROR: u16 = 500;

/// The route of a request with `method` and URI `path`.
pub fn route(method: &String, path: &String) -> (r: Route)
    ensures
        r == (if method@ == "POST"@ && path@ == "/"@ {
            Route::GraphQLQuery
        } else {
            Route::NotFound
        }),
{
    let post = String::from_str("POST");
    let root = String::from_str("/");
    proof {
        reveal_strlit("POST");
        reveal_strlit("/");
    }
    if *method == post && *path == root {
        Route::GraphQLQuery
    } else {
        Route::NotFound
    }
}

/// The status that answers a query that ended with `outcome`.
pub open spec fn status_of(outcome: QueryOutcome) -> u16 {
    match outcome {
        QueryOutcome::Answered => STATUS_OK,
        QueryOutcome::Malformed => STATUS_BAD_REQUEST,
        QueryOutcome::Failed => STATUS_INTERNAL_SERVER_ERROR,
    }
}

/// The HTTP status of the response to a query that ended with `outcome`.
pub fn query_status(outcome: QueryOutcome) -> (r: u16)
    ensures
        r == status_of(outcome),
{
    match outcome {
        QueryOutcome::Answered => STATUS_OK,
        QueryOutcome::Malformed => STATUS_BAD_REQUEST,
        QueryOutcome::Failed => STATUS_INTERNAL_SERVER_ERROR,
    }
}

/// The HTTP status of a request that routing sent to `NotFound`, or of a
/// query that ended with `outcome`.
pub fn response_status(route: Route, outcome: QueryOutcome) -> (r: u16)
    ensures
        route == Route::NotFound ==> r == STATUS_NOT_FOUND,
        route == Route::GraphQLQuery ==> r == status_of(outcome),
{
    match route {
        Route::NotFound => STATUS_NOT_FOUND,
        Route::GraphQLQuery => query_status(outcome),
    }
}

} // verus!
