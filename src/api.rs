//! Request and response values of the HTTP surface.
use vstd::prelude::*;

verus! {

/// Whether to list stopped containers too.
pub struct ListContainersQuery {
    pub all: bool,
}

/// How many log lines to return.
pub struct LogsQuery {
    pub tail: usize,
}

/// The number of log lines returned when none is asked for.
pub fn default_tail() -> (r: usize)
    ensures
        r == 100,
{
    100
}

/// The number of log lines to fetch: the one asked for, or the default.
pub fn tail_or_default(tail: Option<usize>) -> (r: usize)
    ensures
        r == match tail {
            Some(t) => t,
            None => 100,
        },
{
    match tail {
        Some(t) => t,
        None => default_tail(),
    }
}

/// The answer of the health endpoint.
pub struct HealthResponse {
    pub status: String,
    pub version: String,
}

/// A request to pull an image.
pub struct PullImageRequest {
    pub image: String,
}

/// How many hours of metrics to return.
pub struct MetricsQuery {
    pub last_hours: Option<i32>,
}

/// The node a terminal session is for.
pub struct TerminalQuery {
    pub node_id: Option<String>,
}

} // verus!
