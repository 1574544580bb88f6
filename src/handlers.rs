use vstd::prelude::*;

verus! {

/// Where an inbound request goes.
#[derive(Debug, Clone, Copy, PartialEq, Eq, Structural)]
pub enum Route {
    /// The health summary view.
    HealthSummary,
    /// The statistics view.
    Stats,
    /// Anything else: forwarded to a backend.
    Forward,
}

/// The route for a request path: the two reserved paths are served by the
/// balancer itself, every other path is forwarded.
pub open spec fn route_of(path: Seq<char>) -> Route {
    if path == "/lb-health"@ {
        Route::HealthSummary
    } else if path == "/lb-stats"@ {
        Route::Stats
    } else {
        Route::Forward
    }
}

/// Decides how to serve a request with the given path.
pub fn route_for(path: &str) -> (r: Route)
    ensures
        r == route_of(path@),
{
    let p = path.to_owned();
    if p == "/lb-health".to_owned() {
        Route::HealthSummary
    } else if p == "/lb-stats".to_owned() {
        Route::Stats
    } else {
        Route::Forward
    }
}

} // verus!
