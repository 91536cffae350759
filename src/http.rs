//! Routing of the status server.
use vstd::prelude::*;
use crate::text::{chars_of, same_chars};

verus! {

/// What the status server answers to a path.
#[derive(Clone, Copy, Debug, PartialEq, Eq, Structural)]
pub enum Route {
    /// The embedded index page.
    Index,
    /// The process's own metrics in the text exposition format.
    Metrics,
    /// A plain `OK`, for the health and readiness probes.
    Healthy,
    /// Known, but not implemented.
    NotImplemented,
    NotFound,
}

pub open spec fn route_of(path: Seq<char>) -> Route {
    if path == "/"@ {
        Route::Index
    } else if path == "/metrics"@ {
        Route::Metrics
    } else if path == "/-/healthy"@ || path == "/-/ready"@ {
        Route::Healthy
    } else if path == "/-/reload"@ || path == "/-/quit"@ {
        Route::NotImplemented
    } else {
        Route::NotFound
    }
}

pub open spec fn status_of(r: Route) -> u16 {
    match r {
        Route::NotImplemented => 501,
        Route::NotFound => 404,
        _ => 200,
    }
}

impl Route {
    /// The HTTP status of the answer.
    pub fn status(&self) -> (r: u16)
        ensures
            r == status_of(*self),
    {
        match self {
            Route::NotImplemented => 501,
            Route::NotFound => 404,
            _ => 200,
        }
    }
}

/// The status server's request handler.
pub struct Svc {}

impl Svc {
    pub fn new() -> (r: Svc) {
        Svc {}
    }

    /// The route that answers `path`.
    pub fn route(&self, path: &str) -> (r: Route)
        ensures
            r == route_of(path@),
    {
        let p = chars_of(path);
        if same_chars(&p, &chars_of("/")) {
            Route::Index
        } else if same_chars(&p, &chars_of("/metrics")) {
            Route::Metrics
        } else if same_chars(&p, &chars_of("/-/healthy")) || same_chars(&p, &chars_of("/-/ready")) {
            Route::Healthy
        } else if same_chars(&p, &chars_of("/-/reload")) || same_chars(&p, &chars_of("/-/quit")) {
            Route::NotImplemented
        } else {
            Route::NotFound
        }
    }
}

} // verus!
