//! Process-wide request counters, the state behind the metrics middleware:
//! every request is counted on arrival, and the connection gauge follows the
//! requests currently in flight.  Latency histograms live with the exporter,
//! outside the library.

use vstd::prelude::*;

use crate::workers::runner::bumped;

verus! {

/// The counters the request middleware maintains.
#[derive(Clone, Copy, PartialEq, Eq, Structural, Debug)]
pub struct RequestMetricsMiddleware {
    /// Total requests seen.
    pub http_requests_total: u64,
    /// Requests currently in flight.
    pub concurrent_connections: u64,
    /// Total errors surfaced to clients.
    pub errors_total: u64,
}

impl RequestMetricsMiddleware {
    /// Fresh counters, all zero.
    pub fn new() -> (r: Self)
        ensures
            r.http_requests_total == 0,
            r.concurrent_connections == 0,
            r.errors_total == 0,
    {
        RequestMetricsMiddleware {
            http_requests_total: 0,
            concurrent_connections: 0,
            errors_total: 0,
        }
    }

    /// A request arrived: count it and raise the in-flight gauge.
    pub fn on_request(&mut self)
        ensures
            final(self).http_requests_total == bumped(old(self).http_requests_total),
            final(self).concurrent_connections == bumped(old(self).concurrent_connections),
            final(self).errors_total == old(self).errors_total,
    {
        if self.http_requests_total < u64::MAX {
            self.http_requests_total = self.http_requests_total + 1;
        }
        if self.concurrent_connections < u64::MAX {
            self.concurrent_connections = self.concurrent_connections + 1;
        }
    }

    /// A response went out: lower the in-flight gauge.
    pub fn on_response(&mut self)
        ensures
            final(self).http_requests_total == old(self).http_requests_total,
            final(self).errors_total == old(self).errors_total,
            final(self).concurrent_connections == (if old(self).concurrent_connections > 0 {
                (old(self).concurrent_connections - 1) as u64
            } else {
                0u64
            }),
    {
        if self.concurrent_connections > 0 {
            self.concurrent_connections = self.concurrent_connections - 1;
        }
    }

    /// An error was surfaced to a client: count it.
    pub fn on_error(&mut self)
        ensures
            final(self).errors_total == bumped(old(self).errors_total),
            final(self).http_requests_total == old(self).http_requests_total,
            final(self).concurrent_connections == old(self).concurrent_connections,
    {
        if self.errors_total < u64::MAX {
            self.errors_total = self.errors_total + 1;
        }
    }
}

} // verus!
