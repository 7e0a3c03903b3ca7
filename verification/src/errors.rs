//! The service-level error carried back to clients: a message and the HTTP
//! status class it maps to.

use vstd::prelude::*;

verus! {

/// A service error: a diagnostic message and its HTTP status code.
#[derive(Debug, PartialEq, Eq)]
pub struct WessError {
    pub msg: String,
    pub status: u16,
}

/// Whether `status` lies in the HTTP status range.
pub open spec fn is_http_status(status: u16) -> bool {
    100 <= status < 600
}

impl WessError {
    /// Builds an error; a status outside the HTTP range falls back to 500.
    pub fn new(msg: String, status: u16) -> (r: WessError)
        ensures
            r.msg == msg,
            r.status == (if is_http_status(status) {
                status
            } else {
                500
            }),
    {
        if 100 <= status && status < 600 {
            WessError { msg, status }
        } else {
            WessError { msg, status: 500 }
        }
    }
}

} // verus!
