//! Relay requests and the errors a launch request is answered with.

use vstd::prelude::*;

verus! {

/// One supervision request: a single input source and the ordered
/// destinations the worker fans the stream out to.
pub struct RelayRequest {
    pub source: String,
    pub destinations: Vec<String>,
}

impl RelayRequest {
    /// A request is valid when it names at least one destination.
    pub open spec fn valid(self) -> bool {
        self.destinations@.len() > 0
    }
}

/// Why a launch request was rejected before any process was touched.
#[derive(Debug, Clone, Copy, PartialEq, Eq)]
pub enum RequestError {
    /// The request names no destination.
    InvalidRequest,
    /// A session is already being supervised; the running session is kept.
    AlreadyRunning,
}

} // verus!
