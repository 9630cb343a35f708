//! The error type of the server.

use vstd::prelude::*;

verus! {

/// A server error, described by its message.
#[derive(Debug, Clone)]
pub struct ServerError {
    pub message: String,
}

} // verus!
