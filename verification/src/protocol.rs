//! Errors that protocol domains report to a client.

use vstd::prelude::*;

verus! {

/// A protocol-level error, in the categories of JSON-RPC.
#[derive(Debug)]
pub enum ProtocolError {
    /// The parameters of a method are missing or wrong.
    InvalidParams(String),
    /// The request is not valid in the current state.
    InvalidRequest,
    /// The method does not exist.
    MethodNotFound(String),
    /// An internal failure.
    InternalError(String),
    /// A server-defined error with its code.
    ServerError(i32, String),
}

} // verus!
