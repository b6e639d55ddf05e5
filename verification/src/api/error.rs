//! Errors of the node handle.

use vstd::prelude::*;
use crate::api::naming;
use crate::rosxmlrpc::ResponseError;
use crate::tcpros::handshake::Fault;

verus! {

/// Why an operation of the node failed.
#[derive(Clone, Debug, PartialEq, Eq)]
pub enum Error {
    /// A name was refused.
    Naming(naming::Error),
    /// A call to the directory or to a peer did not succeed.
    Response(ResponseError),
    /// The node already has a subscription or a service under that name. The
    /// text says which of the two.
    Duplicate(String),
    /// A peer and the node do not agree in the handshake.
    Protocol(Fault),
    /// The time allowed for waiting has passed.
    Timeout,
    /// The node was shut down.
    Shutdown,
}

} // verus!
