//! Core of a client library for a robotics computation graph: name
//! resolution, the peer wire protocol, the node's local graph state, the
//! user-facing node handle, and the assembly of generated message modules.
//!
//! Nothing in this crate touches a socket or a file. Operations that need the
//! outside world are split into a step that decides what to ask and a step
//! that digests the answer, so that every decision is stated and proved here.

pub mod text;
pub mod table;
pub mod rosxmlrpc;
pub mod api;
pub mod tcpros;
pub mod build_tools;
