//! The peer-to-peer wire protocol: frames, header blocks and the handshake.

pub mod error;
pub mod descriptor;
pub mod frame;
pub mod header;
pub mod handshake;
pub mod message;
pub mod queue;
pub mod service;
