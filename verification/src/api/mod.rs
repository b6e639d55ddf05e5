//! The node: its names, its directory client, its local graph state and the
//! handle that user code holds.

pub mod error;
pub mod naming;
pub mod resolve;
pub mod master;
pub mod slave;
pub mod ros;
