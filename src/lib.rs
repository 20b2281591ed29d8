//! A user-space TCP over raw IPv4: the segment codec, the per-connection
//! record, the connection table and the state machine that drives it.
pub mod segment;
pub mod socket;
pub mod util;
pub mod error;
pub mod tcp;
pub mod state;
pub mod receive;
pub mod session;
