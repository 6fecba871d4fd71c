//! Engine for multiplexing remote interactive shells over raw byte streams.
//!
//! The crate holds no sockets: every module works on bytes that the caller
//! has received and hands back bytes that the caller must send.

pub mod command;
pub mod framing;
pub mod registry;
pub mod session;
pub mod util;
