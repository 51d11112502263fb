//! Signaling opcodes, a stable wire contract.

pub mod client;
pub mod server;
