//! Signaling-side logic: opcodes, sessions, joins, floor transitions and SDP answers.

pub mod floor;
pub mod join;
pub mod opcode;
pub mod sdp;
pub mod session;
