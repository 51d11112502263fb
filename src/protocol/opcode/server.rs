//! Server-to-client opcodes.

use vstd::prelude::*;

verus! {

/// Sent on connect, with the heartbeat interval.
pub const HELLO: u8 = 0;

pub const HEARTBEAT_ACK: u8 = 2;

/// Identification succeeded.
pub const READY: u8 = 4;

pub const CHANNEL_EVENT: u8 = 100;

pub const MESSAGE_EVENT: u8 = 101;

pub const FLOOR_GRANTED: u8 = 110;

pub const FLOOR_DENY: u8 = 111;

pub const FLOOR_TAKEN: u8 = 112;

pub const FLOOR_IDLE: u8 = 113;

pub const FLOOR_REVOKE: u8 = 114;

pub const FLOOR_QUEUE_POS_INFO: u8 = 115;

pub const FLOOR_PONG: u8 = 116;

pub const ACK: u8 = 200;

pub const ERROR: u8 = 201;

} // verus!
