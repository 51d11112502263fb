//! Client-to-server opcodes.

use vstd::prelude::*;

verus! {

/// Liveness refresh.
pub const HEARTBEAT: u8 = 1;

/// Authentication with user id and token.
pub const IDENTIFY: u8 = 3;

pub const CHANNEL_CREATE: u8 = 10;

pub const CHANNEL_JOIN: u8 = 11;

pub const CHANNEL_LEAVE: u8 = 12;

pub const CHANNEL_UPDATE: u8 = 13;

pub const CHANNEL_DELETE: u8 = 14;

pub const CHANNEL_LIST: u8 = 15;

pub const CHANNEL_INFO: u8 = 16;

/// Chat message.
pub const MESSAGE_CREATE: u8 = 20;

/// Push-to-talk pressed.
pub const FLOOR_REQUEST: u8 = 30;

/// Push-to-talk released.
pub const FLOOR_RELEASE: u8 = 31;

/// Holder liveness ping.
pub const FLOOR_PING: u8 = 32;

} // verus!
