//! Limits and timeouts shared by the whole server.

use vstd::prelude::*;

verus! {

/// Single UDP port for media.
pub const SERVER_UDP_PORT: u16 = 10000;

/// Largest number of members a channel may hold by default.
pub const MAX_PEERS_PER_CHANNEL: usize = 100;

/// Capacity of each user's outbound frame queue.
pub const EGRESS_QUEUE_SIZE: usize = 2048;

/// Period of the zombie reaper.
pub const REAPER_INTERVAL_MS: u64 = 10_000;

/// Bound on one DTLS handshake.
pub const DTLS_HANDSHAKE_TIMEOUT_MS: u64 = 10_000;

/// Silence after which a user or endpoint is a zombie.
pub const ZOMBIE_TIMEOUT_MS: u64 = 30_000;

/// TCP port of the WebSocket signaling server.
pub const SIGNALING_PORT: u16 = 8080;

/// Heartbeat period announced to clients.
pub const HEARTBEAT_INTERVAL_MS: u64 = 30_000;

/// Longest chat message, in bytes.
pub const MAX_MESSAGE_LENGTH: usize = 2_000;

/// Holder silence after which the floor is revoked.
pub const FLOOR_PING_TIMEOUT_MS: u64 = 6_000;

/// Longest time one holder may keep the floor.
pub const FLOOR_MAX_TAKEN_MS: u64 = 30_000;

/// Floor request answer timer.
pub const FLOOR_T101_MS: u64 = 3_000;

/// Floor release answer timer.
pub const FLOOR_T100_MS: u64 = 3_000;

/// Priority of an emergency request.
pub const FLOOR_PRIORITY_EMERGENCY: u8 = 255;

/// Priority of an imminent-peril request.
pub const FLOOR_PRIORITY_IMMINENT_PERIL: u8 = 200;

/// Priority of a user who states none.
pub const FLOOR_PRIORITY_DEFAULT: u8 = 100;

} // verus!
