//! In-memory state: users, channels, floor control and media endpoints.

pub mod channel;
pub mod floor;
pub mod media_peer;
pub mod user;

pub use channel::{Channel, ChannelHub, ChannelMode};
pub use floor::{FloorControl, FloorControlState, FloorIndicator, FloorQueueEntry};
pub use media_peer::{Endpoint, MediaPeerHub, Track, TrackKind};
pub use user::{User, UserHub};
