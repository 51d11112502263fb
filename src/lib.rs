//! Push-to-talk voice relay: floor control, channel, user and endpoint
//! hubs, media packet triage, STUN framing, SRTP keying, SDP answers,
//! signaling sessions and the periodic reaper.

pub mod config;
pub mod error;
pub mod hubs;
pub mod media;
pub mod protocol;
pub mod reaper;
pub mod trace;
pub mod utils;
