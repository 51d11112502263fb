//! Media plane: packet classification, STUN framing, DTLS routing and SRTP state.

pub mod dtls;
pub mod ingress;
pub mod net;
pub mod srtp;
pub mod stun;
