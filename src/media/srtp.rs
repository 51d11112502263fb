//! Per-direction SRTP state of an endpoint (AES_CM_128_HMAC_SHA1_80).
//!
//! A context starts unkeyed; DTLS completion installs its key. Once keyed,
//! no operation of this module makes it unkeyed again.

use vstd::prelude::*;

use webrtc_srtp::context::Context;

verus! {

#[verifier::external_type_specification]
#[verifier::external_body]
pub struct ExContext(Context);

/// Master key length of the profile.
pub const SRTP_KEY_LEN: usize = 16;

/// Master salt length of the profile.
pub const SRTP_SALT_LEN: usize = 14;

/// Why a packet could not be protected or unprotected.
#[derive(Debug)]
pub enum SrtpError {
    DecryptFailed(String),
    EncryptFailed(String),
    InvalidPacket(String),
    KeyNotInstalled,
}

/// Relies on `webrtc_srtp::context::Context::new` with
/// `ProtectionProfile::Aes128CmHmacSha1_80` and no replay options: it
/// refuses a key that is not 16 bytes or a salt that is not 14, and with
/// those lengths it succeeds (key derivation fails only for a non-zero
/// index, and index 0 is used).
#[verifier::external_body]
fn new_context(key: &[u8], salt: &[u8]) -> (r: Option<Context>)
    ensures
        key@.len() != SRTP_KEY_LEN || salt@.len() != SRTP_SALT_LEN ==> r is None,
        key@.len() == SRTP_KEY_LEN && salt@.len() == SRTP_SALT_LEN ==> r is Some,
{
    Context::new(key, salt, webrtc_srtp::protection_profile::ProtectionProfile::Aes128CmHmacSha1_80, None, None).ok()
}

/// Relies on `Context::decrypt_rtp`: unprotects one SRTP packet.
#[verifier::external_body]
fn context_decrypt_rtp(ctx: &mut Context, packet: &[u8]) -> (r: Result<Vec<u8>, String>) {
    ctx.decrypt_rtp(packet).map(|b| b.to_vec()).map_err(|e| e.to_string())
}

/// Relies on `Context::encrypt_rtp`: protects one RTP packet.
#[verifier::external_body]
fn context_encrypt_rtp(ctx: &mut Context, packet: &[u8]) -> (r: Result<Vec<u8>, String>) {
    ctx.encrypt_rtp(packet).map(|b| b.to_vec()).map_err(|e| e.to_string())
}

/// Relies on `Context::decrypt_rtcp`: unprotects one SRTCP packet. Its
/// index lookup reads the 14 bytes before the end and the sender SSRC at
/// bytes 4..8 before any length check, so shorter packets are left out.
#[verifier::external_body]
fn context_decrypt_rtcp(ctx: &mut Context, packet: &[u8]) -> (r: Result<Vec<u8>, String>)
    requires
        packet@.len() >= SRTCP_MIN_LEN,
{
    ctx.decrypt_rtcp(packet).map(|b| b.to_vec()).map_err(|e| e.to_string())
}

/// Shortest SRTCP packet worth unprotecting: an 8-byte header, the 4-byte
/// index and the 10-byte tag.
pub const SRTCP_MIN_LEN: usize = 22;

/// One direction of an endpoint's SRTP state.
pub struct SrtpContext {
    inner: Option<Context>,
    /// The master key and salt last installed.
    keys: Ghost<Option<(Seq<u8>, Seq<u8>)>>,
}

impl SrtpContext {
    /// Keyed, ready to protect or unprotect.
    pub closed spec fn ready(&self) -> bool {
        self.inner is Some
    }

    /// The master key and salt last installed, if any.
    pub closed spec fn master(&self) -> Option<(Seq<u8>, Seq<u8>)> {
        self.keys@
    }

    /// Unkeyed.
    pub fn new() -> (r: SrtpContext)
        ensures
            !r.ready(),
            r.master() is None,
    {
        SrtpContext { inner: None, keys: Ghost(None) }
    }

    /// Installs a master key and salt: a 16-byte key and 14-byte salt key
    /// the context; a key or salt of another length is refused and changes
    /// nothing.
    pub fn install_key(&mut self, key: &[u8], salt: &[u8])
        ensures
            key@.len() == SRTP_KEY_LEN && salt@.len() == SRTP_SALT_LEN ==> final(self).ready()
                && final(self).master() == Some((key@, salt@)),
            key@.len() != SRTP_KEY_LEN || salt@.len() != SRTP_SALT_LEN ==> final(self).ready() == old(
                self,
            ).ready() && final(self).master() == old(self).master(),
            old(self).ready() ==> final(self).ready(),
    {
        match new_context(key, salt) {
            Some(ctx) => {
                self.inner = Some(ctx);
                self.keys = Ghost(Some((key@, salt@)));
            },
            None => {},
        }
    }

    /// Whether a key is installed.
    pub fn is_ready(&self) -> (r: bool)
        ensures
            r == self.ready(),
    {
        self.inner.is_some()
    }

    /// Unprotects an SRTP packet; without a key, `KeyNotInstalled`.
    pub fn decrypt(&mut self, packet: &[u8]) -> (r: Result<Vec<u8>, SrtpError>)
        ensures
            final(self).ready() == old(self).ready(),
            final(self).master() == old(self).master(),
            !old(self).ready() ==> r matches Err(SrtpError::KeyNotInstalled),
    {
        match &mut self.inner {
            None => Err(SrtpError::KeyNotInstalled),
            Some(ctx) => match context_decrypt_rtp(ctx, packet) {
                Ok(v) => Ok(v),
                Err(e) => Err(SrtpError::DecryptFailed(e)),
            },
        }
    }

    /// Unprotects an SRTCP packet; without a key, `KeyNotInstalled`; a packet
    /// too short to hold an index and tag is `InvalidPacket`.
    pub fn decrypt_rtcp(&mut self, packet: &[u8]) -> (r: Result<Vec<u8>, SrtpError>)
        ensures
            final(self).ready() == old(self).ready(),
            final(self).master() == old(self).master(),
            !old(self).ready() ==> r matches Err(SrtpError::KeyNotInstalled),
            old(self).ready() && packet@.len() < SRTCP_MIN_LEN ==> r matches Err(SrtpError::InvalidPacket(_)),
    {
        match &mut self.inner {
            None => Err(SrtpError::KeyNotInstalled),
            Some(ctx) => {
                if packet.len() < SRTCP_MIN_LEN {
                    return Err(SrtpError::InvalidPacket("SRTCP packet too short".to_owned()));
                }
                match context_decrypt_rtcp(ctx, packet) {
                    Ok(v) => Ok(v),
                    Err(e) => Err(SrtpError::DecryptFailed(e)),
                }
            },
        }
    }

    /// Protects an RTP packet; without a key, `KeyNotInstalled`.
    pub fn encrypt(&mut self, packet: &[u8]) -> (r: Result<Vec<u8>, SrtpError>)
        ensures
            final(self).ready() == old(self).ready(),
            final(self).master() == old(self).master(),
            !old(self).ready() ==> r matches Err(SrtpError::KeyNotInstalled),
    {
        match &mut self.inner {
            None => Err(SrtpError::KeyNotInstalled),
            Some(ctx) => match context_encrypt_rtp(ctx, packet) {
                Ok(v) => Ok(v),
                Err(e) => Err(SrtpError::EncryptFailed(e)),
            },
        }
    }
}

impl Default for SrtpContext {
    fn default() -> (r: SrtpContext)
        ensures
            !r.ready(),
            r.master() is None,
    {
        SrtpContext::new()
    }
}

/// Length of the DTLS-SRTP keying material: two keys and two salts.
pub const KEYING_MATERIAL_LEN: usize = 60;

/// Keys both directions from exported DTLS keying material, sliced as
/// RFC 5764 lays it out: client key 0..16 and client salt 32..46 for the
/// inbound (browser to server) context, server key 16..32 and server salt
/// 46..60 for the outbound one. Material of another length is refused and
/// changes nothing.
pub fn install_keying_material(
    inbound: &mut SrtpContext,
    outbound: &mut SrtpContext,
    material: &[u8],
) -> (r: Result<(), SrtpError>)
    ensures
        material@.len() != KEYING_MATERIAL_LEN ==> (r matches Err(SrtpError::InvalidPacket(_)))
            && *final(inbound) == *old(inbound) && *final(outbound) == *old(outbound),
        material@.len() == KEYING_MATERIAL_LEN ==> r is Ok,
        r is Ok ==> ({
            &&& final(inbound).ready()
            &&& final(outbound).ready()
            &&& final(inbound).master() == Some((material@.subrange(0, 16), material@.subrange(32, 46)))
            &&& final(outbound).master() == Some((material@.subrange(16, 32), material@.subrange(46, 60)))
        }),
        old(inbound).ready() ==> final(inbound).ready(),
        old(outbound).ready() ==> final(outbound).ready(),
{
    if material.len() != KEYING_MATERIAL_LEN {
        return Err(SrtpError::InvalidPacket("keying material must be 60 bytes".to_owned()));
    }
    inbound.install_key(&material[0..16], &material[32..46]);
    outbound.install_key(&material[16..32], &material[46..60]);
    Ok(())
}

} // verus!
