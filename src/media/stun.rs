//! STUN Binding Success Responses, signed for ICE short-term credentials.
//!
//! A response carries, in order, XOR-MAPPED-ADDRESS, MESSAGE-INTEGRITY
//! (HMAC-SHA1 keyed by the endpoint's ICE password) and FINGERPRINT
//! (CRC-32 xor 0x5354554E). The header's length field is rewritten before
//! each of the two digests, as RFC 5389 asks.

use vstd::prelude::*;
use vstd::string::StringSliceAdditionalSpecFns;

verus! {

/// An IPv4 socket address of a media peer.
#[derive(Debug, Clone, Copy, PartialEq, Eq, Hash, Structural)]
pub struct PeerAddr {
    /// The address as a big-endian number (`a.b.c.d` is `a << 24 | ...`).
    pub ip: u32,
    pub port: u16,
}

/// The STUN magic cookie.
pub const MAGIC_COOKIE: u32 = 0x2112_A442;

/// The value xored into the CRC-32 of a FINGERPRINT attribute.
pub const FINGERPRINT_XOR: u32 = 0x5354_554E;

/// HMAC-SHA1 of `msg` under `key`, as the `hmac` and `sha1` crates compute it.
pub uninterp spec fn hmac_sha1_of(key: Seq<u8>, msg: Seq<u8>) -> Seq<u8>;

/// CRC-32 (IEEE) of `data`, as `crc32fast::hash` computes it.
pub uninterp spec fn crc32_of(data: Seq<u8>) -> u32;

/// Relies on `hmac::Hmac<sha1::Sha1>`: `new_from_slice` accepts a key of any
/// length (it never fails for HMAC), and the tag is a SHA-1 output of 20 bytes.
#[verifier::external_body]
fn hmac_sha1(key: &[u8], msg: &[u8]) -> (r: Vec<u8>)
    ensures
        r@ == hmac_sha1_of(key@, msg@),
        r@.len() == 20,
{
    let mut mac = <hmac::Hmac<sha1::Sha1> as hmac::Mac>::new_from_slice(key).expect("HMAC takes any key length");
    hmac::Mac::update(&mut mac, msg);
    hmac::Mac::finalize(mac).into_bytes().to_vec()
}

/// Relies on `crc32fast::hash`: the CRC-32 of the bytes.
#[verifier::external_body]
fn crc32(data: &[u8]) -> (r: u32)
    ensures
        r == crc32_of(data@),
{
    crc32fast::hash(data)
}

/// Big-endian bytes of a 16-bit value.
pub open spec fn u16_be(v: u16) -> Seq<u8> {
    seq![(v / 256) as u8, (v % 256) as u8]
}

/// Big-endian bytes of a 32-bit value.
pub open spec fn u32_be(v: u32) -> Seq<u8> {
    seq![(v / 0x100_0000) as u8, ((v / 0x1_0000) % 256) as u8, ((v / 256) % 256) as u8, (v % 256) as u8]
}

/// Header and XOR-MAPPED-ADDRESS of the response to `req` for `addr`, with
/// `len` in the header's length field (32 bytes).
pub open spec fn response_head(req: Seq<u8>, addr: PeerAddr, len: u16) -> Seq<u8> {
    seq![0x01u8, 0x01u8] + u16_be(len) + u32_be(MAGIC_COOKIE) + req.subrange(8, 20) + seq![
        0x00u8,
        0x20u8,
        0x00u8,
        0x08u8,
        0x00u8,
        0x01u8,
    ] + u16_be(addr.port ^ 0x2112u16) + u32_be(addr.ip ^ MAGIC_COOKIE)
}

/// The Binding Success Response to `req` from `addr`, signed with `pwd`:
/// MESSAGE-INTEGRITY over the head with length 36 (through the integrity
/// attribute), then FINGERPRINT over everything before it with length 44
/// (through the fingerprint), the final length.
pub open spec fn binding_response(req: Seq<u8>, addr: PeerAddr, pwd: Seq<u8>) -> Seq<u8> {
    let mac = hmac_sha1_of(pwd, response_head(req, addr, 36));
    let signed = response_head(req, addr, 44) + seq![0x00u8, 0x08u8, 0x00u8, 0x14u8] + mac;
    signed + seq![0x80u8, 0x28u8, 0x00u8, 0x04u8] + u32_be(crc32_of(signed) ^ FINGERPRINT_XOR)
}

fn push_be16(out: &mut Vec<u8>, v: u16)
    ensures
        final(out)@ == old(out)@ + u16_be(v),
{
    out.push((v / 256) as u8);
    out.push((v % 256) as u8);
    proof {
        assert(final(out)@ =~= old(out)@ + u16_be(v));
    }
}

fn push_be32(out: &mut Vec<u8>, v: u32)
    ensures
        final(out)@ == old(out)@ + u32_be(v),
{
    out.push((v / 0x100_0000) as u8);
    out.push(((v / 0x1_0000) % 256) as u8);
    out.push(((v / 256) % 256) as u8);
    out.push((v % 256) as u8);
    proof {
        assert(final(out)@ =~= old(out)@ + u32_be(v));
    }
}

fn push_all(out: &mut Vec<u8>, bytes: &[u8])
    ensures
        final(out)@ == old(out)@ + bytes@,
{
    let mut i: usize = 0;
    while i < bytes.len()
        invariant
            0 <= i <= bytes@.len(),
            out@ == old(out)@ + bytes@.take(i as int),
        decreases bytes@.len() - i,
    {
        out.push(bytes[i]);
        proof {
            assert(bytes@.take(i as int + 1) =~= bytes@.take(i as int).push(bytes@[i as int]));
        }
        i = i + 1;
    }
    proof {
        assert(bytes@.take(i as int) =~= bytes@);
    }
}

fn build_head(request: &[u8], addr: &PeerAddr, len: u16) -> (r: Vec<u8>)
    requires
        request@.len() >= 20,
    ensures
        r@ == response_head(request@, *addr, len),
{
    let mut out: Vec<u8> = Vec::new();
    out.push(0x01);
    out.push(0x01);
    push_be16(&mut out, len);
    push_be32(&mut out, MAGIC_COOKIE);
    push_all(&mut out, &request[8..20]);
    out.push(0x00);
    out.push(0x20);
    out.push(0x00);
    out.push(0x08);
    out.push(0x00);
    out.push(0x01);
    push_be16(&mut out, addr.port ^ 0x2112u16);
    push_be32(&mut out, addr.ip ^ MAGIC_COOKIE);
    proof {
        assert(out@ =~= response_head(request@, *addr, len));
    }
    out
}

/// `r` verifies the way a browser checks a response: 64 bytes whose length
/// field says 44; bytes 36..56 are the HMAC-SHA1 under `pwd` of the first
/// 32 bytes with the length field set to 36, that is of the message up to
/// but excluding MESSAGE-INTEGRITY; the last four bytes are the CRC-32 of
/// the first 56, xored with the fingerprint constant.
pub open spec fn verifies_as_sent(r: Seq<u8>, pwd: Seq<u8>) -> bool {
    &&& r.len() == 64
    &&& r[2] == 0
    &&& r[3] == 44
    &&& r.subrange(36, 56) == hmac_sha1_of(pwd, r.subrange(0, 32).update(3, 36u8))
    &&& r.subrange(60, 64) == u32_be(crc32_of(r.subrange(0, 56)) ^ FINGERPRINT_XOR)
}

/// The signed Binding Success Response to `request`, a STUN Binding
/// Request from `addr`, keyed by the endpoint's `ice_pwd`; none when the
/// request is shorter than a STUN header.
pub fn make_binding_response(request: &[u8], addr: &PeerAddr, ice_pwd: &str) -> (r: Option<Vec<u8>>)
    ensures
        request@.len() < 20 ==> r is None,
        request@.len() >= 20 ==> (r matches Some(v) && v@ == binding_response(
            request@,
            *addr,
            ice_pwd.spec_bytes(),
        ) && verifies_as_sent(v@, ice_pwd.spec_bytes())),
{
    if request.len() < 20 {
        return None;
    }
    let key = ice_pwd.as_bytes();
    let head36 = build_head(request, addr, 36);
    let mac = hmac_sha1(key, head36.as_slice());
    let mut out = build_head(request, addr, 44);
    out.push(0x00);
    out.push(0x08);
    out.push(0x00);
    out.push(0x14);
    push_all(&mut out, mac.as_slice());
    proof {
        let signed = response_head(request@, *addr, 44) + seq![0x00u8, 0x08u8, 0x00u8, 0x14u8] + mac@;
        assert(out@ =~= signed);
    }
    let crc = crc32(out.as_slice());
    out.push(0x80);
    out.push(0x28);
    out.push(0x00);
    out.push(0x04);
    push_be32(&mut out, crc ^ FINGERPRINT_XOR);
    proof {
        let signed = response_head(request@, *addr, 44) + seq![0x00u8, 0x08u8, 0x00u8, 0x14u8] + mac@;
        assert(out@ =~= signed + seq![0x80u8, 0x28u8, 0x00u8, 0x04u8] + u32_be(crc ^ FINGERPRINT_XOR));
        lemma_response_layout(request@, *addr, ice_pwd.spec_bytes());
    }
    Some(out)
}

/// Layout of a response whose HMAC tag has SHA-1's 20 bytes.
proof fn lemma_response_layout(req: Seq<u8>, addr: PeerAddr, pwd: Seq<u8>)
    requires
        req.len() >= 20,
        hmac_sha1_of(pwd, response_head(req, addr, 36)).len() == 20,
    ensures
        verifies_as_sent(binding_response(req, addr, pwd), pwd),
{
    let r = binding_response(req, addr, pwd);
    assert(u16_be(36) =~= seq![0u8, 36u8]);
    assert(u16_be(44) =~= seq![0u8, 44u8]);
    let h36 = response_head(req, addr, 36);
    let h44 = response_head(req, addr, 44);
    assert(h44.update(3, 36u8) =~= h36);
    assert(r.subrange(0, 32) =~= h44);
    let mac = hmac_sha1_of(pwd, h36);
    let signed = h44 + seq![0x00u8, 0x08u8, 0x00u8, 0x14u8] + mac;
    assert(r.subrange(0, 56) =~= signed);
    assert(r.subrange(36, 56) =~= mac);
    assert(r.subrange(60, 64) =~= u32_be(crc32_of(signed) ^ FINGERPRINT_XOR));
    assert(r[2] == h44[2]);
    assert(r[3] == h44[3]);
}

} // verus!
