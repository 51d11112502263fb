//! Triage of datagrams arriving on the media port.

use vstd::prelude::*;
use vstd::utf8::{decode_utf8, valid_utf8};

verus! {

/// What a datagram carries, judged by its first byte.
#[derive(Debug, Clone, Copy, PartialEq, Eq, Structural)]
pub enum PacketKind {
    Stun,
    Dtls,
    Srtp,
    Unknown,
}

/// Demultiplexing by first byte: 0..=3 STUN, 20..=63 DTLS, 128..=191 RTP or
/// RTCP; anything else, and an empty datagram, is dropped.
pub open spec fn kind_of(buf: Seq<u8>) -> PacketKind {
    if buf.len() == 0 {
        PacketKind::Unknown
    } else if buf[0] <= 3 {
        PacketKind::Stun
    } else if 20 <= buf[0] <= 63 {
        PacketKind::Dtls
    } else if 128 <= buf[0] <= 191 {
        PacketKind::Srtp
    } else {
        PacketKind::Unknown
    }
}

/// Classifies a datagram by its first byte.
pub fn classify(buf: &[u8]) -> (r: PacketKind)
    ensures
        r == kind_of(buf@),
{
    if buf.len() == 0 {
        return PacketKind::Unknown;
    }
    let b = buf[0];
    if b <= 3 {
        PacketKind::Stun
    } else if b >= 20 && b <= 63 {
        PacketKind::Dtls
    } else if b >= 128 && b <= 191 {
        PacketKind::Srtp
    } else {
        PacketKind::Unknown
    }
}

/// Whether an RTP-range packet is RTCP, by its second byte: payload types
/// 200 to 207.
pub fn is_rtcp(byte1: u8) -> (r: bool)
    ensures
        r == (200 <= byte1 <= 207),
{
    byte1 >= 200 && byte1 <= 207
}

/// Big-endian 16-bit value of two bytes.
pub open spec fn be16(hi: u8, lo: u8) -> int {
    hi as int * 256 + lo as int
}

/// `n` rounded up to a multiple of four.
pub open spec fn pad4(n: int) -> int {
    n + 3 - (n + 3) % 4
}

/// The value of the first USERNAME attribute met walking the STUN
/// attributes of `p` from `offset`; the walk stops at a truncated
/// attribute.
pub open spec fn find_username(p: Seq<u8>, offset: int) -> Option<Seq<u8>>
    decreases p.len() - offset,
    via find_username_decreases
{
    if offset < 0 || offset + 4 > p.len() {
        None
    } else {
        let t = be16(p[offset], p[offset + 1]);
        let l = be16(p[offset + 2], p[offset + 3]);
        if offset + 4 + l > p.len() {
            None
        } else if t == 6 {
            Some(p.subrange(offset + 4, offset + 4 + l))
        } else if offset + 8 + pad4(l) > p.len() {
            None
        } else {
            find_username(p, offset + 4 + pad4(l))
        }
    }
}

#[via_fn]
proof fn find_username_decreases(p: Seq<u8>, offset: int) {
    if !(offset < 0 || offset + 4 > p.len()) {
        let l = be16(p[offset + 2], p[offset + 3]);
        assert(l >= 0);
        assert(0 <= (l + 3) % 4 < 4);
        assert(pad4(l) >= 0);
    }
}

/// The characters of `cs` before its first colon (all of them when there is none).
pub open spec fn before_colon(cs: Seq<char>) -> Seq<char>
    decreases cs.len(),
{
    if cs.len() == 0 {
        cs
    } else if cs[0] == ':' {
        Seq::empty()
    } else {
        seq![cs[0]] + before_colon(cs.drop_first())
    }
}

/// What `parse_stun_username` reads from a packet: the server ufrag, the
/// part before the colon of a USERNAME of the form `server:client`.
pub open spec fn stun_username(p: Seq<u8>) -> Option<Seq<char>> {
    if p.len() < 20 {
        None
    } else {
        match find_username(p, 20) {
            Some(u) => if valid_utf8(u) {
                Some(before_colon(decode_utf8(u)))
            } else {
                None
            },
            None => None,
        }
    }
}

/// Relies on `std::str::from_utf8`: `Ok` exactly for valid UTF-8, and then
/// the characters those bytes encode.
#[verifier::external_body]
fn utf8_string(b: &[u8]) -> (r: Option<String>)
    ensures
        r is Some <==> valid_utf8(b@),
        r matches Some(s) ==> s@ == decode_utf8(b@),
{
    match std::str::from_utf8(b) {
        Ok(s) => Some(s.to_owned()),
        Err(_) => None,
    }
}

proof fn lemma_before_colon(cs: Seq<char>, i: int)
    requires
        0 <= i <= cs.len(),
        forall|j: int| 0 <= j < i ==> cs[j] != ':',
        i < cs.len() ==> cs[i] == ':',
    ensures
        before_colon(cs) == cs.take(i),
    decreases cs.len(),
{
    if cs.len() > 0 {
        if i == 0 {
            assert(cs.take(0) =~= Seq::<char>::empty());
        } else {
            let t = cs.drop_first();
            assert forall|j: int| 0 <= j < i - 1 implies t[j] != ':' by {
                assert(cs[j + 1] == t[j]);
            }
            lemma_before_colon(t, i - 1);
            assert(seq![cs[0]] + t.take(i - 1) =~= cs.take(i));
        }
    } else {
        assert(cs.take(0) =~= cs);
    }
}

/// The server ufrag named by a STUN Binding Request's USERNAME attribute
/// (`server_ufrag:client_ufrag`), if the packet has a header and such an
/// attribute in valid UTF-8.
pub fn parse_stun_username(packet: &[u8]) -> (r: Option<String>)
    ensures
        match r {
            Some(s) => stun_username(packet@) == Some(s@),
            None => stun_username(packet@) is None,
        },
{
    if packet.len() < 20 {
        return None;
    }
    let mut offset: usize = 20;
    while offset <= packet.len() && packet.len() - offset >= 4
        invariant
            20 <= offset,
            find_username(packet@, 20) == find_username(packet@, offset as int),
        decreases packet@.len() + 4 - offset,
    {
        let attr_type: usize = (packet[offset] as usize) * 256 + (packet[offset + 1] as usize);
        let attr_len: usize = (packet[offset + 2] as usize) * 256 + (packet[offset + 3] as usize);
        let start = offset + 4;
        if attr_len > packet.len() - start {
            return None;
        }
        if attr_type == 6 {
            let raw = &packet[start..start + attr_len];
            let username = match utf8_string(raw) {
                Some(u) => u,
                None => return None,
            };
            let n = username.as_str().unicode_len();
            let mut i: usize = 0;
            while i < n
                invariant
                    n == username@.len(),
                    0 <= i <= n,
                    forall|j: int| 0 <= j < i ==> username@[j] != ':',
                ensures
                    0 <= i <= n,
                    forall|j: int| 0 <= j < i ==> username@[j] != ':',
                    i < n ==> username@[i as int] == ':',
                decreases n - i,
            {
                if username.as_str().get_char(i) == ':' {
                    break;
                }
                i = i + 1;
            }
            proof {
                lemma_before_colon(username@, i as int);
            }
            let server = username.as_str().substring_char(0, i);
            return Some(server.to_owned());
        }
        let advance = attr_len + 3 - (attr_len + 3) % 4;
        if advance > packet.len() - start {
            proof {
                let o2 = start as int + advance as int;
                assert(find_username(packet@, o2) is None);
            }
            return None;
        }
        offset = start + advance;
    }
    None
}

} // verus!
