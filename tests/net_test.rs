use hmac::Mac;
use mini_livechat::media::net::{classify, is_rtcp, parse_stun_username, PacketKind};
use mini_livechat::media::stun::{make_binding_response, PeerAddr};

#[test]
fn test_classify_stun() {
    assert!(matches!(classify(&[0x00]), PacketKind::Stun));
    assert!(matches!(classify(&[0x01]), PacketKind::Stun));
}

#[test]
fn test_classify_dtls() {
    assert!(matches!(classify(&[0x16]), PacketKind::Dtls));
    assert!(matches!(classify(&[0x14]), PacketKind::Dtls));
}

#[test]
fn test_classify_srtp() {
    assert!(matches!(classify(&[0x80]), PacketKind::Srtp));
    assert!(matches!(classify(&[0xBF]), PacketKind::Srtp));
    // Above the RTP range (192..=255) the datagram is dropped.
    assert!(matches!(classify(&[0xFF]), PacketKind::Unknown));
}

#[test]
fn test_classify_unknown() {
    assert!(matches!(classify(&[0x50]), PacketKind::Unknown));
    assert!(matches!(classify(&[]), PacketKind::Unknown));
}

#[test]
fn classify_range_edges() {
    assert_eq!(classify(&[3]), PacketKind::Stun);
    assert_eq!(classify(&[4]), PacketKind::Unknown);
    assert_eq!(classify(&[19]), PacketKind::Unknown);
    assert_eq!(classify(&[20]), PacketKind::Dtls);
    assert_eq!(classify(&[63]), PacketKind::Dtls);
    assert_eq!(classify(&[64]), PacketKind::Unknown);
    assert_eq!(classify(&[127]), PacketKind::Unknown);
    assert_eq!(classify(&[128]), PacketKind::Srtp);
    assert_eq!(classify(&[191]), PacketKind::Srtp);
    assert_eq!(classify(&[192]), PacketKind::Unknown);
}

#[test]
fn rtcp_payload_types() {
    assert!(is_rtcp(200));
    assert!(is_rtcp(207));
    assert!(!is_rtcp(199));
    assert!(!is_rtcp(208));
    assert!(!is_rtcp(0x78));
    assert!(!is_rtcp(72));
}

fn binding_request(username: &[u8], leading: &[(u16, &[u8])]) -> Vec<u8> {
    let mut p = vec![0x00, 0x01, 0x00, 0x00, 0x21, 0x12, 0xA4, 0x42];
    p.extend_from_slice(&[7u8; 12]);
    for (t, v) in leading {
        p.extend_from_slice(&t.to_be_bytes());
        p.extend_from_slice(&(v.len() as u16).to_be_bytes());
        p.extend_from_slice(v);
        while p.len() % 4 != 0 {
            p.push(0);
        }
    }
    p.extend_from_slice(&6u16.to_be_bytes());
    p.extend_from_slice(&(username.len() as u16).to_be_bytes());
    p.extend_from_slice(username);
    while p.len() % 4 != 0 {
        p.push(0);
    }
    p
}

#[test]
fn username_gives_server_ufrag() {
    let p = binding_request(b"serverufrag12345:client", &[]);
    assert_eq!(parse_stun_username(&p).as_deref(), Some("serverufrag12345"));
}

#[test]
fn username_after_padded_attribute() {
    let p = binding_request(b"abc:def", &[(0x8022, b"xyz")]);
    assert_eq!(parse_stun_username(&p).as_deref(), Some("abc"));
}

#[test]
fn username_without_colon_is_whole() {
    let p = binding_request(b"lonely", &[]);
    assert_eq!(parse_stun_username(&p).as_deref(), Some("lonely"));
}

#[test]
fn username_missing_or_short_packet() {
    assert_eq!(parse_stun_username(&[0u8; 10]), None);
    assert_eq!(parse_stun_username(&[0u8; 20]), None);
    let mut p = binding_request(b"abc:def", &[]);
    p[22] = 0xFF;
    assert_eq!(parse_stun_username(&p), None);
}

#[test]
fn username_invalid_utf8_is_none() {
    let p = binding_request(&[0xFF, 0xFE, b':', b'a'], &[]);
    assert_eq!(parse_stun_username(&p), None);
}

#[test]
fn binding_response_layout() {
    let req = binding_request(b"abc:def", &[]);
    let addr = PeerAddr { ip: 0x7F00_0001, port: 5000 };
    let r = make_binding_response(&req, &addr, "password").unwrap();
    assert_eq!(r.len(), 64);
    assert_eq!(&r[0..4], &[0x01, 0x01, 0x00, 44]);
    assert_eq!(&r[4..8], &[0x21, 0x12, 0xA4, 0x42]);
    assert_eq!(&r[8..20], &req[8..20]);
    assert_eq!(&r[20..26], &[0x00, 0x20, 0x00, 0x08, 0x00, 0x01]);
    assert_eq!(&r[26..28], &(5000u16 ^ 0x2112).to_be_bytes());
    assert_eq!(&r[28..32], &(0x7F00_0001u32 ^ 0x2112_A442).to_be_bytes());
    assert_eq!(&r[32..36], &[0x00, 0x08, 0x00, 0x14]);
    assert_eq!(&r[56..60], &[0x80, 0x28, 0x00, 0x04]);
    assert_ne!(&r[36..56], &[0u8; 20]);
}

#[test]
fn binding_response_verifies_under_ice_pwd() {
    let req = binding_request(b"abc:def", &[]);
    let addr = PeerAddr { ip: 0xC0A8_0102, port: 40000 };
    let r = make_binding_response(&req, &addr, "icepassword0123456789x").unwrap();
    let mut signed = r[0..32].to_vec();
    signed[3] = 36;
    let mut mac = hmac::Hmac::<sha1::Sha1>::new_from_slice(b"icepassword0123456789x").unwrap();
    mac.update(&signed);
    assert_eq!(&r[36..56], mac.finalize().into_bytes().as_slice());
    let crc = crc32fast::hash(&r[0..56]) ^ 0x5354_554E;
    assert_eq!(&r[60..64], &crc.to_be_bytes());
    let other = make_binding_response(&req, &addr, "another").unwrap();
    assert_ne!(&r[36..56], &other[36..56]);
}

#[test]
fn binding_response_needs_header() {
    let addr = PeerAddr { ip: 1, port: 2 };
    assert!(make_binding_response(&[0u8; 19], &addr, "p").is_none());
}
