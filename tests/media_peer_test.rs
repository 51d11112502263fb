use mini_livechat::hubs::{ChannelHub, ChannelMode, Endpoint, FloorIndicator, MediaPeerHub, TrackKind};
use mini_livechat::media::dtls::{route_dtls, DtlsRoute, PendingDtls};
use mini_livechat::media::ingress::stun_step;
use mini_livechat::media::srtp::{install_keying_material, SrtpContext, SrtpError};
use mini_livechat::media::stun::PeerAddr;

fn addr(port: u16) -> PeerAddr {
    PeerAddr { ip: 0x7F00_0001, port }
}

const SAMPLE_RTP: [u8; 12] = [0x80, 0x78, 0x00, 0x01, 0x00, 0x00, 0x00, 0x00, 0x00, 0x01, 0xE2, 0x40];

#[test]
fn insert_and_get_by_ufrag() {
    let mut hub = MediaPeerHub::new();
    hub.insert("ufrag1", "pwd1", "alice", "CH_001");
    assert!(hub.get_by_ufrag("ufrag1").is_some());
    assert!(hub.get_by_ufrag("ufrag_x").is_none());
}

#[test]
fn latch_enables_by_addr_lookup() {
    let mut hub = MediaPeerHub::new();
    hub.insert("ufrag1", "pwd1", "alice", "CH_001");
    let a = addr(5000);
    assert!(hub.get_by_addr(&a).is_none());
    hub.latch("ufrag1", a);
    assert!(hub.get_by_addr(&a).is_some());
}

#[test]
fn latch_unknown_ufrag_returns_none() {
    let mut hub = MediaPeerHub::new();
    assert!(!hub.latch("unknown", addr(5000)));
}

#[test]
fn remove_clears_both_maps() {
    let mut hub = MediaPeerHub::new();
    hub.insert("ufrag1", "pwd1", "alice", "CH_001");
    let a = addr(5000);
    hub.latch("ufrag1", a);
    hub.remove("ufrag1");
    assert!(hub.get_by_ufrag("ufrag1").is_none());
    assert!(hub.get_by_addr(&a).is_none());
    assert_eq!(hub.count(), 0);
}

#[test]
fn get_channel_endpoints_filters_by_channel() {
    let mut hub = MediaPeerHub::new();
    hub.insert("u1", "p", "alice", "CH_001");
    hub.insert("u2", "p", "bob", "CH_001");
    hub.insert("u3", "p", "carol", "CH_002");
    assert_eq!(hub.get_channel_endpoints("CH_001").len(), 2);
    assert_eq!(hub.get_channel_endpoints("CH_002").len(), 1);
    assert_eq!(hub.get_channel_endpoints("CH_999").len(), 0);
}

#[test]
fn count_and_all_endpoints() {
    let mut hub = MediaPeerHub::new();
    assert_eq!(hub.count(), 0);
    hub.insert("u1", "p", "alice", "CH_001");
    hub.insert("u2", "p", "bob", "CH_001");
    assert_eq!(hub.count(), 2);
    assert_eq!(hub.all_endpoints().len(), 2);
}

#[test]
fn endpoint_add_track_dedup() {
    let mut ep = Endpoint::new("u".into(), "p".into(), "alice".into(), "CH".into());
    ep.add_track(1234, TrackKind::Audio);
    ep.add_track(1234, TrackKind::Audio);
    ep.add_track(5678, TrackKind::Video);
    assert_eq!(ep.tracks.len(), 2);
}

#[test]
fn endpoint_latch_address() {
    let mut ep = Endpoint::new("u".into(), "p".into(), "alice".into(), "CH".into());
    assert!(ep.get_address().is_none());
    ep.latch_address(addr(9000));
    assert_eq!(ep.get_address(), Some(addr(9000)));
}

#[test]
fn find_zombies_fresh_empty() {
    let mut hub = MediaPeerHub::new();
    hub.insert("u1", "p", "alice", "CH_001");
    assert!(hub.find_zombies(60_000).is_empty());
}

#[test]
fn test_media_peer_zombie_detection() {
    let mut hub = MediaPeerHub::new();
    hub.insert("100", "p", "user_1", "CH_1");
    let zombies = hub.find_zombies(0);
    assert!(zombies.contains(&"100".to_string()), "타임아웃 초과 시 좀비로 감지되어야 합니다.");
    let zombies = hub.find_zombies(u64::MAX);
    assert!(zombies.is_empty(), "타임아웃 이내면 좀비가 없어야 합니다.");
}

#[test]
fn zombie_bounds_are_exact() {
    let mut hub = MediaPeerHub::new();
    hub.insert_at("u1", "p", "user_1", "CH_1", 100);
    assert_eq!(hub.find_zombies_at(10, 110), vec!["u1".to_string()]);
    assert!(hub.find_zombies_at(10, 109).is_empty());
}

#[test]
fn test_media_peer_insert_and_get() {
    let mut hub = MediaPeerHub::new();
    hub.insert("100", "p", "user_1", "CH_1");
    let peer = hub.get_by_ufrag("100");
    assert!(peer.is_some(), "삽입 후 조회가 가능해야 합니다.");
    let peer = peer.unwrap();
    assert_eq!(peer.ufrag, "100");
    assert_eq!(peer.user_id, "user_1");
    assert_eq!(peer.channel_id, "CH_1");
}

#[test]
fn test_media_peer_remove() {
    let mut hub = MediaPeerHub::new();
    hub.insert("100", "p", "user_1", "CH_1");
    hub.remove("100");
    assert!(hub.get_by_ufrag("100").is_none(), "제거 후 조회가 없어야 합니다.");
}

#[test]
fn test_media_peer_touch_updates_last_seen() {
    let mut hub = MediaPeerHub::new();
    hub.insert_at("100", "p", "user_1", "CH_1", 10);
    hub.latch_at("100", addr(5000), 20);
    hub.touch_at(&addr(5000), 30);
    assert!(hub.get_by_ufrag("100").unwrap().last_seen > 10, "touch 후 last_seen이 갱신되어야 합니다.");
}

#[test]
fn test_media_peer_update_address() {
    let mut hub = MediaPeerHub::new();
    hub.insert("100", "p", "user_1", "CH_1");
    assert!(hub.get_by_ufrag("100").unwrap().address.is_none(), "초기 주소는 None이어야 합니다.");
    let a = PeerAddr { ip: 0x7F00_0001, port: 5000 };
    hub.latch("100", a);
    assert_eq!(hub.get_by_ufrag("100").unwrap().address, Some(a), "주소 갱신이 되어야 합니다.");
}

#[test]
fn test_media_peer_get_channel_peers() {
    let mut hub = MediaPeerHub::new();
    hub.insert("101", "p", "user_1", "CH_1");
    hub.insert("102", "p", "user_2", "CH_1");
    hub.insert("103", "p", "user_3", "CH_2");
    assert_eq!(hub.get_channel_endpoints("CH_1").len(), 2, "CH_1에 2명이 있어야 합니다.");
    assert_eq!(hub.get_channel_endpoints("CH_2").len(), 1, "CH_2에 1명이 있어야 합니다.");
}

#[test]
fn relatch_moves_address_to_new_endpoint() {
    let mut hub = MediaPeerHub::new();
    hub.insert("u1", "p", "alice", "CH");
    hub.insert("u2", "p", "bob", "CH");
    let a = addr(7000);
    assert!(hub.latch("u1", a));
    assert!(hub.latch("u2", a));
    assert_eq!(hub.get_by_addr(&a).unwrap().ufrag, "u2");
    assert!(hub.get_by_ufrag("u1").unwrap().address.is_none());
}

#[test]
fn new_context_is_not_ready() {
    let ctx = SrtpContext::new();
    assert!(!ctx.is_ready());
}

#[test]
fn key_install_marks_ready() {
    let mut ctx = SrtpContext::new();
    ctx.install_key(&[0u8; 16], &[0u8; 14]);
    assert!(ctx.is_ready());
}

#[test]
fn wrong_key_length_keeps_readiness() {
    let mut ctx = SrtpContext::new();
    ctx.install_key(&[0u8; 15], &[0u8; 14]);
    assert!(!ctx.is_ready());
    ctx.install_key(&[0u8; 16], &[0u8; 14]);
    ctx.install_key(&[0u8; 3], &[0u8; 3]);
    assert!(ctx.is_ready());
}

#[test]
fn decrypt_before_key_returns_error() {
    let mut ctx = SrtpContext::new();
    assert!(matches!(ctx.decrypt(&SAMPLE_RTP), Err(SrtpError::KeyNotInstalled)));
}

#[test]
fn encrypt_before_key_returns_error() {
    let mut ctx = SrtpContext::new();
    assert!(matches!(ctx.encrypt(&SAMPLE_RTP), Err(SrtpError::KeyNotInstalled)));
}

#[test]
fn encrypt_decrypt_roundtrip() {
    let key = [0x01u8; 16];
    let salt = [0x02u8; 14];
    let plaintext: Vec<u8> = vec![
        0x80, 0x78, 0x00, 0x01, 0x00, 0x00, 0x00, 0x00, 0x00, 0x01, 0xE2, 0x40, 0xDE, 0xAD, 0xBE, 0xEF,
    ];
    let mut enc_ctx = SrtpContext::new();
    enc_ctx.install_key(&key, &salt);
    let mut dec_ctx = SrtpContext::new();
    dec_ctx.install_key(&key, &salt);
    let encrypted = enc_ctx.encrypt(&plaintext).expect("encrypt failed");
    let decrypted = dec_ctx.decrypt(&encrypted).expect("decrypt failed");
    assert_eq!(decrypted, plaintext);
}

#[test]
fn short_srtcp_is_invalid() {
    let mut ctx = SrtpContext::new();
    ctx.install_key(&[0u8; 16], &[0u8; 14]);
    assert!(matches!(ctx.decrypt_rtcp(&[0x80, 200, 0, 1]), Err(SrtpError::InvalidPacket(_))));
    assert!(ctx.is_ready());
}

#[test]
fn keying_material_keys_both_directions() {
    let mut inbound = SrtpContext::new();
    let mut outbound = SrtpContext::new();
    assert!(matches!(install_keying_material(&mut inbound, &mut outbound, &[0u8; 59]), Err(SrtpError::InvalidPacket(_))));
    assert!(!inbound.is_ready() && !outbound.is_ready());
    let material: Vec<u8> = (0..60u8).collect();
    assert!(install_keying_material(&mut inbound, &mut outbound, &material).is_ok());
    assert!(inbound.is_ready() && outbound.is_ready());
}

#[test]
fn dtls_routing() {
    assert_eq!(route_dtls(true, false), DtlsRoute::Inject);
    assert_eq!(route_dtls(true, true), DtlsRoute::Inject);
    assert_eq!(route_dtls(false, true), DtlsRoute::StartHandshake);
    assert_eq!(route_dtls(false, false), DtlsRoute::Pending);
}

#[test]
fn pending_dtls_drains_in_arrival_order() {
    let mut p = PendingDtls::new();
    p.enqueue_pending(addr(1), vec![1]);
    p.enqueue_pending(addr(2), vec![9]);
    p.enqueue_pending(addr(1), vec![2]);
    assert_eq!(p.drain_pending(&addr(1)), vec![vec![1u8], vec![2u8]]);
    assert!(p.drain_pending(&addr(1)).is_empty());
    assert_eq!(p.drain_pending(&addr(2)), vec![vec![9u8]]);
}

fn keyed_pair() -> (MediaPeerHub, ChannelHub, SrtpContext) {
    let mut hub = MediaPeerHub::new();
    hub.insert("ua", "p", "A", "CH1");
    hub.insert("ub", "p", "B", "CH1");
    hub.insert("uc", "p", "C", "CH2");
    hub.latch("ua", addr(1));
    hub.latch("ub", addr(2));
    hub.latch("uc", addr(3));
    let material: Vec<u8> = (0..60u8).collect();
    for ep in hub.endpoints.iter_mut() {
        install_keying_material(&mut ep.inbound_srtp, &mut ep.outbound_srtp, &material).unwrap();
    }
    let mut channels = ChannelHub::new();
    channels.create("CH1", "0001", "one", ChannelMode::PTT, 10);
    channels.create("CH2", "0002", "two", ChannelMode::PTT, 10);
    let mut browser = SrtpContext::new();
    browser.install_key(&material[0..16], &material[32..46]);
    (hub, channels, browser)
}

#[test]
fn media_from_non_holder_is_dropped() {
    let (mut hub, channels, mut browser) = keyed_pair();
    let packet = browser.encrypt(&[0x80, 0x78, 0, 1, 0, 0, 0, 0, 0, 1, 0xE2, 0x40, 1, 2, 3]).unwrap();
    assert!(hub.relay_srtp_at(&channels, &addr(1), &packet, 5).is_empty());
    assert_eq!(hub.get_by_addr(&addr(1)).unwrap().last_seen, 5);
}

#[test]
fn media_from_holder_reaches_channel_peers() {
    let (mut hub, mut channels, mut browser) = keyed_pair();
    channels.get_mut("CH1").unwrap().floor.grant("A".into(), 100, FloorIndicator::Normal);
    let packet = browser.encrypt(&[0x80, 0x78, 0, 1, 0, 0, 0, 0, 0, 1, 0xE2, 0x40, 1, 2, 3]).unwrap();
    let out = hub.relay_srtp_at(&channels, &addr(1), &packet, 5);
    assert_eq!(out.len(), 1);
    assert_eq!(out[0].to, addr(2));
    assert!(hub.relay_srtp_at(&channels, &addr(9), &packet, 6).is_empty());
}

#[test]
fn keying_material_slices_per_direction() {
    let mut hub = MediaPeerHub::new();
    hub.insert("u", "p", "A", "CH");
    hub.latch("u", addr(1));
    let material: Vec<u8> = (0..60u8).collect();
    assert!(matches!(hub.install_keys(&addr(2), &material), Err(SrtpError::KeyNotInstalled)));
    assert!(hub.install_keys(&addr(1), &material).is_ok());
    // The browser side keys with the client half and protects; the server's
    // inbound context must undo it, which it can only with the same half.
    let mut browser = SrtpContext::new();
    browser.install_key(&material[0..16], &material[32..46]);
    let packet = browser.encrypt(&SAMPLE_RTP).unwrap();
    let ep = &mut hub.endpoints[0];
    assert_eq!(ep.inbound_srtp.decrypt(&packet).unwrap(), SAMPLE_RTP.to_vec());
    let mut server_side = SrtpContext::new();
    server_side.install_key(&material[16..32], &material[46..60]);
    let out = ep.outbound_srtp.encrypt(&SAMPLE_RTP).unwrap();
    assert_eq!(server_side.decrypt(&out).unwrap(), SAMPLE_RTP.to_vec());
}

#[test]
fn fan_out_reaches_every_keyed_peer_of_the_channel() {
    let (mut hub, mut channels, _browser) = keyed_pair();
    hub.insert("ud", "p", "D", "CH1");
    hub.latch("ud", addr(4));
    let plain = [0x80u8, 0x78, 0, 1, 0, 0, 0, 0, 0, 1, 0xE2, 0x40, 9, 9];
    let (sent, failed) = hub.fan_out(&channels, 0, &plain);
    assert!(sent.is_empty() && failed.is_empty());
    channels.get_mut("CH1").unwrap().floor.grant("A".into(), 100, FloorIndicator::Normal);
    let (sent, failed) = hub.fan_out(&channels, 0, &plain);
    let to: Vec<PeerAddr> = sent.iter().map(|d| d.to).collect();
    assert_eq!(to, vec![addr(2)]);
    assert!(failed.is_empty());
}

#[test]
fn srtcp_and_unkeyed_senders_relay_nothing() {
    let (mut hub, mut channels, _browser) = keyed_pair();
    channels.get_mut("CH1").unwrap().floor.grant("A".into(), 100, FloorIndicator::Normal);
    let mut rtcp = vec![0x80u8, 200, 0, 6];
    rtcp.extend_from_slice(&[0u8; 30]);
    assert!(hub.relay_srtp_at(&channels, &addr(1), &rtcp, 7).is_empty());
    let mut cold = MediaPeerHub::new();
    cold.insert("ua", "p", "A", "CH1");
    cold.latch("ua", addr(1));
    assert!(cold.relay_srtp_at(&channels, &addr(1), &SAMPLE_RTP, 8).is_empty());
    assert_eq!(cold.get_by_addr(&addr(1)).unwrap().last_seen, 8);
}

fn binding_request(username: &[u8]) -> Vec<u8> {
    let mut p = vec![0x00, 0x01, 0x00, 0x00, 0x21, 0x12, 0xA4, 0x42];
    p.extend_from_slice(&[5u8; 12]);
    p.extend_from_slice(&6u16.to_be_bytes());
    p.extend_from_slice(&(username.len() as u16).to_be_bytes());
    p.extend_from_slice(username);
    while p.len() % 4 != 0 {
        p.push(0);
    }
    p
}

#[test]
fn stun_cold_path_latches_answers_and_releases_dtls() {
    let mut hub = MediaPeerHub::new();
    hub.insert("srvufrag", "icepwd", "A", "CH");
    let mut pending = PendingDtls::new();
    pending.enqueue_pending(addr(1), vec![22, 1]);
    pending.enqueue_pending(addr(1), vec![22, 2]);
    pending.enqueue_pending(addr(9), vec![22, 9]);
    let req = binding_request(b"srvufrag:cli");
    let (resp, released) = stun_step(&mut hub, &mut pending, &addr(1), &req, 50);
    let resp = resp.unwrap();
    assert_eq!(resp.len(), 64);
    assert_eq!(released, vec![vec![22u8, 1], vec![22u8, 2]]);
    assert_eq!(hub.get_by_addr(&addr(1)).unwrap().ufrag, "srvufrag");
    assert_eq!(pending.drain_pending(&addr(9)), vec![vec![22u8, 9]]);
    let expected = mini_livechat::media::stun::make_binding_response(&req, &addr(1), "icepwd").unwrap();
    assert_eq!(resp, expected);
}

#[test]
fn stun_warm_path_answers_without_release() {
    let mut hub = MediaPeerHub::new();
    hub.insert("srvufrag", "icepwd", "A", "CH");
    hub.latch_at("srvufrag", addr(1), 10);
    let mut pending = PendingDtls::new();
    let req = binding_request(b"whatever:x");
    let (resp, released) = stun_step(&mut hub, &mut pending, &addr(1), &req, 60);
    assert!(resp.is_some());
    assert!(released.is_empty());
    assert_eq!(hub.get_by_addr(&addr(1)).unwrap().last_seen, 60);
}

#[test]
fn stun_unknown_ufrag_is_dropped() {
    let mut hub = MediaPeerHub::new();
    hub.insert("srvufrag", "icepwd", "A", "CH");
    let mut pending = PendingDtls::new();
    pending.enqueue_pending(addr(1), vec![22]);
    let (resp, released) = stun_step(&mut hub, &mut pending, &addr(1), &binding_request(b"nope:x"), 5);
    assert!(resp.is_none() && released.is_empty());
    assert!(hub.get_by_addr(&addr(1)).is_none());
    assert_eq!(pending.drain_pending(&addr(1)), vec![vec![22u8]]);
}
