use mini_livechat::error::LiveError;
use mini_livechat::hubs::floor::floor_state_str;
use mini_livechat::hubs::{ChannelHub, ChannelMode, FloorControlState, FloorIndicator, MediaPeerHub, UserHub};
use mini_livechat::reaper::reap_at;
use mini_livechat::protocol::floor::FloorMessage;
use mini_livechat::protocol::join::{channel_join, channel_leave};
use mini_livechat::protocol::opcode::client;
use mini_livechat::protocol::session::{check_auth, identify_at, op_meta_in, Session};
use mini_livechat::trace::{TraceDir, TraceEvent};

fn identified(uid: &str) -> Session {
    let mut s = Session::new();
    s.user_id = Some(uid.to_string());
    s
}

#[test]
fn unauthenticated_requests_are_refused() {
    let s = Session::new();
    assert!(!s.is_authenticated());
    assert!(check_auth(&s, client::HEARTBEAT).is_ok());
    assert!(check_auth(&s, client::IDENTIFY).is_ok());
    let e = check_auth(&s, client::CHANNEL_JOIN).unwrap_err();
    assert!(matches!(e, LiveError::NotAuthenticated));
    assert_eq!(e.code(), 1000);
    assert!(check_auth(&identified("a"), client::CHANNEL_JOIN).is_ok());
}

#[test]
fn op_meta_names_and_summaries() {
    assert_eq!(op_meta_in(client::FLOOR_REQUEST, Some("alice")), ("FLOOR_REQUEST", "user=alice".to_string()));
    assert_eq!(op_meta_in(client::IDENTIFY, None), ("IDENTIFY", "user=-".to_string()));
    assert_eq!(op_meta_in(99, Some("bob")), ("UNKNOWN", "op=99 user=bob".to_string()));
}

#[test]
fn trace_event_fields() {
    let e = TraceEvent::new_at(42, TraceDir::Sys, Some("CH_001"), Some("alice"), 10, "FLOOR_REQ", "test".to_string());
    assert_eq!(e.ts, 42);
    assert_eq!(e.dir, TraceDir::Sys);
    assert_eq!(e.channel_id.as_deref(), Some("CH_001"));
    assert_eq!(e.user_id.as_deref(), Some("alice"));
    assert_eq!(e.op, 10);
    assert_eq!(e.op_name, "FLOOR_REQ");
    assert_eq!(TraceDir::Sys.as_str(), "sys");
    let now = TraceEvent::new(TraceDir::In, None, None, 1, "HELLO", "x".to_string());
    assert!(now.ts > 0);
    assert!(now.channel_id.is_none());
}

#[test]
fn floor_state_names() {
    assert_eq!(floor_state_str(&FloorControlState::Idle), "idle");
    assert_eq!(floor_state_str(&FloorControlState::Taken), "taken");
}

fn offer() -> String {
    "v=0\r\nm=audio 9 UDP/TLS/RTP/SAVPF 111\r\na=mid:0\r\na=rtpmap:111 opus/48000/2\r\n".to_string()
}

#[test]
fn join_registers_member_endpoint_and_session() {
    let mut channels = ChannelHub::new();
    channels.create("CH1", "0001", "one", ChannelMode::PTT, 10);
    let mut peers = MediaPeerHub::new();
    let mut s = identified("A");
    let o = channel_join(&mut s, &mut channels, &mut peers, "CH1", 1234, Some(&offer()), "cu", "fp", 10000, "1.2.3.4")
        .unwrap();
    assert!(o.sdp_answer.as_ref().unwrap().contains(&format!("a=ice-ufrag:{}", o.ufrag)));
    assert_eq!(o.ufrag.len(), 16);
    assert_eq!(o.members, vec!["A".to_string()]);
    assert!(o.floor_holder.is_none());
    let ep = peers.get_by_ufrag(&o.ufrag).unwrap();
    assert_eq!(ep.user_id, "A");
    assert_eq!(ep.tracks.len(), 1);
    assert_eq!(ep.tracks[0].ssrc, 1234);
    assert_eq!(ep.ice_pwd, o.ice_pwd);
    assert_eq!(o.ice_pwd.len(), 22);
    assert!(o.sdp_answer.as_ref().unwrap().contains(&format!("a=ice-pwd:{}", o.ice_pwd)));
    assert_eq!(s.current_channel.as_deref(), Some("CH1"));
    assert_eq!(s.current_ssrc, Some(1234));
}

#[test]
fn join_while_floor_taken_names_speaker() {
    let mut channels = ChannelHub::new();
    channels.create("CH1", "0001", "one", ChannelMode::PTT, 10);
    let mut peers = MediaPeerHub::new();
    let mut a = identified("A");
    channel_join(&mut a, &mut channels, &mut peers, "CH1", 1, None, "ua", "fp", 10000, "1.2.3.4").unwrap();
    channels.get_mut("CH1").unwrap().floor.grant("A".into(), 100, FloorIndicator::Broadcast);
    let mut b = identified("B");
    let o = channel_join(&mut b, &mut channels, &mut peers, "CH1", 2, None, "ub", "fp", 10000, "1.2.3.4").unwrap();
    assert_eq!(o.floor_holder, Some(("A".to_string(), FloorIndicator::Broadcast)));
    assert!(o.sdp_answer.is_none());
    assert_eq!(o.ufrag, "ub");
}

#[test]
fn join_refusals_change_nothing() {
    let mut channels = ChannelHub::new();
    channels.create("CH1", "0001", "one", ChannelMode::PTT, 1);
    let mut peers = MediaPeerHub::new();
    let mut a = identified("A");
    let e = channel_join(&mut a, &mut channels, &mut peers, "NOPE", 1, None, "ua", "fp", 1, "ip").err().unwrap();
    assert!(matches!(e, LiveError::ChannelNotFound(ref id) if id == "NOPE"));
    channel_join(&mut a, &mut channels, &mut peers, "CH1", 1, None, "ua", "fp", 1, "ip").unwrap();
    let e = channel_join(&mut a, &mut channels, &mut peers, "CH1", 1, None, "ua2", "fp", 1, "ip").err().unwrap();
    assert!(matches!(e, LiveError::ChannelFull(_)));
    let mut b = identified("B");
    let e = channel_join(&mut b, &mut channels, &mut peers, "CH1", 2, None, "ub", "fp", 1, "ip").err().unwrap();
    assert!(matches!(e, LiveError::ChannelFull(_)));
    assert_eq!(peers.count(), 1);
    assert!(b.current_channel.is_none());
}

#[test]
fn leave_of_holder_hands_floor_on() {
    let mut channels = ChannelHub::new();
    channels.create("CH1", "0001", "one", ChannelMode::PTT, 10);
    let mut peers = MediaPeerHub::new();
    let mut a = identified("A");
    let mut b = identified("B");
    channel_join(&mut a, &mut channels, &mut peers, "CH1", 1, None, "ua", "fp", 1, "ip").unwrap();
    channel_join(&mut b, &mut channels, &mut peers, "CH1", 2, None, "ub", "fp", 1, "ip").unwrap();
    {
        let f = &mut channels.get_mut("CH1").unwrap().floor;
        f.grant("A".into(), 100, FloorIndicator::Normal);
        f.enqueue("B".into(), 100, FloorIndicator::Normal);
    }
    let o = channel_leave(&mut a, &mut channels, &mut peers, "CH1", 50).unwrap();
    assert_eq!(o.ssrc, 1);
    assert_eq!(o.members.len(), 2);
    assert!(matches!(&o.floor_packets[0].message, FloorMessage::Granted { user_id, .. } if user_id == "B"));
    let ch = channels.get("CH1").unwrap();
    assert_eq!(ch.get_members(), vec!["B".to_string()]);
    assert_eq!(ch.floor.floor_taken_by.as_deref(), Some("B"));
    assert!(peers.get_by_ufrag("ua").is_none());
    assert!(a.current_channel.is_none());
    let e = channel_leave(&mut a, &mut channels, &mut peers, "CH1", 60).err().unwrap();
    assert!(matches!(e, LiveError::NotInChannel(_)));
}

#[test]
fn message_validation() {
    let mut s = identified("A");
    assert!(matches!(mini_livechat::protocol::session::validate_message(&s, "CH1", "   "), Err(LiveError::EmptyMessage)));
    let long = "x".repeat(2001);
    assert!(matches!(
        mini_livechat::protocol::session::validate_message(&s, "CH1", &long),
        Err(LiveError::MessageTooLong(2001))
    ));
    let e = mini_livechat::protocol::session::validate_message(&s, "CH1", "hi").unwrap_err();
    assert_eq!(e.code(), 3002);
    s.current_channel = Some("CH1".to_string());
    assert!(mini_livechat::protocol::session::validate_message(&s, "CH1", "hi").is_ok());
    assert!(mini_livechat::protocol::session::validate_message(&s, "CH1", &"y".repeat(2000)).is_ok());
}

#[test]
fn reaper_tick_evicts_and_revokes() {
    let mut users = UserHub::new();
    users.register_at("A", 100, 0);
    users.register_at("B", 100, 25_000);
    let mut channels = ChannelHub::new();
    let ch = channels.create("CH1", "0001", "one", ChannelMode::PTT, 10);
    ch.add_member("A").unwrap();
    ch.add_member("B").unwrap();
    ch.floor.grant_at("B".into(), 100, FloorIndicator::Normal, 20_000);
    let mut peers = MediaPeerHub::new();
    peers.insert_at("ua", "p", "A", "CH1", 0);
    peers.insert_at("ub", "p", "B", "CH1", 25_000);
    let out = reap_at(&mut users, &mut channels, &mut peers, 30_000);
    assert_eq!(out.evicted_users, vec!["A".to_string()]);
    assert_eq!(out.evicted_endpoints, vec!["ua".to_string()]);
    assert!(users.get("A").is_none());
    assert!(peers.get_by_ufrag("ua").is_none());
    let ch = channels.get("CH1").unwrap();
    assert_eq!(ch.get_members(), vec!["B".to_string()]);
    assert_eq!(out.floor_frames.len(), 2);
    assert!(matches!(out.floor_frames[0].packet.message, FloorMessage::Revoke { .. }));
    assert_eq!(ch.floor.state, FloorControlState::Idle);
}

#[test]
fn test_full_join_flow() {
    let mut user_hub = UserHub::new();
    let mut channel_hub = ChannelHub::new();
    let mut media_peer_hub = MediaPeerHub::new();
    user_hub.register("user_1", 100);
    assert!(user_hub.get("user_1").is_some());
    channel_hub.create("CH_1", "0001", "CH_1", ChannelMode::PTT, mini_livechat::config::MAX_PEERS_PER_CHANNEL);
    assert!(channel_hub.get("CH_1").is_some());
    let ch = channel_hub.get_mut("CH_1").unwrap();
    assert!(ch.add_member("user_1").is_ok());
    media_peer_hub.insert("100", "p", "user_1", "CH_1");
    assert!(ch.get_members().contains(&"user_1".to_string()));
    assert!(media_peer_hub.get_by_ufrag("100").is_some());
    assert_eq!(media_peer_hub.get_channel_endpoints("CH_1").len(), 1);
    ch.remove_member("user_1");
    media_peer_hub.remove("100");
    user_hub.unregister("user_1");
    assert!(!ch.get_members().contains(&"user_1".to_string()));
    assert!(media_peer_hub.get_by_ufrag("100").is_none());
    assert!(user_hub.get("user_1").is_none());
}

#[test]
fn identify_checks_token_and_registers() {
    let mut users = UserHub::new();
    let mut s = Session::new();
    let e = identify_at(&mut s, &mut users, "A", "bad", "secret", None, 1).unwrap_err();
    assert_eq!(e.code(), 1001);
    assert!(s.user_id.is_none());
    assert_eq!(users.count(), 0);
    identify_at(&mut s, &mut users, "A", "secret", "secret", None, 2).unwrap();
    assert_eq!(s.user_id.as_deref(), Some("A"));
    assert_eq!(users.get_priority("A"), Some(100));
    let mut s2 = Session::new();
    identify_at(&mut s2, &mut users, "A", "secret", "secret", Some(255), 3).unwrap();
    assert_eq!(users.count(), 1);
    assert_eq!(users.get_priority("A"), Some(255));
}
