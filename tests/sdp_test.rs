use mini_livechat::protocol::sdp::{build_sdp_answer, build_sdp_answer_with, random_ice_string};

const IP: &str = "127.0.0.1";

fn make_audio_offer(ufrag: &str) -> String {
    format!(
        "v=0\r\n\
         o=- 123 2 IN IP4 0.0.0.0\r\n\
         s=-\r\n\
         t=0 0\r\n\
         a=group:BUNDLE 0\r\n\
         m=audio 9 UDP/TLS/RTP/SAVPF 111\r\n\
         c=IN IP4 0.0.0.0\r\n\
         a=mid:0\r\n\
         a=ice-ufrag:{}\r\n\
         a=ice-pwd:clientpwd\r\n\
         a=fingerprint:sha-256 AA:BB\r\n\
         a=setup:actpass\r\n\
         a=sendrecv\r\n\
         a=rtcp-mux\r\n\
         a=rtpmap:111 opus/48000/2\r\n",
        ufrag
    )
}

fn make_bundle_offer() -> String {
    "v=0\r\n\
     o=- 123 2 IN IP4 0.0.0.0\r\n\
     s=-\r\n\
     t=0 0\r\n\
     a=group:BUNDLE 0 1\r\n\
     m=audio 9 UDP/TLS/RTP/SAVPF 111\r\n\
     c=IN IP4 0.0.0.0\r\n\
     a=mid:0\r\n\
     a=ice-ufrag:cufrag\r\n\
     a=ice-pwd:cpwd\r\n\
     a=setup:actpass\r\n\
     a=sendrecv\r\n\
     a=rtcp-mux\r\n\
     a=rtpmap:111 opus/48000/2\r\n\
     m=video 9 UDP/TLS/RTP/SAVPF 96\r\n\
     c=IN IP4 0.0.0.0\r\n\
     a=mid:1\r\n\
     a=ice-ufrag:cufrag\r\n\
     a=ice-pwd:cpwd\r\n\
     a=setup:actpass\r\n\
     a=sendrecv\r\n\
     a=rtcp-mux\r\n\
     a=rtpmap:96 VP8/90000\r\n"
        .to_string()
}

#[test]
fn ice_string_length() {
    assert_eq!(random_ice_string(16).len(), 16);
    assert_eq!(random_ice_string(22).len(), 22);
    assert_eq!(random_ice_string(0).len(), 0);
}

#[test]
fn ice_string_alphanumeric_only() {
    let s = random_ice_string(100);
    assert!(s.chars().all(|c| c.is_ascii_alphanumeric()));
}

#[test]
fn ice_string_unique() {
    let a = random_ice_string(16);
    let b = random_ice_string(16);
    assert_ne!(a, b);
}

#[test]
fn answer_contains_server_ufrag_and_pwd() {
    let offer = make_audio_offer("clientufrag");
    let (sdp, ufrag, pwd) = build_sdp_answer(&offer, "sha-256 FF:00", 40000, IP);
    assert!(sdp.contains(&format!("a=ice-ufrag:{}", ufrag)));
    assert!(sdp.contains(&format!("a=ice-pwd:{}", pwd)));
    assert_eq!(ufrag.len(), 16);
    assert_eq!(pwd.len(), 22);
}

#[test]
fn answer_has_passive_setup() {
    let offer = make_audio_offer("cu");
    let (sdp, _, _) = build_sdp_answer(&offer, "sha-256 FF:00", 40000, IP);
    assert!(sdp.contains("a=setup:passive"));
    assert!(!sdp.contains("actpass"));
}

#[test]
fn answer_replaces_port() {
    let offer = make_audio_offer("cu");
    let (sdp, _, _) = build_sdp_answer(&offer, "sha-256 FF:00", 41234, IP);
    assert!(sdp.contains("m=audio 41234 "));
}

#[test]
fn answer_includes_server_fingerprint() {
    let offer = make_audio_offer("cu");
    let fp = "sha-256 AB:CD:EF";
    let (sdp, _, _) = build_sdp_answer(&offer, fp, 40000, IP);
    assert!(sdp.contains(&format!("a=fingerprint:{}", fp)));
    assert!(!sdp.contains("AA:BB"));
}

#[test]
fn answer_has_ice_lite() {
    let offer = make_audio_offer("cu");
    let (sdp, _, _) = build_sdp_answer(&offer, "sha-256 FF:00", 40000, IP);
    assert!(sdp.contains("a=ice-lite"));
}

#[test]
fn answer_has_host_candidate() {
    let offer = make_audio_offer("cu");
    let (sdp, _, _) = build_sdp_answer(&offer, "sha-256 FF:00", 40000, IP);
    assert!(sdp.contains("typ host"));
    assert!(sdp.contains("a=end-of-candidates"));
}

#[test]
fn answer_mirrors_codec_lines() {
    let offer = make_audio_offer("cu");
    let (sdp, _, _) = build_sdp_answer(&offer, "sha-256 FF:00", 40000, IP);
    assert!(sdp.contains("a=rtpmap:111 opus/48000/2"));
}

#[test]
fn answer_strips_client_ice_and_candidates() {
    let offer = make_audio_offer("clientufrag");
    let (sdp, _, _) = build_sdp_answer(&offer, "sha-256 FF:00", 40000, IP);
    assert!(!sdp.contains("clientufrag"));
    assert!(!sdp.contains("clientpwd"));
}

#[test]
fn bundle_offer_produces_two_media_sections() {
    let offer = make_bundle_offer();
    let (sdp, _, _) = build_sdp_answer(&offer, "sha-256 FF:00", 40000, IP);
    let m_audio_count = sdp.matches("m=audio").count();
    let m_video_count = sdp.matches("m=video").count();
    assert_eq!(m_audio_count, 1);
    assert_eq!(m_video_count, 1);
    assert!(sdp.contains("a=group:BUNDLE 0 1"));
}

#[test]
fn bundle_answer_has_shared_ice_credentials() {
    let offer = make_bundle_offer();
    let (sdp, ufrag, pwd) = build_sdp_answer(&offer, "sha-256 FF:00", 40000, IP);
    let ufrag_count = sdp.matches(&format!("a=ice-ufrag:{}", ufrag)).count();
    let pwd_count = sdp.matches(&format!("a=ice-pwd:{}", pwd)).count();
    assert_eq!(ufrag_count, 2);
    assert_eq!(pwd_count, 2);
}

#[test]
fn answer_is_exact_for_fixed_values() {
    let offer = make_audio_offer("cu");
    let sdp = build_sdp_answer_with(&offer, "sha-256 FF:00", 10000, "10.0.0.5", 42, "UFRAGUFRAGUFRAG1", "pwdpwdpwdpwdpwdpwdpwd1");
    let expected = "v=0\r\n\
        o=- 42 42 IN IP4 10.0.0.5\r\n\
        s=-\r\n\
        t=0 0\r\n\
        a=group:BUNDLE 0\r\n\
        a=ice-lite\r\n\
        m=audio 10000 UDP/TLS/RTP/SAVPF 111\r\n\
        c=IN IP4 10.0.0.5\r\n\
        a=ice-ufrag:UFRAGUFRAGUFRAG1\r\n\
        a=ice-pwd:pwdpwdpwdpwdpwdpwdpwd1\r\n\
        a=fingerprint:sha-256 FF:00\r\n\
        a=setup:passive\r\n\
        a=rtcp-mux\r\n\
        a=rtcp-rsize\r\n\
        a=sendrecv\r\n\
        a=mid:0\r\n\
        a=rtpmap:111 opus/48000/2\r\n\
        a=candidate:1 1 udp 2113937151 10.0.0.5 10000 typ host generation 0\r\n\
        a=end-of-candidates\r\n";
    assert_eq!(sdp, expected);
}

#[test]
fn short_m_line_is_kept() {
    let offer = "m=audio 9\r\na=mid: x \r\n";
    let sdp = build_sdp_answer_with(offer, "fp", 5, "1.2.3.4", 0, "u", "p");
    assert!(sdp.contains("\r\nm=audio 9\r\n"));
    assert!(sdp.contains("a=group:BUNDLE x\r\n"));
}

#[test]
fn empty_offer_has_header_only() {
    let sdp = build_sdp_answer_with("", "fp", 5, "1.2.3.4", 7, "u", "p");
    assert_eq!(sdp, "v=0\r\no=- 7 7 IN IP4 1.2.3.4\r\ns=-\r\nt=0 0\r\na=group:BUNDLE \r\na=ice-lite\r\n");
}
