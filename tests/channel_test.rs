use mini_livechat::error::LiveError;
use mini_livechat::hubs::{ChannelHub, ChannelMode, FloorIndicator};

#[test]
fn create_and_get_channel() {
    let mut hub = ChannelHub::new();
    hub.create("CH_001", "0001", "test", ChannelMode::PTT, 10);
    assert!(hub.get("CH_001").is_some());
    assert!(hub.get("CH_999").is_none());
}

#[test]
fn create_duplicate_returns_existing() {
    let mut hub = ChannelHub::new();
    hub.create("CH_001", "0001", "first", ChannelMode::PTT, 10);
    hub.create("CH_001", "0001", "second", ChannelMode::PTT, 20);
    assert_eq!(hub.count(), 1);
    assert_eq!(hub.get("CH_001").unwrap().capacity, 10);
}

#[test]
fn remove_channel() {
    let mut hub = ChannelHub::new();
    hub.create("CH_001", "0001", "test", ChannelMode::PTT, 10);
    assert!(hub.remove("CH_001"));
    assert!(!hub.remove("CH_001"));
    assert_eq!(hub.count(), 0);
}

#[test]
fn add_member_and_count() {
    let mut hub = ChannelHub::new();
    let ch = hub.create("CH_001", "0001", "test", ChannelMode::PTT, 10);
    ch.add_member("alice").unwrap();
    ch.add_member("bob").unwrap();
    assert_eq!(ch.member_count(), 2);
}

#[test]
fn add_member_capacity_full() {
    let mut hub = ChannelHub::new();
    let ch = hub.create("CH_001", "0001", "test", ChannelMode::PTT, 2);
    ch.add_member("a").unwrap();
    ch.add_member("b").unwrap();
    let err = ch.add_member("c").unwrap_err();
    assert!(matches!(err, LiveError::ChannelFull(_)));
    assert_eq!(ch.member_count(), 2);
}

#[test]
fn add_member_duplicate() {
    let mut hub = ChannelHub::new();
    let ch = hub.create("CH_001", "0001", "test", ChannelMode::PTT, 10);
    ch.add_member("alice").unwrap();
    let err = ch.add_member("alice").unwrap_err();
    assert!(matches!(err, LiveError::AlreadyInChannel(_)));
}

#[test]
fn remove_member_and_get_members() {
    let mut hub = ChannelHub::new();
    let ch = hub.create("CH_001", "0001", "test", ChannelMode::PTT, 10);
    ch.add_member("alice").unwrap();
    ch.add_member("bob").unwrap();
    ch.remove_member("alice");
    let members = ch.get_members();
    assert_eq!(members.len(), 1);
    assert!(members.contains(&"bob".to_string()));
}

#[test]
fn count_floor_taken_initially_zero() {
    let mut hub = ChannelHub::new();
    hub.create("CH_001", "0001", "test", ChannelMode::PTT, 10);
    hub.create("CH_002", "0002", "test2", ChannelMode::PTT, 10);
    assert_eq!(hub.count_floor_taken(), 0);
}

#[test]
fn count_floor_taken_counts_held_floors() {
    let mut hub = ChannelHub::new();
    hub.create("CH_001", "0001", "test", ChannelMode::PTT, 10);
    hub.create("CH_002", "0002", "test2", ChannelMode::PTT, 10);
    hub.get_mut("CH_002").unwrap().floor.grant("alice".into(), 100, FloorIndicator::Normal);
    assert_eq!(hub.count_floor_taken(), 1);
}

#[test]
fn create_conference_channel() {
    let mut hub = ChannelHub::new();
    let ch = hub.create("CH_CONF", "0100", "conference test", ChannelMode::Conference, 10);
    assert_eq!(ch.mode, ChannelMode::Conference);
    assert!(!ch.is_ptt());
}

#[test]
fn channel_mode_from_str_lossy() {
    assert_eq!(ChannelMode::from_str_lossy("ptt"), ChannelMode::PTT);
    assert_eq!(ChannelMode::from_str_lossy("conference"), ChannelMode::Conference);
    assert_eq!(ChannelMode::from_str_lossy("Conference"), ChannelMode::Conference);
    assert_eq!(ChannelMode::from_str_lossy("unknown"), ChannelMode::PTT);
    assert_eq!(ChannelMode::from_str_lossy(""), ChannelMode::PTT);
}

#[test]
fn channel_mode_from_lowercase_is_exact() {
    assert_eq!(ChannelMode::from_lowercase("conference"), ChannelMode::Conference);
    assert_eq!(ChannelMode::from_lowercase("Conference"), ChannelMode::PTT);
    assert_eq!(ChannelMode::Conference.as_str(), "conference");
    assert_eq!(ChannelMode::PTT.as_str(), "ptt");
}

#[test]
fn channel_mode_default_is_ptt() {
    assert_eq!(ChannelMode::default(), ChannelMode::PTT);
}

#[test]
fn test_channel_create_and_get() {
    let mut hub = ChannelHub::new();
    hub.create("CH_1", "0001", "CH_1", ChannelMode::PTT, 10);
    assert!(hub.get("CH_1").is_some(), "생성 후 조회가 가능해야 합니다.");
    assert!(hub.remove("CH_1"), "삭제가 성공해야 합니다.");
    assert!(hub.get("CH_1").is_none(), "삭제 후 조회가 없어야 합니다.");
    assert!(!hub.remove("CH_1"), "없는 채널 삭제는 false여야 합니다.");
}

#[test]
fn test_channel_add_and_remove_member() {
    let mut hub = ChannelHub::new();
    let ch = hub.create("CH_1", "0001", "CH_1", ChannelMode::PTT, 10);
    assert!(ch.add_member("user_1").is_ok());
    assert!(ch.get_members().contains(&"user_1".to_string()), "멤버가 채널에 있어야 합니다.");
    assert_eq!(ch.member_count(), 1);
    ch.remove_member("user_1");
    assert!(!ch.get_members().contains(&"user_1".to_string()), "멤버가 제거되어야 합니다.");
    assert_eq!(ch.member_count(), 0);
}

#[test]
fn test_channel_capacity_limit() {
    let mut hub = ChannelHub::new();
    let ch = hub.create("CH_FULL", "0001", "CH_FULL", ChannelMode::PTT, 3);
    assert!(ch.add_member("user_1").is_ok());
    assert!(ch.add_member("user_2").is_ok());
    assert!(ch.add_member("user_3").is_ok());
    let result = ch.add_member("user_4");
    assert!(result.is_err(), "정원 초과 시 에러가 발생해야 합니다.");
    assert!(result.unwrap_err().to_string().contains("full"), "ChannelFull 에러여야 합니다.");
}

#[test]
fn test_channel_duplicate_member() {
    let mut hub = ChannelHub::new();
    let ch = hub.create("CH_1", "0001", "CH_1", ChannelMode::PTT, 10);
    assert!(ch.add_member("user_1").is_ok());
    let result = ch.add_member("user_1");
    assert!(result.is_err(), "중복 입장은 거절되어야 합니다.");
    assert!(result.unwrap_err().to_string().contains("Already"), "AlreadyInChannel 에러여야 합니다.");
}

#[test]
fn test_channel_created_at_is_set() {
    let mut hub = ChannelHub::new();
    let ch = hub.create("CH_1", "0001", "CH_1", ChannelMode::PTT, 10);
    assert!(ch.created_at > 0, "created_at이 설정되어야 합니다.");
}

#[test]
fn create_many_times_one_channel() {
    let mut hub = ChannelHub::new();
    for cap in [5usize, 6, 7, 8] {
        hub.create("CH_X", "0009", "x", ChannelMode::PTT, cap);
    }
    assert_eq!(hub.count(), 1);
    assert_eq!(hub.get("CH_X").unwrap().capacity, 5);
    assert!(hub.remove("CH_X"));
    assert!(!hub.remove("CH_X"));
}
