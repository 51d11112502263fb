use mini_livechat::hubs::UserHub;

#[test]
fn register_and_get() {
    let mut hub = UserHub::new();
    hub.register("alice", 100);
    assert!(hub.get("alice").is_some());
    assert!(hub.get("bob").is_none());
}

#[test]
fn unregister_removes_user() {
    let mut hub = UserHub::new();
    hub.register("alice", 100);
    hub.unregister("alice");
    assert!(hub.get("alice").is_none());
    assert_eq!(hub.count(), 0);
}

#[test]
fn count_tracks_users() {
    let mut hub = UserHub::new();
    assert_eq!(hub.count(), 0);
    hub.register("a", 100);
    hub.register("b", 100);
    assert_eq!(hub.count(), 2);
    hub.unregister("a");
    assert_eq!(hub.count(), 1);
}

#[test]
fn duplicate_register_overwrites() {
    let mut hub = UserHub::new();
    hub.register("alice", 50);
    hub.register("alice", 200);
    assert_eq!(hub.count(), 1);
    assert_eq!(hub.get("alice").unwrap().priority, 200);
}

#[test]
fn all_users_returns_snapshot() {
    let mut hub = UserHub::new();
    hub.register("a", 100);
    hub.register("b", 200);
    let all = hub.all_users();
    assert_eq!(all.len(), 2);
}

#[test]
fn touch_updates_last_seen() {
    let mut hub = UserHub::new();
    hub.register_at("alice", 100, 1_000);
    hub.touch_at("alice", 2_500);
    assert_eq!(hub.get("alice").unwrap().last_seen, 2_500);
}

#[test]
fn find_zombies_fresh_users_empty() {
    let mut hub = UserHub::new();
    hub.register("alice", 100);
    let zombies = hub.find_zombies(60_000);
    assert!(zombies.is_empty());
}

#[test]
fn test_user_register_and_unregister() {
    let mut hub = UserHub::new();
    hub.register("user_1", 100);
    assert!(hub.get("user_1").is_some(), "등록 후 조회가 가능해야 합니다.");
    hub.unregister("user_1");
    assert!(hub.get("user_1").is_none(), "해제 후 조회가 없어야 합니다.");
}

#[test]
fn test_user_zombie_detection() {
    let mut hub = UserHub::new();
    hub.register_at("user_1", 100, 1_000);
    let zombies = hub.find_zombies_at(10, 1_010);
    assert!(zombies.contains(&"user_1".to_string()), "타임아웃 초과 시 좀비로 감지되어야 합니다.");
    let zombies = hub.find_zombies_at(10, 1_009);
    assert!(zombies.is_empty(), "타임아웃 이내면 좀비가 없어야 합니다.");
}

#[test]
fn register_unregister_restores_count() {
    let mut hub = UserHub::new();
    hub.register("a", 100);
    let before = hub.count();
    hub.register("b", 150);
    hub.unregister("b");
    assert_eq!(hub.count(), before);
    hub.unregister("b");
    assert_eq!(hub.count(), before);
    assert!(hub.get("a").is_some());
}

#[test]
fn priority_lookup() {
    let mut hub = UserHub::new();
    hub.register("a", 255);
    assert_eq!(hub.get_priority("a"), Some(255));
    assert_eq!(hub.get_priority("z"), None);
    assert!(hub.contains("a"));
}

#[test]
fn broadcast_targets_skip_excluded_and_unknown() {
    let mut hub = UserHub::new();
    hub.register("a", 100);
    hub.register("b", 100);
    hub.register("c", 100);
    let members = vec!["a".to_string(), "b".to_string(), "ghost".to_string(), "c".to_string()];
    let t = hub.broadcast_targets(&members, Some("b"));
    assert_eq!(t, vec!["a".to_string(), "c".to_string()]);
    let t = hub.broadcast_targets(&members, None);
    assert_eq!(t.len(), 3);
}
