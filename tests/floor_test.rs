use mini_livechat::hubs::floor::RevokeCause;
use mini_livechat::hubs::{FloorControl, FloorControlState, FloorIndicator};
use mini_livechat::protocol::floor::{
    admin_revoke, check_floor_timeout, decide_next, floor_ping, floor_release, floor_request, on_user_disconnect,
    FloorMessage, FloorPacket,
};

fn granted_to(p: &FloorPacket, uid: &str) -> bool {
    p.target.as_deref() == Some(uid) && matches!(&p.message, FloorMessage::Granted { user_id, .. } if user_id == uid)
}

fn taken_by(p: &FloorPacket, uid: &str) -> bool {
    p.target.is_none()
        && p.exclude.as_deref() == Some(uid)
        && matches!(&p.message, FloorMessage::Taken { user_id, .. } if user_id == uid)
}

fn revoke_to(p: &FloorPacket, uid: &str, cause: RevokeCause) -> bool {
    p.target.as_deref() == Some(uid) && matches!(&p.message, FloorMessage::Revoke { cause: c } if *c == cause)
}

fn is_idle(p: &FloorPacket) -> bool {
    p.target.is_none() && p.exclude.is_none() && matches!(p.message, FloorMessage::Idle)
}

#[test]
fn new_floor_is_idle() {
    let f = FloorControl::new();
    assert_eq!(f.state, FloorControlState::Idle);
    assert!(f.floor_taken_by.is_none());
    assert!(f.queue.is_empty());
}

#[test]
fn grant_transitions_to_taken() {
    let mut f = FloorControl::new();
    f.grant("alice".into(), 100, FloorIndicator::Normal);
    assert_eq!(f.state, FloorControlState::Taken);
    assert_eq!(f.floor_taken_by.as_deref(), Some("alice"));
    assert_eq!(f.floor_priority, 100);
    assert!(f.floor_taken_at.is_some());
}

#[test]
fn clear_taken_resets_to_idle() {
    let mut f = FloorControl::new();
    f.grant("alice".into(), 100, FloorIndicator::Normal);
    f.clear_taken();
    assert_eq!(f.state, FloorControlState::Idle);
    assert!(f.floor_taken_by.is_none());
    assert!(f.floor_taken_at.is_none());
    assert_eq!(f.floor_priority, 0);
}

#[test]
fn enqueue_priority_ordering() {
    let mut f = FloorControl::new();
    f.enqueue("low".into(), 50, FloorIndicator::Normal);
    f.enqueue("high".into(), 200, FloorIndicator::Normal);
    f.enqueue("mid".into(), 100, FloorIndicator::Normal);
    let next = f.dequeue_next().unwrap();
    assert_eq!(next.user_id, "high");
    let next = f.dequeue_next().unwrap();
    assert_eq!(next.user_id, "mid");
    let next = f.dequeue_next().unwrap();
    assert_eq!(next.user_id, "low");
    assert!(f.dequeue_next().is_none());
}

#[test]
fn enqueue_same_user_updates() {
    let mut f = FloorControl::new();
    f.enqueue("alice".into(), 50, FloorIndicator::Normal);
    f.enqueue("alice".into(), 200, FloorIndicator::Emergency);
    assert_eq!(f.queue.len(), 1);
    assert_eq!(f.queue[0].priority, 200);
}

#[test]
fn remove_from_queue() {
    let mut f = FloorControl::new();
    f.enqueue("a".into(), 100, FloorIndicator::Normal);
    f.enqueue("b".into(), 100, FloorIndicator::Normal);
    f.remove_from_queue("a");
    assert_eq!(f.queue.len(), 1);
    assert_eq!(f.queue[0].user_id, "b");
}

#[test]
fn queue_position_1based() {
    let mut f = FloorControl::new();
    f.enqueue("a".into(), 200, FloorIndicator::Normal);
    f.enqueue("b".into(), 100, FloorIndicator::Normal);
    assert_eq!(f.queue_position("a"), Some(1));
    assert_eq!(f.queue_position("b"), Some(2));
    assert_eq!(f.queue_position("c"), None);
}

#[test]
fn can_preempt_emergency_always_true() {
    let mut f = FloorControl::new();
    f.grant("alice".into(), 255, FloorIndicator::Normal);
    assert!(f.can_preempt(1, &FloorIndicator::Emergency));
}

#[test]
fn can_preempt_higher_priority() {
    let mut f = FloorControl::new();
    f.grant("alice".into(), 100, FloorIndicator::Normal);
    assert!(f.can_preempt(200, &FloorIndicator::Normal));
    assert!(!f.can_preempt(100, &FloorIndicator::Normal));
    assert!(!f.can_preempt(50, &FloorIndicator::Normal));
}

#[test]
fn can_preempt_idle_returns_false() {
    let f = FloorControl::new();
    assert!(!f.can_preempt(255, &FloorIndicator::Emergency));
}

#[test]
fn on_ping_updates_last_ping_at() {
    let mut f = FloorControl::new();
    f.grant("alice".into(), 100, FloorIndicator::Normal);
    let t1 = f.last_ping_at;
    f.on_ping();
    assert!(f.last_ping_at >= t1);
}

#[test]
fn is_ping_timeout_idle_returns_false() {
    let f = FloorControl::new();
    assert!(!f.is_ping_timeout());
}

#[test]
fn is_max_taken_exceeded_idle_returns_false() {
    let f = FloorControl::new();
    assert!(!f.is_max_taken_exceeded());
}

#[test]
fn is_max_taken_exceeded_fresh_grant_false() {
    let mut f = FloorControl::new();
    f.grant("alice".into(), 100, FloorIndicator::Normal);
    assert!(!f.is_max_taken_exceeded());
}

#[test]
fn timeouts_at_exact_bounds() {
    let mut f = FloorControl::new();
    f.grant_at("alice".into(), 100, FloorIndicator::Normal, 1_000);
    assert!(!f.is_ping_timeout_at(6_999));
    assert!(f.is_ping_timeout_at(7_000));
    assert!(!f.is_max_taken_exceeded_at(30_999));
    assert!(f.is_max_taken_exceeded_at(31_000));
    assert!(!f.is_ping_timeout_at(500));
}

#[test]
fn equal_priority_keeps_request_order() {
    let mut f = FloorControl::new();
    f.enqueue_at("a".into(), 100, FloorIndicator::Normal, 1);
    f.enqueue_at("b".into(), 100, FloorIndicator::Normal, 2);
    f.enqueue_at("c".into(), 150, FloorIndicator::Normal, 3);
    f.enqueue_at("d".into(), 100, FloorIndicator::Normal, 4);
    let order: Vec<&str> = f.queue.iter().map(|e| e.user_id.as_str()).collect();
    assert_eq!(order, vec!["c", "a", "b", "d"]);
    for w in f.queue.windows(2) {
        assert!(w[0].priority > w[1].priority || w[0].queued_at <= w[1].queued_at);
    }
}

#[test]
fn enqueue_twice_keeps_size_and_replaces() {
    let mut f = FloorControl::new();
    f.enqueue_at("x".into(), 10, FloorIndicator::Normal, 1);
    f.enqueue_at("alice".into(), 50, FloorIndicator::Normal, 2);
    let size = f.queue.len();
    f.enqueue_at("alice".into(), 20, FloorIndicator::Broadcast, 3);
    assert_eq!(f.queue.len(), size);
    let entries: Vec<_> = f.queue.iter().filter(|e| e.user_id == "alice").collect();
    assert_eq!(entries.len(), 1);
    assert_eq!(entries[0].priority, 20);
    assert_eq!(entries[0].indicator, FloorIndicator::Broadcast);
    assert_eq!(entries[0].queued_at, 3);
}

#[test]
fn preemption_by_emergency() {
    let mut f = FloorControl::new();
    let p = floor_request(&mut f, "A", 100, FloorIndicator::Normal, 0);
    assert_eq!(p.len(), 2);
    assert!(granted_to(&p[0], "A"));
    assert!(taken_by(&p[1], "A"));
    let p = floor_request(&mut f, "B", 50, FloorIndicator::Emergency, 10);
    assert_eq!(p.len(), 3);
    assert!(revoke_to(&p[0], "A", RevokeCause::Preempted));
    assert!(granted_to(&p[1], "B"));
    assert!(taken_by(&p[2], "B"));
    assert_eq!(f.floor_taken_by.as_deref(), Some("B"));
    assert!(f.queue.is_empty());
}

#[test]
fn higher_priority_request_preempts() {
    let mut f = FloorControl::new();
    floor_request(&mut f, "A", 100, FloorIndicator::Normal, 0);
    let p = floor_request(&mut f, "C", 100, FloorIndicator::Normal, 1);
    assert_eq!(p.len(), 1);
    assert_eq!(f.floor_taken_by.as_deref(), Some("A"));
    let p = floor_request(&mut f, "B", 150, FloorIndicator::Normal, 2);
    assert_eq!(p.len(), 3);
    assert!(revoke_to(&p[0], "A", RevokeCause::Preempted));
    assert_eq!(f.floor_taken_by.as_deref(), Some("B"));
    let order: Vec<&str> = f.queue.iter().map(|e| e.user_id.as_str()).collect();
    assert_eq!(order, vec!["C"]);
}

#[test]
fn queue_drains_in_priority_order() {
    let mut f = FloorControl::new();
    floor_request(&mut f, "A", 100, FloorIndicator::Normal, 0);
    f.enqueue_at("B".into(), 150, FloorIndicator::Normal, 1);
    f.enqueue_at("C".into(), 100, FloorIndicator::Normal, 2);
    f.enqueue_at("D".into(), 200, FloorIndicator::Normal, 3);
    let order: Vec<&str> = f.queue.iter().map(|e| e.user_id.as_str()).collect();
    assert_eq!(order, vec!["D", "B", "C"]);
    let p = floor_release(&mut f, "A", 4);
    assert!(granted_to(&p[0], "D"));
    assert!(taken_by(&p[1], "D"));
    floor_release(&mut f, "D", 5);
    assert_eq!(f.floor_taken_by.as_deref(), Some("B"));
    floor_release(&mut f, "B", 6);
    assert_eq!(f.floor_taken_by.as_deref(), Some("C"));
    assert!(f.queue.is_empty());
    let p = floor_release(&mut f, "C", 7);
    assert_eq!(p.len(), 1);
    assert!(is_idle(&p[0]));
    assert_eq!(f.state, FloorControlState::Idle);
}

#[test]
fn queued_request_reports_position() {
    let mut f = FloorControl::new();
    floor_request(&mut f, "A", 100, FloorIndicator::Normal, 0);
    floor_request(&mut f, "B", 50, FloorIndicator::Normal, 1);
    let p = floor_request(&mut f, "C", 80, FloorIndicator::Normal, 2);
    assert_eq!(p[0].target.as_deref(), Some("C"));
    assert!(matches!(p[0].message, FloorMessage::QueuePosInfo { position: 1, size: 2 }));
}

#[test]
fn release_by_non_holder_is_ignored() {
    let mut f = FloorControl::new();
    floor_request(&mut f, "A", 100, FloorIndicator::Normal, 0);
    let p = floor_release(&mut f, "B", 1);
    assert!(p.is_empty());
    assert_eq!(f.floor_taken_by.as_deref(), Some("A"));
}

#[test]
fn ping_from_holder_refreshes_and_pongs() {
    let mut f = FloorControl::new();
    floor_request(&mut f, "A", 100, FloorIndicator::Normal, 0);
    let p = floor_ping(&mut f, "A", 5_000);
    assert_eq!(f.last_ping_at, 5_000);
    assert_eq!(p.len(), 1);
    assert!(matches!(p[0].message, FloorMessage::Pong));
    let p = floor_ping(&mut f, "B", 9_000);
    assert!(p.is_empty());
    assert_eq!(f.last_ping_at, 5_000);
}

#[test]
fn ping_timeout_revokes_on_tick() {
    let mut f = FloorControl::new();
    floor_request(&mut f, "A", 100, FloorIndicator::Normal, 0);
    let p = check_floor_timeout(&mut f, 5_999);
    assert!(p.is_empty());
    assert_eq!(f.state, FloorControlState::Taken);
    let p = check_floor_timeout(&mut f, 6_000);
    assert_eq!(p.len(), 2);
    assert!(revoke_to(&p[0], "A", RevokeCause::PingTimeout));
    assert!(is_idle(&p[1]));
    assert_eq!(f.state, FloorControlState::Idle);
}

#[test]
fn recent_ping_prevents_revoke() {
    let mut f = FloorControl::new();
    floor_request(&mut f, "A", 100, FloorIndicator::Normal, 0);
    floor_ping(&mut f, "A", 5_000);
    assert!(check_floor_timeout(&mut f, 10_999).is_empty());
    let p = check_floor_timeout(&mut f, 11_000);
    assert!(revoke_to(&p[0], "A", RevokeCause::PingTimeout));
}

#[test]
fn max_duration_revokes_and_grants_next() {
    let mut f = FloorControl::new();
    floor_request(&mut f, "A", 100, FloorIndicator::Normal, 0);
    floor_request(&mut f, "B", 100, FloorIndicator::Normal, 1);
    for t in [5_000u64, 10_000, 15_000, 20_000, 25_000] {
        floor_ping(&mut f, "A", t);
    }
    let p = check_floor_timeout(&mut f, 30_000);
    assert_eq!(p.len(), 3);
    assert!(revoke_to(&p[0], "A", RevokeCause::MaxDuration));
    assert!(granted_to(&p[1], "B"));
    assert!(taken_by(&p[2], "B"));
}

#[test]
fn disconnect_of_holder_hands_on() {
    let mut f = FloorControl::new();
    floor_request(&mut f, "A", 100, FloorIndicator::Normal, 0);
    floor_request(&mut f, "B", 100, FloorIndicator::Normal, 1);
    let p = on_user_disconnect(&mut f, "A", 2);
    assert!(granted_to(&p[0], "B"));
    assert_eq!(f.floor_taken_by.as_deref(), Some("B"));
    let p = on_user_disconnect(&mut f, "B", 3);
    assert!(is_idle(&p[0]));
    assert_eq!(f.state, FloorControlState::Idle);
}

#[test]
fn disconnect_of_waiting_user_leaves_queue() {
    let mut f = FloorControl::new();
    floor_request(&mut f, "A", 100, FloorIndicator::Normal, 0);
    floor_request(&mut f, "B", 100, FloorIndicator::Normal, 1);
    let p = on_user_disconnect(&mut f, "B", 2);
    assert!(p.is_empty());
    assert!(f.queue.is_empty());
    assert_eq!(f.floor_taken_by.as_deref(), Some("A"));
}

#[test]
fn admin_revoke_clears_everything() {
    let mut f = FloorControl::new();
    floor_request(&mut f, "A", 100, FloorIndicator::Normal, 0);
    floor_request(&mut f, "B", 100, FloorIndicator::Normal, 1);
    let p = admin_revoke(&mut f);
    assert_eq!(p.len(), 2);
    assert!(revoke_to(&p[0], "A", RevokeCause::AdminRevoke));
    assert!(is_idle(&p[1]));
    assert!(f.queue.is_empty());
    assert_eq!(f.state, FloorControlState::Idle);
}

#[test]
fn decide_next_on_empty_queue_goes_idle() {
    let mut f = FloorControl::new();
    floor_request(&mut f, "A", 100, FloorIndicator::Normal, 0);
    let p = decide_next(&mut f, 1);
    assert_eq!(p.len(), 1);
    assert!(is_idle(&p[0]));
    assert!(f.floor_taken_at.is_none());
}

#[test]
fn holder_request_again_keeps_floor() {
    let mut f = FloorControl::new();
    floor_request(&mut f, "A", 100, FloorIndicator::Normal, 0);
    let p = floor_request(&mut f, "A", 100, FloorIndicator::Normal, 1);
    assert_eq!(p.len(), 1);
    assert!(granted_to(&p[0], "A"));
    assert!(f.queue.is_empty());
}

#[test]
fn granted_waiter_leaves_queue() {
    let mut f = FloorControl::new();
    floor_request(&mut f, "A", 100, FloorIndicator::Normal, 0);
    floor_request(&mut f, "B", 10, FloorIndicator::Normal, 1);
    floor_request(&mut f, "C", 10, FloorIndicator::Normal, 2);
    assert_eq!(f.queue_position("B"), Some(1));
    let p = floor_request(&mut f, "B", 10, FloorIndicator::Emergency, 3);
    assert!(granted_to(&p[1], "B"));
    assert_eq!(f.floor_taken_by.as_deref(), Some("B"));
    assert_eq!(f.queue_position("B"), None);
    assert!(f.queue.iter().all(|e| Some(e.user_id.as_str()) != f.floor_taken_by.as_deref()));
    let p = floor_release(&mut f, "B", 4);
    assert!(granted_to(&p[0], "C"));
    assert!(f.queue.is_empty());
}
