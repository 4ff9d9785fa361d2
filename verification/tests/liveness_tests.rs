use sassytalkie::liveness::{LivenessTracker, PeerHealth};

#[test]
fn fresh_peer_is_healthy() {
    let mut t = LivenessTracker::new();
    t.on_heartbeat("alice", 1, 0, 1000, 1000, 1);
    assert_eq!(t.health("alice", 1_500), PeerHealth::Healthy);
}

#[test]
fn degrades_then_stales() {
    let mut t = LivenessTracker::new();
    t.on_heartbeat("alice", 1, 0, 0, 0, 0);
    assert_eq!(t.health("alice", 2_999), PeerHealth::Healthy);
    assert_eq!(t.health("alice", 3_001), PeerHealth::Degraded);
    assert_eq!(t.health("alice", 8_001), PeerHealth::Stale);
}

#[test]
fn rtt_from_echo() {
    let mut t = LivenessTracker::new();
    t.on_heartbeat_sent("alice", 1, 7, 1000);
    t.on_heartbeat("alice", 1, 7, 1000, 1040, 1);
    assert_eq!(t.rtt_ms("alice"), Some(40));
}

#[test]
fn unknown_peer_is_stale() {
    let t = LivenessTracker::new();
    assert_eq!(t.health("nobody", 0), PeerHealth::Stale);
}

#[test]
fn epoch_change_detected() {
    let mut t = LivenessTracker::new();
    t.on_heartbeat("alice", 1, 0, 0, 0, 0);
    assert!(t.epoch_changed("alice", 2));
    assert!(!t.epoch_changed("alice", 2));
}

#[test]
fn presence_tracked() {
    let mut t = LivenessTracker::new();
    t.on_heartbeat("alice", 1, 0, 0, 0, 3);
    assert_eq!(t.last_presence("alice"), 3);
}

#[test]
fn ids_last_heard_and_removal() {
    let mut t = LivenessTracker::new();
    t.on_heartbeat("alice", 1, 0, 0, 500, 0);
    t.on_heartbeat("bob", 1, 0, 0, 700, 0);
    let mut ids = t.peer_ids();
    ids.sort();
    assert_eq!(ids, vec!["alice".to_string(), "bob".to_string()]);
    assert_eq!(t.last_heard_ms("bob"), 700);
    t.remove_peer("alice");
    assert_eq!(t.last_heard_ms("alice"), 0);
    assert_eq!(t.health("alice", 500), PeerHealth::Stale);
    assert_eq!(t.rtt_ms("bob"), None);
    assert!(!t.epoch_changed("carol", 9));
}
