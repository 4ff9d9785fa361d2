use sassytalkie::control::{encode_heartbeat, encode_legacy, PresenceState};
use sassytalkie::heartbeat::{device_key, heartbeat_tick, on_control_datagram};
use sassytalkie::liveness::{LivenessTracker, PeerHealth};

#[test]
fn device_key_is_eight_upper_hex_digits() {
    assert_eq!(device_key(0xDEADBEEF), "DEADBEEF");
    assert_eq!(device_key(0x1A), "0000001A");
    assert_eq!(device_key(0), "00000000");
}

#[test]
fn heard_heartbeat_refreshes_liveness() {
    let mut t = LivenessTracker::new();
    let frame = encode_heartbeat(9, 3, 500, PresenceState::Speaking, 0);
    assert!(on_control_datagram(&mut t, &frame, "10.0.0.2:5000", 1_000));
    assert_eq!(t.health("10.0.0.2:5000", 1_500), PeerHealth::Healthy);
    assert_eq!(t.last_heard_ms("10.0.0.2:5000"), 1_000);
    assert_eq!(t.last_presence("10.0.0.2:5000"), PresenceState::Speaking.as_byte());
}

#[test]
fn non_heartbeat_control_frame_is_consumed_without_effect() {
    let mut t = LivenessTracker::new();
    let frame = encode_legacy(0x11);
    assert!(on_control_datagram(&mut t, &frame, "peer", 1_000));
    assert!(t.peer_ids().is_empty());
}

#[test]
fn short_heartbeat_is_consumed_without_effect() {
    let mut t = LivenessTracker::new();
    let frame = vec![0x10u8, 2, 0, 1, 2];
    assert!(on_control_datagram(&mut t, &frame, "peer", 1_000));
    assert!(t.peer_ids().is_empty());
}

#[test]
fn packet_datagram_is_left_for_the_packet_path() {
    let mut t = LivenessTracker::new();
    assert!(!on_control_datagram(&mut t, &[0x01, 0x10, 0x00], "peer", 1_000));
    assert!(!on_control_datagram(&mut t, &[], "peer", 1_000));
    assert!(t.peer_ids().is_empty());
}

#[test]
fn tick_records_send_and_echo_gives_rtt() {
    let mut t = LivenessTracker::new();
    let key = device_key(0x0000ABCD);
    let frame = heartbeat_tick(&mut t, &key, 77, 5, 2_000);
    assert_eq!(frame, encode_heartbeat(77, 5, 2_000, PresenceState::Idle, 0));
    assert_eq!(frame.len(), 26);
    assert!(on_control_datagram(&mut t, &frame, &key, 2_030));
    assert_eq!(t.rtt_ms(&key), Some(30));
}
