use sassytalkie::sealed::{blinded_room_id, current_epoch, room_ids_for_handoff, sealed_peer_handle,
    seconds_until_next_epoch, PEER_HANDLE_B64_LEN, ROOM_ID_B64_LEN, ROOM_ID_MAX_LEN, ROOM_ID_MIN_LEN};

fn key_a() -> [u8; 32] {
    let mut k = [0u8; 32];
    for (i, b) in k.iter_mut().enumerate() {
        *b = i as u8;
    }
    k
}

fn key_b() -> [u8; 32] {
    let mut k = [0u8; 32];
    for (i, b) in k.iter_mut().enumerate() {
        *b = (255 - i) as u8;
    }
    k
}

#[test]
fn current_epoch_floors_correctly() {
    assert_eq!(current_epoch(0, 900), 0);
    assert_eq!(current_epoch(899_999, 900), 0, "just before the boundary");
    assert_eq!(current_epoch(900_000, 900), 1, "exactly on the boundary");
    assert_eq!(current_epoch(900_001, 900), 1, "just after the boundary");
    assert_eq!(current_epoch(1_799_999, 900), 1);
    assert_eq!(current_epoch(1_800_000, 900), 2);
}

#[test]
fn current_epoch_handles_zero_epoch_secs() {
    let _ = current_epoch(12_345, 0);
    assert_eq!(current_epoch(12_345, 0), 12);
}

#[test]
fn seconds_until_next_epoch_boundary_math() {
    assert_eq!(seconds_until_next_epoch(0, 900), 900);
    assert_eq!(seconds_until_next_epoch(1_000, 900), 899);
    assert_eq!(seconds_until_next_epoch(899_000, 900), 1);
    assert_eq!(seconds_until_next_epoch(900_000, 900), 900);
    assert_eq!(seconds_until_next_epoch(900_500, 900), 900);
}

#[test]
fn handoff_next_becomes_current_after_boundary() {
    let k = key_a();
    let epoch_secs = 900;
    let before = 899_000;
    let after = 901_000;
    let (_, next_before) = room_ids_for_handoff(&k, before, epoch_secs);
    let (current_after, _) = room_ids_for_handoff(&k, after, epoch_secs);
    assert_eq!(next_before, current_after, "pre-joined next room must equal current room after rollover");
}

#[test]
fn room_id_is_deterministic_for_key_and_epoch() {
    let k = key_a();
    assert_eq!(blinded_room_id(&k, 42), blinded_room_id(&k, 42));
}

#[test]
fn room_id_rotates_and_depends_on_key() {
    let k = key_a();
    assert_ne!(blinded_room_id(&k, 100), blinded_room_id(&k, 101));
    assert_ne!(blinded_room_id(&key_a(), 5), blinded_room_id(&key_b(), 5));
}

#[test]
fn peer_handles_differ_by_peer_epoch_and_key() {
    let k = key_a();
    assert_eq!(sealed_peer_handle(&k, "peer-install-1", 7), sealed_peer_handle(&k, "peer-install-1", 7));
    assert_ne!(sealed_peer_handle(&k, "stable-peer", 100), sealed_peer_handle(&k, "stable-peer", 101));
    assert_ne!(sealed_peer_handle(&k, "peer-1", 5), sealed_peer_handle(&k, "peer-2", 5));
    assert_ne!(sealed_peer_handle(&key_a(), "peer-1", 5), sealed_peer_handle(&key_b(), "peer-1", 5));
}

#[test]
fn room_id_length_is_within_relay_bounds_and_url_safe() {
    let k = key_a();
    for epoch in [0u64, 1, 42, u64::MAX] {
        let id = blinded_room_id(&k, epoch);
        assert!(id.len() >= ROOM_ID_MIN_LEN && id.len() <= ROOM_ID_MAX_LEN);
        assert_eq!(id.len(), ROOM_ID_B64_LEN);
        assert!(id.chars().all(|c| c.is_ascii_alphanumeric() || c == '-' || c == '_'));
    }
}

#[test]
fn peer_handle_length_is_bounded() {
    let k = key_a();
    let long_id = "x".repeat(4096);
    for id in ["", "peer", long_id.as_str()] {
        let h = sealed_peer_handle(&k, id, 9);
        assert_eq!(h.len(), PEER_HANDLE_B64_LEN);
    }
}

#[test]
fn handoff_pairs_current_and_next_epoch() {
    let k = key_a();
    let now_ms = 450_000;
    let (current, next) = room_ids_for_handoff(&k, now_ms, 900);
    let epoch = current_epoch(now_ms, 900);
    assert_eq!(current, blinded_room_id(&k, epoch));
    assert_eq!(next, blinded_room_id(&k, epoch + 1));
    assert_ne!(current, next);
}

#[test]
fn peer_handle_is_deterministic_for_key_peer_and_epoch() {
    let k = key_a();
    let a = sealed_peer_handle(&k, "peer-install-1", 7);
    let b = sealed_peer_handle(&k, "peer-install-1", 7);
    assert_eq!(a, b, "same (key, peer, epoch) must yield identical handle");
}

#[test]
fn room_id_rotates_across_epochs() {
    let k = key_a();
    assert_ne!(blinded_room_id(&k, 100), blinded_room_id(&k, 101), "different epochs must produce different room ids");
}

#[test]
fn peer_handle_rotates_across_epochs() {
    let k = key_a();
    let id = "stable-peer";
    assert_ne!(
        sealed_peer_handle(&k, id, 100),
        sealed_peer_handle(&k, id, 101),
        "different epochs must produce different peer handles"
    );
}

#[test]
fn different_peers_get_different_handles_same_epoch() {
    let k = key_a();
    assert_ne!(
        sealed_peer_handle(&k, "peer-1", 5),
        sealed_peer_handle(&k, "peer-2", 5),
        "different stable peer ids must produce different handles"
    );
}

#[test]
fn same_peer_different_keys_get_different_handles() {
    let id = "peer-1";
    assert_ne!(
        sealed_peer_handle(&key_a(), id, 5),
        sealed_peer_handle(&key_b(), id, 5),
        "same peer under different session keys must differ"
    );
}

#[test]
fn different_keys_get_different_room_ids() {
    assert_ne!(
        blinded_room_id(&key_a(), 5),
        blinded_room_id(&key_b(), 5),
        "different session keys must land in different relay rooms"
    );
}

#[test]
fn room_id_length_is_within_relay_bounds() {
    let k = key_a();
    for epoch in [0u64, 1, 42, u64::MAX] {
        let id = blinded_room_id(&k, epoch);
        assert!(id.len() >= ROOM_ID_MIN_LEN && id.len() <= ROOM_ID_MAX_LEN, "room id len {} out of relay window", id.len());
        assert_eq!(id.len(), ROOM_ID_B64_LEN);
    }
}

#[test]
fn room_id_is_url_safe() {
    let id = blinded_room_id(&key_a(), 1234);
    assert!(
        id.chars().all(|c| c.is_ascii_alphanumeric() || c == '-' || c == '_'),
        "room id '{}' must be url-safe",
        id
    );
}

#[test]
fn empty_peer_id_is_handled() {
    let k = key_a();
    let h = sealed_peer_handle(&k, "", 1);
    assert_eq!(h.len(), PEER_HANDLE_B64_LEN);
}
