use sassytalkie::crypto::CryptoEngine;
use sassytalkie::packet::{Packet, PacketType};
use sassytalkie::peers::{hex_decode_32, hex_encode, DiscoveryService, PeerInfo};
use sassytalkie::transport::{TransportConfig, TransportCore};

fn peer(id: u32, last_seen: u64) -> PeerInfo {
    PeerInfo {
        device_id: id,
        device_name: format!("dev{}", id),
        address: "10.0.0.2:5555".to_string(),
        last_seen,
        channel: 1,
        public_key: None,
        key_exchanged: false,
    }
}

#[test]
fn hex_round_trip_and_rejects() {
    let key = [0xABu8; 32];
    let h = hex_encode(&key);
    assert_eq!(&h[..4], "abab");
    assert_eq!(hex_decode_32(&h), Some(key));
    assert_eq!(hex_decode_32(&h.to_uppercase()), Some(key));
    assert_eq!(hex_decode_32("abc"), None);
    assert_eq!(hex_decode_32("zz"), None);
    assert_eq!(hex_decode_32("abab"), None);
}

#[test]
fn discovery_service_tracks_active_peers() {
    let mut d = DiscoveryService::new(1);
    d.update_peer(peer(2, 100));
    d.update_peer(peer(3, 80));
    assert_eq!(d.get_peers_at(109).len(), 2);
    let active = d.get_peers_at(120);
    assert_eq!(active.len(), 1);
    assert_eq!(active[0].device_id, 2);
    assert_eq!(d.get_peer(3).unwrap().last_seen, 80);
    assert!(d.get_peer(9).is_none());
    d.prune_at(120);
    assert!(d.get_peer(3).is_none());
    assert!(d.get_peer(2).is_some());
    // A peer stamped in the future counts as silent.
    assert!(!peer(4, 200).is_active_at(100));
}

#[test]
fn discovery_beacons_and_key_setup() {
    let mut a = TransportCore::new(1, "A".to_string(), TransportConfig::default_config());
    let mut b = TransportCore::new(2, "B".to_string(), TransportConfig::default_config());
    let beacon_a = a.beacon_packet_at(10);
    assert!(beacon_a.verify_checksum());
    assert!(matches!(beacon_a.packet_type, PacketType::DiscoveryWithKey { .. }));
    assert!(a.keepalive_packet_at(10).is_none());
    assert!(b.on_packet_at(beacon_a, "a".to_string(), 5).is_none());
    assert!(b.is_encrypted());
    assert_eq!(b.peer_count_at(6), 1);
    assert!(b.keepalive_packet_at(10).is_some());
    // Our own packets are ignored.
    let own = b.beacon_packet_at(1);
    assert!(b.on_packet_at(own, "b".to_string(), 5).is_none());
    assert_eq!(b.peer_count_at(6), 1);
    let _ = &mut a;
}

#[test]
fn plain_audio_passes_through_without_encryption() {
    let mut cfg = TransportConfig::default_config();
    cfg.encryption_enabled = false;
    let a = TransportCore::new(1, "A".to_string(), cfg.duplicate());
    let mut b = TransportCore::new(2, "B".to_string(), cfg);
    let pkt = a.outgoing_audio_at(&[1, 2, 3], [0; 12], 5);
    match &pkt.packet_type {
        PacketType::Audio { data, .. } => assert_eq!(data, &vec![1, 2, 3]),
        _ => panic!("expected audio"),
    }
    assert_eq!(b.on_packet_at(pkt, "a".to_string(), 1), Some(vec![1, 2, 3]));
}

#[test]
fn encrypted_audio_without_key_is_dropped() {
    let mut b = TransportCore::new(2, "B".to_string(), TransportConfig::default_config());
    let pkt = Packet::audio_at(7, 1, vec![0; 40], 0);
    assert!(b.on_packet_at(pkt, "x".to_string(), 1).is_none());
    let ka = Packet::keep_alive_at(7, 0);
    assert!(b.on_packet_at(ka, "x".to_string(), 1).is_none());
    assert_eq!(b.peer_count_at(1), 0);
}

#[test]
fn channel_is_clamped() {
    let mut t = TransportCore::new(1, "A".to_string(), TransportConfig::default_config());
    t.set_channel(0);
    assert_eq!(t.get_channel(), 1);
    t.set_channel(40);
    assert_eq!(t.get_channel(), 16);
    t.set_channel(7);
    assert_eq!(t.get_channel(), 7);
    assert_eq!(t.get_public_key().unwrap().len(), 64);
    let _ = CryptoEngine::generate_nonce();
}

#[test]
fn manager_test_transport_creation() {
    let transport = TransportCore::new(0x12345678, "Test Device".to_string(), TransportConfig::default_config());
    assert_eq!(transport.get_channel(), 1);
    assert!(!transport.is_encrypted());
}

#[test]
fn manager_test_channel_change() {
    let mut transport = TransportCore::new(0x12345678, "Test Device".to_string(), TransportConfig::default_config());
    assert_eq!(transport.get_channel(), 1);
    transport.set_channel(42);
    assert_eq!(transport.get_channel(), 16);
    transport.set_channel(8);
    assert_eq!(transport.get_channel(), 8);
}

#[test]
fn manager_test_encryption_disabled() {
    let mut config = TransportConfig::default_config();
    config.encryption_enabled = false;
    let transport = TransportCore::new(0x12345678, "Test".to_string(), config);
    assert!(!transport.is_encrypted());
}
