use sassytalkie::packet::{Packet, PacketType, PACKET_VERSION};

#[test]
fn test_checksum_verification() {
    let mut packet = Packet::discovery(0x11111111, "Device".to_string(), 1);
    packet.device_id = 0x22222222;
    assert!(!packet.verify_checksum());
}

#[test]
fn built_packets_verify() {
    let p = Packet::discovery(0x12345678, "Test Device".to_string(), 42);
    assert_eq!(p.version, 2);
    assert_eq!(p.device_id, 0x12345678);
    assert!(p.verify_checksum());
    let k = Packet::discovery_with_key(1, "Test".to_string(), 1, Some([0x42u8; 32]));
    assert!(k.verify_checksum());
    let a = Packet::audio(0xABCDEF00, 1, vec![1, 2, 3, 4, 5]);
    assert!(a.verify_checksum());
    assert!(!a.is_encrypted());
    let e = Packet::encrypted_audio(0x12345678, 5, [0x11; 12], [0x22; 16], vec![0x33, 0x44, 0x55]);
    assert!(e.verify_checksum());
    assert!(e.is_encrypted());
    assert!(Packet::keep_alive(0xFFFFFFFF).verify_checksum());
    assert!(Packet::key_exchange(0x12345678, [0xAB; 32]).verify_checksum());
}

#[test]
fn checksum_is_crc32_of_the_fixed_layout() {
    let p = Packet::keep_alive_at(0x01020304, 0x0A0B0C0D0E0F1011);
    let mut input = vec![PACKET_VERSION];
    input.extend_from_slice(&0x01020304u32.to_le_bytes());
    input.extend_from_slice(&0x0A0B0C0D0E0F1011u64.to_le_bytes());
    input.push(4);
    assert_eq!(p.checksum, crc32fast::hash(&input));
    let d = Packet::discovery_at(7, "ab".to_string(), 3, 9);
    let mut input = vec![PACKET_VERSION];
    input.extend_from_slice(&7u32.to_le_bytes());
    input.extend_from_slice(&9u64.to_le_bytes());
    input.extend_from_slice(&[0, b'a', b'b', 3]);
    assert_eq!(d.checksum, crc32fast::hash(&input));
}

#[test]
fn size_estimates() {
    assert_eq!(Packet::discovery_at(1, "abc".to_string(), 1, 0).estimate_size(), 53);
    assert_eq!(Packet::discovery_with_key_at(1, "abc".to_string(), 1, None, 0).estimate_size(), 85);
    assert_eq!(Packet::audio_at(1, 1, vec![0; 10], 0).estimate_size(), 60);
    assert_eq!(Packet::encrypted_audio_at(1, 1, [0; 12], [0; 16], vec![0; 10], 0).estimate_size(), 88);
    assert_eq!(Packet::keep_alive_at(1, 0).estimate_size(), 50);
    assert_eq!(Packet::key_exchange_at(1, [0; 32], 0).estimate_size(), 82);
    let r = Packet { version: 2, device_id: 1, packet_type: PacketType::KeyExchangeResponse { public_key: [0; 32], success: true }, timestamp: 0, checksum: 0 };
    assert_eq!(r.estimate_size(), 83);
}

#[test]
fn decoded_packets_are_checked() {
    let good = Packet::audio_at(5, 2, vec![9, 9], 77);
    assert!(Packet::check_decoded(good).is_ok());
    let mut bad_version = Packet::audio_at(5, 2, vec![9, 9], 77);
    bad_version.version = 3;
    assert_eq!(Packet::check_decoded(bad_version).unwrap_err(), "Invalid protocol version: 3");
    let mut tampered = Packet::audio_at(5, 2, vec![9, 9], 77);
    tampered.timestamp = 78;
    assert_eq!(Packet::check_decoded(tampered).unwrap_err(), "Checksum verification failed");
}

#[test]
fn test_discovery_packet() {
    let packet = Packet::discovery(0x12345678, "Test Device".to_string(), 42);
    assert_eq!(packet.version, 2);
    assert_eq!(packet.device_id, 0x12345678);
    assert!(packet.verify_checksum());
    let checked = Packet::check_decoded(packet.clone()).unwrap();
    assert_eq!(checked.device_id, packet.device_id);
    assert!(checked.verify_checksum());
}

#[test]
fn test_discovery_with_key() {
    let key = [0x42u8; 32];
    let packet = Packet::discovery_with_key(0x12345678, "Test".to_string(), 1, Some(key));
    assert!(packet.verify_checksum());
    if let PacketType::DiscoveryWithKey { public_key, .. } = &packet.packet_type {
        assert_eq!(*public_key, Some(key));
    } else {
        panic!("Wrong packet type");
    }
    let checked = Packet::check_decoded(packet).unwrap();
    assert!(checked.verify_checksum());
}

#[test]
fn test_audio_packet() {
    let audio_data = vec![1, 2, 3, 4, 5];
    let packet = Packet::audio(0xABCDEF00, 1, audio_data.clone());
    assert!(packet.verify_checksum());
    if let PacketType::Audio { channel, data } = &packet.packet_type {
        assert_eq!(*channel, 1);
        assert_eq!(data, &audio_data);
    } else {
        panic!("Wrong packet type");
    }
}

#[test]
fn test_encrypted_audio_packet() {
    let nonce = [0x11u8; 12];
    let tag = [0x22u8; 16];
    let data = vec![0x33, 0x44, 0x55];
    let packet = Packet::encrypted_audio(0x12345678, 5, nonce, tag, data.clone());
    assert!(packet.verify_checksum());
    assert!(packet.is_encrypted());
    if let PacketType::EncryptedAudio { channel, nonce: n, auth_tag, data: d } = &packet.packet_type {
        assert_eq!(*channel, 5);
        assert_eq!(*n, nonce);
        assert_eq!(*auth_tag, tag);
        assert_eq!(*d, data);
    } else {
        panic!("Wrong packet type");
    }
}

#[test]
fn test_key_exchange_packet() {
    let key = [0xAB; 32];
    let packet = Packet::key_exchange(0x12345678, key);
    assert!(packet.verify_checksum());
    let checked = Packet::check_decoded(packet).unwrap();
    if let PacketType::KeyExchange { public_key } = checked.packet_type {
        assert_eq!(public_key, key);
    } else {
        panic!("Wrong packet type");
    }
}
