use sassytalkie::control::{decode, encode_eot_ack, encode_heartbeat, encode_legacy, encode_partner_offline,
    encode_ptt_start_v2, encode_ptt_stop_v2, encode_recv_ack, encode_tlv, new_session_epoch, parse_heartbeat,
    parse_recv_ack, PresenceState, OP_EOT_ACK, OP_HEARTBEAT, OP_PARTNER_OFFLINE, OP_PTT_START, OP_RECV_ACK};

#[test]
fn legacy_byte_round_trips() {
    let bytes = encode_legacy(OP_PTT_START);
    assert_eq!(bytes, vec![0x01u8]);
    let decoded = decode(&bytes);
    assert_eq!(decoded.opcode, OP_PTT_START);
    assert!(decoded.payload.is_empty());
}

#[test]
fn heartbeat_round_trips() {
    let hb = encode_heartbeat(0xCAFEBABEDEADBEEF, 42, 1_700_000_000_000, PresenceState::Listening, 18);
    assert_eq!(hb[0], 0x10);
    let decoded = decode(&hb);
    assert_eq!(decoded.opcode, OP_HEARTBEAT);
    let p = parse_heartbeat(&decoded.payload).unwrap();
    assert_eq!(p.seq, 42);
    assert_eq!(p.state, PresenceState::Listening);
    assert_eq!(p.rtt_ms, 18);
    assert_eq!(p.epoch, 0xCAFEBABEDEADBEEF);
}

#[test]
fn recv_ack_round_trips() {
    let bytes = encode_recv_ack(999, 77, 5000);
    let decoded = decode(&bytes);
    assert_eq!(decoded.opcode, OP_RECV_ACK);
    let p = parse_recv_ack(&decoded.payload).unwrap();
    assert_eq!(p.epoch, 999);
    assert_eq!(p.last_seq, 77);
    assert_eq!(p.ts_ms, 5000);
}

#[test]
fn partner_offline_round_trips() {
    let bytes = encode_partner_offline("alice-uuid");
    let decoded = decode(&bytes);
    assert_eq!(decoded.opcode, OP_PARTNER_OFFLINE);
    let len = decoded.payload[0] as usize;
    let id = std::str::from_utf8(&decoded.payload[1..1 + len]).unwrap();
    assert_eq!(id, "alice-uuid");
}

#[test]
fn empty_bytes_decode_safely() {
    let d = decode(&[]);
    assert_eq!(d.opcode, 0);
    assert!(d.payload.is_empty());
}

#[test]
fn epoch_is_nonzero_and_unique() {
    let a = new_session_epoch();
    let b = new_session_epoch();
    assert_ne!(a, b);
    assert_ne!(a, 0);
}

#[test]
fn presence_bytes_round_trip_and_unknown_is_idle() {
    for s in [PresenceState::Idle, PresenceState::Listening, PresenceState::Speaking, PresenceState::Muted,
        PresenceState::Away, PresenceState::Backgrounded, PresenceState::Dnd] {
        assert_eq!(PresenceState::from_byte(s.as_byte()), s);
    }
    assert_eq!(PresenceState::Dnd.as_byte(), 6);
    assert_eq!(PresenceState::from_byte(200), PresenceState::Idle);
}

#[test]
fn decode_clips_overlong_length_and_short_parsers_reject() {
    let d = decode(&[0x11, 50, 0, 1, 2]);
    assert_eq!(d.opcode, 0x11);
    assert_eq!(d.payload, vec![1, 2]);
    assert!(parse_heartbeat(&[0u8; 22]).is_none());
    assert!(parse_recv_ack(&[0u8; 19]).is_none());
    let legacy_with_junk = decode(&[0x05, 9, 9, 9]);
    assert_eq!(legacy_with_junk.opcode, 0x05);
    assert!(legacy_with_junk.payload.is_empty());
}

#[test]
fn epoch_seq_frames_have_exact_layout() {
    let eot = encode_eot_ack(1, 2);
    assert_eq!(eot, vec![OP_EOT_ACK, 12, 0, 1, 0, 0, 0, 0, 0, 0, 0, 2, 0, 0, 0]);
    assert_eq!(encode_ptt_start_v2(0xABCD, 7)[0], 0x15);
    assert_eq!(encode_ptt_stop_v2(0xABCD, 7)[0], 0x16);
    assert_eq!(encode_tlv(0x13, &[]), vec![0x13, 0, 0]);
    assert_eq!(encode_heartbeat(1, 2, 3, PresenceState::Idle, 4).len(), 26);
}
