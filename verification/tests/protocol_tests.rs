use sassytalkie::protocol::{encode_tlv, is_tlv_opcode, parse_tlv, OP_HEARTBEAT, OP_PARTNER_OFFLINE, OP_PTT_START,
    OP_PTT_START_V2, OP_PTT_STOP, OP_PTT_STOP_V2, OP_REPLAY_FRAME, OP_WAKE};

#[test]
fn legacy_opcodes_are_below_tlv_range() {
    assert!(!is_tlv_opcode(OP_PTT_START));
    assert!(!is_tlv_opcode(OP_PTT_STOP));
    assert!(is_tlv_opcode(OP_HEARTBEAT));
    assert!(is_tlv_opcode(OP_PTT_START_V2));
    assert!(is_tlv_opcode(OP_PTT_STOP_V2));
    assert!(is_tlv_opcode(OP_WAKE));
    assert!(is_tlv_opcode(OP_PARTNER_OFFLINE));
    assert!(is_tlv_opcode(OP_REPLAY_FRAME));
}

#[test]
fn tlv_round_trip() {
    let payload = [1u8, 2, 3, 4, 5];
    let frame = encode_tlv(OP_HEARTBEAT, &payload);
    let parsed = parse_tlv(&frame).unwrap();
    assert_eq!(parsed.opcode, OP_HEARTBEAT);
    assert_eq!(parsed.payload, &payload);
}

#[test]
fn parse_tlv_rejects_truncated_payload() {
    let bytes = [OP_HEARTBEAT, 10, 0, 0xAA, 0xBB, 0xCC];
    assert!(parse_tlv(&bytes).is_none());
}

#[test]
fn parse_tlv_rejects_legacy_opcode() {
    let bytes = [OP_PTT_START, 0, 0];
    assert!(parse_tlv(&bytes).is_none());
}

#[test]
fn encode_tlv_layout_and_length_field() {
    let payload = vec![7u8; 300];
    let frame = encode_tlv(0x15, &payload);
    assert_eq!(frame.len(), 303);
    assert_eq!(&frame[..3], &[0x15u8, 44, 1]);
    let parsed = parse_tlv(&frame).unwrap();
    assert_eq!(parsed.payload.len(), 300);
}

#[test]
fn parse_tlv_ignores_trailing_bytes_and_short_headers() {
    let bytes = [0x17u8, 1, 0, 9, 8, 7];
    let parsed = parse_tlv(&bytes).unwrap();
    assert_eq!(parsed.opcode, 0x17);
    assert_eq!(parsed.payload, &[9]);
    assert!(parse_tlv(&[0x10, 0]).is_none());
}
