use sassytalkie::wire::{pack_wire_frame, unpack_wire_frame, SUBCH_A, SUBCH_MAIN};

#[test]
fn round_trip_preserves_all_fields() {
    let audio = vec![1u8, 2, 3, 4, 5, 6, 7, 8];
    let frame = pack_wire_frame(3, SUBCH_A, "ios-deadbeef", "iPhone 99", 1_700_000_000_123, &audio);
    let (ch, sub, id, name, ts, got) = unpack_wire_frame(&frame).unwrap();
    assert_eq!(ch, 3);
    assert_eq!(sub, SUBCH_A);
    assert_eq!(id, "ios-deadbeef");
    assert_eq!(name, "iPhone 99");
    assert_eq!(ts, 1_700_000_000_123);
    assert_eq!(got, audio);
}

#[test]
fn empty_id_and_name_still_round_trip() {
    let audio = vec![9u8; 40];
    let frame = pack_wire_frame(1, SUBCH_MAIN, "", "", 0, &audio);
    let (ch, sub, id, name, ts, got) = unpack_wire_frame(&frame).unwrap();
    assert_eq!((ch, sub), (1, 0));
    assert!(id.is_empty() && name.is_empty());
    assert_eq!(ts, 0);
    assert_eq!(got, audio);
}

#[test]
fn byte_layout_is_exact() {
    let frame = pack_wire_frame(2, 0, "ab", "c", 1, &[0xEE]);
    assert_eq!(
        frame,
        vec![2, 0, 2, b'a', b'b', 1, b'c', 1, 0, 0, 0, 0, 0, 0, 0, 0xEE]
    );
}

#[test]
fn rejects_oversized_sender_id_len() {
    let mut data = vec![0u8; 20];
    data[2] = 200;
    assert!(unpack_wire_frame(&data).is_err());
}

#[test]
fn rejects_oversized_device_name_len() {
    let mut data = vec![0u8; 20];
    data[2] = 0;
    data[3] = 200;
    assert!(unpack_wire_frame(&data).is_err());
}

#[test]
fn rejects_too_short() {
    assert!(unpack_wire_frame(&[0u8; 4]).is_err());
}

#[test]
fn long_id_and_name_are_clipped() {
    let id = "x".repeat(40);
    let name = "n".repeat(70);
    let frame = pack_wire_frame(0, 0, &id, &name, 5, &[1, 2]);
    assert_eq!(frame.len(), 3 + 32 + 1 + 64 + 8 + 2);
    let (_, _, got_id, got_name, ts, audio) = unpack_wire_frame(&frame).unwrap();
    assert_eq!(got_id, "x".repeat(32));
    assert_eq!(got_name, "n".repeat(64));
    assert_eq!(ts, 5);
    assert_eq!(audio, vec![1, 2]);
}

#[test]
fn invalid_utf8_id_is_replaced_lossily() {
    let data = vec![1u8, 0, 1, 0xFF, 0, 0, 0, 0, 0, 0, 0, 0, 0];
    let (_, _, id, name, _, audio) = unpack_wire_frame(&data).unwrap();
    assert_eq!(id, "\u{FFFD}");
    assert!(name.is_empty());
    assert!(audio.is_empty());
}

#[test]
fn unpack_error_messages() {
    assert_eq!(sassytalkie::wire::unpack_wire_frame(&[0u8; 5]).unwrap_err(), "Wire frame too short: 5 bytes");
    let mut bad_id = vec![0u8; 20];
    bad_id[2] = 200;
    assert_eq!(sassytalkie::wire::unpack_wire_frame(&bad_id).unwrap_err(), "Invalid sender_id length: 200");
    let mut bad_name = vec![0u8; 20];
    bad_name[2] = 1;
    bad_name[4] = 9;
    assert_eq!(sassytalkie::wire::unpack_wire_frame(&bad_name).unwrap_err(), "Invalid device_name length: 9");
}
