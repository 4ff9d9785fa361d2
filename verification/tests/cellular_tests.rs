use sassytalkie::cellular::{https_base, is_control_frame, urlencode, CellularState};
use sassytalkie::control;

#[test]
fn control_frames_are_detected() {
    let hb = control::encode_heartbeat(0xDEADBEEF, 1, 123, control::PresenceState::Idle, 0);
    assert!(is_control_frame(&hb), "heartbeat must classify as control");
    let ptt = control::encode_ptt_start_v2(0xABCD, 7);
    assert!(is_control_frame(&ptt));
}

#[test]
fn short_frames_are_not_control() {
    assert!(!is_control_frame(&[]));
    assert!(!is_control_frame(&[0x10]));
    assert!(!is_control_frame(&[0x10, 0x00]));
}

#[test]
fn https_base_is_derived_from_ws_base() {
    assert_eq!(https_base(), "https://relay.sassyconsultingllc.com");
}

#[test]
fn urlencode_passes_unreserved_and_escapes_space() {
    assert_eq!(urlencode("Brick 2.0"), "Brick%202.0");
    assert_eq!(urlencode("abc-_.~"), "abc-_.~");
}

#[test]
fn urlencode_escapes_multibyte_utf8_per_byte() {
    assert_eq!(urlencode("é/"), "%C3%A9%2F");
}

#[test]
fn control_classifier_rejects_wrong_length_and_range() {
    assert!(!is_control_frame(&[0x10, 2, 0, 1]));
    assert!(!is_control_frame(&[0x20, 0, 0]));
    assert!(is_control_frame(&[0x1F, 0, 0]));
}

#[test]
fn cellular_state_names_and_bytes() {
    assert_eq!(CellularState::from_u8(2), CellularState::Connected);
    assert_eq!(CellularState::from_u8(9), CellularState::Disconnected);
    assert_eq!(CellularState::Error.as_str(), "error");
    assert_eq!(CellularState::Connecting.as_u8(), 1);
}
