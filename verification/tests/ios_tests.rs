use sassytalkie::ios_peers::{PeerInfo, PeerTable, PEER_TIMEOUT_MS};
use sassytalkie::ios_state::{AppState as IosAppState, StateError, StateMachine};
use sassytalkie::ios_audio::{AudioEngine, AudioError, AudioFrame, AudioState, BUFFER_SIZE, FRAME_SIZE, SAMPLE_RATE};
use sassytalkie::ios_bluetooth::{BluetoothDevice, BluetoothManager};
use sassytalkie::ios_control::{encode_heartbeat, PRESENCE_IDLE, PRESENCE_SPEAKING};
use sassytalkie::protocol::OP_HEARTBEAT;

#[test]
fn heartbeat_is_tlv_with_23_byte_payload() {
    let hb = encode_heartbeat(0xDEAD_BEEF_CAFE_F00D, 7, 1_700_000_000_000, PRESENCE_IDLE, 0);
    assert_eq!(hb[0], OP_HEARTBEAT);
    let len = u16::from_le_bytes([hb[1], hb[2]]) as usize;
    assert_eq!(len, 23);
    assert_eq!(hb.len(), 3 + 23);
}

#[test]
fn heartbeat_payload_layout() {
    let hb = encode_heartbeat(1, 2, 3, PRESENCE_SPEAKING, 0x0405);
    let mut expected = vec![OP_HEARTBEAT, 23, 0];
    expected.extend_from_slice(&1u64.to_le_bytes());
    expected.extend_from_slice(&2u32.to_le_bytes());
    expected.extend_from_slice(&3u64.to_le_bytes());
    expected.push(2);
    expected.extend_from_slice(&[0x05, 0x04]);
    assert_eq!(hb, expected);
}

#[test]
fn audio_frame_bytes_round_trip() {
    let f = AudioFrame::new(vec![0, 1, -1, i16::MAX, i16::MIN, 0x1234]);
    assert_eq!(f.sample_rate, SAMPLE_RATE);
    let b = f.to_bytes();
    assert_eq!(b, vec![0, 0, 1, 0, 0xff, 0xff, 0xff, 0x7f, 0x00, 0x80, 0x34, 0x12]);
    let back = AudioFrame::from_bytes(&b).unwrap();
    assert_eq!(back.samples, f.samples);
    assert_eq!(AudioFrame::from_bytes(&[1, 2, 3]).unwrap_err(), AudioError::InvalidFrameSize(3));
    assert_eq!(FRAME_SIZE, 960);
}

#[test]
fn audio_state_transitions() {
    let s = AudioState::Idle.start_recording();
    assert_eq!(s, AudioState::Recording);
    let s = s.start_playing();
    assert_eq!(s, AudioState::RecordingAndPlaying);
    assert_eq!(s.start_recording(), AudioState::RecordingAndPlaying);
    assert_eq!(s.stop_recording(), AudioState::Playing);
    assert_eq!(s.stop_playing(), AudioState::Recording);
    assert_eq!(AudioState::Idle.stop_playing(), AudioState::Idle);
    assert_eq!(AudioState::Playing.stop_playing(), AudioState::Idle);
}

#[test]
fn bluetooth_devices_and_connection() {
    let dev = |id: &str, rssi: i32| BluetoothDevice { id: id.to_string(), name: format!("n-{}", id), rssi };
    let mut m = BluetoothManager::default();
    assert!(!m.is_connected());
    m.add_device(dev("a", -40));
    m.add_device(dev("b", -50));
    m.add_device(dev("a", -30));
    let mut ds = m.devices();
    ds.sort_by(|x, y| x.id.cmp(&y.id));
    assert_eq!(ds.len(), 2);
    assert_eq!(ds[0].rssi, -30);
    m.set_connected("b".to_string());
    assert!(m.is_connected());
    assert_eq!(m.connected_device().unwrap().name, "n-b");
    m.remove_device("b");
    assert!(m.is_connected());
    assert!(m.connected_device().is_none());
    m.clear_connected();
    assert!(!m.is_connected());
    assert_eq!(m.devices().len(), 1);
}

#[test]
fn audio_engine_rings() {
    let mut e = AudioEngine::default();
    assert_eq!(e.state(), AudioState::Idle);
    e.start_recording().unwrap();
    e.start_playing().unwrap();
    assert_eq!(e.state(), AudioState::RecordingAndPlaying);
    assert_eq!(e.read_input_frame().unwrap_err(), AudioError::BufferUnderflow);
    let samples: Vec<i16> = (0..(FRAME_SIZE as i16 + 10)).collect();
    e.write_input(&samples).unwrap();
    assert_eq!(e.input_available(), FRAME_SIZE + 10);
    let f = e.read_input_frame().unwrap();
    assert_eq!(f.samples, samples[..FRAME_SIZE].to_vec());
    assert_eq!(e.input_available(), 10);
    assert_eq!(e.output_available(), BUFFER_SIZE);
    e.write_output_frame(&AudioFrame::new(vec![7, 8, 9])).unwrap();
    let mut buf = [0i16; 5];
    assert_eq!(e.read_output(&mut buf).unwrap(), 3);
    assert_eq!(buf, [7, 8, 9, 0, 0]);
    let big = vec![1i16; BUFFER_SIZE + 1];
    assert_eq!(e.write_output_frame(&AudioFrame::new(big)).unwrap_err(), AudioError::BufferOverflow);
    assert_eq!(e.output_available(), 0);
    e.stop_recording().unwrap();
    assert_eq!(e.state(), AudioState::Playing);
}

#[test]
fn ios_state_machine_ptt_cycle() {
    let mut m = StateMachine::with_device_id(123_456);
    assert!(StateMachine::new().get_channel() == 1);
    assert_eq!(m.current_state(), IosAppState::Idle);
    assert_eq!(m.get_channel(), 1);
    m.connect_to_device(7).unwrap();
    assert_eq!(m.current_state(), IosAppState::Connected);
    m.on_ptt_press().unwrap();
    assert_eq!(m.current_state(), IosAppState::Transmitting);
    assert!(matches!(m.on_ptt_press(), Err(StateError::AlreadyTransmitting)));
    m.process_audio_input(&vec![5i16; FRAME_SIZE]).unwrap();
    let f = m.next_tx_frame().unwrap();
    assert_eq!(f.samples.len(), FRAME_SIZE);
    assert!(m.next_tx_frame().is_none());
    m.on_ptt_release().unwrap();
    assert_eq!(m.current_state(), IosAppState::Connected);
    m.on_ptt_release().unwrap();
    m.set_channel(3);
    assert!(!m.on_audio_received(2, vec![1, 2]));
    assert!(m.on_audio_received(3, vec![1, 2]));
    assert_eq!(m.current_state(), IosAppState::Receiving);
    let mut out = [0i16; 4];
    assert_eq!(m.get_audio_output(&mut out).unwrap(), 2);
    assert_eq!(out, [1, 2, 0, 0]);
    m.disconnect().unwrap();
    assert_eq!(m.current_state(), IosAppState::Idle);
    m.shutdown().unwrap();
}

#[test]
fn ios_peer_table_drops_stale_and_future_peers() {
    let peer = |id: u32, seen: u64| PeerInfo {
        device_id: id,
        device_name: format!("p{}", id),
        address: "10.0.0.9:5555".to_string(),
        channel: 1,
        last_seen: seen,
    };
    let mut t = PeerTable::default();
    t.update_peer(peer(1, 100_000));
    t.update_peer(peer(2, 75_000));
    t.update_peer(peer(3, 200_000));
    t.update_peer(peer(4, 71_000));
    t.remove_peer(4);
    let mut ps = t.get_peers(100_000);
    ps.sort_by_key(|p| p.device_id);
    let ids: Vec<u32> = ps.iter().map(|p| p.device_id).collect();
    assert_eq!(ids, vec![1, 2]);
    assert_eq!(t.get_peers(105_000).len(), 1);
    assert_eq!(PEER_TIMEOUT_MS, 30_000);
}
