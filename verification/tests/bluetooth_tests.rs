use sassytalkie::bluetooth::{BluetoothManager, ConnectionState, SERVICE_UUID};

#[test]
fn test_bluetooth_manager_init() {
    let manager = BluetoothManager::new();
    assert!(manager.is_ok());
}

#[test]
fn test_connection_state() {
    let manager = BluetoothManager::new().unwrap();
    assert_eq!(manager.get_state(), ConnectionState::Disconnected);
}

#[test]
fn connect_listen_disconnect() {
    let mut m = BluetoothManager::new().unwrap();
    assert!(m.is_enabled());
    assert!(m.enable().is_ok());
    let devices = m.get_paired_devices().unwrap();
    assert_eq!(devices.len(), 1);
    assert_eq!(devices[0].address, "00:11:22:33:44:55");
    m.connect(&devices[0]).unwrap();
    assert!(m.is_connected());
    assert_eq!(m.get_connected_device().unwrap().name, "Device 1");
    assert_eq!(m.send_audio(&[1, 2]).unwrap_err(), "Not connected");
    let mut buf = [0u8; 4];
    assert_eq!(m.receive_audio(&mut buf).unwrap_err(), "Not connected");
    m.listen().unwrap();
    assert_eq!(m.get_state(), ConnectionState::Listening);
    m.disconnect().unwrap();
    assert_eq!(m.get_state(), ConnectionState::Disconnected);
    assert!(m.get_connected_device().is_none());
    assert_eq!(SERVICE_UUID.len(), 36);
}
