//! Desktop Bluetooth link state. No radio binding exists on the desktop:
//! connecting and listening only move the state, the paired list is the
//! fixed entry the platform layer reports, and no stream is ever attached,
//! so audio cannot flow.
use vstd::prelude::*;

verus! {

/// RFCOMM service UUID.
pub const SERVICE_UUID: &'static str = "8ce255c0-223a-11e0-ac64-0803450c9a66";

/// Link state.
#[derive(Debug, Clone, Copy, PartialEq, Eq, Structural)]
pub enum ConnectionState {
    Disconnected,
    Connecting,
    Connected,
    Listening,
}

/// A Bluetooth device.
#[derive(Debug, Clone)]
pub struct BluetoothDevice {
    pub address: String,
    pub name: String,
    pub paired: bool,
}

/// A device as plain values.
pub struct BtDeviceView {
    pub address: Seq<char>,
    pub name: Seq<char>,
    pub paired: bool,
}

impl BluetoothDevice {
    /// The device as plain values.
    pub open spec fn view(&self) -> BtDeviceView {
        BtDeviceView { address: self.address@, name: self.name@, paired: self.paired }
    }

    /// An independent copy.
    pub fn duplicate(&self) -> (d: BluetoothDevice)
        ensures
            d.view() == self.view(),
    {
        BluetoothDevice { address: self.address.clone(), name: self.name.clone(), paired: self.paired }
    }
}

/// The one paired device the platform layer reports.
pub open spec fn known_device() -> BtDeviceView {
    BtDeviceView { address: "00:11:22:33:44:55"@, name: "Device 1"@, paired: true }
}

/// The link: its state and the device it is connected to.
pub struct BluetoothManager {
    state: ConnectionState,
    device: Option<BluetoothDevice>,
    paired_devices: Vec<BluetoothDevice>,
}

impl BluetoothManager {
    /// The link state.
    pub closed spec fn state_spec(&self) -> ConnectionState {
        self.state
    }

    /// The connected device.
    pub closed spec fn device_spec(&self) -> Option<BtDeviceView> {
        match self.device {
            Some(d) => Some(d.view()),
            None => None,
        }
    }

    /// A disconnected link.
    pub fn new() -> (r: Result<Self, String>)
        ensures
            r matches Ok(m) && m.state_spec() == ConnectionState::Disconnected && m.device_spec() is None,
    {
        Ok(BluetoothManager { state: ConnectionState::Disconnected, device: None, paired_devices: Vec::new() })
    }

    /// Bluetooth counts as enabled.
    pub fn is_enabled(&self) -> (b: bool)
        ensures
            b,
    {
        true
    }

    /// Enabling always succeeds.
    pub fn enable(&self) -> (r: Result<(), String>)
        ensures
            r is Ok,
    {
        Ok(())
    }

    /// The paired devices: the one entry the platform layer reports.
    pub fn get_paired_devices(&mut self) -> (r: Result<Vec<BluetoothDevice>, String>)
        ensures
            r matches Ok(v) && v@.len() == 1 && v@[0].view() == known_device(),
            final(self).state_spec() == old(self).state_spec(),
            final(self).device_spec() == old(self).device_spec(),
    {
        let d = BluetoothDevice { address: "00:11:22:33:44:55".to_owned(), name: "Device 1".to_owned(), paired: true };
        let copy = d.duplicate();
        self.paired_devices = vec![d];
        Ok(vec![copy])
    }

    /// Connect to `device`: the link becomes connected to it.
    pub fn connect(&mut self, device: &BluetoothDevice) -> (r: Result<(), String>)
        ensures
            r is Ok,
            final(self).state_spec() == ConnectionState::Connected,
            final(self).device_spec() == Some(device.view()),
    {
        self.state = ConnectionState::Connected;
        self.device = Some(device.duplicate());
        Ok(())
    }

    /// Listen for incoming links.
    pub fn listen(&mut self) -> (r: Result<(), String>)
        ensures
            r is Ok,
            final(self).state_spec() == ConnectionState::Listening,
            final(self).device_spec() == old(self).device_spec(),
    {
        self.state = ConnectionState::Listening;
        Ok(())
    }

    /// Drop the link.
    pub fn disconnect(&mut self) -> (r: Result<(), String>)
        ensures
            r is Ok,
            final(self).state_spec() == ConnectionState::Disconnected,
            final(self).device_spec() is None,
    {
        self.state = ConnectionState::Disconnected;
        self.device = None;
        Ok(())
    }

    /// Whether the link is connected.
    pub fn is_connected(&self) -> (b: bool)
        ensures
            b == (self.state_spec() == ConnectionState::Connected),
    {
        self.state == ConnectionState::Connected
    }

    /// Send audio: without an attached stream this fails with
    /// `Not connected`, connected or not.
    pub fn send_audio(&self, _data: &[u8]) -> (r: Result<usize, String>)
        ensures
            r matches Err(e) && e@ == "Not connected"@,
    {
        Err("Not connected".to_owned())
    }

    /// Receive audio: without an attached stream this fails with
    /// `Not connected`, connected or not.
    pub fn receive_audio(&self, _buffer: &mut [u8]) -> (r: Result<usize, String>)
        ensures
            r matches Err(e) && e@ == "Not connected"@,
    {
        Err("Not connected".to_owned())
    }

    /// The link state.
    pub fn get_state(&self) -> (s: ConnectionState)
        ensures
            s == self.state_spec(),
    {
        self.state
    }

    /// The connected device.
    pub fn get_connected_device(&self) -> (d: Option<BluetoothDevice>)
        ensures
            match d {
                Some(x) => self.device_spec() == Some(x.view()),
                None => self.device_spec() is None,
            },
    {
        match &self.device {
            Some(x) => Some(x.duplicate()),
            None => None,
        }
    }
}

} // verus!
