//! The Rust side of iOS Bluetooth: the devices that discovery reported and
//! which one is connected. The radio work happens in the host app.
use vstd::prelude::*;
use crate::strmap::StrMap;

verus! {

/// Bluetooth errors.
#[derive(Debug)]
pub enum BluetoothError {
    NotAvailable,
    NotAuthorized,
    DeviceNotFound(String),
    ConnectionFailed(String),
    NotConnected,
}

/// A discovered device.
#[derive(Debug, Clone)]
pub struct BluetoothDevice {
    pub id: String,
    pub name: String,
    pub rssi: i32,
}

/// A device as plain values.
pub struct DeviceView {
    pub id: Seq<char>,
    pub name: Seq<char>,
    pub rssi: i32,
}

impl BluetoothDevice {
    /// The device as plain values.
    pub open spec fn view(&self) -> DeviceView {
        DeviceView { id: self.id@, name: self.name@, rssi: self.rssi }
    }

    /// An independent copy.
    pub fn duplicate(&self) -> (d: BluetoothDevice)
        ensures
            d.view() == self.view(),
    {
        BluetoothDevice { id: self.id.clone(), name: self.name.clone(), rssi: self.rssi }
    }
}

/// Discovered devices, keyed by id, and the connected device's id.
pub struct BluetoothManager {
    devices: StrMap<BluetoothDevice>,
    connected_device: Option<String>,
}

impl BluetoothManager {
    /// The discovered devices by id.
    pub closed spec fn devices_spec(&self) -> Map<Seq<char>, DeviceView> {
        self.devices.view().map_values(|d: BluetoothDevice| d.view())
    }

    /// The id of the connected device.
    pub closed spec fn connected_spec(&self) -> Option<Seq<char>> {
        match self.connected_device {
            Some(id) => Some(id@),
            None => None,
        }
    }

    /// Each device is stored under its own id.
    pub closed spec fn wf(&self) -> bool {
        &&& self.devices.wf()
        &&& forall|k: Seq<char>| #[trigger] self.devices.view().dom().contains(k) ==> self.devices.view()[k].id@ == k
    }

    /// No devices, none connected.
    pub fn new() -> (m: Self)
        ensures
            m.wf(),
            m.devices_spec() == Map::<Seq<char>, DeviceView>::empty(),
            m.connected_spec() is None,
    {
        let m = BluetoothManager { devices: StrMap::new(), connected_device: None };
        assert(m.devices_spec() =~= Map::<Seq<char>, DeviceView>::empty());
        m
    }

    /// Record a discovered device under its id, replacing an earlier report.
    pub fn add_device(&mut self, device: BluetoothDevice)
        requires
            old(self).wf(),
        ensures
            final(self).wf(),
            final(self).devices_spec() == old(self).devices_spec().insert(device.id@, device.view()),
            final(self).connected_spec() == old(self).connected_spec(),
    {
        let id = device.id.clone();
        let ghost d = device;
        self.devices.insert(id, device);
        proof {
            assert(self.devices_spec() =~= old(self).devices_spec().insert(d.id@, d.view()));
        }
    }

    /// Forget a device.
    pub fn remove_device(&mut self, id: &str)
        requires
            old(self).wf(),
        ensures
            final(self).wf(),
            final(self).devices_spec() == old(self).devices_spec().remove(id@),
            final(self).connected_spec() == old(self).connected_spec(),
    {
        let _ = self.devices.remove(id);
        proof {
            assert(self.devices_spec() =~= old(self).devices_spec().remove(id@));
        }
    }

    /// Copies of the discovered devices, each once.
    pub fn devices(&self) -> (v: Vec<BluetoothDevice>)
        requires
            self.wf(),
        ensures
            v@.len() == self.devices_spec().len(),
            forall|i: int| 0 <= i < v@.len() ==> self.devices_spec().dom().contains(#[trigger] v@[i].id@)
                && self.devices_spec()[v@[i].id@] == v@[i].view(),
            forall|i: int, j: int| 0 <= i < v@.len() && 0 <= j < v@.len() && i != j ==> #[trigger] v@[i].id@ != #[trigger] v@[j].id@,
    {
        proof { self.devices.lemma_keys(); }
        let n = self.devices.len();
        let ghost ks = self.devices.key_seq();
        let mut v: Vec<BluetoothDevice> = Vec::new();
        let mut i: usize = 0;
        while i < n
            invariant
                self.wf(),
                ks == self.devices.key_seq(),
                ks.no_duplicates(),
                n == ks.len(),
                i <= n,
                v@.len() == i,
                forall|j: int| 0 <= j < i ==> (#[trigger] v@[j]).id@ == ks[j]
                    && self.devices_spec().dom().contains(ks[j])
                    && self.devices_spec()[ks[j]] == v@[j].view(),
            decreases n - i,
        {
            let (_, d) = self.devices.entry_at(i);
            let c = d.duplicate();
            v.push(c);
            i = i + 1;
        }
        proof {
            assert(self.devices_spec().dom() =~= self.devices.view().dom());
            assert forall|a: int, b: int| 0 <= a < v@.len() && 0 <= b < v@.len() && a != b implies
                #[trigger] v@[a].id@ != #[trigger] v@[b].id@ by {
                assert(v@[a].id@ == ks[a]);
                assert(v@[b].id@ == ks[b]);
            }
        }
        v
    }

    /// Mark `id` as the connected device.
    pub fn set_connected(&mut self, id: String)
        requires
            old(self).wf(),
        ensures
            final(self).wf(),
            final(self).devices_spec() == old(self).devices_spec(),
            final(self).connected_spec() == Some(id@),
    {
        self.connected_device = Some(id);
    }

    /// No device is connected any more.
    pub fn clear_connected(&mut self)
        requires
            old(self).wf(),
        ensures
            final(self).wf(),
            final(self).devices_spec() == old(self).devices_spec(),
            final(self).connected_spec() is None,
    {
        self.connected_device = None;
    }

    /// Whether some device is marked connected.
    pub fn is_connected(&self) -> (b: bool)
        ensures
            b == self.connected_spec() is Some,
    {
        self.connected_device.is_some()
    }

    /// The connected device, when it is also a discovered one.
    pub fn connected_device(&self) -> (r: Option<&BluetoothDevice>)
        requires
            self.wf(),
        ensures
            match r {
                Some(d) => (self.connected_spec() matches Some(id) && self.devices_spec().dom().contains(id)
                    && self.devices_spec()[id] == d.view()),
                None => (self.connected_spec() matches Some(id) ==> !self.devices_spec().dom().contains(id)),
            },
    {
        match &self.connected_device {
            Some(id) => self.devices.get(id.as_str()),
            None => None,
        }
    }
}

impl Default for BluetoothManager {
    fn default() -> (m: Self)
        ensures
            m.wf(),
            m.devices_spec() == Map::<Seq<char>, DeviceView>::empty(),
            m.connected_spec() is None,
    {
        Self::new()
    }
}

} // verus!
