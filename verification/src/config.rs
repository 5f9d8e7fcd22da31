//! The shared document: for each adapter, the devices paired with it.

use crate::bluetooth::{BluetoothDevice, BluetoothDeviceView};
use crate::strmap::{lemma_prefix_step, StrMap};
use vstd::prelude::*;

verus! {

/// The devices of one adapter, by address.
pub type DevicesView = Map<Seq<char>, BluetoothDeviceView>;

/// The whole document: adapter address to the adapter's devices.
pub type ConfigView = Map<Seq<char>, DevicesView>;

/// A copy of a device map: the same devices under the same keys, in the
/// same order.
pub fn clone_devices(devices: &StrMap<BluetoothDevice>) -> (r: StrMap<BluetoothDevice>)
    ensures
        r@ == devices@,
        r.keys() == devices.keys(),
{
    let mut out: StrMap<BluetoothDevice> = StrMap::new();
    let n = devices.len();
    let mut i: usize = 0;
    while i < n
        invariant
            i <= n,
            n == devices.keys().len(),
            devices.keys().no_duplicates(),
            out.keys() == devices.keys().take(i as int),
            forall|k: Seq<char>| out@.contains_key(k) <==> devices.keys().take(i as int).contains(k),
            forall|k: Seq<char>| out@.contains_key(k) ==> out@[k] == devices@[k],
        decreases n - i,
    {
        let ghost keys = devices.keys();
        let k = devices.key_at(i).clone();
        let v = devices.value_at(i).clone();
        proof {
            lemma_prefix_step(keys, i as int);
        }
        out.insert(k, v);
        i += 1;
    }
    proof {
        let keys = devices.keys();
        assert(keys.take(n as int) == keys);
        assert(out@ =~= devices@);
    }
    out
}

/// The devices paired with one adapter.
#[derive(Debug)]
pub struct DeviceConfig {
    /// Device address to the device's keys.
    pub devices: StrMap<BluetoothDevice>,
}

impl View for DeviceConfig {
    type V = DevicesView;

    open spec fn view(&self) -> DevicesView {
        self.devices@
    }
}

impl Clone for DeviceConfig {
    fn clone(&self) -> (r: Self)
        ensures
            r@ == self@,
            r.devices.keys() == self.devices.keys(),
    {
        DeviceConfig { devices: clone_devices(&self.devices) }
    }
}

/// The shared document.
#[derive(Debug)]
pub struct BlueVeinConfig {
    /// Adapter address to the adapter's devices.
    pub adapters: StrMap<DeviceConfig>,
}

impl View for BlueVeinConfig {
    type V = ConfigView;

    open spec fn view(&self) -> ConfigView {
        self.adapters@
    }
}

/// The devices that `c` records for `adapter`: none for an adapter that it
/// does not know.
pub open spec fn devices_of(c: ConfigView, adapter: Seq<char>) -> DevicesView {
    if c.contains_key(adapter) {
        c[adapter]
    } else {
        Map::empty()
    }
}

/// The document `c` with `device` stored under `key` among the devices of
/// `adapter`. An adapter that `c` does not know is added.
pub open spec fn with_entry(
    c: ConfigView,
    adapter: Seq<char>,
    key: Seq<char>,
    device: BluetoothDeviceView,
) -> ConfigView {
    c.insert(adapter, devices_of(c, adapter).insert(key, device))
}

/// The document `c` with `device` stored under its own address among the
/// devices of `adapter`.
pub open spec fn with_device(
    c: ConfigView,
    adapter: Seq<char>,
    device: BluetoothDeviceView,
) -> ConfigView {
    with_entry(c, adapter, device.mac_address, device)
}

/// The device stored for `device` under `adapter`, if there is one.
pub open spec fn device_of(c: ConfigView, adapter: Seq<char>, device: Seq<char>) -> Option<
    BluetoothDeviceView,
> {
    if c.contains_key(adapter) && c[adapter].contains_key(device) {
        Some(c[adapter][device])
    } else {
        None
    }
}

impl Default for BlueVeinConfig {
    fn default() -> (r: Self)
        ensures
            r@ == Map::<Seq<char>, DevicesView>::empty(),
    {
        BlueVeinConfig { adapters: StrMap::new() }
    }
}

impl Clone for BlueVeinConfig {
    fn clone(&self) -> (r: Self)
        ensures
            r@ == self@,
            r.adapters.keys() == self.adapters.keys(),
    {
        let mut out: StrMap<DeviceConfig> = StrMap::new();
        let n = self.adapters.len();
        let mut i: usize = 0;
        while i < n
            invariant
                i <= n,
                n == self.adapters.keys().len(),
                self.adapters.keys().no_duplicates(),
                out.keys() == self.adapters.keys().take(i as int),
                forall|k: Seq<char>|
                    out@.contains_key(k) <==> self.adapters.keys().take(i as int).contains(k),
                forall|k: Seq<char>| out@.contains_key(k) ==> out@[k] == self.adapters@[k],
            decreases n - i,
        {
            let ghost keys = self.adapters.keys();
            let k = self.adapters.key_at(i).clone();
            let v = self.adapters.value_at(i).clone();
            proof {
                lemma_prefix_step(keys, i as int);
            }
            out.insert(k, v);
            i += 1;
        }
        proof {
            let keys = self.adapters.keys();
            assert(keys.take(n as int) == keys);
            assert(out@ =~= self.adapters@);
        }
        BlueVeinConfig { adapters: out }
    }
}

impl BlueVeinConfig {
    /// A document without adapters.
    pub fn new() -> (r: Self)
        ensures
            r@ == Map::<Seq<char>, DevicesView>::empty(),
    {
        BlueVeinConfig { adapters: StrMap::new() }
    }

    /// The devices recorded for an adapter.
    pub fn get_adapter_devices(&self, adapter_mac: &str) -> (r: Option<&StrMap<BluetoothDevice>>)
        ensures
            match r {
                Some(devices) => self@.contains_key(adapter_mac@) && devices@
                    == self@[adapter_mac@] && *devices == self.adapters.value_of(
                    adapter_mac@,
                ).devices,
                None => !self@.contains_key(adapter_mac@),
            },
    {
        match self.adapters.get(adapter_mac) {
            Some(config) => Some(&config.devices),
            None => None,
        }
    }

    /// Replaces everything recorded for an adapter.
    pub fn set_adapter_devices(&mut self, adapter_mac: String, devices: StrMap<BluetoothDevice>)
        ensures
            final(self)@ == old(self)@.insert(adapter_mac@, devices@),
    {
        self.adapters.insert(adapter_mac, DeviceConfig { devices });
    }

    /// Records `device` under `device_key` among the devices of an adapter,
    /// replacing what was recorded under that key before.
    pub fn put_device(&mut self, adapter_mac: String, device_key: String, device: BluetoothDevice)
        ensures
            final(self)@ == with_entry(old(self)@, adapter_mac@, device_key@, device@),
    {
        let held = self.adapters.insert(
            adapter_mac.clone(),
            DeviceConfig { devices: StrMap::new() },
        );
        let mut config = match held {
            Some(c) => c,
            None => DeviceConfig { devices: StrMap::new() },
        };
        config.devices.insert(device_key, device);
        self.adapters.insert(adapter_mac, config);
        assert(final(self)@ =~= with_entry(old(self)@, adapter_mac@, device_key@, device@));
    }

    /// Records `device` under its own address, replacing what was recorded
    /// for that address before. Other devices stay as they are.
    pub fn update_device(&mut self, adapter_mac: String, device: BluetoothDevice)
        ensures
            final(self)@ == with_device(old(self)@, adapter_mac@, device@),
    {
        let device_mac = device.mac_address.clone();
        self.put_device(adapter_mac, device_mac, device);
    }

    /// The device recorded under `device_mac` for an adapter.
    pub fn get_device(&self, adapter_mac: &str, device_mac: &str) -> (r: Option<&BluetoothDevice>)
        ensures
            match r {
                Some(d) => device_of(self@, adapter_mac@, device_mac@) == Some(d@),
                None => device_of(self@, adapter_mac@, device_mac@) is None,
            },
    {
        match self.get_adapter_devices(adapter_mac) {
            Some(devices) => devices.get(device_mac),
            None => None,
        }
    }
}

/// Recording the same device twice leaves the document as recording it once
/// does.
pub proof fn lemma_with_device_idempotent(
    c: ConfigView,
    adapter: Seq<char>,
    device: BluetoothDeviceView,
)
    ensures
        with_device(with_device(c, adapter, device), adapter, device) == with_device(
            c,
            adapter,
            device,
        ),
{
    let once = with_device(c, adapter, device);
    assert(once[adapter].insert(device.mac_address, device) =~= once[adapter]);
    assert(with_device(once, adapter, device) =~= once);
}

/// Recording a device changes nothing but the entry under its own address.
pub proof fn lemma_with_device_frame(
    c: ConfigView,
    adapter: Seq<char>,
    device: BluetoothDeviceView,
    a: Seq<char>,
    k: Seq<char>,
)
    ensures
        device_of(with_device(c, adapter, device), adapter, device.mac_address) == Some(device),
        (a != adapter || k != device.mac_address) ==> device_of(
            with_device(c, adapter, device),
            a,
            k,
        ) == device_of(c, a, k),
{
}

} // verus!
