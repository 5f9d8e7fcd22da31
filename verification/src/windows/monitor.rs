//! The decisions of the registry monitor: what changed between two
//! snapshots of the Classic tree.
//!
//! Waiting for the registry to change and reading it is the caller's part.
//! It hands two snapshots here and passes the changes that come back on to
//! the synchronization engine.

use crate::bluetooth::{chars_all_hex, normalize_mac, normalized_mac};
use crate::strmap::StrMap;
use crate::text::{all_hex, to_chars};
use crate::windows::bluetooth::ClassicEntry;
use vstd::prelude::*;

verus! {

/// The values of an adapter's subkey: device name to link key bytes.
pub type DeviceValuesView = Map<Seq<char>, Seq<u8>>;

/// A snapshot of the Classic tree: adapter name to the adapter's values.
pub type StateView = Map<Seq<char>, DeviceValuesView>;

/// The values of one adapter's subkey that stand for devices.
#[derive(Debug)]
pub struct AdapterInfo {
    pub devices: StrMap<Vec<u8>>,
}

impl View for AdapterInfo {
    type V = DeviceValuesView;

    open spec fn view(&self) -> DeviceValuesView {
        self.devices@
    }
}

/// A snapshot of the Classic tree.
#[derive(Debug)]
pub struct BluetoothState {
    pub adapters: StrMap<AdapterInfo>,
}

impl View for BluetoothState {
    type V = StateView;

    open spec fn view(&self) -> StateView {
        self.adapters@
    }
}

/// A value name that stands for a device: twelve hexadecimal digits. Other
/// values of an adapter's subkey, such as the holder of the adapter's own
/// identity key, are no devices.
pub open spec fn is_device_name(name: Seq<char>) -> bool {
    name.len() == 12 && all_hex(name)
}

/// Whether a value name stands for a device.
pub fn looks_like_device(name: &str) -> (b: bool)
    ensures
        b == is_device_name(name@),
{
    let chars = to_chars(name);
    chars.len() == 12 && chars_all_hex(&chars)
}

/// The device values among `values`, in order: a later value replaces an
/// earlier one of the same name.
pub open spec fn device_values(values: Seq<ClassicEntry>) -> DeviceValuesView
    decreases values.len(),
{
    if values.len() == 0 {
        Map::empty()
    } else if is_device_name(values.last().name@) {
        device_values(values.drop_last()).insert(values.last().name@, values.last().value@)
    } else {
        device_values(values.drop_last())
    }
}

fn clone_bytes(bytes: &Vec<u8>) -> (r: Vec<u8>)
    ensures
        r@ == bytes@,
{
    let mut r: Vec<u8> = Vec::new();
    let mut i: usize = 0;
    while i < bytes.len()
        invariant
            i <= bytes.len(),
            r@ == bytes@.take(i as int),
        decreases bytes.len() - i,
    {
        r.push(bytes[i]);
        assert(bytes@.take(i + 1) == bytes@.take(i as int).push(bytes@[i as int]));
        i += 1;
    }
    assert(bytes@.take(bytes@.len() as int) == bytes@);
    r
}

fn bytes_equal(a: &Vec<u8>, b: &Vec<u8>) -> (r: bool)
    ensures
        r == (a@ == b@),
{
    if a.len() != b.len() {
        return false;
    }
    let mut i: usize = 0;
    while i < a.len()
        invariant
            i <= a.len(),
            a.len() == b.len(),
            forall|j: int| 0 <= j < i ==> a@[j] == b@[j],
        decreases a.len() - i,
    {
        if a[i] != b[i] {
            return false;
        }
        i += 1;
    }
    assert(a@ =~= b@);
    true
}

impl AdapterInfo {
    /// The device values of an adapter's subkey.
    pub fn from_values(values: &Vec<ClassicEntry>) -> (info: AdapterInfo)
        ensures
            info@ == device_values(values@),
    {
        let mut devices: StrMap<Vec<u8>> = StrMap::new();
        let mut i: usize = 0;
        while i < values.len()
            invariant
                i <= values.len(),
                devices@ == device_values(values@.take(i as int)),
            decreases values.len() - i,
        {
            assert(values@.take(i + 1).drop_last() == values@.take(i as int));
            let entry = &values[i];
            if looks_like_device(entry.name.as_str()) {
                devices.insert(entry.name.clone(), clone_bytes(&entry.value));
            }
            i += 1;
        }
        assert(values@.take(values@.len() as int) == values@);
        AdapterInfo { devices }
    }
}

impl BluetoothState {
    /// A snapshot without adapters.
    pub fn new() -> (state: Self)
        ensures
            state@ == Map::<Seq<char>, DeviceValuesView>::empty(),
    {
        BluetoothState { adapters: StrMap::new() }
    }

    /// Records the values of an adapter's subkey.
    pub fn insert_adapter(&mut self, name: String, info: AdapterInfo)
        ensures
            final(self)@ == old(self)@.insert(name@, info@),
    {
        self.adapters.insert(name, info);
    }
}

/// A difference between two snapshots. Adapters are named as the registry
/// names them; devices go by canonical addresses.
#[derive(Debug, PartialEq, Eq)]
pub enum RegistryChange {
    /// An adapter that the earlier snapshot did not hold.
    AdapterAdded { adapter: String },
    /// An adapter that the later snapshot does not hold.
    AdapterRemoved { adapter: String },
    /// A device that the earlier snapshot did not hold for its adapter.
    DevicePaired { adapter_mac: String, device_mac: String },
    /// A device whose link key is another in the later snapshot.
    DeviceKeyChanged { adapter_mac: String, device_mac: String },
    /// A device of an adapter that both snapshots hold, gone from the
    /// later one.
    DeviceRemoved { adapter_mac: String, device_mac: String },
}

pub enum RegistryChangeView {
    AdapterAdded { adapter: Seq<char> },
    AdapterRemoved { adapter: Seq<char> },
    DevicePaired { adapter_mac: Seq<char>, device_mac: Seq<char> },
    DeviceKeyChanged { adapter_mac: Seq<char>, device_mac: Seq<char> },
    DeviceRemoved { adapter_mac: Seq<char>, device_mac: Seq<char> },
}

impl View for RegistryChange {
    type V = RegistryChangeView;

    open spec fn view(&self) -> RegistryChangeView {
        match self {
            RegistryChange::AdapterAdded { adapter } => RegistryChangeView::AdapterAdded {
                adapter: adapter@,
            },
            RegistryChange::AdapterRemoved { adapter } => RegistryChangeView::AdapterRemoved {
                adapter: adapter@,
            },
            RegistryChange::DevicePaired {
                adapter_mac,
                device_mac,
            } => RegistryChangeView::DevicePaired {
                adapter_mac: adapter_mac@,
                device_mac: device_mac@,
            },
            RegistryChange::DeviceKeyChanged {
                adapter_mac,
                device_mac,
            } => RegistryChangeView::DeviceKeyChanged {
                adapter_mac: adapter_mac@,
                device_mac: device_mac@,
            },
            RegistryChange::DeviceRemoved {
                adapter_mac,
                device_mac,
            } => RegistryChangeView::DeviceRemoved {
                adapter_mac: adapter_mac@,
                device_mac: device_mac@,
            },
        }
    }
}

/// The views of a list of changes, in order.
pub open spec fn change_views(changes: Seq<RegistryChange>) -> Seq<RegistryChangeView> {
    Seq::new(changes.len(), |i: int| changes[i]@)
}

/// The values of an adapter in a snapshot, none for an adapter that the
/// snapshot does not hold.
pub open spec fn values_of(state: StateView, adapter: Seq<char>) -> DeviceValuesView {
    if state.contains_key(adapter) {
        state[adapter]
    } else {
        Map::empty()
    }
}

/// What the first `n` of an adapter's devices in the later snapshot add:
/// a device that the earlier snapshot lacks is paired, one with another
/// link key has changed.
pub open spec fn device_changes(
    adapter: Seq<char>,
    names: Seq<Seq<char>>,
    later: DeviceValuesView,
    earlier: DeviceValuesView,
    n: nat,
) -> Seq<RegistryChangeView>
    decreases n,
{
    if n == 0 {
        Seq::empty()
    } else {
        let before = device_changes(adapter, names, later, earlier, (n - 1) as nat);
        let name = names[n - 1];
        if !earlier.contains_key(name) {
            before.push(
                RegistryChangeView::DevicePaired {
                    adapter_mac: normalized_mac(adapter),
                    device_mac: normalized_mac(name),
                },
            )
        } else if earlier[name] != later[name] {
            before.push(
                RegistryChangeView::DeviceKeyChanged {
                    adapter_mac: normalized_mac(adapter),
                    device_mac: normalized_mac(name),
                },
            )
        } else {
            before
        }
    }
}

/// What the first `n` of an adapter's devices in the earlier snapshot add:
/// a device that the later snapshot lacks was removed.
pub open spec fn device_removals(
    adapter: Seq<char>,
    names: Seq<Seq<char>>,
    later: DeviceValuesView,
    n: nat,
) -> Seq<RegistryChangeView>
    decreases n,
{
    if n == 0 {
        Seq::empty()
    } else {
        let before = device_removals(adapter, names, later, (n - 1) as nat);
        let name = names[n - 1];
        if !later.contains_key(name) {
            before.push(
                RegistryChangeView::DeviceRemoved {
                    adapter_mac: normalized_mac(adapter),
                    device_mac: normalized_mac(name),
                },
            )
        } else {
            before
        }
    }
}

/// What one adapter of the later snapshot adds: a new adapter is reported,
/// and each of its devices is paired; for an adapter that was there
/// before, the devices that are new or changed.
pub open spec fn later_adapter_changes(
    adapter: Seq<char>,
    info: AdapterInfo,
    earlier: StateView,
) -> Seq<RegistryChangeView> {
    let head = if earlier.contains_key(adapter) {
        Seq::<RegistryChangeView>::empty()
    } else {
        seq![RegistryChangeView::AdapterAdded { adapter }]
    };
    head + device_changes(
        adapter,
        info.devices.keys(),
        info@,
        values_of(earlier, adapter),
        info.devices.keys().len(),
    )
}

/// What one adapter of the earlier snapshot adds: an adapter that is gone
/// is reported; for an adapter that is still there, the devices that are
/// gone.
pub open spec fn earlier_adapter_changes(
    adapter: Seq<char>,
    info: AdapterInfo,
    later: StateView,
) -> Seq<RegistryChangeView> {
    if later.contains_key(adapter) {
        device_removals(adapter, info.devices.keys(), later[adapter], info.devices.keys().len())
    } else {
        seq![RegistryChangeView::AdapterRemoved { adapter }]
    }
}

/// What the first `n` adapters of the later snapshot add.
pub open spec fn later_changes(
    names: Seq<Seq<char>>,
    infos: Seq<AdapterInfo>,
    earlier: StateView,
    n: nat,
) -> Seq<RegistryChangeView>
    decreases n,
{
    if n == 0 {
        Seq::empty()
    } else {
        later_changes(names, infos, earlier, (n - 1) as nat) + later_adapter_changes(
            names[n - 1],
            infos[n - 1],
            earlier,
        )
    }
}

/// What the first `n` adapters of the earlier snapshot add.
pub open spec fn earlier_changes(
    names: Seq<Seq<char>>,
    infos: Seq<AdapterInfo>,
    later: StateView,
    n: nat,
) -> Seq<RegistryChangeView>
    decreases n,
{
    if n == 0 {
        Seq::empty()
    } else {
        earlier_changes(names, infos, later, (n - 1) as nat) + earlier_adapter_changes(
            names[n - 1],
            infos[n - 1],
            later,
        )
    }
}

/// The changes from one snapshot to the next: first what the adapters of
/// the later snapshot bring, in its order, then what is gone from the
/// earlier one, in its order.
pub open spec fn state_changes(earlier: BluetoothState, later: BluetoothState) -> Seq<
    RegistryChangeView,
> {
    later_changes(
        later.adapters.keys(),
        later.adapters.values(),
        earlier@,
        later.adapters.keys().len(),
    ) + earlier_changes(
        earlier.adapters.keys(),
        earlier.adapters.values(),
        later@,
        earlier.adapters.keys().len(),
    )
}

/// Finds what changed from the snapshot `old_state` to the snapshot
/// `new_state`. Every paired or changed device is one that the engine has
/// to take over into the shared document; removals are for the record.
pub fn detect_and_handle_changes(
    old_state: &BluetoothState,
    new_state: &BluetoothState,
) -> (changes: Vec<RegistryChange>)
    ensures
        change_views(changes@) == state_changes(*old_state, *new_state),
{
    let mut changes: Vec<RegistryChange> = Vec::new();
    assert(change_views(changes@) =~= Seq::<RegistryChangeView>::empty());
    let n = new_state.adapters.len();
    let mut i: usize = 0;
    while i < n
        invariant
            i <= n,
            n == new_state.adapters.keys().len(),
            n == new_state.adapters.values().len(),
            change_views(changes@) == later_changes(
                new_state.adapters.keys(),
                new_state.adapters.values(),
                old_state@,
                i as nat,
            ),
        decreases n - i,
    {
        let adapter = new_state.adapters.key_at(i);
        let info = new_state.adapters.value_at(i);
        let ghost done = change_views(changes@);
        let earlier = old_state.adapters.get(adapter.as_str());
        if earlier.is_none() {
            changes.push(RegistryChange::AdapterAdded { adapter: adapter.clone() });
        }
        let ghost head = change_views(changes@);
        let m = info.devices.len();
        let mut j: usize = 0;
        assert(head =~= head + Seq::<RegistryChangeView>::empty());
        while j < m
            invariant
                j <= m,
                m == info.devices.keys().len(),
                match earlier {
                    Some(e) => old_state@.contains_key(adapter@) && e@ == old_state@[adapter@],
                    None => !old_state@.contains_key(adapter@),
                },
                change_views(changes@) == head + device_changes(
                    adapter@,
                    info.devices.keys(),
                    info@,
                    values_of(old_state@, adapter@),
                    j as nat,
                ),
            decreases m - j,
        {
            let name = info.devices.key_at(j);
            let value = info.devices.value_at(j);
            let ghost held = change_views(changes@);
            let known = match earlier {
                Some(e) => e.devices.get(name.as_str()),
                None => None,
            };
            match known {
                None => {
                    changes.push(
                        RegistryChange::DevicePaired {
                            adapter_mac: normalize_mac(adapter.as_str()),
                            device_mac: normalize_mac(name.as_str()),
                        },
                    );
                    assert(change_views(changes@) =~= held.push(
                        RegistryChangeView::DevicePaired {
                            adapter_mac: normalized_mac(adapter@),
                            device_mac: normalized_mac(name@),
                        },
                    ));
                },
                Some(bytes) => {
                    if !bytes_equal(bytes, value) {
                        changes.push(
                            RegistryChange::DeviceKeyChanged {
                                adapter_mac: normalize_mac(adapter.as_str()),
                                device_mac: normalize_mac(name.as_str()),
                            },
                        );
                        assert(change_views(changes@) =~= held.push(
                            RegistryChangeView::DeviceKeyChanged {
                                adapter_mac: normalized_mac(adapter@),
                                device_mac: normalized_mac(name@),
                            },
                        ));
                    }
                },
            }
            proof {
                let before = device_changes(
                    adapter@,
                    info.devices.keys(),
                    info@,
                    values_of(old_state@, adapter@),
                    j as nat,
                );
                let after = device_changes(
                    adapter@,
                    info.devices.keys(),
                    info@,
                    values_of(old_state@, adapter@),
                    (j + 1) as nat,
                );
                assert(change_views(changes@) =~= head + after);
            }
            j += 1;
        }
        proof {
            let tail = later_adapter_changes(adapter@, *info, old_state@);
            assert(change_views(changes@) =~= done + tail);
        }
        i += 1;
    }
    let ghost first = change_views(changes@);
    let k = old_state.adapters.len();
    let mut i: usize = 0;
    assert(first =~= first + Seq::<RegistryChangeView>::empty());
    while i < k
        invariant
            i <= k,
            k == old_state.adapters.keys().len(),
            k == old_state.adapters.values().len(),
            change_views(changes@) == first + earlier_changes(
                old_state.adapters.keys(),
                old_state.adapters.values(),
                new_state@,
                i as nat,
            ),
        decreases k - i,
    {
        let adapter = old_state.adapters.key_at(i);
        let info = old_state.adapters.value_at(i);
        let ghost done = change_views(changes@);
        let ghost so_far = earlier_changes(
            old_state.adapters.keys(),
            old_state.adapters.values(),
            new_state@,
            i as nat,
        );
        match new_state.adapters.get(adapter.as_str()) {
            None => {
                changes.push(RegistryChange::AdapterRemoved { adapter: adapter.clone() });
                assert(change_views(changes@) =~= done.push(
                    RegistryChangeView::AdapterRemoved { adapter: adapter@ },
                ));
                assert(earlier_adapter_changes(adapter@, *info, new_state@) =~= seq![
                    RegistryChangeView::AdapterRemoved { adapter: adapter@ },
                ]);
                assert(done == first + so_far);
                assert(change_views(changes@) =~= first + (so_far + earlier_adapter_changes(
                    adapter@,
                    *info,
                    new_state@,
                )));
            },
            Some(later) => {
                let m = info.devices.len();
                let mut j: usize = 0;
                assert(done =~= done + Seq::<RegistryChangeView>::empty());
                while j < m
                    invariant
                        j <= m,
                        m == info.devices.keys().len(),
                        new_state@.contains_key(adapter@),
                        later@ == new_state@[adapter@],
                        change_views(changes@) == done + device_removals(
                            adapter@,
                            info.devices.keys(),
                            later@,
                            j as nat,
                        ),
                    decreases m - j,
                {
                    let name = info.devices.key_at(j);
                    let ghost held = change_views(changes@);
                    if !later.devices.contains_key(name.as_str()) {
                        changes.push(
                            RegistryChange::DeviceRemoved {
                                adapter_mac: normalize_mac(adapter.as_str()),
                                device_mac: normalize_mac(name.as_str()),
                            },
                        );
                        assert(change_views(changes@) =~= held.push(
                            RegistryChangeView::DeviceRemoved {
                                adapter_mac: normalized_mac(adapter@),
                                device_mac: normalized_mac(name@),
                            },
                        ));
                    }
                    proof {
                        let after = device_removals(
                            adapter@,
                            info.devices.keys(),
                            later@,
                            (j + 1) as nat,
                        );
                        assert(change_views(changes@) =~= done + after);
                    }
                    j += 1;
                }
                assert(change_views(changes@) =~= first + (so_far + earlier_adapter_changes(
                    adapter@,
                    *info,
                    new_state@,
                )));
            },
        }
        i += 1;
    }
    changes
}

/// The device that a change sends the engine to, if it sends it anywhere:
/// a device that was paired, or whose key changed.
pub open spec fn sync_target(change: RegistryChangeView) -> Option<(Seq<char>, Seq<char>)> {
    match change {
        RegistryChangeView::DevicePaired { adapter_mac, device_mac } => Some(
            (adapter_mac, device_mac),
        ),
        RegistryChangeView::DeviceKeyChanged { adapter_mac, device_mac } => Some(
            (adapter_mac, device_mac),
        ),
        _ => None,
    }
}

/// Whether one of the changes sends the engine to the device `device` of
/// the adapter `adapter`.
pub open spec fn syncs(
    changes: Seq<RegistryChangeView>,
    adapter: Seq<char>,
    device: Seq<char>,
) -> bool {
    exists|i: int|
        0 <= i < changes.len() && sync_target(#[trigger] changes[i]) == Some((adapter, device))
}

/// The device `name` is new in `later`, or has another link key there.
pub open spec fn value_differs(
    earlier: DeviceValuesView,
    later: DeviceValuesView,
    name: Seq<char>,
) -> bool {
    !(earlier.contains_key(name) && earlier[name] == later[name])
}

/// A well-formed snapshot: no adapter occurs twice.
pub open spec fn well_formed_state(state: BluetoothState) -> bool {
    state.adapters.well_formed()
}

proof fn lemma_syncs_concat(
    a: Seq<RegistryChangeView>,
    b: Seq<RegistryChangeView>,
    x: Seq<char>,
    y: Seq<char>,
)
    ensures
        syncs(a + b, x, y) <==> (syncs(a, x, y) || syncs(b, x, y)),
{
    let ab = a + b;
    if syncs(a, x, y) {
        let i = choose|i: int| 0 <= i < a.len() && sync_target(#[trigger] a[i]) == Some((x, y));
        assert(ab[i] == a[i]);
    }
    if syncs(b, x, y) {
        let i = choose|i: int| 0 <= i < b.len() && sync_target(#[trigger] b[i]) == Some((x, y));
        assert(ab[a.len() + i] == b[i]);
    }
    if syncs(ab, x, y) {
        let i = choose|i: int| 0 <= i < ab.len() && sync_target(#[trigger] ab[i]) == Some((x, y));
        if i < a.len() {
            assert(a[i] == ab[i]);
        } else {
            assert(b[i - a.len()] == ab[i]);
        }
    }
}

/// Whether one of the first `n` names is a device that differs and has the
/// canonical address `device`.
pub open spec fn differing_among(
    names: Seq<Seq<char>>,
    later: DeviceValuesView,
    earlier: DeviceValuesView,
    n: nat,
    device: Seq<char>,
) -> bool {
    exists|j: int|
        0 <= j < n && value_differs(earlier, later, #[trigger] names[j]) && device
            == normalized_mac(names[j])
}

proof fn lemma_device_changes_sync(
    adapter: Seq<char>,
    names: Seq<Seq<char>>,
    later: DeviceValuesView,
    earlier: DeviceValuesView,
    n: nat,
    x: Seq<char>,
    y: Seq<char>,
)
    requires
        n <= names.len(),
    ensures
        syncs(device_changes(adapter, names, later, earlier, n), x, y) <==> (x == normalized_mac(
            adapter,
        ) && differing_among(names, later, earlier, n, y)),
    decreases n,
{
    if n == 0 {
    } else {
        let m = (n - 1) as nat;
        let before = device_changes(adapter, names, later, earlier, m);
        let all = device_changes(adapter, names, later, earlier, n);
        let name = names[n - 1];
        lemma_device_changes_sync(adapter, names, later, earlier, m, x, y);
        let tail: Seq<RegistryChangeView> = if !earlier.contains_key(name) {
            seq![
                RegistryChangeView::DevicePaired {
                    adapter_mac: normalized_mac(adapter),
                    device_mac: normalized_mac(name),
                },
            ]
        } else if earlier[name] != later[name] {
            seq![
                RegistryChangeView::DeviceKeyChanged {
                    adapter_mac: normalized_mac(adapter),
                    device_mac: normalized_mac(name),
                },
            ]
        } else {
            Seq::empty()
        };
        assert(all =~= before + tail);
        lemma_syncs_concat(before, tail, x, y);
        if syncs(tail, x, y) {
            let i = choose|i: int|
                0 <= i < tail.len() && sync_target(#[trigger] tail[i]) == Some((x, y));
            assert(i == 0);
            assert(value_differs(earlier, later, names[n - 1]));
        }
        if x == normalized_mac(adapter) && value_differs(earlier, later, name) && y
            == normalized_mac(name) {
            assert(sync_target(tail[0]) == Some((x, y)));
        }
        if differing_among(names, later, earlier, n, y) {
            let j = choose|j: int|
                0 <= j < n && value_differs(earlier, later, #[trigger] names[j]) && y
                    == normalized_mac(names[j]);
            if j < m {
                assert(differing_among(names, later, earlier, m, y));
            }
        }
        if differing_among(names, later, earlier, m, y) {
            let j = choose|j: int|
                0 <= j < m && value_differs(earlier, later, #[trigger] names[j]) && y
                    == normalized_mac(names[j]);
            assert(0 <= j < n);
        }
    }
}

proof fn lemma_device_removals_sync(
    adapter: Seq<char>,
    names: Seq<Seq<char>>,
    later: DeviceValuesView,
    n: nat,
    x: Seq<char>,
    y: Seq<char>,
)
    ensures
        !syncs(device_removals(adapter, names, later, n), x, y),
    decreases n,
{
    if n > 0 {
        let m = (n - 1) as nat;
        let before = device_removals(adapter, names, later, m);
        let all = device_removals(adapter, names, later, n);
        lemma_device_removals_sync(adapter, names, later, m, x, y);
        if syncs(all, x, y) {
            let i = choose|i: int|
                0 <= i < all.len() && sync_target(#[trigger] all[i]) == Some((x, y));
            if i < before.len() {
                assert(before[i] == all[i]);
            }
        }
    }
}

/// Whether one of the first `n` adapters holds a device that differs, with
/// the canonical addresses `adapter` and `device`.
pub open spec fn differing_in(
    names: Seq<Seq<char>>,
    infos: Seq<AdapterInfo>,
    earlier: StateView,
    n: nat,
    adapter: Seq<char>,
    device: Seq<char>,
) -> bool {
    exists|i: int|
        0 <= i < n && adapter == normalized_mac(#[trigger] names[i]) && differing_among(
            infos[i].devices.keys(),
            infos[i]@,
            values_of(earlier, names[i]),
            infos[i].devices.keys().len(),
            device,
        )
}

proof fn lemma_later_changes_sync(
    names: Seq<Seq<char>>,
    infos: Seq<AdapterInfo>,
    earlier: StateView,
    n: nat,
    x: Seq<char>,
    y: Seq<char>,
)
    requires
        n <= names.len(),
        n <= infos.len(),
    ensures
        syncs(later_changes(names, infos, earlier, n), x, y) <==> differing_in(
            names,
            infos,
            earlier,
            n,
            x,
            y,
        ),
    decreases n,
{
    if n == 0 {
    } else {
        let m = (n - 1) as nat;
        let before = later_changes(names, infos, earlier, m);
        let name = names[n - 1];
        let info = infos[n - 1];
        let head = if earlier.contains_key(name) {
            Seq::<RegistryChangeView>::empty()
        } else {
            seq![RegistryChangeView::AdapterAdded { adapter: name }]
        };
        let devices = device_changes(
            name,
            info.devices.keys(),
            info@,
            values_of(earlier, name),
            info.devices.keys().len(),
        );
        lemma_later_changes_sync(names, infos, earlier, m, x, y);
        lemma_device_changes_sync(
            name,
            info.devices.keys(),
            info@,
            values_of(earlier, name),
            info.devices.keys().len(),
            x,
            y,
        );
        lemma_syncs_concat(head, devices, x, y);
        lemma_syncs_concat(before, head + devices, x, y);
        if syncs(head, x, y) {
            let i = choose|i: int|
                0 <= i < head.len() && sync_target(#[trigger] head[i]) == Some((x, y));
            assert(false);
        }
        if differing_in(names, infos, earlier, n, x, y) {
            let i = choose|i: int|
                0 <= i < n && x == normalized_mac(#[trigger] names[i]) && differing_among(
                    infos[i].devices.keys(),
                    infos[i]@,
                    values_of(earlier, names[i]),
                    infos[i].devices.keys().len(),
                    y,
                );
            if i < m {
                assert(differing_in(names, infos, earlier, m, x, y));
            }
        }
        if differing_in(names, infos, earlier, m, x, y) {
            let i = choose|i: int|
                0 <= i < m && x == normalized_mac(#[trigger] names[i]) && differing_among(
                    infos[i].devices.keys(),
                    infos[i]@,
                    values_of(earlier, names[i]),
                    infos[i].devices.keys().len(),
                    y,
                );
            assert(0 <= i < n);
        }
        if x == normalized_mac(name) && differing_among(
            info.devices.keys(),
            info@,
            values_of(earlier, name),
            info.devices.keys().len(),
            y,
        ) {
            assert(names[n - 1] == name);
        }
    }
}

proof fn lemma_earlier_changes_sync(
    names: Seq<Seq<char>>,
    infos: Seq<AdapterInfo>,
    later: StateView,
    n: nat,
    x: Seq<char>,
    y: Seq<char>,
)
    ensures
        !syncs(earlier_changes(names, infos, later, n), x, y),
    decreases n,
{
    if n > 0 {
        let m = (n - 1) as nat;
        let before = earlier_changes(names, infos, later, m);
        let tail = earlier_adapter_changes(names[n - 1], infos[n - 1], later);
        lemma_earlier_changes_sync(names, infos, later, m, x, y);
        lemma_device_removals_sync(
            names[n - 1],
            infos[n - 1].devices.keys(),
            later[names[n - 1]],
            infos[n - 1].devices.keys().len(),
            x,
            y,
        );
        lemma_syncs_concat(before, tail, x, y);
        if syncs(tail, x, y) {
            let i = choose|i: int|
                0 <= i < tail.len() && sync_target(#[trigger] tail[i]) == Some((x, y));
            if !later.contains_key(names[n - 1]) {
                assert(false);
            }
        }
    }
}

/// The engine is sent to a device exactly when the later snapshot holds it
/// and the earlier snapshot does not hold it with the same link key: every
/// new pairing and every changed key is taken up, and nothing else is.
pub proof fn lemma_changes_sync_what_differs(
    earlier: BluetoothState,
    later: BluetoothState,
    adapter: Seq<char>,
    device: Seq<char>,
)
    requires
        well_formed_state(later),
    ensures
        syncs(state_changes(earlier, later), adapter, device) <==> exists|
            a: Seq<char>,
            d: Seq<char>,
        |
            #![trigger later@[a].contains_key(d)]
            later@.contains_key(a) && later@[a].contains_key(d) && value_differs(
                values_of(earlier@, a),
                later@[a],
                d,
            ) && adapter == normalized_mac(a) && device == normalized_mac(d),
{
    let names = later.adapters.keys();
    let infos = later.adapters.values();
    let n = names.len();
    later.adapters.lemma_entries();
    let first = later_changes(names, infos, earlier@, n);
    let second = earlier_changes(
        earlier.adapters.keys(),
        earlier.adapters.values(),
        later@,
        earlier.adapters.keys().len(),
    );
    lemma_later_changes_sync(names, infos, earlier@, n, adapter, device);
    lemma_earlier_changes_sync(
        earlier.adapters.keys(),
        earlier.adapters.values(),
        later@,
        earlier.adapters.keys().len(),
        adapter,
        device,
    );
    lemma_syncs_concat(first, second, adapter, device);
    if differing_in(names, infos, earlier@, n, adapter, device) {
        let i = choose|i: int|
            0 <= i < n && adapter == normalized_mac(#[trigger] names[i]) && differing_among(
                infos[i].devices.keys(),
                infos[i]@,
                values_of(earlier@, names[i]),
                infos[i].devices.keys().len(),
                device,
            );
        let info = infos[i];
        let a = names[i];
        assert(later@.contains_key(a) && later@[a] == info@);
        info.devices.lemma_keys_are_domain();
        let j = choose|j: int|
            0 <= j < info.devices.keys().len() && value_differs(
                values_of(earlier@, a),
                info@,
                #[trigger] info.devices.keys()[j],
            ) && device == normalized_mac(info.devices.keys()[j]);
        let d = info.devices.keys()[j];
        assert(info.devices.keys().contains(d));
        assert(later@[a].contains_key(d));
    }
    if exists|a: Seq<char>, d: Seq<char>|
        #![trigger later@[a].contains_key(d)]
        later@.contains_key(a) && later@[a].contains_key(d) && value_differs(
            values_of(earlier@, a),
            later@[a],
            d,
        ) && adapter == normalized_mac(a) && device == normalized_mac(d) {
        let (a, d) = choose|a: Seq<char>, d: Seq<char>|
            #![trigger later@[a].contains_key(d)]
            later@.contains_key(a) && later@[a].contains_key(d) && value_differs(
                values_of(earlier@, a),
                later@[a],
                d,
            ) && adapter == normalized_mac(a) && device == normalized_mac(d);
        assert(names.contains(a));
        let i = choose|i: int| 0 <= i < names.len() && names[i] == a;
        let info = infos[i];
        assert(later@[names[i]] == info@);
        info.devices.lemma_keys_are_domain();
        assert(info.devices.keys().contains(d));
        let j = choose|j: int|
            0 <= j < info.devices.keys().len() && info.devices.keys()[j] == d;
        assert(value_differs(values_of(earlier@, a), info@, info.devices.keys()[j]));
        assert(differing_among(
            info.devices.keys(),
            info@,
            values_of(earlier@, names[i]),
            info.devices.keys().len(),
            device,
        ));
        assert(differing_in(names, infos, earlier@, n, adapter, device));
    }
}

} // verus!
