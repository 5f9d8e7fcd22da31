//! The synchronization engine: reconciles what the native pairing store
//! holds with the shared document.
//!
//! The engine only ever updates devices that the native store already
//! knows, and only ever adds to the shared document. Reading and writing
//! the document itself is the caller's part: each operation takes what was
//! read and hands back what is to be written.

use crate::bluetooth::{
    devices_equal, lemma_merge_device_idempotent, merge_csrk, merge_device, merged_csrk,
    same_keys, BluetoothDevice, BluetoothDeviceView, BluetoothManager, CsrkKey, CsrkKeyView,
    LeKeysView, StoreError, StoreErrorView,
};
use crate::config::{device_of, devices_of, with_device, BlueVeinConfig, ConfigView, DevicesView};
use crate::efi::{EfiError, EfiErrorView};
use crate::strmap::{lemma_prefix_step, StrMap};
use vstd::prelude::*;

verus! {

/// Why a synchronization run stopped.
#[derive(Debug, PartialEq)]
pub enum SyncError {
    /// The shared document could not be read.
    Efi(EfiError),
    /// The native store refused a request that the run cannot do without.
    Store(StoreError),
}

pub enum SyncErrorView {
    Efi(EfiErrorView),
    Store(StoreErrorView),
}

impl View for SyncError {
    type V = SyncErrorView;

    open spec fn view(&self) -> SyncErrorView {
        match self {
            SyncError::Efi(e) => SyncErrorView::Efi(e@),
            SyncError::Store(e) => SyncErrorView::Store(e@),
        }
    }
}

impl SyncError {
    /// The sentence that reports this error.
    pub fn to_string(&self) -> (s: String)
        ensures
            s@ == (match self@ {
                SyncErrorView::Efi(e) => e.message(),
                SyncErrorView::Store(e) => e.message(),
            }),
    {
        match self {
            SyncError::Efi(e) => e.to_string(),
            SyncError::Store(e) => e.to_string(),
        }
    }
}

/// The local signature key of a device, if it has one.
pub open spec fn csrk_local_of(d: BluetoothDeviceView) -> Option<CsrkKeyView> {
    match d.le {
        Some(le) => le.csrk_local,
        None => None,
    }
}

/// The remote signature key of a device, if it has one.
pub open spec fn csrk_remote_of(d: BluetoothDeviceView) -> Option<CsrkKeyView> {
    match d.le {
        Some(le) => le.csrk_remote,
        None => None,
    }
}

/// What the native store should hold for a device, given what it holds
/// (`system`) and what the shared document holds (`canonical`): every key of
/// the document laid over the store's, except that signature keys are merged
/// so that their counters never run backwards.
pub open spec fn merged_for_sync(
    system: BluetoothDeviceView,
    canonical: BluetoothDeviceView,
) -> BluetoothDeviceView {
    let merged = merge_device(system, canonical);
    match merged.le {
        Some(le) => BluetoothDeviceView {
            le: Some(
                LeKeysView {
                    csrk_local: merged_csrk(csrk_local_of(system), csrk_local_of(canonical)),
                    csrk_remote: merged_csrk(csrk_remote_of(system), csrk_remote_of(canonical)),
                    ..le
                },
            ),
            ..merged
        },
        None => merged,
    }
}

/// Merging a device with itself for synchronization changes nothing.
pub proof fn lemma_merged_for_sync_idempotent(d: BluetoothDeviceView)
    ensures
        merged_for_sync(d, d) == d,
{
    lemma_merge_device_idempotent(d);
}

/// A signature counter in the merge result is never below the counter that
/// either side held for the same key.
pub proof fn lemma_merged_counter_monotonic(a: CsrkKeyView, b: CsrkKeyView)
    requires
        a.key == b.key,
    ensures
        merged_csrk(Some(a), Some(b)) is Some,
        merged_csrk(Some(a), Some(b))->0.key == a.key,
        merged_csrk(Some(a), Some(b))->0.counter >= a.counter,
        merged_csrk(Some(a), Some(b))->0.counter >= b.counter,
{
}

/// A device that the engine hands to the native store.
#[derive(Debug, PartialEq)]
pub struct DeviceUpdate {
    pub adapter_mac: String,
    pub device: BluetoothDevice,
}

pub struct DeviceUpdateView {
    pub adapter_mac: Seq<char>,
    pub device: BluetoothDeviceView,
}

impl View for DeviceUpdate {
    type V = DeviceUpdateView;

    open spec fn view(&self) -> DeviceUpdateView {
        DeviceUpdateView { adapter_mac: self.adapter_mac@, device: self.device@ }
    }
}

/// The views of a list of updates, in order.
pub open spec fn update_views(updates: Seq<DeviceUpdate>) -> Seq<DeviceUpdateView> {
    Seq::new(updates.len(), |i: int| updates[i]@)
}

/// The views of two lists of updates put together.
pub proof fn lemma_update_views_concat(a: Seq<DeviceUpdate>, b: Seq<DeviceUpdate>)
    ensures
        update_views(a + b) == update_views(a) + update_views(b),
        forall|u: DeviceUpdateView|
            update_views(a + b).contains(u) <==> (update_views(a).contains(u) || update_views(
                b,
            ).contains(u)),
{
    let va = update_views(a);
    let vb = update_views(b);
    let vab = update_views(a + b);
    assert(vab =~= va + vb);
    assert forall|u: DeviceUpdateView| vab.contains(u) <==> (va.contains(u) || vb.contains(u)) by {
        if va.contains(u) {
            let i = choose|i: int| 0 <= i < va.len() && va[i] == u;
            assert(vab[i] == u);
        }
        if vb.contains(u) {
            let i = choose|i: int| 0 <= i < vb.len() && vb[i] == u;
            assert(vab[va.len() + i] == u);
        }
        if vab.contains(u) {
            let i = choose|i: int| 0 <= i < vab.len() && vab[i] == u;
            if i < va.len() {
                assert(va[i] == u);
            } else {
                assert(vb[i - va.len()] == u);
            }
        }
    }
}

/// The device under `key` is in both maps, and the native store's keys are
/// not what the merge asks for.
pub open spec fn update_due(canonical: DevicesView, system: DevicesView, key: Seq<char>) -> bool {
    &&& canonical.contains_key(key)
    &&& system.contains_key(key)
    &&& !same_keys(system[key], merged_for_sync(system[key], canonical[key]))
}

/// The update that brings the native store's device under `key` up to date.
pub open spec fn update_for(
    adapter: Seq<char>,
    canonical: DevicesView,
    system: DevicesView,
    key: Seq<char>,
) -> DeviceUpdateView {
    DeviceUpdateView {
        adapter_mac: adapter,
        device: merged_for_sync(system[key], canonical[key]),
    }
}

/// The updates for one adapter: one for each of `keys`, in order, for which
/// an update is due.
pub open spec fn adapter_updates(
    adapter: Seq<char>,
    keys: Seq<Seq<char>>,
    canonical: DevicesView,
    system: DevicesView,
) -> Seq<DeviceUpdateView>
    decreases keys.len(),
{
    if keys.len() == 0 {
        Seq::empty()
    } else if update_due(canonical, system, keys.last()) {
        adapter_updates(adapter, keys.drop_last(), canonical, system).push(
            update_for(adapter, canonical, system, keys.last()),
        )
    } else {
        adapter_updates(adapter, keys.drop_last(), canonical, system)
    }
}

/// The updates for one adapter are exactly those that are due for one of
/// the keys.
pub proof fn lemma_adapter_updates(
    adapter: Seq<char>,
    keys: Seq<Seq<char>>,
    canonical: DevicesView,
    system: DevicesView,
)
    ensures
        forall|u: DeviceUpdateView|
            adapter_updates(adapter, keys, canonical, system).contains(u) <==> exists|k: Seq<char>|
                #![trigger update_for(adapter, canonical, system, k)]
                keys.contains(k) && update_due(canonical, system, k) && u == update_for(
                    adapter,
                    canonical,
                    system,
                    k,
                ),
    decreases keys.len(),
{
    let all = adapter_updates(adapter, keys, canonical, system);
    if keys.len() == 0 {
        assert forall|u: DeviceUpdateView| all.contains(u) <==> exists|k: Seq<char>|
            #![trigger update_for(adapter, canonical, system, k)]
            keys.contains(k) && update_due(canonical, system, k) && u == update_for(
                adapter,
                canonical,
                system,
                k,
            ) by {}
    } else {
        let head = keys.drop_last();
        let last = keys.last();
        let before = adapter_updates(adapter, head, canonical, system);
        lemma_adapter_updates(adapter, head, canonical, system);
        assert forall|u: DeviceUpdateView| all.contains(u) <==> exists|k: Seq<char>|
            #![trigger update_for(adapter, canonical, system, k)]
            keys.contains(k) && update_due(canonical, system, k) && u == update_for(
                adapter,
                canonical,
                system,
                k,
            ) by {
            if all.contains(u) {
                let i = choose|i: int| 0 <= i < all.len() && all[i] == u;
                if i < before.len() {
                    assert(before[i] == u);
                    assert(before.contains(u));
                    let k = choose|k: Seq<char>|
                        #![trigger update_for(adapter, canonical, system, k)]
                        head.contains(k) && update_due(canonical, system, k) && u == update_for(
                            adapter,
                            canonical,
                            system,
                            k,
                        );
                    let j = choose|j: int| 0 <= j < head.len() && head[j] == k;
                    assert(keys[j] == k);
                } else {
                    assert(keys[keys.len() - 1] == last);
                    assert(u == update_for(adapter, canonical, system, last));
                }
            }
            if exists|k: Seq<char>|
                #![trigger update_for(adapter, canonical, system, k)]
                keys.contains(k) && update_due(canonical, system, k) && u == update_for(
                    adapter,
                    canonical,
                    system,
                    k,
                ) {
                let k = choose|k: Seq<char>|
                    #![trigger update_for(adapter, canonical, system, k)]
                    keys.contains(k) && update_due(canonical, system, k) && u == update_for(
                        adapter,
                        canonical,
                        system,
                        k,
                    );
                let j = choose|j: int| 0 <= j < keys.len() && keys[j] == k;
                if j < head.len() {
                    assert(head[j] == k);
                    assert(head.contains(k));
                    assert(before.contains(u));
                    let i = choose|i: int| 0 <= i < before.len() && before[i] == u;
                    assert(all[i] == u);
                } else {
                    assert(k == last);
                    assert(all[all.len() - 1] == u);
                }
            }
        }
    }
}

/// Whether `a` is one of the adapter addresses in `adapters`.
pub open spec fn listed(adapters: Seq<String>, a: Seq<char>) -> bool {
    exists|i: int| 0 <= i < adapters.len() && (#[trigger] adapters[i])@ == a
}

/// `u` is the update that is due for some device of one adapter.
pub open spec fn due_update(
    adapter: Seq<char>,
    canonical: DevicesView,
    system: DevicesView,
    u: DeviceUpdateView,
) -> bool {
    exists|k: Seq<char>|
        #![trigger update_for(adapter, canonical, system, k)]
        update_due(canonical, system, k) && u == update_for(adapter, canonical, system, k)
}

/// `u` is an update that a run over `adapters` owes: it brings a device
/// that both the document and the native store hold for a listed adapter
/// up to date.
pub open spec fn is_planned(
    canonical: ConfigView,
    adapters: Seq<String>,
    system: ConfigView,
    u: DeviceUpdateView,
) -> bool {
    &&& listed(adapters, u.adapter_mac)
    &&& canonical.contains_key(u.adapter_mac)
    &&& system.contains_key(u.adapter_mac)
    &&& due_update(u.adapter_mac, canonical[u.adapter_mac], system[u.adapter_mac], u)
}

/// The updates planned for one adapter are the updates that are due for
/// it, when the keys are those of the document's devices.
pub proof fn lemma_adapter_updates_due(
    adapter: Seq<char>,
    keys: Seq<Seq<char>>,
    canonical: DevicesView,
    system: DevicesView,
)
    requires
        forall|k: Seq<char>| canonical.contains_key(k) <==> keys.contains(k),
    ensures
        forall|u: DeviceUpdateView|
            adapter_updates(adapter, keys, canonical, system).contains(u) <==> due_update(
                adapter,
                canonical,
                system,
                u,
            ),
{
    lemma_adapter_updates(adapter, keys, canonical, system);
    assert forall|u: DeviceUpdateView|
        adapter_updates(adapter, keys, canonical, system).contains(u) <==> due_update(
            adapter,
            canonical,
            system,
            u,
        ) by {
        if due_update(adapter, canonical, system, u) {
            let k = choose|k: Seq<char>|
                #![trigger update_for(adapter, canonical, system, k)]
                update_due(canonical, system, k) && u == update_for(adapter, canonical, system, k);
            assert(keys.contains(k));
        }
    }
}

/// The devices of `system` that `c` lacks, added to those that `c` records
/// for `adapter`. What `c` records stays as it is.
pub open spec fn add_missing(c: ConfigView, adapter: Seq<char>, system: DevicesView) -> ConfigView {
    if c.contains_key(adapter) || exists|k: Seq<char>| system.contains_key(k) {
        c.insert(adapter, system.union_prefer_right(devices_of(c, adapter)))
    } else {
        c
    }
}

/// The shared document after a run: `canonical` with, for each of
/// `adapters` in turn, the devices that the native store holds and the
/// document lacked.
pub open spec fn synced_document(
    canonical: ConfigView,
    adapters: Seq<String>,
    system: ConfigView,
) -> ConfigView
    decreases adapters.len(),
{
    if adapters.len() == 0 {
        canonical
    } else {
        let before = synced_document(canonical, adapters.drop_last(), system);
        let a = adapters.last()@;
        if system.contains_key(a) {
            add_missing(before, a, system[a])
        } else {
            before
        }
    }
}

/// Every entry of the document after a run: what the document recorded
/// stays; a device of a listed adapter that only the native store holds is
/// taken from there; nothing else appears.
pub proof fn lemma_synced_document_entries(
    canonical: ConfigView,
    adapters: Seq<String>,
    system: ConfigView,
    a: Seq<char>,
    k: Seq<char>,
)
    ensures
        device_of(synced_document(canonical, adapters, system), a, k) == if device_of(
            canonical,
            a,
            k,
        ) is Some {
            device_of(canonical, a, k)
        } else if listed(adapters, a) {
            device_of(system, a, k)
        } else {
            None
        },
        canonical.contains_key(a) ==> synced_document(canonical, adapters, system).contains_key(a),
    decreases adapters.len(),
{
    if adapters.len() > 0 {
        let head = adapters.drop_last();
        lemma_synced_document_entries(canonical, head, system, a, k);
        let last = adapters.last()@;
        assert(adapters[adapters.len() - 1]@ == last);
        if listed(head, a) {
            let i = choose|i: int| 0 <= i < head.len() && (#[trigger] head[i])@ == a;
            assert(adapters[i]@ == a);
        }
        if listed(adapters, a) && a != last {
            let i = choose|i: int| 0 <= i < adapters.len() && (#[trigger] adapters[i])@ == a;
            assert(head[i]@ == a);
        }
    }
}

/// After a run, the shared document has an entry for every device that the
/// native store holds for a listed adapter.
pub proof fn lemma_sync_covers_system(
    canonical: ConfigView,
    adapters: Seq<String>,
    system: ConfigView,
    a: Seq<char>,
    k: Seq<char>,
)
    requires
        listed(adapters, a),
        device_of(system, a, k) is Some,
    ensures
        device_of(synced_document(canonical, adapters, system), a, k) is Some,
{
    lemma_synced_document_entries(canonical, adapters, system, a, k);
}

/// After a run, the shared document has an entry for every device of the
/// reading of the native store that the run began with.
pub proof fn lemma_sync_covers_snapshot(
    canonical: ConfigView,
    adapters: Seq<String>,
    system: ConfigView,
    a: Seq<char>,
    k: Seq<char>,
)
    requires
        is_snapshot(system, adapters),
        device_of(system, a, k) is Some,
    ensures
        device_of(synced_document(canonical, adapters, system), a, k) is Some,
{
    assert(system.contains_key(a));
    lemma_sync_covers_system(canonical, adapters, system, a, k);
}

/// A run hands the native store no device that the store did not hold
/// itself: every planned update is for an adapter and a key under which the
/// store reported a device, and carries that device's address.
pub proof fn lemma_updates_only_for_known_devices(
    canonical: ConfigView,
    adapters: Seq<String>,
    system: ConfigView,
    u: DeviceUpdateView,
)
    requires
        is_planned(canonical, adapters, system, u),
    ensures
        exists|k: Seq<char>|
            #![trigger device_of(system, u.adapter_mac, k)]
            device_of(system, u.adapter_mac, k) is Some && device_of(
                system,
                u.adapter_mac,
                k,
            )->0.mac_address == u.device.mac_address && device_of(canonical, u.adapter_mac, k)
                is Some,
{
    let a = u.adapter_mac;
    let k = choose|k: Seq<char>|
        #![trigger update_for(a, canonical[a], system[a], k)]
        update_due(canonical[a], system[a], k) && u == update_for(a, canonical[a], system[a], k);
    assert(device_of(system, a, k) is Some);
}

/// The updates that one adapter's devices need: one for each device of the
/// document, in the document's order, whose keys in the native store differ
/// from the merge of both.
pub fn plan_adapter_updates(
    adapter_mac: &str,
    canonical: &StrMap<BluetoothDevice>,
    system: &StrMap<BluetoothDevice>,
) -> (updates: Vec<DeviceUpdate>)
    ensures
        update_views(updates@) == adapter_updates(
            adapter_mac@,
            canonical.keys(),
            canonical@,
            system@,
        ),
{
    let mut updates: Vec<DeviceUpdate> = Vec::new();
    let n = canonical.len();
    let mut i: usize = 0;
    while i < n
        invariant
            i <= n,
            n == canonical.keys().len(),
            update_views(updates@) == adapter_updates(
                adapter_mac@,
                canonical.keys().take(i as int),
                canonical@,
                system@,
            ),
        decreases n - i,
    {
        let ghost keys = canonical.keys();
        let ghost done = update_views(updates@);
        assert(keys.take(i + 1).drop_last() == keys.take(i as int));
        let key = canonical.key_at(i);
        let canonical_device = canonical.value_at(i);
        match system.get(key.as_str()) {
            Some(system_device) => {
                let merged = SyncManager::merge_devices(system_device, canonical_device);
                if SyncManager::devices_differ(system_device, &merged) {
                    updates.push(
                        DeviceUpdate { adapter_mac: adapter_mac.to_owned(), device: merged },
                    );
                    assert(update_views(updates@) == done.push(
                        update_for(adapter_mac@, canonical@, system@, keys[i as int]),
                    ));
                }
            },
            None => {},
        }
        i += 1;
    }
    assert(canonical.keys().take(n as int) == canonical.keys());
    updates
}

/// The updates that a run over `adapters` owes the native store, as a
/// list: for each adapter in turn that both the document and the reading of
/// the store hold, the updates of its devices in the document's order.
pub open spec fn planned_updates(
    canonical: BlueVeinConfig,
    adapters: Seq<String>,
    system: ConfigView,
) -> Seq<DeviceUpdateView>
    decreases adapters.len(),
{
    if adapters.len() == 0 {
        Seq::empty()
    } else {
        let a = adapters.last()@;
        planned_updates(canonical, adapters.drop_last(), system) + (if canonical@.contains_key(a)
            && system.contains_key(a) {
            adapter_updates(
                a,
                canonical.adapters.value_of(a).devices.keys(),
                canonical@[a],
                system[a],
            )
        } else {
            Seq::empty()
        })
    }
}

/// The updates that a run over `adapters` owes the native store.
pub fn plan_updates(
    canonical: &BlueVeinConfig,
    adapters: &Vec<String>,
    system: &BlueVeinConfig,
) -> (updates: Vec<DeviceUpdate>)
    ensures
        update_views(updates@) == planned_updates(*canonical, adapters@, system@),
        forall|i: int|
            0 <= i < updates.len() ==> is_planned(
                canonical@,
                adapters@,
                system@,
                (#[trigger] updates[i])@,
            ),
        forall|u: DeviceUpdateView|
            is_planned(canonical@, adapters@, system@, u) ==> update_views(updates@).contains(u),
{
    let mut updates: Vec<DeviceUpdate> = Vec::new();
    let mut i: usize = 0;
    assert(update_views(updates@) =~= Seq::<DeviceUpdateView>::empty());
    while i < adapters.len()
        invariant
            i <= adapters.len(),
            update_views(updates@) == planned_updates(
                *canonical,
                adapters@.take(i as int),
                system@,
            ),
            forall|j: int|
                0 <= j < updates.len() ==> is_planned(
                    canonical@,
                    adapters@.take(i as int),
                    system@,
                    (#[trigger] updates[j])@,
                ),
            forall|u: DeviceUpdateView|
                is_planned(canonical@, adapters@.take(i as int), system@, u) ==> update_views(
                    updates@,
                ).contains(u),
        decreases adapters.len() - i,
    {
        let ghost before = updates@;
        let ghost shorter = adapters@.take(i as int);
        let ghost longer = adapters@.take(i + 1);
        let adapter = adapters[i].as_str();
        let ghost a = adapter@;
        proof {
            assert(longer[i as int]@ == a);
            assert forall|x: Seq<char>| listed(shorter, x) implies listed(longer, x) by {
                let j = choose|j: int| 0 <= j < shorter.len() && (#[trigger] shorter[j])@ == x;
                assert(longer[j]@ == x);
            }
            assert forall|x: Seq<char>| listed(longer, x) implies listed(shorter, x) || x == a by {
                let j = choose|j: int| 0 <= j < longer.len() && (#[trigger] longer[j])@ == x;
                if j < i {
                    assert(shorter[j]@ == x);
                }
            }
        }
        let mut fresh: Vec<DeviceUpdate> = Vec::new();
        match canonical.get_adapter_devices(adapter) {
            Some(canonical_devices) => {
                match system.get_adapter_devices(adapter) {
                    Some(system_devices) => {
                        fresh = plan_adapter_updates(adapter, canonical_devices, system_devices);
                        proof {
                            canonical_devices.lemma_keys_are_domain();
                            lemma_adapter_updates_due(
                                a,
                                canonical_devices.keys(),
                                canonical@[a],
                                system@[a],
                            );
                        }
                    },
                    None => {},
                }
            },
            None => {},
        }
        proof {
            let fresh_views = update_views(fresh@);
            if !(canonical@.contains_key(a) && system@.contains_key(a)) {
                assert(fresh_views.len() == 0);
            }
            assert forall|u: DeviceUpdateView| fresh_views.contains(u) implies is_planned(
                canonical@,
                longer,
                system@,
                u,
            ) by {
                assert(due_update(a, canonical@[a], system@[a], u));
                assert(u.adapter_mac == a);
            }
            assert forall|u: DeviceUpdateView|
                is_planned(canonical@, longer, system@, u) && u.adapter_mac
                    == a implies fresh_views.contains(u) by {
                assert(due_update(a, canonical@[a], system@[a], u));
            }
        }
        let ghost fresh_all = fresh@;
        updates.append(&mut fresh);
        proof {
            lemma_update_views_concat(before, fresh_all);
            assert(longer.drop_last() == shorter);
            assert(longer.last()@ == a);
            if !(canonical@.contains_key(a) && system@.contains_key(a)) {
                assert(update_views(fresh_all) =~= Seq::<DeviceUpdateView>::empty());
            }
        }
        proof {
            assert forall|x: int| 0 <= x < updates.len() implies is_planned(
                canonical@,
                longer,
                system@,
                (#[trigger] updates[x])@,
            ) by {
                if x < before.len() {
                    assert(updates[x] == before[x]);
                    assert(is_planned(canonical@, shorter, system@, before[x]@));
                } else {
                    assert(updates[x] == fresh_all[x - before.len()]);
                    assert(update_views(fresh_all)[x - before.len()] == updates[x]@);
                    assert(update_views(fresh_all).contains(updates[x]@));
                }
            }
            assert forall|u: DeviceUpdateView|
                is_planned(canonical@, longer, system@, u) implies update_views(
                updates@,
            ).contains(u) by {
                if u.adapter_mac == a {
                    assert(update_views(fresh_all).contains(u));
                } else {
                    assert(is_planned(canonical@, shorter, system@, u));
                    assert(update_views(before).contains(u));
                }
            }
        }
        i += 1;
    }
    assert(adapters@.take(adapters@.len() as int) == adapters@);
    updates
}

/// `devices` is `held` with those devices of `system` added whose key is
/// one of `done` and which `held` lacked.
pub open spec fn added_so_far(
    devices: DevicesView,
    held: DevicesView,
    system: DevicesView,
    done: Seq<Seq<char>>,
) -> bool {
    &&& forall|k: Seq<char>|
        #![trigger devices.contains_key(k)]
        #![trigger held.contains_key(k)]
        #![trigger done.contains(k)]
        devices.contains_key(k) <==> (held.contains_key(k) || done.contains(k))
    &&& forall|k: Seq<char>|
        #![trigger held.contains_key(k)]
        #![trigger devices[k]]
        held.contains_key(k) ==> devices[k] == held[k]
    &&& forall|k: Seq<char>|
        #![trigger done.contains(k)]
        #![trigger devices[k]]
        !held.contains_key(k) && done.contains(k) ==> devices[k] == system[k]
}

/// The document `canonical` with the devices added that the native store
/// holds for one of `adapters` and the document lacks. Nothing that the
/// document records is changed or removed.
pub fn add_new_devices(
    canonical: BlueVeinConfig,
    adapters: &Vec<String>,
    system: &BlueVeinConfig,
) -> (document: BlueVeinConfig)
    ensures
        document@ == synced_document(canonical@, adapters@, system@),
{
    let mut document = canonical;
    let mut i: usize = 0;
    while i < adapters.len()
        invariant
            i <= adapters.len(),
            document@ == synced_document(canonical@, adapters@.take(i as int), system@),
        decreases adapters.len() - i,
    {
        assert(adapters@.take(i + 1).drop_last() == adapters@.take(i as int));
        let adapter = &adapters[i];
        let ghost a = adapter@;
        let ghost before = document@;
        match system.get_adapter_devices(adapter.as_str()) {
            Some(system_devices) => {
                let n = system_devices.len();
                let ghost keys = system_devices.keys();
                let mut j: usize = 0;
                proof {
                    assert(keys.take(0) =~= Seq::<Seq<char>>::empty());
                }
                while j < n
                    invariant
                        j <= n,
                        n == keys.len(),
                        keys == system_devices.keys(),
                        keys.no_duplicates(),
                        a == adapter@,
                        forall|x: Seq<char>|
                            x != a ==> (document@.contains_key(x) <==> before.contains_key(x)),
                        forall|x: Seq<char>|
                            x != a && before.contains_key(x) ==> document@[x] == before[x],
                        document@.contains_key(a) <==> (before.contains_key(a) || j > 0),
                        added_so_far(
                            devices_of(document@, a),
                            devices_of(before, a),
                            system_devices@,
                            keys.take(j as int),
                        ),
                    decreases n - j,
                {
                    proof {
                        lemma_prefix_step(keys, j as int);
                    }
                    let key = system_devices.key_at(j);
                    let device = system_devices.value_at(j);
                    let ghost held = document@;
                    let ghost kj = keys[j as int];
                    let ghost done = keys.take(j as int);
                    let ghost next = keys.take(j + 1);
                    let present = document.get_device(adapter.as_str(), key.as_str()).is_some();
                    if !present {
                        document.put_device(adapter.clone(), key.clone(), device.clone());
                    }
                    proof {
                        let now = devices_of(document@, a);
                        let was = devices_of(held, a);
                        let origin = devices_of(before, a);
                        assert(key@ == kj);
                        assert(next.contains(kj));
                        if present {
                            assert(was.contains_key(kj));
                            assert(origin.contains_key(kj));
                            assert(now == was);
                        } else {
                            assert(!was.contains_key(kj));
                            assert(now =~= was.insert(kj, device@));
                        }
                        assert forall|k: Seq<char>| now.contains_key(k) <==> (origin.contains_key(k)
                            || next.contains(k)) by {
                            if k != kj {
                                assert(now.contains_key(k) <==> was.contains_key(k));
                                assert(next.contains(k) <==> done.contains(k));
                            }
                        }
                        assert forall|k: Seq<char>| origin.contains_key(k) implies now[k]
                            == origin[k] by {
                            assert(was.contains_key(k));
                        }
                        assert forall|k: Seq<char>|
                            !origin.contains_key(k) && next.contains(k) implies now[k]
                            == system_devices@[k] by {
                            if k != kj {
                                assert(done.contains(k));
                            }
                        }
                        assert(added_so_far(now, origin, system_devices@, next));
                    }
                    j += 1;
                }
                proof {
                    assert(keys.take(n as int) == keys);
                    let target = add_missing(before, a, system_devices@);
                    if n > 0 {
                        assert(keys.contains(keys[0]));
                        assert(system_devices@.contains_key(keys[0]));
                    }
                    if exists|k: Seq<char>| system_devices@.contains_key(k) {
                        let k = choose|k: Seq<char>| system_devices@.contains_key(k);
                        assert(keys.contains(k));
                    }
                    assert(document@.contains_key(a) <==> target.contains_key(a));
                    if document@.contains_key(a) {
                        assert(document@[a] =~= target[a]);
                    }
                    assert(document@ =~= target);
                }
            },
            None => {},
        }
        i += 1;
    }
    assert(adapters@.take(adapters@.len() as int) == adapters@);
    document
}

/// Every device is stored under its own address.
pub open spec fn keyed_by_address(devices: DevicesView) -> bool {
    forall|k: Seq<char>|
        #![trigger devices.contains_key(k)]
        #![trigger devices[k]]
        devices.contains_key(k) ==> devices[k].mac_address == k
}

/// `system` is a reading of the native store for `adapters`: it holds
/// listed adapters only, none of them without a device, and every device
/// under its own address.
pub open spec fn is_snapshot(system: ConfigView, adapters: Seq<String>) -> bool {
    forall|a: Seq<char>|
        #![trigger system.contains_key(a)]
        #![trigger system[a]]
        system.contains_key(a) ==> {
            &&& listed(adapters, a)
            &&& keyed_by_address(system[a])
            &&& exists|k: Seq<char>| system[a].contains_key(k)
        }
}

/// The devices of a list, each under its own address. Where an address
/// occurs more than once, its last device stands.
pub open spec fn indexed_devices(devices: Seq<BluetoothDevice>) -> DevicesView
    decreases devices.len(),
{
    if devices.len() == 0 {
        Map::empty()
    } else {
        indexed_devices(devices.drop_last()).insert(
            devices.last()@.mac_address,
            devices.last()@,
        )
    }
}

/// Every device of an indexed list stands under its own address, and a
/// list that is not empty gives a map that is not empty.
pub proof fn lemma_indexed_devices(devices: Seq<BluetoothDevice>)
    ensures
        keyed_by_address(indexed_devices(devices)),
        devices.len() > 0 ==> exists|k: Seq<char>| indexed_devices(devices).contains_key(k),
    decreases devices.len(),
{
    if devices.len() > 0 {
        lemma_indexed_devices(devices.drop_last());
        assert(indexed_devices(devices).contains_key(devices.last()@.mac_address));
    }
}

/// What the native store answers when it is asked for the devices of an
/// adapter.
pub type Reading = Result<Vec<BluetoothDevice>, StoreError>;

/// The reading of the store `system` with one more answer taken in: a list
/// of devices replaces what was recorded for the adapter; an empty list and
/// a failure change nothing.
pub open spec fn with_reading(system: ConfigView, adapter: Seq<char>, reading: Reading) -> ConfigView {
    match reading {
        Ok(devices) => if devices.len() > 0 {
            system.insert(adapter, indexed_devices(devices@))
        } else {
            system
        },
        Err(_) => system,
    }
}

/// The reading of the store that the answers for the first `n` adapters
/// give, taken in in order.
pub open spec fn snapshot_of(adapters: Seq<String>, readings: Seq<Reading>, n: nat) -> ConfigView
    decreases n,
{
    if n == 0 {
        Map::empty()
    } else {
        with_reading(
            snapshot_of(adapters, readings, (n - 1) as nat),
            adapters[n - 1]@,
            readings[n - 1],
        )
    }
}

/// Answers beyond the first `n` do not count for the first `n` adapters.
pub proof fn lemma_snapshot_of_prefix(
    adapters: Seq<String>,
    readings: Seq<Reading>,
    longer: Seq<Reading>,
    n: nat,
)
    requires
        n <= readings.len(),
        readings.len() <= longer.len(),
        forall|i: int| 0 <= i < readings.len() ==> readings[i] == longer[i],
    ensures
        snapshot_of(adapters, readings, n) == snapshot_of(adapters, longer, n),
    decreases n,
{
    if n > 0 {
        lemma_snapshot_of_prefix(adapters, readings, longer, (n - 1) as nat);
    }
}

/// What the answers for the adapters of a list give is a reading of the
/// store for that list.
pub proof fn lemma_snapshot_of_is_snapshot(
    adapters: Seq<String>,
    readings: Seq<Reading>,
    n: nat,
)
    requires
        n <= adapters.len(),
    ensures
        is_snapshot(snapshot_of(adapters, readings, n), adapters),
    decreases n,
{
    if n > 0 {
        let before = snapshot_of(adapters, readings, (n - 1) as nat);
        let after = snapshot_of(adapters, readings, n);
        lemma_snapshot_of_is_snapshot(adapters, readings, (n - 1) as nat);
        match readings[n - 1] {
            Ok(devices) => {
                lemma_indexed_devices(devices@);
                assert(adapters[n - 1]@ == adapters[n - 1]@);
                assert(listed(adapters, adapters[n - 1]@));
            },
            Err(_) => {},
        }
        assert forall|a: Seq<char>|
            #![trigger after.contains_key(a)]
            #![trigger after[a]]
            after.contains_key(a) implies listed(adapters, a) && keyed_by_address(after[a])
            && exists|k: Seq<char>| after[a].contains_key(k) by {
            if a != adapters[n - 1]@ {
                assert(before.contains_key(a));
            }
        }
    }
}

/// Takes one answer of the native store into a reading of it.
pub fn record_reading(system: &mut BlueVeinConfig, adapter_mac: &str, reading: Reading)
    ensures
        final(system)@ == with_reading(old(system)@, adapter_mac@, reading),
{
    match reading {
        Ok(devices) => {
            if devices.len() > 0 {
                let map = index_devices(&devices);
                system.set_adapter_devices(adapter_mac.to_owned(), map);
            }
        },
        Err(_) => {},
    }
}

/// The devices of a list, each under its own address. Where an address
/// occurs more than once, its last device stands.
pub fn index_devices(devices: &Vec<BluetoothDevice>) -> (map: StrMap<BluetoothDevice>)
    ensures
        map@ == indexed_devices(devices@),
        keyed_by_address(map@),
        forall|i: int|
            0 <= i < devices.len() ==> map@.contains_key((#[trigger] devices[i])@.mac_address),
        forall|k: Seq<char>|
            #![trigger map@.contains_key(k)]
            map@.contains_key(k) ==> exists|i: int|
                0 <= i < devices.len() && (#[trigger] devices[i])@ == map@[k],
{
    let mut map: StrMap<BluetoothDevice> = StrMap::new();
    let mut i: usize = 0;
    while i < devices.len()
        invariant
            i <= devices.len(),
            map@ == indexed_devices(devices@.take(i as int)),
            keyed_by_address(map@),
            forall|j: int| 0 <= j < i ==> map@.contains_key((#[trigger] devices[j])@.mac_address),
            forall|k: Seq<char>|
                #![trigger map@.contains_key(k)]
                map@.contains_key(k) ==> exists|j: int|
                    0 <= j < i && (#[trigger] devices[j])@ == map@[k],
        decreases devices.len() - i,
    {
        let ghost held = map@;
        assert(devices@.take(i + 1).drop_last() == devices@.take(i as int));
        let device = devices[i].clone();
        map.insert(device.mac_address.clone(), device);
        proof {
            assert forall|k: Seq<char>|
                #![trigger map@.contains_key(k)]
                map@.contains_key(k) implies exists|j: int|
                0 <= j < i + 1 && (#[trigger] devices[j])@ == map@[k] by {
                if k == devices[i as int]@.mac_address {
                    assert(devices[i as int]@ == map@[k]);
                } else {
                    assert(held.contains_key(k));
                    let j = choose|j: int| 0 <= j < i && (#[trigger] devices[j])@ == held[k];
                    assert(devices[j]@ == map@[k]);
                }
            }
        }
        i += 1;
    }
    assert(devices@.take(devices@.len() as int) == devices@);
    map
}

/// What the native store answered to one update.
#[derive(Debug, PartialEq)]
pub struct UpdateResult {
    pub update: DeviceUpdate,
    /// The store's error, where it refused the update.
    pub error: Option<StoreError>,
}

/// The updates of a list of results, in order.
pub open spec fn result_updates(results: Seq<UpdateResult>) -> Seq<DeviceUpdateView> {
    Seq::new(results.len(), |i: int| results[i].update@)
}

/// What a bidirectional run found and did.
#[derive(Debug)]
pub struct SyncOutcome {
    /// The adapters that the native store listed.
    pub adapters: Vec<String>,
    /// The devices that the native store reported for them.
    pub system: BlueVeinConfig,
    /// The updates handed to the native store, in order, each with the
    /// store's answer.
    pub updates: Vec<UpdateResult>,
    /// The shared document as it is to be written back.
    pub document: BlueVeinConfig,
}

/// What a check of the native store against the shared document found and
/// did.
#[derive(Debug)]
pub struct CheckOutcome {
    /// The adapters that the native store listed.
    pub adapters: Vec<String>,
    /// The devices that the native store reported for them.
    pub system: BlueVeinConfig,
    /// The updates handed to the native store, in order, each with the
    /// store's answer.
    pub updates: Vec<UpdateResult>,
}

/// What a change of one device leads to.
#[derive(Debug)]
pub struct DeviceChange {
    /// The device as the native store now holds it.
    pub device: BluetoothDevice,
    /// The shared document as it is to be written back.
    pub document: BlueVeinConfig,
}

/// How the shared document, read again after a write, compares with the
/// device that was written.
#[derive(Debug, PartialEq, Eq, Clone, Copy)]
pub enum WriteCheck {
    /// The document holds the device with the keys that were written.
    Verified,
    /// The document holds the device with other keys.
    Differs,
    /// The document does not hold the device.
    Missing,
}

/// Compares what the shared document holds under a device's address with
/// the device that was written there.
pub fn check_written(
    adapter_mac: &str,
    device: &BluetoothDevice,
    stored: &BlueVeinConfig,
) -> (r: WriteCheck)
    ensures
        r == match device_of(stored@, adapter_mac@, device@.mac_address) {
            Some(found) => if same_keys(device@, found) {
                WriteCheck::Verified
            } else {
                WriteCheck::Differs
            },
            None => WriteCheck::Missing,
        },
{
    match stored.get_device(adapter_mac, device.mac_address.as_str()) {
        Some(found) => {
            if SyncManager::devices_differ(device, found) {
                WriteCheck::Differs
            } else {
                WriteCheck::Verified
            }
        },
        None => WriteCheck::Missing,
    }
}

/// The document that a run starts from: what was read, or an empty document
/// where none exists yet. A document that could not be read stops the run.
pub fn starting_document(efi: Result<BlueVeinConfig, EfiError>) -> (r: Result<
    Option<BlueVeinConfig>,
    SyncError,
>)
    ensures
        match efi {
            Ok(c) => r == Ok::<Option<BlueVeinConfig>, SyncError>(Some(c)),
            Err(EfiError::NotFound) => r == Ok::<Option<BlueVeinConfig>, SyncError>(None),
            Err(e) => r == Err::<Option<BlueVeinConfig>, SyncError>(SyncError::Efi(e)),
        },
{
    match efi {
        Ok(c) => Ok(Some(c)),
        Err(EfiError::NotFound) => Ok(None),
        Err(e) => Err(SyncError::Efi(e)),
    }
}

/// Whether reading the shared document failed for another reason than that
/// there is none yet.
pub open spec fn read_failed(efi: Result<BlueVeinConfig, EfiError>) -> bool {
    efi is Err && efi != Err::<BlueVeinConfig, EfiError>(EfiError::NotFound)
}

/// The document that was read, or an empty one where none exists yet.
pub open spec fn document_or_empty(efi: Result<BlueVeinConfig, EfiError>) -> ConfigView {
    match efi {
        Ok(c) => c@,
        Err(_) => Map::empty(),
    }
}

/// The document `c` records the device of `u` for the adapter of `u`.
pub open spec fn recorded_in(c: ConfigView, u: DeviceUpdateView) -> bool {
    exists|k: Seq<char>|
        #![trigger device_of(c, u.adapter_mac, k)]
        device_of(c, u.adapter_mac, k) == Some(u.device)
}

/// Whether a map of devices holds any device.
pub open spec fn has_devices(devices: DevicesView) -> bool {
    exists|k: Seq<char>| devices.contains_key(k)
}

/// The document `base` with every device of the reading `system` laid over
/// it: a device that the store holds is recorded as the store holds it; a
/// device that only the document knows stays.
pub open spec fn overlaid(base: ConfigView, system: ConfigView) -> ConfigView {
    Map::new(
        |a: Seq<char>| base.contains_key(a) || (system.contains_key(a) && has_devices(system[a])),
        |a: Seq<char>| devices_of(base, a).union_prefer_right(devices_of(system, a)),
    )
}

/// Laying a reading of the store over the document removes no entry of the
/// document, and records every device of the reading as the store holds
/// it.
pub proof fn lemma_overlaid_entries(
    base: ConfigView,
    system: ConfigView,
    a: Seq<char>,
    k: Seq<char>,
)
    ensures
        device_of(overlaid(base, system), a, k) == if device_of(system, a, k) is Some {
            device_of(system, a, k)
        } else {
            device_of(base, a, k)
        },
{
    if device_of(system, a, k) is Some {
        assert(system[a].contains_key(k));
    }
}

/// `devices` is `held` with those devices of `system` laid over it whose
/// key is one of `done`.
pub open spec fn overlaid_so_far(
    devices: DevicesView,
    held: DevicesView,
    system: DevicesView,
    done: Seq<Seq<char>>,
) -> bool {
    &&& forall|k: Seq<char>|
        #![trigger devices.contains_key(k)]
        #![trigger held.contains_key(k)]
        #![trigger done.contains(k)]
        devices.contains_key(k) <==> (held.contains_key(k) || done.contains(k))
    &&& forall|k: Seq<char>|
        #![trigger done.contains(k)]
        #![trigger devices[k]]
        done.contains(k) ==> devices[k] == system[k]
    &&& forall|k: Seq<char>|
        #![trigger held.contains_key(k)]
        #![trigger devices[k]]
        held.contains_key(k) && !done.contains(k) ==> devices[k] == held[k]
}

/// The document `base` with the devices of the adapters `done` of the
/// reading `system` laid over it.
pub open spec fn overlaid_upto(
    base: ConfigView,
    system: ConfigView,
    done: Seq<Seq<char>>,
) -> ConfigView {
    Map::new(
        |a: Seq<char>|
            base.contains_key(a) || (done.contains(a) && system.contains_key(a) && has_devices(
                system[a],
            )),
        |a: Seq<char>|
            if done.contains(a) {
                devices_of(base, a).union_prefer_right(devices_of(system, a))
            } else {
                devices_of(base, a)
            },
    )
}

/// Lays a reading of the native store over the document.
pub fn overlay_store(base: BlueVeinConfig, system: &BlueVeinConfig) -> (document: BlueVeinConfig)
    ensures
        document@ == overlaid(base@, system@),
{
    let mut document = base;
    let n = system.adapters.len();
    let ghost names = system.adapters.keys();
    let mut i: usize = 0;
    proof {
        assert(names.take(0) =~= Seq::<Seq<char>>::empty());
        assert(document@ =~= overlaid_upto(base@, system@, names.take(0)));
    }
    while i < n
        invariant
            i <= n,
            n == names.len(),
            names == system.adapters.keys(),
            names.no_duplicates(),
            forall|a: Seq<char>| system@.contains_key(a) <==> names.contains(a),
            document@ == overlaid_upto(base@, system@, names.take(i as int)),
        decreases n - i,
    {
        proof {
            lemma_prefix_step(names, i as int);
        }
        let adapter = system.adapters.key_at(i);
        let held = system.adapters.value_at(i);
        let ghost a = adapter@;
        let ghost before = document@;
        let ghost devices = held@;
        let m = held.devices.len();
        let ghost keys = held.devices.keys();
        let mut j: usize = 0;
        proof {
            assert(keys.take(0) =~= Seq::<Seq<char>>::empty());
            assert(devices == system@[a]);
        }
        while j < m
            invariant
                j <= m,
                m == keys.len(),
                keys == held.devices.keys(),
                keys.no_duplicates(),
                devices == held@,
                a == adapter@,
                forall|k: Seq<char>| devices.contains_key(k) <==> keys.contains(k),
                forall|x: Seq<char>|
                    x != a ==> (document@.contains_key(x) <==> before.contains_key(x)),
                forall|x: Seq<char>| x != a && before.contains_key(x) ==> document@[x] == before[x],
                document@.contains_key(a) <==> (before.contains_key(a) || j > 0),
                overlaid_so_far(
                    devices_of(document@, a),
                    devices_of(before, a),
                    devices,
                    keys.take(j as int),
                ),
            decreases m - j,
        {
            proof {
                lemma_prefix_step(keys, j as int);
            }
            let key = held.devices.key_at(j);
            let device = held.devices.value_at(j);
            let ghost was = devices_of(document@, a);
            let ghost kj = keys[j as int];
            let ghost done = keys.take(j as int);
            let ghost next = keys.take(j + 1);
            document.put_device(adapter.clone(), key.clone(), device.clone());
            proof {
                let now = devices_of(document@, a);
                let origin = devices_of(before, a);
                assert(key@ == kj);
                assert(next.contains(kj));
                assert(now =~= was.insert(kj, device@));
                assert forall|k: Seq<char>| now.contains_key(k) <==> (origin.contains_key(k)
                    || next.contains(k)) by {
                    if k != kj {
                        assert(now.contains_key(k) <==> was.contains_key(k));
                        assert(next.contains(k) <==> done.contains(k));
                    }
                }
                assert forall|k: Seq<char>| next.contains(k) implies now[k] == devices[k] by {
                    if k != kj {
                        assert(done.contains(k));
                    }
                }
                assert forall|k: Seq<char>|
                    origin.contains_key(k) && !next.contains(k) implies now[k] == origin[k] by {
                    assert(!done.contains(k));
                    assert(was.contains_key(k));
                }
                assert(overlaid_so_far(now, origin, devices, next));
            }
            j += 1;
        }
        proof {
            assert(keys.take(m as int) == keys);
            let target = overlaid_upto(base@, system@, names.take(i + 1));
            let shorter = names.take(i as int);
            assert(!shorter.contains(a));
            assert(before.contains_key(a) <==> base@.contains_key(a));
            assert(devices_of(before, a) == devices_of(base@, a));
            if m > 0 {
                assert(keys.contains(keys[0]));
                assert(devices.contains_key(keys[0]));
            }
            if has_devices(devices) {
                let k = choose|k: Seq<char>| devices.contains_key(k);
                assert(keys.contains(k));
            }
            let longer = names.take(i + 1);
            assert(longer.contains(a));
            assert(system@.contains_key(a));
            assert(devices_of(system@, a) == devices);
            assert(has_devices(devices) <==> m > 0);
            assert forall|x: Seq<char>| document@.contains_key(x) <==> target.contains_key(x) by {
                assert(target.contains_key(x) <==> (base@.contains_key(x) || (longer.contains(x)
                    && system@.contains_key(x) && has_devices(system@[x]))));
                assert(before.contains_key(x) <==> (base@.contains_key(x) || (shorter.contains(x)
                    && system@.contains_key(x) && has_devices(system@[x]))));
                if x != a {
                    assert(longer.contains(x) <==> shorter.contains(x));
                }
            }
            assert forall|x: Seq<char>| document@.contains_key(x) implies document@[x]
                == target[x] by {
                if x == a {
                    let now = devices_of(document@, a);
                    let origin = devices_of(base@, a);
                    let wanted = origin.union_prefer_right(devices);
                    assert(now == document@[a]);
                    assert forall|k: Seq<char>| now.contains_key(k) <==> wanted.contains_key(
                        k,
                    ) by {}
                    assert forall|k: Seq<char>| now.contains_key(k) implies now[k]
                        == wanted[k] by {
                        if devices.contains_key(k) {
                            assert(keys.contains(k));
                        }
                    }
                    assert(now =~= wanted);
                    assert(target[a] == wanted);
                } else {
                    assert(longer.contains(x) <==> shorter.contains(x));
                    assert(before.contains_key(x));
                    assert(document@[x] == before[x]);
                    assert(target[x] == before[x]);
                }
            }
            assert(document@ =~= target);
        }
        i += 1;
    }
    proof {
        assert(names.take(n as int) == names);
        assert(document@ =~= overlaid(base@, system@)) by {
            assert forall|a: Seq<char>| !names.contains(a) implies devices_of(
                base@,
                a,
            ).union_prefer_right(devices_of(system@, a)) =~= devices_of(base@, a) by {}
        }
    }
    document
}

/// Records a device that changed in the native store in the shared
/// document, under its address. `efi` is what reading the document gave: a
/// document that could not be read stops the change.
pub fn record_device_change(
    adapter_mac: &str,
    device: BluetoothDevice,
    efi: Result<BlueVeinConfig, EfiError>,
) -> (r: Result<DeviceChange, SyncError>)
    ensures
        match r {
            Ok(change) => !read_failed(efi) && change.device == device && change.document@
                == with_device(document_or_empty(efi), adapter_mac@, device@),
            Err(e) => read_failed(efi) && e == SyncError::Efi(efi->Err_0),
        },
{
    let canonical = match starting_document(efi) {
        Ok(c) => c,
        Err(e) => {
            return Err(e);
        },
    };
    let mut document = match canonical {
        Some(c) => c,
        None => BlueVeinConfig::new(),
    };
    document.update_device(adapter_mac.to_owned(), device.clone());
    Ok(DeviceChange { device, document })
}

/// Every device that the document records for one adapter, as an update
/// for that adapter, in the document's order.
pub fn updates_from_document(
    adapter_mac: &str,
    devices: &StrMap<BluetoothDevice>,
) -> (updates: Vec<DeviceUpdate>)
    ensures
        updates.len() == devices.keys().len(),
        forall|i: int|
            0 <= i < updates.len() ==> (#[trigger] updates[i])@ == (DeviceUpdateView {
                adapter_mac: adapter_mac@,
                device: devices@[devices.keys()[i]],
            }) && devices@.contains_key(devices.keys()[i]),
{
    let mut updates: Vec<DeviceUpdate> = Vec::new();
    let n = devices.len();
    let mut i: usize = 0;
    while i < n
        invariant
            i <= n,
            n == devices.keys().len(),
            updates.len() == i,
            forall|j: int|
                0 <= j < i ==> (#[trigger] updates[j])@ == (DeviceUpdateView {
                    adapter_mac: adapter_mac@,
                    device: devices@[devices.keys()[j]],
                }) && devices@.contains_key(devices.keys()[j]),
        decreases n - i,
    {
        let device = devices.value_at(i).clone();
        updates.push(DeviceUpdate { adapter_mac: adapter_mac.to_owned(), device });
        i += 1;
    }
    updates
}

/// The engine. It owns the native store that it synchronizes: a store of
/// one kind `M`, or any store where `M` is left out.
pub struct SyncManager<M: BluetoothManager + ?Sized = dyn BluetoothManager> {
    bt_manager: Box<M>,
}

impl SyncManager {
    /// Whether two devices differ in any key. Their addresses are not
    /// compared.
    pub fn devices_differ(dev1: &BluetoothDevice, dev2: &BluetoothDevice) -> (r: bool)
        ensures
            r == !same_keys(dev1@, dev2@),
    {
        !devices_equal(dev1, dev2)
    }

    /// What the native store should hold for a device that both it and the
    /// shared document know.
    pub fn merge_devices(
        system_device: &BluetoothDevice,
        efi_device: &BluetoothDevice,
    ) -> (r: BluetoothDevice)
        ensures
            r@ == merged_for_sync(system_device@, efi_device@),
    {
        let merged = system_device.merge_with(efi_device);
        let system_local: Option<&CsrkKey> = match &system_device.le {
            Some(le) => le.csrk_local.as_ref(),
            None => None,
        };
        let efi_local: Option<&CsrkKey> = match &efi_device.le {
            Some(le) => le.csrk_local.as_ref(),
            None => None,
        };
        let system_remote: Option<&CsrkKey> = match &system_device.le {
            Some(le) => le.csrk_remote.as_ref(),
            None => None,
        };
        let efi_remote: Option<&CsrkKey> = match &efi_device.le {
            Some(le) => le.csrk_remote.as_ref(),
            None => None,
        };
        let BluetoothDevice { mac_address, classic, le } = merged;
        let le = match le {
            Some(keys) => {
                let mut keys = keys;
                keys.csrk_local = merge_csrk(system_local, efi_local);
                keys.csrk_remote = merge_csrk(system_remote, efi_remote);
                Some(keys)
            },
            None => None,
        };
        BluetoothDevice { mac_address, classic, le }
    }
}

impl<M: BluetoothManager + ?Sized> SyncManager<M> {
    /// The native store that the engine owns.
    pub closed spec fn store(&self) -> Box<M> {
        self.bt_manager
    }

    /// An engine that owns the given native store.
    pub fn new(bt_manager: Box<M>) -> (r: Self)
        ensures
            r.store() == bt_manager,
    {
        SyncManager { bt_manager }
    }

    /// Reads the devices of each adapter from the native store, in the
    /// order of `adapters`, and records each reading as [`record_reading`]
    /// does: an adapter whose devices cannot be read, or that has none, is
    /// left out.
    pub fn read_system_state(&self, adapters: &Vec<String>) -> (system: BlueVeinConfig)
        ensures
            exists|readings: Seq<Reading>|
                readings.len() == adapters.len() && system@ == #[trigger] snapshot_of(
                    adapters@,
                    readings,
                    adapters.len() as nat,
                ),
            is_snapshot(system@, adapters@),
    {
        let mut system = BlueVeinConfig::new();
        let ghost mut readings: Seq<Reading> = Seq::empty();
        let mut i: usize = 0;
        while i < adapters.len()
            invariant
                i <= adapters.len(),
                readings.len() == i,
                system@ == snapshot_of(adapters@, readings, i as nat),
            decreases adapters.len() - i,
        {
            let adapter = &adapters[i];
            let reading = self.bt_manager.get_devices(adapter.as_str());
            proof {
                lemma_snapshot_of_prefix(adapters@, readings, readings.push(reading), i as nat);
                readings = readings.push(reading);
            }
            record_reading(&mut system, adapter.as_str(), reading);
            i += 1;
        }
        proof {
            lemma_snapshot_of_is_snapshot(adapters@, readings, adapters.len() as nat);
        }
        system
    }

    /// Hands each update to the native store, in order. A refusal is
    /// recorded and does not stop the others.
    pub fn apply_updates(&mut self, updates: Vec<DeviceUpdate>) -> (results: Vec<UpdateResult>)
        ensures
            result_updates(results@) == update_views(updates@),
    {
        let mut results: Vec<UpdateResult> = Vec::new();
        let mut pending = updates;
        let ghost all = update_views(updates@);
        while pending.len() > 0
            invariant
                result_updates(results@) + update_views(pending@) == all,
            decreases pending.len(),
        {
            let ghost before = result_updates(results@);
            let ghost rest = update_views(pending@);
            let update = pending.remove(0);
            let error = match self.bt_manager.set_device(
                update.adapter_mac.as_str(),
                &update.device,
            ) {
                Ok(()) => None,
                Err(e) => Some(e),
            };
            results.push(UpdateResult { update, error });
            proof {
                assert(result_updates(results@) =~= before.push(rest[0]));
                assert(update_views(pending@) =~= rest.drop_first());
                assert(before.push(rest[0]) + rest.drop_first() =~= before + rest);
            }
        }
        assert(result_updates(results@) =~= all);
        results
    }

    /// Brings the native store and the shared document in step.
    ///
    /// `efi` is what reading the shared document gave. Every device that
    /// both sides hold gets the document's keys in the native store, where
    /// they differ from what it has; no device is created there. Every
    /// device that only the native store holds is added to the document.
    /// The outcome carries the document to be written back.
    pub fn sync_bidirectional(&mut self, efi: Result<BlueVeinConfig, EfiError>) -> (r: Result<
        SyncOutcome,
        SyncError,
    >)
        ensures
            read_failed(efi) ==> r == Err::<SyncOutcome, SyncError>(SyncError::Efi(efi->Err_0))
                && *final(self) == *old(self),
            !read_failed(efi) ==> !(r matches Err(SyncError::Efi(_))),
            r matches Err(_) ==> *final(self) == *old(self),
            r matches Ok(out) ==> {
                &&& is_snapshot(out.system@, out.adapters@)
                &&& match efi {
                    Ok(c) => {
                        &&& out.document@ == synced_document(c@, out.adapters@, out.system@)
                        &&& result_updates(out.updates@) == planned_updates(
                            c,
                            out.adapters@,
                            out.system@,
                        )
                        &&& forall|i: int|
                            0 <= i < out.updates.len() ==> is_planned(
                                c@,
                                out.adapters@,
                                out.system@,
                                (#[trigger] out.updates[i]).update@,
                            )
                        &&& forall|u: DeviceUpdateView|
                            is_planned(c@, out.adapters@, out.system@, u) ==> result_updates(
                                out.updates@,
                            ).contains(u)
                    },
                    Err(_) => out.document@ == out.system@ && out.updates.len() == 0,
                }
            },
    {
        let canonical = match starting_document(efi) {
            Ok(c) => c,
            Err(e) => {
                return Err(e);
            },
        };
        let adapters = match self.bt_manager.get_adapters() {
            Ok(a) => a,
            Err(e) => {
                return Err(SyncError::Store(e));
            },
        };
        let system = self.read_system_state(&adapters);
        match canonical {
            Some(c) => {
                let updates = self.reconcile(&c, &adapters, &system);
                let document = add_new_devices(c, &adapters, &system);
                Ok(SyncOutcome { adapters, system, updates, document })
            },
            None => {
                let document = system.clone();
                Ok(SyncOutcome { adapters, system, updates: Vec::new(), document })
            },
        }
    }

    /// Writes every device that the shared document records for an adapter
    /// of this machine to the native store. Without a document there is
    /// nothing to do.
    pub fn sync_from_efi(&mut self, efi: Result<BlueVeinConfig, EfiError>) -> (r: Result<
        Vec<UpdateResult>,
        SyncError,
    >)
        ensures
            read_failed(efi) ==> r == Err::<Vec<UpdateResult>, SyncError>(
                SyncError::Efi(efi->Err_0),
            ),
            !read_failed(efi) ==> !(r matches Err(SyncError::Efi(_))),
            r matches Err(_) ==> *final(self) == *old(self),
            efi is Err ==> *final(self) == *old(self),
            efi == Err::<BlueVeinConfig, EfiError>(EfiError::NotFound) ==> (r matches Ok(results)
                && results.len() == 0),
            r matches Ok(results) ==> {
                &&& efi is Err ==> results.len() == 0
                &&& forall|i: int|
                    0 <= i < results.len() ==> recorded_in(
                        document_or_empty(efi),
                        (#[trigger] results[i]).update@,
                    )
            },
    {
        let canonical = match starting_document(efi) {
            Ok(c) => c,
            Err(e) => {
                return Err(e);
            },
        };
        let config = match canonical {
            Some(c) => c,
            None => {
                return Ok(Vec::new());
            },
        };
        let adapters = match self.bt_manager.get_adapters() {
            Ok(a) => a,
            Err(e) => {
                return Err(SyncError::Store(e));
            },
        };
        let mut planned: Vec<DeviceUpdate> = Vec::new();
        let mut i: usize = 0;
        while i < adapters.len()
            invariant
                i <= adapters.len(),
                forall|j: int|
                    0 <= j < planned.len() ==> recorded_in(config@, (#[trigger] planned[j])@),
            decreases adapters.len() - i,
        {
            let adapter = adapters[i].as_str();
            match config.get_adapter_devices(adapter) {
                Some(devices) => {
                    let ghost before = planned@;
                    let mut fresh = updates_from_document(adapter, devices);
                    let ghost added = fresh@;
                    planned.append(&mut fresh);
                    proof {
                        assert forall|j: int| 0 <= j < planned.len() implies recorded_in(
                            config@,
                            (#[trigger] planned[j])@,
                        ) by {
                            if j < before.len() {
                                assert(planned[j] == before[j]);
                            } else {
                                let x = j - before.len();
                                assert(planned[j] == added[x]);
                                let k = devices.keys()[x];
                                assert(device_of(config@, added[x]@.adapter_mac, k) == Some(
                                    added[x]@.device,
                                ));
                            }
                        }
                    }
                },
                None => {},
            }
            i += 1;
        }
        let ghost planned_all = planned@;
        let results = self.apply_updates(planned);
        proof {
            assert forall|j: int| 0 <= j < results.len() implies recorded_in(
                config@,
                (#[trigger] results[j]).update@,
            ) by {
                assert(result_updates(results@).len() == results@.len());
                assert(update_views(planned_all).len() == planned_all.len());
                assert(result_updates(results@)[j] == results[j].update@);
                assert(update_views(planned_all)[j] == planned_all[j]@);
            }
        }
        Ok(results)
    }

    /// Takes what the native store holds over into the shared document.
    ///
    /// `efi` is what reading the shared document gave. Every device that
    /// the store reports is recorded as the store holds it; a device that
    /// only the document knows stays, as does every adapter of another
    /// machine. The native store is only read. The outcome carries the
    /// document to be written back.
    pub fn sync_to_efi(&mut self, efi: Result<BlueVeinConfig, EfiError>) -> (r: Result<
        SyncOutcome,
        SyncError,
    >)
        ensures
            *final(self) == *old(self),
            read_failed(efi) ==> r == Err::<SyncOutcome, SyncError>(SyncError::Efi(efi->Err_0)),
            !read_failed(efi) ==> !(r matches Err(SyncError::Efi(_))),
            r matches Ok(out) ==> {
                &&& is_snapshot(out.system@, out.adapters@)
                &&& out.updates.len() == 0
                &&& out.document@ == overlaid(document_or_empty(efi), out.system@)
            },
    {
        let canonical = match starting_document(efi) {
            Ok(c) => c,
            Err(e) => {
                return Err(e);
            },
        };
        let base = match canonical {
            Some(c) => c,
            None => BlueVeinConfig::new(),
        };
        let adapters = match self.bt_manager.get_adapters() {
            Ok(a) => a,
            Err(e) => {
                return Err(SyncError::Store(e));
            },
        };
        let system = self.read_system_state(&adapters);
        let document = overlay_store(base, &system);
        Ok(SyncOutcome { adapters, system, updates: Vec::new(), document })
    }

    /// Asks the native store for one device.
    pub fn read_device(&self, adapter_mac: &str, device_mac: &str) -> (r: Result<
        BluetoothDevice,
        SyncError,
    >)
        ensures
            !(r matches Err(SyncError::Efi(_))),
    {
        match self.bt_manager.get_device(adapter_mac, device_mac) {
            Ok(d) => Ok(d),
            Err(e) => Err(SyncError::Store(e)),
        }
    }

    /// Takes a device that changed in the native store over into the
    /// shared document.
    ///
    /// `efi` is what reading the shared document gave. The device is read
    /// from the native store and recorded under its address, replacing what
    /// the document held for it: the native store is the authority for a
    /// device that has just changed. The native store is only read. A
    /// caller that wants to ask the store before it reads the document
    /// calls [`Self::read_device`] and [`record_device_change`] in turn.
    pub fn handle_device_change(
        &mut self,
        adapter_mac: &str,
        device_mac: &str,
        efi: Result<BlueVeinConfig, EfiError>,
    ) -> (r: Result<DeviceChange, SyncError>)
        ensures
            *final(self) == *old(self),
            r matches Err(SyncError::Efi(e)) ==> read_failed(efi) && efi == Err::<
                BlueVeinConfig,
                EfiError,
            >(e),
            r matches Ok(change) ==> !read_failed(efi) && change.document@ == with_device(
                document_or_empty(efi),
                adapter_mac@,
                change.device@,
            ),
    {
        let device = match self.read_device(adapter_mac, device_mac) {
            Ok(d) => d,
            Err(e) => {
                return Err(e);
            },
        };
        record_device_change(adapter_mac, device, efi)
    }

    /// Takes note that a device left the native store. Neither the native
    /// store nor the shared document is touched: the device may still be
    /// paired under the other operating system.
    pub fn handle_device_removal(&mut self, adapter_mac: &str, device_mac: &str) -> (r: Result<
        (),
        SyncError,
    >)
        ensures
            r is Ok,
            *final(self) == *old(self),
    {
        Ok(())
    }

    /// Hands the native store the updates that the document asks for, for
    /// the devices of a reading of the store.
    fn reconcile(
        &mut self,
        canonical: &BlueVeinConfig,
        adapters: &Vec<String>,
        system: &BlueVeinConfig,
    ) -> (updates: Vec<UpdateResult>)
        ensures
            result_updates(updates@) == planned_updates(*canonical, adapters@, system@),
            forall|i: int|
                0 <= i < updates.len() ==> is_planned(
                    canonical@,
                    adapters@,
                    system@,
                    (#[trigger] updates[i]).update@,
                ),
            forall|u: DeviceUpdateView|
                is_planned(canonical@, adapters@, system@, u) ==> result_updates(
                    updates@,
                ).contains(u),
    {
        let planned = plan_updates(canonical, adapters, system);
        let ghost planned_all = planned@;
        let updates = self.apply_updates(planned);
        proof {
            let views = update_views(planned_all);
            assert forall|i: int| 0 <= i < updates.len() implies is_planned(
                canonical@,
                adapters@,
                system@,
                (#[trigger] updates[i]).update@,
            ) by {
                assert(result_updates(updates@).len() == updates@.len());
                assert(views.len() == planned_all.len());
                assert(result_updates(updates@)[i] == updates[i].update@);
                assert(views[i] == planned_all[i]@);
            }
        }
        updates
    }

    /// Applies what the shared document holds to the devices that the
    /// native store already knows: the half of a bidirectional run that
    /// writes to the store. No device is created there, and the document is
    /// not changed. A refusal of the store is recorded with its update and
    /// does not stop the others. Without a document there is nothing to do.
    pub fn check_efi_changes(&mut self, efi: Result<BlueVeinConfig, EfiError>) -> (r: Result<
        CheckOutcome,
        SyncError,
    >)
        ensures
            read_failed(efi) ==> r == Err::<CheckOutcome, SyncError>(SyncError::Efi(efi->Err_0)),
            !read_failed(efi) ==> !(r matches Err(SyncError::Efi(_))),
            efi == Err::<BlueVeinConfig, EfiError>(EfiError::NotFound) ==> (r matches Ok(out)
                && out.adapters.len() == 0 && out.updates.len() == 0),
            efi is Err ==> *final(self) == *old(self),
            r matches Err(_) ==> *final(self) == *old(self),
            r matches Ok(out) ==> {
                &&& is_snapshot(out.system@, out.adapters@)
                &&& efi matches Ok(c) ==> {
                    &&& result_updates(out.updates@) == planned_updates(
                        c,
                        out.adapters@,
                        out.system@,
                    )
                    &&& forall|i: int|
                        0 <= i < out.updates.len() ==> is_planned(
                            c@,
                            out.adapters@,
                            out.system@,
                            (#[trigger] out.updates[i]).update@,
                        )
                    &&& forall|u: DeviceUpdateView|
                        is_planned(c@, out.adapters@, out.system@, u) ==> result_updates(
                            out.updates@,
                        ).contains(u)
                }
            },
    {
        let canonical = match starting_document(efi) {
            Ok(c) => c,
            Err(e) => {
                return Err(e);
            },
        };
        let config = match canonical {
            Some(c) => c,
            None => {
                return Ok(
                    CheckOutcome {
                        adapters: Vec::new(),
                        system: BlueVeinConfig::new(),
                        updates: Vec::new(),
                    },
                );
            },
        };
        let adapters = match self.bt_manager.get_adapters() {
            Ok(a) => a,
            Err(e) => {
                return Err(SyncError::Store(e));
            },
        };
        let system = self.read_system_state(&adapters);
        let updates = self.reconcile(&config, &adapters, &system);
        Ok(CheckOutcome { adapters, system, updates })
    }
}

} // verus!
