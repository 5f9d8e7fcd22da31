//! The values of the registry store, and how they stand for the keys of the
//! credential model.
//!
//! The registry holds keys as raw bytes and addresses as twelve
//! hexadecimal digits. Reading and writing the registry itself is the
//! caller's part; this module turns what was read into devices, and devices
//! into what is to be written.

use crate::bluetooth::{
    classic_view, is_valid_key, key_error, key_error_views, le_view, normalize_mac,
    normalized_mac, note_refused, refused, string_view, validate_bluetooth_key, BluetoothDevice,
    BluetoothDeviceView, ClassicKeys, ClassicKeysView, CsrkKey, CsrkKeyView, KeyError,
    KeyErrorView, LeKeys, LeKeysView, LeLongTermKey, LeLongTermKeyView, StoreError,
    StoreErrorView,
};
use crate::config::DevicesView;
use crate::strmap::StrMap;
use crate::sync::keyed_by_address;
use crate::text::{all_hex, ascii_upper, ascii_uppercase, is_digit, is_hex_digit, upper_all};
use vstd::prelude::*;
use vstd::string::StringExecFns;

verus! {

/// The error of `hex::decode`.
#[verifier::external_type_specification]
#[verifier::external_body]
pub struct ExFromHexError(hex::FromHexError);

/// The hexadecimal digit for a number below sixteen, in lower case.
pub open spec fn hex_digit(n: int) -> char
    recommends
        0 <= n < 16,
{
    if n < 10 {
        ((48 + n) as u8) as char
    } else {
        ((87 + n) as u8) as char
    }
}

/// Two lower-case hexadecimal digits for each byte, the high half first.
pub open spec fn hex_lower(bytes: Seq<u8>) -> Seq<char> {
    Seq::new(
        2 * bytes.len(),
        |i: int|
            if i % 2 == 0 {
                hex_digit(bytes[i / 2] as int / 16)
            } else {
                hex_digit(bytes[i / 2] as int % 16)
            },
    )
}

/// The number that a hexadecimal digit stands for.
pub open spec fn hex_value(c: char) -> int
    recommends
        is_hex_digit(c),
{
    if is_digit(c) {
        c as int - 48
    } else if 'a' <= c && c <= 'f' {
        c as int - 87
    } else {
        c as int - 55
    }
}

/// One byte for each pair of hexadecimal digits, the high half first.
pub open spec fn hex_bytes(s: Seq<char>) -> Seq<u8>
    recommends
        all_hex(s),
        s.len() % 2 == 0,
{
    Seq::new(s.len() / 2, |i: int| (hex_value(s[2 * i]) * 16 + hex_value(s[2 * i + 1])) as u8)
}

/// `hex::encode` spells each byte as two lower-case hexadecimal digits, the
/// high half first, with nothing between the bytes.
#[verifier::external_body]
pub(crate) fn hex_encode(bytes: &[u8]) -> (s: String)
    ensures
        s@ == hex_lower(bytes@),
{
    hex::encode(bytes)
}

/// `hex::decode` accepts a text of hexadecimal digits of either case, in
/// even number, and nothing else; it gives one byte for each pair of
/// digits, the high half first.
#[verifier::external_body]
fn hex_decode(s: &str) -> (r: Result<Vec<u8>, hex::FromHexError>)
    ensures
        r is Ok <==> (all_hex(s@) && s@.len() % 2 == 0),
        r matches Ok(bytes) ==> bytes@ == hex_bytes(s@),
{
    hex::decode(s)
}

/// The key that the registry holds as `bytes`: their hexadecimal spelling
/// in capitals.
pub open spec fn registry_key_text(bytes: Seq<u8>) -> Seq<char> {
    upper_all(hex_lower(bytes))
}

/// The bytes of the registry spell a valid key exactly when there are
/// sixteen of them.
pub proof fn lemma_registry_key_length(bytes: Seq<u8>)
    ensures
        registry_key(bytes) is Some <==> bytes.len() == 16,
        registry_key_text(bytes).len() == 2 * bytes.len(),
        all_hex(registry_key_text(bytes)),
{
    let text = registry_key_text(bytes);
    assert forall|i: int| 0 <= i < text.len() implies is_hex_digit(#[trigger] text[i]) by {
        let b = bytes[i / 2] as int;
        assert(0 <= b / 16 < 16 && 0 <= b % 16 < 16);
        let n = if i % 2 == 0 {
            b / 16
        } else {
            b % 16
        };
        assert(hex_lower(bytes)[i] == hex_digit(n));
        assert(text[i] == ascii_upper(hex_digit(n)));
    }
}

/// The key that the registry holds as `bytes`, if it is a valid key.
pub open spec fn registry_key(bytes: Seq<u8>) -> Option<Seq<char>> {
    if is_valid_key(registry_key_text(bytes)) {
        Some(registry_key_text(bytes))
    } else {
        None
    }
}

/// The key of an optional value.
pub open spec fn optional_registry_key(value: Option<Vec<u8>>) -> Option<Seq<char>> {
    match value {
        Some(bytes) => registry_key(bytes@),
        None => None,
    }
}

/// The values of the subkey that the Low-Energy tree holds for a device.
/// The registry keeps neither counter nor authenticated flag for the
/// signature keys.
#[derive(Debug, PartialEq, Eq)]
pub struct LeRegistryValues {
    /// `LTK`, binary.
    pub ltk: Option<Vec<u8>>,
    /// `Authenticated`, a 32-bit number.
    pub authenticated: Option<u32>,
    /// `KeyLength`, a 32-bit number.
    pub key_length: Option<u32>,
    /// `EDIV`, a 32-bit number.
    pub ediv: Option<u32>,
    /// `ERand`, a 64-bit number.
    pub erand: Option<u64>,
    /// `IRK`, binary.
    pub irk: Option<Vec<u8>>,
    /// `CSRK`, binary.
    pub csrk: Option<Vec<u8>>,
    /// `CSRKInbound`, binary.
    pub csrk_inbound: Option<Vec<u8>>,
}

pub open spec fn low_byte(v: Option<u32>) -> Option<u8> {
    match v {
        Some(n) => Some((n % 256) as u8),
        None => None,
    }
}

pub open spec fn low_word(v: Option<u32>) -> Option<u16> {
    match v {
        Some(n) => Some((n % 65536) as u16),
        None => None,
    }
}

/// The signature key that the registry holds as `value`: the registry has
/// no counter and no flag for it, so the key comes as new.
pub open spec fn registry_csrk(value: Option<Vec<u8>>) -> Option<CsrkKeyView> {
    match optional_registry_key(value) {
        Some(k) => Some(CsrkKeyView { key: k, counter: 0, authenticated: false }),
        None => None,
    }
}

/// The Low-Energy fields that the values of a device subkey give. The
/// numbers beside the long-term key count only with a valid long-term key;
/// of a number that is wider than its field, the low bits are taken.
pub open spec fn registry_le_fields(v: LeRegistryValues) -> LeKeysView {
    LeKeysView {
        ltk: match optional_registry_key(v.ltk) {
            Some(k) => Some(
                LeLongTermKeyView {
                    key: k,
                    authenticated: low_byte(v.authenticated),
                    enc_size: low_byte(v.key_length),
                    ediv: low_word(v.ediv),
                    rand: v.erand,
                },
            ),
            None => None,
        },
        peripheral_ltk: None,
        irk: optional_registry_key(v.irk),
        csrk_local: registry_csrk(v.csrk),
        csrk_remote: registry_csrk(v.csrk_inbound),
        address_type: None,
    }
}

/// The Low-Energy keys of a device subkey: none where no key in it is
/// valid.
pub open spec fn registry_le(v: LeRegistryValues) -> Option<LeKeysView> {
    let le = registry_le_fields(v);
    if le.ltk is Some || le.irk is Some || le.csrk_local is Some || le.csrk_remote is Some {
        Some(le)
    } else {
        None
    }
}

/// The error for a binary value, if it is there and spells no valid key.
pub open spec fn refused_value(value: Option<Vec<u8>>, label: Seq<char>) -> Seq<KeyErrorView> {
    match value {
        Some(bytes) => refused(Some(registry_key_text(bytes@)), label),
        None => Seq::empty(),
    }
}

/// The values of a device subkey that spell no valid key and are therefore
/// left out, in the order long-term key, identity key, local and remote
/// signature key.
pub open spec fn refused_registry_keys(v: LeRegistryValues) -> Seq<KeyErrorView> {
    refused_value(v.ltk, "LTK"@) + refused_value(v.irk, "IRK"@) + refused_value(
        v.csrk,
        "CSRK (Local)"@,
    ) + refused_value(v.csrk_inbound, "CSRK (Remote)"@)
}

/// The Low-Energy keys that were read from a device subkey.
#[derive(Debug, PartialEq)]
pub struct LeRead {
    /// The keys, none where no value spells a valid key.
    pub keys: Option<LeKeys>,
    /// The values that were left out because they spell no valid key.
    pub skipped: Vec<KeyError>,
}

/// The devices that were read for an adapter.
#[derive(Debug, PartialEq)]
pub struct DevicesRead {
    /// The devices, each once.
    pub devices: Vec<BluetoothDevice>,
    /// The values that were left out because they spell no valid key, in
    /// the order in which they were read.
    pub skipped: Vec<KeyError>,
}

/// The link keys among `entries` that are refused, in order.
pub open spec fn refused_classic_entries(entries: Seq<ClassicEntry>) -> Seq<KeyErrorView>
    decreases entries.len(),
{
    if entries.len() == 0 {
        Seq::empty()
    } else {
        refused_classic_entries(entries.drop_last()) + refused(
            Some(registry_key_text(entries.last().value@)),
            "LinkKey"@,
        )
    }
}

/// The Low-Energy values among `entries` that are refused, in order.
pub open spec fn refused_le_entries(entries: Seq<LeEntry>) -> Seq<KeyErrorView>
    decreases entries.len(),
{
    if entries.len() == 0 {
        Seq::empty()
    } else {
        refused_le_entries(entries.drop_last()) + refused_registry_keys(entries.last().values)
    }
}

/// The bytes of a key that is to be written, if the key is valid.
pub open spec fn key_bytes(key: Option<Seq<char>>) -> Option<Seq<u8>> {
    match key {
        Some(k) => if is_valid_key(k) {
            Some(hex_bytes(k))
        } else {
            None
        },
        None => None,
    }
}

pub open spec fn bytes_view(v: Option<Vec<u8>>) -> Option<Seq<u8>> {
    match v {
        Some(b) => Some(b@),
        None => None,
    }
}

pub open spec fn wide_u8(v: Option<u8>) -> Option<u32> {
    match v {
        Some(n) => Some(n as u32),
        None => None,
    }
}

pub open spec fn wide_u16(v: Option<u16>) -> Option<u32> {
    match v {
        Some(n) => Some(n as u32),
        None => None,
    }
}

pub open spec fn ltk_key_of(le: LeKeysView) -> Option<Seq<char>> {
    match le.ltk {
        Some(k) => Some(k.key),
        None => None,
    }
}

pub open spec fn csrk_local_key_of(le: LeKeysView) -> Option<Seq<char>> {
    match le.csrk_local {
        Some(k) => Some(k.key),
        None => None,
    }
}

pub open spec fn csrk_remote_key_of(le: LeKeysView) -> Option<Seq<char>> {
    match le.csrk_remote {
        Some(k) => Some(k.key),
        None => None,
    }
}

/// The keys of `le` that are not valid and are therefore not written, in
/// the order long-term key, identity key, local and remote signature key.
pub open spec fn refused_le_keys(le: LeKeysView) -> Seq<KeyErrorView> {
    refused(ltk_key_of(le), "LTK"@) + refused(le.irk, "IRK"@) + refused(
        csrk_local_key_of(le),
        "CSRK (Local)"@,
    ) + refused(csrk_remote_key_of(le), "CSRK (Remote)"@)
}

/// What the writing of Low-Energy keys comes to.
#[derive(Debug, PartialEq)]
pub struct LeRegistryWrite {
    /// The values that are to be written to the device subkey. A value that
    /// is absent here is left as the registry has it.
    pub values: LeRegistryValues,
    /// The keys that were left out because they are not valid.
    pub skipped: Vec<KeyError>,
}

/// The view of the values that are to be written.
pub struct LeRegistryValuesView {
    pub ltk: Option<Seq<u8>>,
    pub authenticated: Option<u32>,
    pub key_length: Option<u32>,
    pub ediv: Option<u32>,
    pub erand: Option<u64>,
    pub irk: Option<Seq<u8>>,
    pub csrk: Option<Seq<u8>>,
    pub csrk_inbound: Option<Seq<u8>>,
}

impl View for LeRegistryValues {
    type V = LeRegistryValuesView;

    open spec fn view(&self) -> LeRegistryValuesView {
        LeRegistryValuesView {
            ltk: bytes_view(self.ltk),
            authenticated: self.authenticated,
            key_length: self.key_length,
            ediv: self.ediv,
            erand: self.erand,
            irk: bytes_view(self.irk),
            csrk: bytes_view(self.csrk),
            csrk_inbound: bytes_view(self.csrk_inbound),
        }
    }
}

/// The values that writing `le` puts into the device subkey: each valid key
/// as its bytes; with a valid long-term key its numbers, the authenticated
/// flag as 0 where the key has none. The peripheral long-term key and the
/// address type have no place in the registry.
pub open spec fn le_registry_values(le: LeKeysView) -> LeRegistryValuesView {
    let ltk_valid = key_bytes(ltk_key_of(le)) is Some;
    LeRegistryValuesView {
        ltk: key_bytes(ltk_key_of(le)),
        authenticated: if ltk_valid {
            Some(
                match le.ltk->0.authenticated {
                    Some(a) => a as u32,
                    None => 0u32,
                },
            )
        } else {
            None
        },
        key_length: if ltk_valid {
            wide_u8(le.ltk->0.enc_size)
        } else {
            None
        },
        ediv: if ltk_valid {
            wide_u16(le.ltk->0.ediv)
        } else {
            None
        },
        erand: if ltk_valid {
            le.ltk->0.rand
        } else {
            None
        },
        irk: key_bytes(le.irk),
        csrk: key_bytes(csrk_local_key_of(le)),
        csrk_inbound: key_bytes(csrk_remote_key_of(le)),
    }
}

/// The sentence that reports a device that the registry does not hold.
pub open spec fn not_found_message(device_mac: Seq<char>) -> Seq<char> {
    "Device "@ + device_mac + " not found"@
}

/// A binary value of an adapter's subkey in the Classic tree, under its
/// name.
#[derive(Debug, PartialEq, Eq)]
pub struct ClassicEntry {
    pub name: String,
    pub value: Vec<u8>,
}

/// A subkey of an adapter's subkey in the Low-Energy tree, under its name.
#[derive(Debug, PartialEq, Eq)]
pub struct LeEntry {
    pub name: String,
    pub values: LeRegistryValues,
}

/// The addresses already found, with the addresses that `names` spell added
/// in order, each once.
pub open spec fn with_adapters(found: Seq<Seq<char>>, names: Seq<String>) -> Seq<Seq<char>>
    decreases names.len(),
{
    if names.len() == 0 {
        found
    } else {
        let before = with_adapters(found, names.drop_last());
        let mac = normalized_mac(names.last()@);
        if before.contains(mac) {
            before
        } else {
            before.push(mac)
        }
    }
}

/// The addresses that a list of strings spells.
pub open spec fn string_views(list: Seq<String>) -> Seq<Seq<char>> {
    Seq::new(list.len(), |i: int| list[i]@)
}

/// Adding addresses keeps a list free of duplicates.
pub proof fn lemma_with_adapters_distinct(found: Seq<Seq<char>>, names: Seq<String>)
    requires
        found.no_duplicates(),
    ensures
        with_adapters(found, names).no_duplicates(),
    decreases names.len(),
{
    if names.len() > 0 {
        lemma_with_adapters_distinct(found, names.drop_last());
    }
}

/// The device under `mac`, or a device without keys where there is none.
pub open spec fn device_or_blank(m: DevicesView, mac: Seq<char>) -> BluetoothDeviceView {
    if m.contains_key(mac) {
        m[mac]
    } else {
        BluetoothDeviceView { mac_address: mac, classic: None, le: None }
    }
}

/// The Classic keys of a value of the Classic tree.
pub open spec fn registry_classic(value: Seq<u8>) -> Option<ClassicKeysView> {
    match registry_key(value) {
        Some(k) => Some(ClassicKeysView { link_key: k, key_type: 4, pin_length: 0 }),
        None => None,
    }
}

/// The devices `m` with the link keys of `entries` added, in order. An
/// entry whose value is no valid key adds nothing.
pub open spec fn with_classic_entries(m: DevicesView, entries: Seq<ClassicEntry>) -> DevicesView
    decreases entries.len(),
{
    if entries.len() == 0 {
        m
    } else {
        let before = with_classic_entries(m, entries.drop_last());
        let mac = normalized_mac(entries.last().name@);
        match registry_classic(entries.last().value@) {
            Some(c) => before.insert(
                mac,
                BluetoothDeviceView { classic: Some(c), ..device_or_blank(before, mac) },
            ),
            None => before,
        }
    }
}

/// The devices `m` with the Low-Energy keys of `entries` added, in order.
/// An entry without a valid key adds nothing.
pub open spec fn with_le_entries(m: DevicesView, entries: Seq<LeEntry>) -> DevicesView
    decreases entries.len(),
{
    if entries.len() == 0 {
        m
    } else {
        let before = with_le_entries(m, entries.drop_last());
        let mac = normalized_mac(entries.last().name@);
        match registry_le(entries.last().values) {
            Some(le) => before.insert(
                mac,
                BluetoothDeviceView { le: Some(le), ..device_or_blank(before, mac) },
            ),
            None => before,
        }
    }
}

/// The devices of an adapter: those that the Classic tree holds a valid
/// link key for, and those that the Low-Energy tree holds a valid key for,
/// each under its canonical address with the keys of both trees.
pub open spec fn registry_devices(classic: Seq<ClassicEntry>, le: Seq<LeEntry>) -> DevicesView {
    with_le_entries(with_classic_entries(Map::empty(), classic), le)
}

/// The devices of a map, in the order of their keys.
pub fn device_list(devices: &StrMap<BluetoothDevice>) -> (list: Vec<BluetoothDevice>)
    ensures
        list.len() == devices.keys().len(),
        forall|i: int|
            0 <= i < list.len() ==> devices@.contains_key(#[trigger] devices.keys()[i]),
        forall|i: int|
            #![trigger list[i]]
            0 <= i < list.len() ==> list[i]@ == devices@[devices.keys()[i]],
{
    let mut list: Vec<BluetoothDevice> = Vec::new();
    let n = devices.len();
    let mut i: usize = 0;
    while i < n
        invariant
            i <= n,
            n == devices.keys().len(),
            list.len() == i,
            forall|j: int| 0 <= j < i ==> devices@.contains_key(#[trigger] devices.keys()[j]),
            forall|j: int|
                #![trigger list[j]]
                0 <= j < i ==> list[j]@ == devices@[devices.keys()[j]],
        decreases n - i,
    {
        let device = devices.value_at(i).clone();
        list.push(device);
        i += 1;
    }
    list
}

/// The registry pairing store's codec.
#[derive(Debug, Clone, Copy, PartialEq, Eq)]
pub struct WindowsBluetoothManager;

impl WindowsBluetoothManager {
    pub fn new() -> (r: Result<Self, StoreError>)
        ensures
            r is Ok,
    {
        Ok(WindowsBluetoothManager)
    }

    /// The key that a binary value holds: its hexadecimal spelling in
    /// capitals, if that is a valid key; if not, the error that says why.
    pub fn key_from_value(bytes: &Vec<u8>, label: &str) -> (r: Result<String, KeyError>)
        ensures
            match r {
                Ok(key) => registry_key(bytes@) == Some(key@),
                Err(e) => registry_key(bytes@) is None && e@ == key_error(
                    registry_key_text(bytes@),
                    label@,
                ),
            },
    {
        let key = ascii_uppercase(hex_encode(bytes.as_slice()).as_str());
        match validate_bluetooth_key(key.as_str(), label) {
            Ok(()) => Ok(key),
            Err(e) => Err(e),
        }
    }

    fn optional_key(value: &Option<Vec<u8>>, label: &str) -> (r: Option<String>)
        ensures
            string_view(r) == optional_registry_key(*value),
    {
        match value {
            Some(bytes) => match Self::key_from_value(bytes, label) {
                Ok(key) => Some(key),
                Err(_) => None,
            },
            None => None,
        }
    }

    fn note_refused_value(value: &Option<Vec<u8>>, label: &str, skipped: &mut Vec<KeyError>)
        ensures
            key_error_views(final(skipped)@) == key_error_views(old(skipped)@) + refused_value(
                *value,
                label@,
            ),
    {
        let ghost before = key_error_views(skipped@);
        match value {
            Some(bytes) => {
                let key = ascii_uppercase(hex_encode(bytes.as_slice()).as_str());
                note_refused(key.as_str(), label, skipped);
            },
            None => {
                assert(key_error_views(skipped@) =~= before + Seq::<KeyErrorView>::empty());
            },
        }
    }

    /// The Classic keys of a device, from the binary value that the Classic
    /// tree holds under the device's name: the link key, which must be
    /// sixteen bytes. The registry holds neither key type nor PIN length. A
    /// value that is no link key is refused with the error that says why.
    pub fn read_classic_device(value: &Vec<u8>) -> (r: Result<ClassicKeys, KeyError>)
        ensures
            match r {
                Ok(keys) => registry_classic(value@) == Some(keys@),
                Err(e) => registry_classic(value@) is None && e@ == key_error(
                    registry_key_text(value@),
                    "LinkKey"@,
                ),
            },
    {
        match Self::key_from_value(value, "LinkKey") {
            Ok(link_key) => Ok(ClassicKeys::new(link_key)),
            Err(e) => Err(e),
        }
    }

    /// The values of a device subkey that spell no valid key.
    pub fn refused_values(values: &LeRegistryValues) -> (skipped: Vec<KeyError>)
        ensures
            key_error_views(skipped@) == refused_registry_keys(*values),
    {
        let mut skipped: Vec<KeyError> = Vec::new();
        assert(key_error_views(skipped@) =~= Seq::<KeyErrorView>::empty());
        Self::note_refused_value(&values.ltk, "LTK", &mut skipped);
        Self::note_refused_value(&values.irk, "IRK", &mut skipped);
        Self::note_refused_value(&values.csrk, "CSRK (Local)", &mut skipped);
        Self::note_refused_value(&values.csrk_inbound, "CSRK (Remote)", &mut skipped);
        assert(key_error_views(skipped@) =~= refused_registry_keys(*values));
        skipped
    }

    /// The Low-Energy keys of a device, from the values of its subkey in the
    /// Low-Energy tree, and the values that were left out.
    pub fn read_le_device(values: &LeRegistryValues) -> (r: LeRead)
        ensures
            le_view(r.keys) == registry_le(*values),
            key_error_views(r.skipped@) == refused_registry_keys(*values),
    {
        let ltk = match Self::optional_key(&values.ltk, "LTK") {
            Some(key) => Some(
                LeLongTermKey {
                    key,
                    authenticated: match values.authenticated {
                        Some(n) => Some((n % 256) as u8),
                        None => None,
                    },
                    enc_size: match values.key_length {
                        Some(n) => Some((n % 256) as u8),
                        None => None,
                    },
                    ediv: match values.ediv {
                        Some(n) => Some((n % 65536) as u16),
                        None => None,
                    },
                    rand: values.erand,
                },
            ),
            None => None,
        };
        let irk = Self::optional_key(&values.irk, "IRK");
        let csrk_local = match Self::optional_key(&values.csrk, "CSRK (Local)") {
            Some(key) => Some(CsrkKey::new(key)),
            None => None,
        };
        let csrk_remote = match Self::optional_key(&values.csrk_inbound, "CSRK (Remote)") {
            Some(key) => Some(CsrkKey::new(key)),
            None => None,
        };
        let keys = if ltk.is_some() || irk.is_some() || csrk_local.is_some()
            || csrk_remote.is_some() {
            Some(
                LeKeys {
                    ltk,
                    peripheral_ltk: None,
                    irk,
                    csrk_local,
                    csrk_remote,
                    address_type: None,
                },
            )
        } else {
            None
        };
        LeRead { keys, skipped: Self::refused_values(values) }
    }

    /// The bytes of a valid key.
    fn bytes_of_key(key: &str) -> (bytes: Vec<u8>)
        requires
            is_valid_key(key@),
        ensures
            bytes@ == hex_bytes(key@),
    {
        match hex_decode(key) {
            Ok(bytes) => bytes,
            Err(_) => {
                proof {
                    assert(false);
                }
                Vec::new()
            },
        }
    }

    /// The binary value that holds a device's link key in the Classic tree.
    /// A link key that is not valid is refused.
    pub fn write_classic_device(classic: &ClassicKeys) -> (r: Result<Vec<u8>, StoreError>)
        ensures
            match r {
                Ok(bytes) => is_valid_key(classic@.link_key) && bytes@ == hex_bytes(
                    classic@.link_key,
                ) && bytes.len() == 16,
                Err(e) => !is_valid_key(classic@.link_key) && e@ == StoreErrorView::KeyValidation(
                    key_error(classic@.link_key, "LinkKey"@),
                ),
            },
    {
        match validate_bluetooth_key(classic.link_key.as_str(), "LinkKey") {
            Ok(()) => {},
            Err(e) => {
                return Err(StoreError::KeyValidation(e));
            },
        }
        Ok(Self::bytes_of_key(classic.link_key.as_str()))
    }

    /// Checks one key that is to be written: its bytes if it is valid; if
    /// not, nothing, and its error is added to `skipped`.
    fn checked_bytes(key: Option<&String>, label: &str, skipped: &mut Vec<KeyError>) -> (r: Option<
        Vec<u8>,
    >)
        ensures
            bytes_view(r) == key_bytes(
                match key {
                    Some(k) => Some(k@),
                    None => None,
                },
            ),
            key_error_views(final(skipped)@) == key_error_views(old(skipped)@) + refused(
                match key {
                    Some(k) => Some(k@),
                    None => None,
                },
                label@,
            ),
    {
        let ghost before = key_error_views(skipped@);
        match key {
            Some(k) => {
                match validate_bluetooth_key(k.as_str(), label) {
                    Ok(()) => {
                        assert(key_error_views(skipped@) =~= before + Seq::<KeyErrorView>::empty());
                        Some(Self::bytes_of_key(k.as_str()))
                    },
                    Err(e) => {
                        let ghost ev = e@;
                        skipped.push(e);
                        assert(key_error_views(skipped@) =~= before + seq![ev]);
                        None
                    },
                }
            },
            None => {
                assert(key_error_views(skipped@) =~= before + Seq::<KeyErrorView>::empty());
                None
            },
        }
    }

    /// The values that hold a device's Low-Energy keys in its subkey of the
    /// Low-Energy tree. A key that is not valid is left out and reported;
    /// the other keys are written all the same.
    pub fn write_le_device(le: &LeKeys) -> (r: LeRegistryWrite)
        ensures
            r.values@ == le_registry_values(le@),
            key_error_views(r.skipped@) == refused_le_keys(le@),
    {
        let mut skipped: Vec<KeyError> = Vec::new();
        assert(key_error_views(skipped@) =~= Seq::<KeyErrorView>::empty());
        let ltk_key: Option<&String> = match &le.ltk {
            Some(k) => Some(&k.key),
            None => None,
        };
        let ltk = Self::checked_bytes(ltk_key, "LTK", &mut skipped);
        let mut authenticated: Option<u32> = None;
        let mut key_length: Option<u32> = None;
        let mut ediv: Option<u32> = None;
        let mut erand: Option<u64> = None;
        if ltk.is_some() {
            match &le.ltk {
                Some(k) => {
                    authenticated = Some(k.authenticated_or_default() as u32);
                    key_length = match k.enc_size {
                        Some(n) => Some(n as u32),
                        None => None,
                    };
                    ediv = match k.ediv {
                        Some(n) => Some(n as u32),
                        None => None,
                    };
                    erand = k.rand;
                },
                None => {},
            }
        }
        let irk = Self::checked_bytes(le.irk.as_ref(), "IRK", &mut skipped);
        let local_key: Option<&String> = match &le.csrk_local {
            Some(k) => Some(&k.key),
            None => None,
        };
        let csrk = Self::checked_bytes(local_key, "CSRK (Local)", &mut skipped);
        let remote_key: Option<&String> = match &le.csrk_remote {
            Some(k) => Some(&k.key),
            None => None,
        };
        let csrk_inbound = Self::checked_bytes(remote_key, "CSRK (Remote)", &mut skipped);
        proof {
            assert(key_error_views(skipped@) =~= refused_le_keys(le@));
        }
        LeRegistryWrite {
            values: LeRegistryValues {
                ltk,
                authenticated,
                key_length,
                ediv,
                erand,
                irk,
                csrk,
                csrk_inbound,
            },
            skipped,
        }
    }

    /// The device that the two trees hold under one name. A device that
    /// neither tree holds keys for is not in the store.
    pub fn get_device(
        device_mac: &str,
        classic: Option<ClassicKeys>,
        le: Option<LeKeys>,
    ) -> (r: Result<BluetoothDevice, StoreError>)
        ensures
            match r {
                Ok(d) => (classic is Some || le is Some) && d@ == (BluetoothDeviceView {
                    mac_address: normalized_mac(device_mac@),
                    classic: classic_view(classic),
                    le: le_view(le),
                }),
                Err(e) => classic is None && le is None && e@ == StoreErrorView::NotFound(
                    not_found_message(device_mac@),
                ),
            },
    {
        if classic.is_none() && le.is_none() {
            let mut message = String::from_str("Device ");
            message.append(device_mac);
            message.append(" not found");
            return Err(StoreError::NotFound(message));
        }
        Ok(BluetoothDevice { mac_address: normalize_mac(device_mac), classic, le })
    }

    /// The adapters of the store: the names of the adapter subkeys of both
    /// trees as canonical addresses, each once, the Classic tree's first.
    pub fn get_adapters(classic_names: &Vec<String>, le_names: &Vec<String>) -> (adapters: Vec<
        String,
    >)
        ensures
            string_views(adapters@) == with_adapters(
                with_adapters(Seq::empty(), classic_names@),
                le_names@,
            ),
            string_views(adapters@).no_duplicates(),
    {
        let mut adapters: Vec<String> = Vec::new();
        assert(string_views(adapters@) =~= Seq::<Seq<char>>::empty());
        Self::add_adapters(&mut adapters, classic_names);
        Self::add_adapters(&mut adapters, le_names);
        proof {
            lemma_with_adapters_distinct(Seq::empty(), classic_names@);
            lemma_with_adapters_distinct(
                with_adapters(Seq::empty(), classic_names@),
                le_names@,
            );
        }
        adapters
    }

    fn add_adapters(adapters: &mut Vec<String>, names: &Vec<String>)
        ensures
            string_views(final(adapters)@) == with_adapters(string_views(old(adapters)@), names@),
    {
        let ghost start = string_views(adapters@);
        let mut i: usize = 0;
        while i < names.len()
            invariant
                i <= names.len(),
                string_views(adapters@) == with_adapters(start, names@.take(i as int)),
            decreases names.len() - i,
        {
            assert(names@.take(i + 1).drop_last() == names@.take(i as int));
            let mac = normalize_mac(names[i].as_str());
            let ghost before = string_views(adapters@);
            let mut known = false;
            let mut j: usize = 0;
            while j < adapters.len()
                invariant
                    j <= adapters.len(),
                    before == string_views(adapters@),
                    known == exists|x: int| 0 <= x < j && before[x] == mac@,
                decreases adapters.len() - j,
            {
                assert(before[j as int] == adapters@[j as int]@);
                if adapters[j].as_str().eq(mac.as_str()) {
                    known = true;
                }
                j += 1;
            }
            assert(known == before.contains(mac@));
            if !known {
                adapters.push(mac);
                assert(string_views(adapters@) =~= before.push(mac@));
            }
            i += 1;
        }
        assert(names@.take(names@.len() as int) == names@);
    }

    /// Lays keys over the device that `devices` holds under `mac`.
    fn put_keys(
        devices: &mut StrMap<BluetoothDevice>,
        mac: String,
        classic: Option<ClassicKeys>,
        le: Option<LeKeys>,
    )
        requires
            keyed_by_address(old(devices)@),
            classic is Some || le is Some,
            !(classic is Some && le is Some),
        ensures
            keyed_by_address(final(devices)@),
            final(devices)@ == old(devices)@.insert(
                mac@,
                if classic is Some {
                    BluetoothDeviceView {
                        classic: classic_view(classic),
                        ..device_or_blank(old(devices)@, mac@)
                    }
                } else {
                    BluetoothDeviceView {
                        le: le_view(le),
                        ..device_or_blank(old(devices)@, mac@)
                    }
                },
            ),
    {
        let held = devices.insert(
            mac.clone(),
            BluetoothDevice { mac_address: mac.clone(), classic: None, le: None },
        );
        let mut device = match held {
            Some(d) => d,
            None => BluetoothDevice { mac_address: mac.clone(), classic: None, le: None },
        };
        if classic.is_some() {
            device.classic = classic;
        } else {
            device.le = le;
        }
        devices.insert(mac, device);
        assert(final(devices)@ =~= old(devices)@.insert(
            mac@,
            if classic is Some {
                BluetoothDeviceView {
                    classic: classic_view(classic),
                    ..device_or_blank(old(devices)@, mac@)
                }
            } else {
                BluetoothDeviceView { le: le_view(le), ..device_or_blank(old(devices)@, mac@) }
            },
        ));
    }

    /// The devices of an adapter, from the values of its subkey in the
    /// Classic tree and the subkeys of its subkey in the Low-Energy tree. A
    /// device that both trees hold comes once, with the keys of both. The
    /// values that spell no valid key are left out and reported.
    pub fn get_devices(classic: &Vec<ClassicEntry>, le: &Vec<LeEntry>) -> (r: DevicesRead)
        ensures
            forall|i: int|
                0 <= i < r.devices.len() ==> registry_devices(classic@, le@).contains_key(
                    (#[trigger] r.devices[i])@.mac_address,
                ) && r.devices[i]@ == registry_devices(classic@, le@)[r.devices[i]@.mac_address],
            forall|mac: Seq<char>|
                registry_devices(classic@, le@).contains_key(mac) ==> exists|i: int|
                    0 <= i < r.devices.len() && (#[trigger] r.devices[i])@.mac_address == mac,
            forall|i: int, j: int|
                0 <= i < j < r.devices.len() ==> (#[trigger] r.devices[i])@.mac_address != (
                #[trigger] r.devices[j])@.mac_address,
            key_error_views(r.skipped@) == refused_classic_entries(classic@) + refused_le_entries(
                le@,
            ),
    {
        let mut skipped: Vec<KeyError> = Vec::new();
        assert(key_error_views(skipped@) =~= Seq::<KeyErrorView>::empty());
        let mut found: StrMap<BluetoothDevice> = StrMap::new();
        let mut i: usize = 0;
        while i < classic.len()
            invariant
                i <= classic.len(),
                keyed_by_address(found@),
                found@ == with_classic_entries(Map::empty(), classic@.take(i as int)),
                key_error_views(skipped@) == refused_classic_entries(classic@.take(i as int)),
            decreases classic.len() - i,
        {
            assert(classic@.take(i + 1).drop_last() == classic@.take(i as int));
            let entry = &classic[i];
            let mac = normalize_mac(entry.name.as_str());
            let ghost noted = key_error_views(skipped@);
            match Self::read_classic_device(&entry.value) {
                Ok(keys) => {
                    Self::put_keys(&mut found, mac, Some(keys), None);
                    assert(key_error_views(skipped@) =~= noted + Seq::<KeyErrorView>::empty());
                },
                Err(e) => {
                    let ghost ev = e@;
                    skipped.push(e);
                    assert(key_error_views(skipped@) =~= noted + seq![ev]);
                },
            }
            i += 1;
        }
        assert(classic@.take(classic@.len() as int) == classic@);
        let ghost base = found@;
        let ghost classic_refused = key_error_views(skipped@);
        assert(classic_refused =~= classic_refused + Seq::<KeyErrorView>::empty());
        let mut j: usize = 0;
        while j < le.len()
            invariant
                j <= le.len(),
                keyed_by_address(found@),
                found@ == with_le_entries(base, le@.take(j as int)),
                key_error_views(skipped@) == classic_refused + refused_le_entries(
                    le@.take(j as int),
                ),
            decreases le.len() - j,
        {
            assert(le@.take(j + 1).drop_last() == le@.take(j as int));
            let entry = &le[j];
            let mac = normalize_mac(entry.name.as_str());
            let ghost noted = key_error_views(skipped@);
            let read = Self::read_le_device(&entry.values);
            let LeRead { keys, skipped: refused_here } = read;
            let ghost fresh = key_error_views(refused_here@);
            let mut refused_here = refused_here;
            skipped.append(&mut refused_here);
            assert(key_error_views(skipped@) =~= noted + fresh);
            assert(noted + fresh =~= classic_refused + (refused_le_entries(le@.take(j as int))
                + fresh));
            match keys {
                Some(keys) => {
                    Self::put_keys(&mut found, mac, None, Some(keys));
                },
                None => {},
            }
            j += 1;
        }
        assert(le@.take(le@.len() as int) == le@);
        let n = found.len();
        let devices = device_list(&found);
        proof {
            let keys = found.keys();
            assert forall|x: int| 0 <= x < devices.len() implies found@.contains_key(
                (#[trigger] devices[x])@.mac_address,
            ) && devices[x]@ == found@[devices[x]@.mac_address] by {
                assert(found@.contains_key(keys[x]));
                assert(devices[x]@ == found@[keys[x]]);
                assert(found@[keys[x]].mac_address == keys[x]);
            }
            assert forall|mac: Seq<char>| found@.contains_key(mac) implies exists|x: int|
                0 <= x < devices.len() && (#[trigger] devices[x])@.mac_address == mac by {
                assert(keys.contains(mac));
                let x = choose|x: int| 0 <= x < keys.len() && keys[x] == mac;
                assert(devices[x]@ == found@[keys[x]]);
            }
            assert forall|x: int, y: int| 0 <= x < y < devices.len() implies (
            #[trigger] devices[x])@.mac_address != (#[trigger] devices[y])@.mac_address by {
                assert(found@.contains_key(keys[x]));
                assert(found@.contains_key(keys[y]));
                assert(devices[x]@ == found@[keys[x]]);
                assert(devices[y]@ == found@[keys[y]]);
                assert(keys[x] != keys[y]);
            }
        }
        DevicesRead { devices, skipped }
    }
}

} // verus!
