use bluevein::bluetooth::{
    BluetoothDevice, ClassicKeys, CsrkKey, KeyError, LeKeys, LeLongTermKey, StoreError,
};
use bluevein::windows::bluetooth::{
    ClassicEntry, LeEntry, LeRead, LeRegistryValues, WindowsBluetoothManager,
};
use bluevein::windows::monitor::{
    detect_and_handle_changes, looks_like_device, AdapterInfo, BluetoothState, RegistryChange,
};

const BYTES: [u8; 16] =
    [0x01, 0x23, 0x45, 0x67, 0x89, 0xAB, 0xCD, 0xEF, 0x00, 0x0F, 0xF0, 0xFF, 0x10, 0xA0, 0x0A, 0x7E];
const KEY: &str = "0123456789ABCDEF000FF0FF10A00A7E";

fn no_values() -> LeRegistryValues {
    LeRegistryValues {
        ltk: None,
        authenticated: None,
        key_length: None,
        ediv: None,
        erand: None,
        irk: None,
        csrk: None,
        csrk_inbound: None,
    }
}

#[test]
fn link_key_is_spelt_in_capitals() {
    assert_eq!(
        WindowsBluetoothManager::read_classic_device(&BYTES.to_vec()),
        Ok(ClassicKeys { link_key: KEY.to_string(), key_type: 4, pin_length: 0 })
    );
    assert_eq!(
        WindowsBluetoothManager::key_from_value(&BYTES.to_vec(), "LinkKey"),
        Ok(KEY.to_string())
    );
}

#[test]
fn link_key_must_be_sixteen_bytes() {
    assert!(WindowsBluetoothManager::new().is_ok());
    assert_eq!(
        WindowsBluetoothManager::read_classic_device(&BYTES[..15].to_vec()),
        Err(KeyError::InvalidLength { key_name: "LinkKey".to_string(), actual: 30 })
    );
    assert_eq!(
        WindowsBluetoothManager::read_classic_device(&Vec::new()),
        Err(KeyError::InvalidLength { key_name: "LinkKey".to_string(), actual: 0 })
    );
    let mut long = BYTES.to_vec();
    long.push(0);
    assert_eq!(
        WindowsBluetoothManager::read_classic_device(&long).unwrap_err().to_string(),
        "LinkKey has invalid length: expected 32 hex characters (16 bytes), got 34 characters"
    );
    assert_eq!(
        WindowsBluetoothManager::key_from_value(&vec![0xAB], "IRK"),
        Err(KeyError::InvalidLength { key_name: "IRK".to_string(), actual: 2 })
    );
}

#[test]
fn link_key_is_written_as_its_bytes() {
    let classic = ClassicKeys::new(KEY.to_string());
    assert_eq!(WindowsBluetoothManager::write_classic_device(&classic), Ok(BYTES.to_vec()));
    let lower = ClassicKeys::new(KEY.to_lowercase());
    assert_eq!(WindowsBluetoothManager::write_classic_device(&lower), Ok(BYTES.to_vec()));
    let bad = ClassicKeys::new("0123".to_string());
    assert_eq!(
        WindowsBluetoothManager::write_classic_device(&bad),
        Err(StoreError::KeyValidation(KeyError::InvalidLength {
            key_name: "LinkKey".to_string(),
            actual: 4
        }))
    );
}

#[test]
fn le_keys_are_read_from_the_subkey() {
    let values = LeRegistryValues {
        ltk: Some(BYTES.to_vec()),
        authenticated: Some(257),
        key_length: Some(16),
        ediv: Some(65536 + 5),
        erand: Some(u64::MAX),
        irk: Some(vec![1, 2, 3]),
        csrk: Some(BYTES.to_vec()),
        csrk_inbound: None,
    };
    let read = WindowsBluetoothManager::read_le_device(&values);
    assert_eq!(
        read.skipped,
        vec![KeyError::InvalidLength { key_name: "IRK".to_string(), actual: 6 }]
    );
    assert_eq!(WindowsBluetoothManager::refused_values(&values), read.skipped);
    assert_eq!(
        read.keys,
        Some(LeKeys {
            ltk: Some(LeLongTermKey {
                key: KEY.to_string(),
                authenticated: Some(1),
                enc_size: Some(16),
                ediv: Some(5),
                rand: Some(u64::MAX),
            }),
            peripheral_ltk: None,
            irk: None,
            csrk_local: Some(CsrkKey { key: KEY.to_string(), counter: 0, authenticated: false }),
            csrk_remote: None,
            address_type: None,
        })
    );
    assert_eq!(
        WindowsBluetoothManager::read_le_device(&no_values()),
        LeRead { keys: None, skipped: Vec::new() }
    );
    // Numbers without a valid long-term key make no device.
    let stray = LeRegistryValues {
        ltk: Some(vec![1]),
        authenticated: Some(1),
        key_length: Some(16),
        ..no_values()
    };
    assert_eq!(
        WindowsBluetoothManager::read_le_device(&stray),
        LeRead {
            keys: None,
            skipped: vec![KeyError::InvalidLength { key_name: "LTK".to_string(), actual: 2 }]
        }
    );
    let inbound = LeRegistryValues {
        csrk: Some(vec![1, 2]),
        csrk_inbound: Some(BYTES.to_vec()),
        ..no_values()
    };
    assert_eq!(
        WindowsBluetoothManager::read_le_device(&inbound),
        LeRead {
            keys: Some(LeKeys {
                csrk_remote: Some(CsrkKey::new(KEY.to_string())),
                ..Default::default()
            }),
            skipped: vec![KeyError::InvalidLength {
                key_name: "CSRK (Local)".to_string(),
                actual: 4
            }]
        }
    );
}

#[test]
fn le_keys_are_written_field_by_field() {
    let le = LeKeys {
        ltk: Some(LeLongTermKey {
            key: KEY.to_string(),
            authenticated: None,
            enc_size: Some(16),
            ediv: None,
            rand: Some(9),
        }),
        peripheral_ltk: None,
        irk: Some("xyz".to_string()),
        csrk_local: Some(CsrkKey { key: KEY.to_lowercase(), counter: 7, authenticated: true }),
        csrk_remote: Some(CsrkKey::new("00".to_string())),
        address_type: Some("public".to_string()),
    };
    let write = WindowsBluetoothManager::write_le_device(&le);
    assert_eq!(
        write.values,
        LeRegistryValues {
            ltk: Some(BYTES.to_vec()),
            authenticated: Some(0),
            key_length: Some(16),
            ediv: None,
            erand: Some(9),
            irk: None,
            csrk: Some(BYTES.to_vec()),
            csrk_inbound: None,
        }
    );
    assert_eq!(
        write.skipped,
        vec![
            KeyError::NonHexadecimal { key_name: "IRK".to_string(), key: "xyz".to_string() },
            KeyError::InvalidLength { key_name: "CSRK (Remote)".to_string(), actual: 2 },
        ]
    );
    // An invalid long-term key takes its numbers with it.
    let le = LeKeys {
        ltk: Some(LeLongTermKey {
            key: "12".to_string(),
            authenticated: Some(1),
            enc_size: Some(16),
            ediv: Some(1),
            rand: Some(9),
        }),
        ..Default::default()
    };
    let write = WindowsBluetoothManager::write_le_device(&le);
    assert_eq!(write.values, no_values());
    assert_eq!(
        write.skipped,
        vec![KeyError::InvalidLength { key_name: "LTK".to_string(), actual: 2 }]
    );
    let write = WindowsBluetoothManager::write_le_device(&LeKeys::default());
    assert_eq!(write.values, no_values());
    assert!(write.skipped.is_empty());
}

#[test]
fn adapters_are_listed_once() {
    let classic = vec!["aabbccddee01".to_string(), "AABBCCDDEE02".to_string()];
    let le = vec!["AABBCCDDEE03".to_string(), "AABBCCDDEE01".to_string()];
    assert_eq!(
        WindowsBluetoothManager::get_adapters(&classic, &le),
        vec!["AA:BB:CC:DD:EE:01", "AA:BB:CC:DD:EE:02", "AA:BB:CC:DD:EE:03"]
    );
    assert!(WindowsBluetoothManager::get_adapters(&Vec::new(), &Vec::new()).is_empty());
}

#[test]
fn devices_of_both_trees_come_once() {
    let classic = vec![
        ClassicEntry { name: "112233445566".to_string(), value: BYTES.to_vec() },
        ClassicEntry { name: "CentralIRK".to_string(), value: vec![1, 2, 3] },
        ClassicEntry { name: "112233445577".to_string(), value: BYTES.to_vec() },
    ];
    let le = vec![
        LeEntry {
            name: "112233445588".to_string(),
            values: LeRegistryValues { irk: Some(BYTES.to_vec()), ..no_values() },
        },
        LeEntry {
            name: "112233445566".to_string(),
            values: LeRegistryValues { irk: Some(BYTES.to_vec()), ..no_values() },
        },
        LeEntry { name: "112233445599".to_string(), values: no_values() },
    ];
    let irk = Some(LeKeys { irk: Some(KEY.to_string()), ..Default::default() });
    let read = WindowsBluetoothManager::get_devices(&classic, &le);
    assert_eq!(
        read.skipped,
        vec![KeyError::InvalidLength { key_name: "LinkKey".to_string(), actual: 6 }]
    );
    assert_eq!(
        read.devices,
        vec![
            BluetoothDevice {
                mac_address: "11:22:33:44:55:66".to_string(),
                classic: Some(ClassicKeys::new(KEY.to_string())),
                le: irk.clone(),
            },
            BluetoothDevice {
                mac_address: "11:22:33:44:55:77".to_string(),
                classic: Some(ClassicKeys::new(KEY.to_string())),
                le: None,
            },
            BluetoothDevice {
                mac_address: "11:22:33:44:55:88".to_string(),
                classic: None,
                le: irk.clone(),
            },
        ]
    );
}

#[test]
fn a_device_needs_keys_in_one_tree() {
    assert_eq!(
        WindowsBluetoothManager::get_device("112233445566", None, None),
        Err(StoreError::NotFound("Device 112233445566 not found".to_string()))
    );
    assert_eq!(
        WindowsBluetoothManager::get_device(
            "112233445566",
            Some(ClassicKeys::new(KEY.to_string())),
            None
        ),
        Ok(BluetoothDevice::classic("11:22:33:44:55:66".to_string(), KEY.to_string()))
    );
}

#[test]
fn device_names_are_twelve_hex_digits() {
    assert!(looks_like_device("112233445566"));
    assert!(looks_like_device("aAbBcCdDeEfF"));
    assert!(!looks_like_device("CentralIRK"));
    assert!(!looks_like_device("11223344556"));
    assert!(!looks_like_device("1122334455667"));
    assert!(!looks_like_device("11223344556g"));
    assert!(!looks_like_device("11:22:33:44:"));
}

fn state(adapters: &[(&str, &[(&str, u8)])]) -> BluetoothState {
    let mut s = BluetoothState::new();
    for (name, devices) in adapters {
        let values: Vec<ClassicEntry> = devices
            .iter()
            .map(|(d, b)| ClassicEntry { name: d.to_string(), value: vec![*b; 16] })
            .collect();
        s.insert_adapter(name.to_string(), AdapterInfo::from_values(&values));
    }
    s
}

fn paired(a: &str, d: &str) -> RegistryChange {
    RegistryChange::DevicePaired { adapter_mac: a.to_string(), device_mac: d.to_string() }
}

#[test]
fn snapshot_keeps_device_values_only() {
    let s = state(&[("AABBCCDDEE01", &[("112233445566", 1), ("CentralIRK", 2), ("112233445566", 3)])]);
    let info = s.adapters.get("AABBCCDDEE01").unwrap();
    assert_eq!(info.devices.len(), 1);
    assert_eq!(info.devices.get("112233445566"), Some(&vec![3u8; 16]));
}

#[test]
fn changes_between_snapshots() {
    let old = state(&[
        ("AABBCCDDEE01", &[("112233445501", 1), ("112233445502", 2), ("112233445503", 3)]),
        ("AABBCCDDEE02", &[("112233445504", 4)]),
    ]);
    let new = state(&[
        ("AABBCCDDEE03", &[("112233445505", 5), ("112233445506", 6)]),
        ("AABBCCDDEE01", &[("112233445501", 1), ("112233445502", 9), ("112233445507", 7)]),
    ]);
    assert_eq!(
        detect_and_handle_changes(&old, &new),
        vec![
            RegistryChange::AdapterAdded { adapter: "AABBCCDDEE03".to_string() },
            paired("AA:BB:CC:DD:EE:03", "11:22:33:44:55:05"),
            paired("AA:BB:CC:DD:EE:03", "11:22:33:44:55:06"),
            RegistryChange::DeviceKeyChanged {
                adapter_mac: "AA:BB:CC:DD:EE:01".to_string(),
                device_mac: "11:22:33:44:55:02".to_string()
            },
            paired("AA:BB:CC:DD:EE:01", "11:22:33:44:55:07"),
            RegistryChange::DeviceRemoved {
                adapter_mac: "AA:BB:CC:DD:EE:01".to_string(),
                device_mac: "11:22:33:44:55:03".to_string()
            },
            RegistryChange::AdapterRemoved { adapter: "AABBCCDDEE02".to_string() },
        ]
    );
    assert!(detect_and_handle_changes(&old, &old).is_empty());
    assert!(detect_and_handle_changes(&BluetoothState::new(), &BluetoothState::new()).is_empty());
}
