use bluevein::bluetooth::{
    BluetoothDevice, ClassicKeys, CsrkKey, KeyError, LeKeys, LeLongTermKey, StoreError,
};
use bluevein::linux::bluetooth::{looks_like_address, set_field, LinuxBluetoothManager};
use bluevein::linux::monitor::{decide_watch_action, has_pairing_keys, EventFlags, WatchAction};

const K1: &str = "0123456789ABCDEF0123456789ABCDEF";
const K2: &str = "FEDCBA9876543210FEDCBA9876543210";
const DEVICE: &str = "11:22:33:44:55:66";

fn none() -> EventFlags {
    EventFlags {
        create: false,
        delete: false,
        modify: false,
        moved_to: false,
        moved_from: false,
        close_write: false,
    }
}

#[test]
fn paths_use_canonical_addresses() {
    assert!(LinuxBluetoothManager::new().is_ok());
    assert_eq!(
        LinuxBluetoothManager::get_adapter_info_path("aa-bb-cc-dd-ee-01"),
        "/var/lib/bluetooth/AA:BB:CC:DD:EE:01"
    );
    assert_eq!(
        LinuxBluetoothManager::get_device_info_path("aabbccddee01", "112233445566"),
        "/var/lib/bluetooth/AA:BB:CC:DD:EE:01/11:22:33:44:55:66/info"
    );
}

#[test]
fn parse_reads_sections_and_fields() {
    let text = "# comment\n\n  [LinkKey]  \nKey = ABC \nType=4\n[Empty]\nnot a field\n[General]\nName=My = Mouse\r\n";
    let sections = LinuxBluetoothManager::parse_info_file(text);
    assert_eq!(sections.len(), 3);
    assert_eq!(sections.key_at(0), "LinkKey");
    assert_eq!(sections.key_at(1), "Empty");
    assert_eq!(sections.key_at(2), "General");
    assert_eq!(
        LinuxBluetoothManager::get_field(&sections, "LinkKey", "Key").map(|s| s.as_str()),
        Some("ABC")
    );
    assert_eq!(LinuxBluetoothManager::get_number(&sections, "LinkKey", "Type", 255), Some(4));
    assert!(sections.get("Empty").unwrap().is_empty());
    assert_eq!(
        LinuxBluetoothManager::get_field(&sections, "General", "Name").map(|s| s.as_str()),
        Some("My = Mouse")
    );
    assert!(LinuxBluetoothManager::get_field(&sections, "General", "Key").is_none());
    assert!(LinuxBluetoothManager::get_field(&sections, "Nope", "Key").is_none());
}

#[test]
fn parse_drops_fields_before_the_first_header() {
    let sections = LinuxBluetoothManager::parse_info_file("Key=1\n[]\nKey=2\n[A]\nKey=3");
    assert_eq!(sections.len(), 2);
    assert!(sections.get("").unwrap().is_empty());
    assert_eq!(
        LinuxBluetoothManager::get_field(&sections, "A", "Key").map(|s| s.as_str()),
        Some("3")
    );
    assert_eq!(LinuxBluetoothManager::parse_info_file("").len(), 0);
    // A later header of the same name keeps the fields that are there.
    let sections = LinuxBluetoothManager::parse_info_file("[A]\nx=1\n[B]\n[A]\ny=2\nx=3");
    assert_eq!(sections.len(), 2);
    assert_eq!(
        LinuxBluetoothManager::get_field(&sections, "A", "x").map(|s| s.as_str()),
        Some("3")
    );
    assert_eq!(
        LinuxBluetoothManager::get_field(&sections, "A", "y").map(|s| s.as_str()),
        Some("2")
    );
}

#[test]
fn parse_trims_unicode_blanks() {
    let sections = LinuxBluetoothManager::parse_info_file("\u{a0}[A]\u{2003}\n\u{3000}k\u{a0}=\u{a0}v\u{2028}");
    assert_eq!(
        LinuxBluetoothManager::get_field(&sections, "A", "k").map(|s| s.as_str()),
        Some("v")
    );
}

#[test]
fn numbers_are_read_as_std_reads_them() {
    let sections = LinuxBluetoothManager::parse_info_file(
        "[N]\na=255\nb=256\nc=+7\nd=-1\ne=\nf=007\ng=1 2\nh=18446744073709551615\ni=18446744073709551616\nj=+",
    );
    let get = |k: &str, max: u64| LinuxBluetoothManager::get_number(&sections, "N", k, max);
    assert_eq!(get("a", 255), Some(255));
    assert_eq!(get("b", 255), None);
    assert_eq!(get("b", 65535), Some(256));
    assert_eq!(get("c", 255), Some(7));
    assert_eq!(get("d", 255), None);
    assert_eq!(get("e", 255), None);
    assert_eq!(get("f", 255), Some(7));
    assert_eq!(get("g", 255), None);
    assert_eq!(get("h", u64::MAX), Some(u64::MAX));
    assert_eq!(get("i", u64::MAX), None);
    assert_eq!(get("j", 255), None);
    assert_eq!(get("missing", 255), None);
    for (text, max) in [("255", 255u64), ("256", 255), ("+7", 255), ("007", 255), ("", 255)] {
        let s = LinuxBluetoothManager::parse_info_file(&format!("[N]\nv={}", text));
        assert_eq!(
            LinuxBluetoothManager::get_number(&s, "N", "v", max).map(|n| n as u8),
            text.parse::<u8>().ok()
        );
    }
}

#[test]
fn read_device_keys_reads_every_section() {
    let text = format!(
        "[General]\nName=Mouse\nAddressType=public\n\n[LinkKey]\nKey={k1}\nType=5\nPINLength=6\n\n[LongTermKey]\nKey={k2}\nAuthenticated=1\nEncSize=16\nEDiv=65535\nRand=18446744073709551615\n\n[PeripheralLongTermKey]\nKey={k1}\n\n[IdentityResolvingKey]\nKey={k2}\n\n[LocalSignatureKey]\nKey={k1}\nCounter=7\nAuthenticated=TRUE\n\n[RemoteSignatureKey]\nKey={k2}\nCounter=x\nAuthenticated=yes\n",
        k1 = K1,
        k2 = K2
    );
    let device = LinuxBluetoothManager::read_device_keys(&text, "11-22-33-44-55-66").device.unwrap();
    assert_eq!(device.mac_address, DEVICE);
    assert_eq!(
        device.classic,
        Some(ClassicKeys { link_key: K1.to_string(), key_type: 5, pin_length: 6 })
    );
    let le = device.le.unwrap();
    assert_eq!(
        le.ltk,
        Some(LeLongTermKey {
            key: K2.to_string(),
            authenticated: Some(1),
            enc_size: Some(16),
            ediv: Some(65535),
            rand: Some(u64::MAX),
        })
    );
    assert_eq!(
        le.peripheral_ltk,
        Some(LeLongTermKey {
            key: K1.to_string(),
            authenticated: None,
            enc_size: None,
            ediv: None,
            rand: None,
        })
    );
    assert_eq!(le.irk.as_deref(), Some(K2));
    assert_eq!(
        le.csrk_local,
        Some(CsrkKey { key: K1.to_string(), counter: 7, authenticated: true })
    );
    assert_eq!(
        le.csrk_remote,
        Some(CsrkKey { key: K2.to_string(), counter: 0, authenticated: false })
    );
    assert_eq!(le.address_type.as_deref(), Some("public"));
}

#[test]
fn invalid_long_term_key_is_left_out() {
    let text = format!("[LinkKey]\nKey={}\n\n[LongTermKey]\nKey=0123\nEncSize=16\n", K1);
    let read = LinuxBluetoothManager::read_device_keys(&text, DEVICE);
    let device = read.device.unwrap();
    assert_eq!(device.classic, Some(ClassicKeys::new(K1.to_string())));
    assert_eq!(device.le, None);
    // The key that was left out is reported; the valid link key is not.
    assert_eq!(
        read.skipped,
        vec![KeyError::InvalidLength { key_name: "LTK".to_string(), actual: 4 }]
    );
    assert_eq!(
        read.skipped[0].to_string(),
        "LTK has invalid length: expected 32 hex characters (16 bytes), got 4 characters"
    );

    let only = "[LongTermKey]\nKey=0123\n";
    let read = LinuxBluetoothManager::read_device_keys(only, DEVICE);
    assert_eq!(
        read.device.unwrap_err(),
        StoreError::NotFound(format!("No keys found for device {}", DEVICE))
    );
    assert_eq!(read.skipped.len(), 1);
    // An address type alone makes a Low-Energy device.
    let general = "[General]\nAddressType=random\n[LongTermKey]\nKey=0123\n";
    let device = LinuxBluetoothManager::read_device_keys(general, DEVICE).device.unwrap();
    assert_eq!(
        device.le,
        Some(LeKeys { address_type: Some("random".to_string()), ..Default::default() })
    );
}

#[test]
fn write_keeps_what_it_does_not_know() {
    let existing = "[General]\nName=Mouse\n\n[LinkKey]\nKey=old\nExtra=1\n";
    let device = BluetoothDevice {
        mac_address: DEVICE.to_string(),
        classic: Some(ClassicKeys { link_key: K1.to_string(), key_type: 5, pin_length: 0 }),
        le: Some(LeKeys {
            ltk: Some(LeLongTermKey {
                key: K2.to_string(),
                authenticated: None,
                enc_size: Some(16),
                ediv: None,
                rand: Some(3),
            }),
            csrk_local: Some(CsrkKey { key: K1.to_string(), counter: 7, authenticated: true }),
            address_type: Some("random".to_string()),
            ..Default::default()
        }),
    };
    let written = LinuxBluetoothManager::write_device_keys(Some(existing), &device).unwrap();
    assert_eq!(
        written.content,
        format!(
            "[General]\nName=Mouse\nAddressType=random\n\n[LinkKey]\nKey={k1}\nExtra=1\nType=5\nPINLength=0\n\n[LongTermKey]\nKey={k2}\nAuthenticated=0\nEncSize=16\nRand=3\n\n[LocalSignatureKey]\nKey={k1}\nCounter=7\nAuthenticated=true\n\n",
            k1 = K1,
            k2 = K2
        )
    );
    assert_eq!(LinuxBluetoothManager::serialize_info(&written.sections), written.content);
    // What was written reads back as the device, the default flag included.
    let back = LinuxBluetoothManager::read_device_keys(&written.content, DEVICE);
    assert!(back.skipped.is_empty());
    let back = back.device.unwrap();
    assert_eq!(back.classic, device.classic);
    assert_eq!(back.le.as_ref().unwrap().ltk.as_ref().unwrap().authenticated, Some(0));
    assert_eq!(back.le.as_ref().unwrap().csrk_local, device.le.as_ref().unwrap().csrk_local);
}

#[test]
fn write_without_a_file_starts_from_nothing() {
    let device = BluetoothDevice::classic(DEVICE.to_string(), K1.to_string());
    let written = LinuxBluetoothManager::write_device_keys(None, &device).unwrap();
    assert_eq!(written.content, format!("[LinkKey]\nKey={}\nType=4\nPINLength=0\n\n", K1));
    let bare = BluetoothDevice { mac_address: DEVICE.to_string(), classic: None, le: None };
    assert_eq!(LinuxBluetoothManager::write_device_keys(None, &bare).unwrap().content, "");
}

#[test]
fn write_refuses_the_first_invalid_key() {
    let device = BluetoothDevice {
        mac_address: DEVICE.to_string(),
        classic: Some(ClassicKeys::new(K1.to_string())),
        le: Some(LeKeys {
            irk: Some("xyz".to_string()),
            csrk_remote: Some(CsrkKey::new("12".to_string())),
            ..Default::default()
        }),
    };
    assert_eq!(
        LinuxBluetoothManager::write_device_keys(None, &device).unwrap_err(),
        StoreError::KeyValidation(KeyError::NonHexadecimal {
            key_name: "IRK".to_string(),
            key: "xyz".to_string()
        })
    );
    assert_eq!(
        LinuxBluetoothManager::validate_device_keys(&device).unwrap_err().to_string(),
        "IRK contains non-hexadecimal characters: xyz"
    );
    let mut sections = LinuxBluetoothManager::parse_info_file("[A]\nb=c\n");
    assert!(LinuxBluetoothManager::apply_device(&mut sections, &device).is_err());
    assert_eq!(LinuxBluetoothManager::serialize_info(&sections), "[A]\nb=c\n\n");
    set_field(&mut sections, "A", "d", "e".to_string());
    assert_eq!(LinuxBluetoothManager::serialize_info(&sections), "[A]\nb=c\nd=e\n\n");
    for (classic, le, label) in [
        (Some("bad"), LeKeys::default(), "LinkKey"),
        (None, LeKeys { ltk: Some(ltk("bad")), ..Default::default() }, "LTK"),
        (None, LeKeys { peripheral_ltk: Some(ltk("bad")), ..Default::default() }, "PeripheralLTK"),
        (
            None,
            LeKeys { csrk_local: Some(CsrkKey::new("bad".to_string())), ..Default::default() },
            "CSRK (Local)",
        ),
        (
            None,
            LeKeys { csrk_remote: Some(CsrkKey::new("bad".to_string())), ..Default::default() },
            "CSRK (Remote)",
        ),
    ] {
        let device = BluetoothDevice {
            mac_address: DEVICE.to_string(),
            classic: classic.map(|k| ClassicKeys::new(k.to_string())),
            le: Some(le),
        };
        assert_eq!(
            LinuxBluetoothManager::validate_device_keys(&device).unwrap_err(),
            KeyError::InvalidLength { key_name: label.to_string(), actual: 3 }
        );
    }
}

fn ltk(key: &str) -> LeLongTermKey {
    LeLongTermKey { key: key.to_string(), authenticated: None, enc_size: None, ediv: None, rand: None }
}

#[test]
fn address_names_have_seventeen_bytes_and_a_colon() {
    assert!(looks_like_address("AA:BB:CC:DD:EE:FF"));
    assert!(looks_like_address(":________________"));
    assert!(!looks_like_address("AABBCCDDEEFF"));
    assert!(!looks_like_address("AA-BB-CC-DD-EE-FF"));
    assert!(!looks_like_address("AA:BB:CC:DD:EE:FF:"));
    // Seventeen characters, but more bytes.
    assert!(!looks_like_address("AA:BB:CC:DD:EE:F\u{e9}"));
}

#[test]
fn pairing_keys_are_found_in_key_sections_only() {
    assert!(has_pairing_keys(&format!("[LinkKey]\nKey={}\n", K1)));
    assert!(has_pairing_keys(&format!("[General]\nName=x\n[LongTermKey]\n  Key={}  \r\n", K2)));
    assert!(has_pairing_keys(&format!("[PeripheralLongTermKey]\nKey={}", K1)));
    assert!(has_pairing_keys(&format!("[IdentityResolvingKey]\nKey={}", K1)));
    assert!(has_pairing_keys(&format!("[SlaveLongTermKey]\nKey={}", K1)));
    assert!(!has_pairing_keys(&format!("[LocalSignatureKey]\nKey={}", K1)));
    assert!(!has_pairing_keys(&format!("[General]\nKey={}", K1)));
    assert!(!has_pairing_keys(&format!("Key={}", K1)));
    assert!(!has_pairing_keys("[LinkKey]\nKey=0123\n"));
    assert!(!has_pairing_keys(&format!("[LinkKey]\nKey = {}\n", K1)));
    assert!(!has_pairing_keys(&format!("[LinkKey]\nKey={}0\n", K1)));
    assert!(!has_pairing_keys(""));
    assert!(has_pairing_keys(&format!("[LinkKey]\nKey=bad\n[LongTermKey]\nKey={}\n[General]\n", K1)));
}

#[test]
fn watch_actions() {
    let adapter = "AA:BB:CC:DD:EE:01";
    let create = EventFlags { create: true, ..none() };
    let moved_to = EventFlags { moved_to: true, ..none() };
    let delete = EventFlags { delete: true, ..none() };
    let moved_from = EventFlags { moved_from: true, ..none() };
    let modify = EventFlags { modify: true, ..none() };
    let close_write = EventFlags { close_write: true, ..none() };

    for f in [create, moved_to] {
        assert_eq!(
            decide_watch_action(true, Some("bluetooth"), Some("lib"), adapter, f),
            WatchAction::WatchAdapter { adapter_mac: adapter.to_string() }
        );
        assert_eq!(
            decide_watch_action(false, Some(adapter), Some("bluetooth"), DEVICE, f),
            WatchAction::WatchDevices { adapter_mac: adapter.to_string() }
        );
    }
    assert_eq!(decide_watch_action(true, None, None, adapter, delete), WatchAction::Ignore);
    assert_eq!(decide_watch_action(true, None, None, "settings", create), WatchAction::Ignore);
    assert_eq!(decide_watch_action(true, None, None, "info", modify), WatchAction::Ignore);
    for f in [modify, close_write] {
        assert_eq!(
            decide_watch_action(false, Some(DEVICE), Some(adapter), "info", f),
            WatchAction::InfoWritten {
                adapter_mac: adapter.to_string(),
                device_mac: DEVICE.to_string()
            }
        );
    }
    assert_eq!(
        decide_watch_action(false, Some(DEVICE), Some(adapter), "info", create),
        WatchAction::Ignore
    );
    assert_eq!(
        decide_watch_action(false, Some(DEVICE), None, "info", modify),
        WatchAction::Ignore
    );
    assert_eq!(decide_watch_action(false, None, Some(adapter), "info", modify), WatchAction::Ignore);
    for f in [delete, moved_from] {
        assert_eq!(
            decide_watch_action(false, Some(adapter), Some("bluetooth"), DEVICE, f),
            WatchAction::DeviceRemoved {
                adapter_mac: adapter.to_string(),
                device_mac: DEVICE.to_string()
            }
        );
    }
    assert_eq!(
        decide_watch_action(false, None, None, DEVICE, delete),
        WatchAction::DeviceRemoved { adapter_mac: String::new(), device_mac: DEVICE.to_string() }
    );
    assert_eq!(
        decide_watch_action(false, Some(adapter), None, DEVICE, modify),
        WatchAction::Ignore
    );
    assert_eq!(
        decide_watch_action(false, Some(adapter), None, "cache", delete),
        WatchAction::Ignore
    );
}

#[test]
fn every_refused_key_is_reported_in_order() {
    let text = format!(
        "[RemoteSignatureKey]\nKey=r\n[LocalSignatureKey]\nKey=zz\n[IdentityResolvingKey]\nKey={k}\n[PeripheralLongTermKey]\nKey=12\n[LongTermKey]\nCounter=1\n[LinkKey]\nKey=\n[General]\nKey=x\n",
        k = K1
    );
    let read = LinuxBluetoothManager::read_device_keys(&text, DEVICE);
    assert_eq!(
        read.skipped,
        vec![
            KeyError::InvalidLength { key_name: "LinkKey".to_string(), actual: 0 },
            KeyError::InvalidLength { key_name: "PeripheralLTK".to_string(), actual: 2 },
            KeyError::NonHexadecimal { key_name: "CSRK (Local)".to_string(), key: "zz".to_string() },
            KeyError::NonHexadecimal { key_name: "CSRK (Remote)".to_string(), key: "r".to_string() },
        ]
    );
    assert_eq!(read.device.unwrap().le.unwrap().irk.as_deref(), Some(K1));
    let sections = LinuxBluetoothManager::parse_info_file(&text);
    assert_eq!(LinuxBluetoothManager::refused_keys(&sections), read.skipped);
    assert_eq!(
        LinuxBluetoothManager::device_from_sections(&sections, DEVICE).skipped.len(),
        4
    );
    assert!(LinuxBluetoothManager::refused_keys(&LinuxBluetoothManager::parse_info_file(""))
        .is_empty());
}
