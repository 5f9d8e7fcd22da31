use bluevein::bluetooth::{
    mac_to_windows_format, normalize_mac, validate_bluetooth_key, windows_format_to_mac,
    BluetoothDevice, CsrkKey, LeLongTermKey, StoreError,
};

#[test]
fn test_normalize_mac() {
    assert_eq!(normalize_mac("aabbccddeeff"), "AA:BB:CC:DD:EE:FF");
    assert_eq!(normalize_mac("aa:bb:cc:dd:ee:ff"), "AA:BB:CC:DD:EE:FF");
    assert_eq!(normalize_mac("AA-BB-CC-DD-EE-FF"), "AA:BB:CC:DD:EE:FF");
}

#[test]
fn test_mac_conversions() {
    let mac = "AA:BB:CC:DD:EE:FF";
    let win_format = mac_to_windows_format(mac);
    assert_eq!(win_format, "AABBCCDDEEFF");
    assert_eq!(windows_format_to_mac(&win_format), mac);
}

#[test]
fn test_classic_device() {
    let device = BluetoothDevice::classic(
        "AA:BB:CC:DD:EE:FF".to_string(),
        "0123456789ABCDEF".to_string(),
    );
    assert!(device.classic.is_some());
    assert!(device.le.is_none());
    assert!(device.has_keys());

    let classic = device.classic.unwrap();
    assert_eq!(classic.key_type, 4);
    assert_eq!(classic.pin_length, 0);
}

#[test]
fn test_le_device() {
    let ltk = LeLongTermKey {
        key: "0123456789ABCDEF".to_string(),
        authenticated: Some(1),
        enc_size: Some(16),
        ediv: Some(100),
        rand: Some(12345),
    };
    let device = BluetoothDevice::le_with_ltk("AA:BB:CC:DD:EE:FF".to_string(), ltk);
    assert!(device.classic.is_none());
    assert!(device.le.is_some());
    assert!(device.has_keys());
}

#[test]
fn test_ltk_authenticated_default() {
    let ltk = LeLongTermKey {
        key: "0123456789ABCDEF".to_string(),
        authenticated: None,
        enc_size: Some(16),
        ediv: Some(100),
        rand: Some(12345),
    };
    assert_eq!(ltk.authenticated_or_default(), 0);
}

#[test]
fn test_csrk_key_creation() {
    let csrk = CsrkKey::new("0123456789ABCDEF".to_string());
    assert_eq!(csrk.counter, 0);
    assert_eq!(csrk.authenticated, false);
}

#[test]
fn test_merge_devices() {
    let device1 = BluetoothDevice::classic(
        "AA:BB:CC:DD:EE:FF".to_string(),
        "0123456789ABCDEF".to_string(),
    );
    let ltk = LeLongTermKey {
        key: "FEDCBA9876543210".to_string(),
        authenticated: Some(1),
        enc_size: Some(16),
        ediv: Some(100),
        rand: Some(12345),
    };
    let device2 = BluetoothDevice::le_with_ltk("AA:BB:CC:DD:EE:FF".to_string(), ltk);

    let merged = device1.merge_with(&device2);
    assert!(merged.classic.is_some());
    assert!(merged.le.is_some());
}

#[test]
fn test_validate_bluetooth_key_valid() {
    let key = "0123456789ABCDEF0123456789ABCDEF";
    assert!(validate_bluetooth_key(key, "TestKey").is_ok());
}

#[test]
fn test_validate_bluetooth_key_too_short() {
    let key = "0123456789ABCDEF";
    let result = validate_bluetooth_key(key, "TestKey");
    assert!(result.is_err());
    assert!(result.unwrap_err().to_string().contains("expected 32"));
}

#[test]
fn test_validate_bluetooth_key_too_long() {
    let key = "0123456789ABCDEF0123456789ABCDEF00";
    let result = validate_bluetooth_key(key, "TestKey");
    assert!(result.is_err());
    assert!(result.unwrap_err().to_string().contains("expected 32"));
}

#[test]
fn test_validate_bluetooth_key_invalid_chars() {
    let key = "0123456789ABCDEFGHIJ456789ABCDEF";
    let result = validate_bluetooth_key(key, "TestKey");
    assert!(result.is_err());
    assert!(result.unwrap_err().to_string().contains("non-hexadecimal"));
}

#[test]
fn test_validate_bluetooth_key_lowercase() {
    let key = "0123456789abcdef0123456789abcdef";
    assert!(validate_bluetooth_key(key, "TestKey").is_ok());
}

#[test]
fn normalize_mac_is_idempotent() {
    for input in ["aabbccddeeff", "aa:bb:cc:dd:ee:ff", "AA-BB-CC-DD-EE-FF", "a", "abc", "", "x:y"] {
        let once = normalize_mac(input);
        assert_eq!(normalize_mac(&once), once);
    }
}

#[test]
fn normalize_mac_groups_in_pairs() {
    assert_eq!(normalize_mac(""), "");
    assert_eq!(normalize_mac("a"), "A");
    assert_eq!(normalize_mac("ab"), "AB");
    assert_eq!(normalize_mac("abc"), "AB:C");
    assert_eq!(normalize_mac("ab.cd"), "AB:CD");
    assert_eq!(normalize_mac("00 11 22 33 44 55"), "00:11:22:33:44:55");
}

#[test]
fn normalize_mac_goes_by_unicode_beyond_ascii() {
    // A letter beyond ASCII is kept and is not capitalised.
    assert_eq!(normalize_mac("a\u{e9}"), "A\u{e9}");
    // A dash beyond ASCII is neither letter nor digit.
    assert_eq!(normalize_mac("ab\u{2014}cd"), "AB:CD");
}

#[test]
fn mac_to_windows_format_capitalises() {
    assert_eq!(mac_to_windows_format("aa:bb:cc:dd:ee:ff"), "AABBCCDDEEFF");
    assert_eq!(mac_to_windows_format("a\u{e9}-b"), "A\u{c9}B");
}

#[test]
fn validate_key_reports_non_hex_before_length() {
    let e = validate_bluetooth_key("xyz", "LTK").unwrap_err();
    assert_eq!(e.to_string(), "LTK contains non-hexadecimal characters: xyz");
    assert_eq!(
        e,
        bluevein::bluetooth::KeyError::NonHexadecimal {
            key_name: "LTK".to_string(),
            key: "xyz".to_string()
        }
    );
}

#[test]
fn validate_key_reports_length() {
    let e = validate_bluetooth_key("0123", "IRK").unwrap_err();
    assert_eq!(
        e.to_string(),
        "IRK has invalid length: expected 32 hex characters (16 bytes), got 4 characters"
    );
    let e = validate_bluetooth_key("", "IRK").unwrap_err();
    assert_eq!(
        e,
        bluevein::bluetooth::KeyError::InvalidLength { key_name: "IRK".to_string(), actual: 0 }
    );
}

#[test]
fn validate_key_accepts_exactly_32_hex_digits() {
    assert!(validate_bluetooth_key("0123456789abcdefABCDEF0123456789", "K").is_ok());
    assert!(validate_bluetooth_key("0123456789abcdefABCDEF012345678", "K").is_err());
    assert!(validate_bluetooth_key("0123456789abcdefABCDEF01234567890", "K").is_err());
    assert!(validate_bluetooth_key("0123456789abcdefABCDEF012345678g", "K").is_err());
    assert!(validate_bluetooth_key("0123456789abcdefABCDEF012345678\u{e9}", "K").is_err());
}

#[test]
fn merge_with_prefers_the_overlay() {
    let base = BluetoothDevice {
        mac_address: "AA:BB:CC:DD:EE:FF".to_string(),
        classic: Some(bluevein::bluetooth::ClassicKeys {
            link_key: "B".to_string(),
            key_type: 5,
            pin_length: 4,
        }),
        le: Some(bluevein::bluetooth::LeKeys {
            irk: Some("IRK-BASE".to_string()),
            address_type: Some("public".to_string()),
            ..Default::default()
        }),
    };
    let overlay = BluetoothDevice {
        mac_address: "other".to_string(),
        classic: Some(bluevein::bluetooth::ClassicKeys::new("O".to_string())),
        le: Some(bluevein::bluetooth::LeKeys {
            irk: Some("IRK-OVER".to_string()),
            csrk_local: Some(CsrkKey::new("C".to_string())),
            ..Default::default()
        }),
    };
    let merged = base.merge_with(&overlay);
    assert_eq!(merged.mac_address, "AA:BB:CC:DD:EE:FF");
    assert_eq!(merged.classic, overlay.classic);
    let le = merged.le.unwrap();
    assert_eq!(le.irk.as_deref(), Some("IRK-OVER"));
    assert_eq!(le.address_type.as_deref(), Some("public"));
    assert_eq!(le.csrk_local, Some(CsrkKey::new("C".to_string())));
    assert_eq!(le.ltk, None);
}

#[test]
fn merge_with_itself_changes_nothing() {
    let ltk = LeLongTermKey {
        key: "FEDCBA9876543210FEDCBA9876543210".to_string(),
        authenticated: Some(1),
        enc_size: None,
        ediv: Some(7),
        rand: Some(u64::MAX),
    };
    let mut device = BluetoothDevice::le_with_ltk("AA:BB:CC:DD:EE:FF".to_string(), ltk);
    device.classic = Some(bluevein::bluetooth::ClassicKeys::new("K".to_string()));
    assert_eq!(device.merge_with(&device), device);
    let bare =
        BluetoothDevice { mac_address: "AA:BB:CC:DD:EE:FF".to_string(), classic: None, le: None };
    assert_eq!(bare.merge_with(&bare), bare);
    assert!(!bare.has_keys());
}

#[test]
fn merge_csrk_keeps_the_higher_counter() {
    let a = CsrkKey { key: "K".to_string(), counter: 9, authenticated: false };
    let b = CsrkKey { key: "K".to_string(), counter: 5, authenticated: true };
    let m = bluevein::bluetooth::merge_csrk(Some(&a), Some(&b)).unwrap();
    assert_eq!(m, CsrkKey { key: "K".to_string(), counter: 9, authenticated: true });
    let m = bluevein::bluetooth::merge_csrk(Some(&b), Some(&a)).unwrap();
    assert_eq!(m, CsrkKey { key: "K".to_string(), counter: 9, authenticated: true });
}

#[test]
fn merge_csrk_prefers_the_document_for_another_key() {
    let a = CsrkKey { key: "K1".to_string(), counter: 9, authenticated: true };
    let b = CsrkKey { key: "K2".to_string(), counter: 5, authenticated: false };
    assert_eq!(bluevein::bluetooth::merge_csrk(Some(&a), Some(&b)), Some(b.clone()));
    assert_eq!(bluevein::bluetooth::merge_csrk(Some(&a), None), Some(a.clone()));
    assert_eq!(bluevein::bluetooth::merge_csrk(None, Some(&b)), Some(b));
    assert_eq!(bluevein::bluetooth::merge_csrk(None, None), None);
}

#[test]
fn devices_equal_ignores_the_address() {
    let a = BluetoothDevice::classic("AA:BB:CC:DD:EE:FF".to_string(), "K".to_string());
    let b = BluetoothDevice::classic("11:22:33:44:55:66".to_string(), "K".to_string());
    let c = BluetoothDevice::classic("AA:BB:CC:DD:EE:FF".to_string(), "L".to_string());
    assert!(bluevein::bluetooth::devices_equal(&a, &b));
    assert!(!bluevein::bluetooth::devices_equal(&a, &c));
}

#[test]
fn store_error_messages() {
    assert_eq!(StoreError::NotFound("gone".to_string()).to_string(), "gone");
    assert_eq!(StoreError::StoreUnavailable("no root".to_string()).to_string(), "no root");
    assert_eq!(StoreError::PlatformError("denied".to_string()).to_string(), "denied");
    let e = validate_bluetooth_key("zz", "LinkKey").unwrap_err();
    assert_eq!(
        StoreError::KeyValidation(e).to_string(),
        "LinkKey contains non-hexadecimal characters: zz"
    );
}
