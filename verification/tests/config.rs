use bluevein::bluetooth::BluetoothDevice;
use bluevein::config::BlueVeinConfig;
use bluevein::strmap::StrMap;

#[test]
fn test_update_device() {
    let mut config = BlueVeinConfig::new();
    let device = BluetoothDevice::classic("AA:BB:CC:DD:EE:FF".to_string(), "KEY123".to_string());
    config.update_device("00:11:22:33:44:55".to_string(), device);

    let stored = config.get_device("00:11:22:33:44:55", "AA:BB:CC:DD:EE:FF").unwrap();
    assert_eq!(stored.classic.as_ref().unwrap().link_key, "KEY123");
}

#[test]
fn update_device_twice_is_as_once() {
    let device = BluetoothDevice::classic("AA:BB:CC:DD:EE:FF".to_string(), "KEY123".to_string());
    let mut once = BlueVeinConfig::new();
    once.update_device("00:11:22:33:44:55".to_string(), device.clone());
    let mut twice = BlueVeinConfig::new();
    twice.update_device("00:11:22:33:44:55".to_string(), device.clone());
    twice.update_device("00:11:22:33:44:55".to_string(), device.clone());
    assert_eq!(twice.adapters.len(), 1);
    let devices = twice.get_adapter_devices("00:11:22:33:44:55").unwrap();
    assert_eq!(devices.len(), 1);
    assert_eq!(
        twice.get_device("00:11:22:33:44:55", "AA:BB:CC:DD:EE:FF"),
        once.get_device("00:11:22:33:44:55", "AA:BB:CC:DD:EE:FF")
    );
}

#[test]
fn update_device_replaces_and_keeps_the_others() {
    let mut config = BlueVeinConfig::new();
    config.update_device(
        "A".to_string(),
        BluetoothDevice::classic("D1".to_string(), "K1".to_string()),
    );
    config.update_device(
        "A".to_string(),
        BluetoothDevice::classic("D2".to_string(), "K2".to_string()),
    );
    config.update_device(
        "A".to_string(),
        BluetoothDevice::classic("D1".to_string(), "K3".to_string()),
    );
    assert_eq!(config.get_device("A", "D1").unwrap().classic.as_ref().unwrap().link_key, "K3");
    assert_eq!(config.get_device("A", "D2").unwrap().classic.as_ref().unwrap().link_key, "K2");
    assert!(config.get_device("A", "D3").is_none());
    assert!(config.get_device("B", "D1").is_none());
    assert!(config.get_adapter_devices("B").is_none());
    let copy = config.clone();
    assert_eq!(copy.get_device("A", "D1"), config.get_device("A", "D1"));
    assert_eq!(copy.get_adapter_devices("A").unwrap().len(), 2);
}

#[test]
fn set_adapter_devices_replaces_the_adapter() {
    let mut config = BlueVeinConfig::new();
    config.update_device(
        "A".to_string(),
        BluetoothDevice::classic("D1".to_string(), "K1".to_string()),
    );
    let mut devices = StrMap::new();
    assert!(devices.is_empty());
    assert!(devices
        .insert("D9".to_string(), BluetoothDevice::classic("D9".to_string(), "K9".to_string()))
        .is_none());
    assert!(devices.contains_key("D9"));
    assert_eq!(devices.key_at(0), "D9");
    config.set_adapter_devices("A".to_string(), devices);
    assert!(config.get_device("A", "D1").is_none());
    assert_eq!(config.get_device("A", "D9").unwrap().mac_address, "D9");
}

#[test]
fn map_keeps_the_order_of_first_arrival() {
    let mut map: StrMap<String> = StrMap::new();
    map.insert("b".to_string(), "1".to_string());
    map.insert("a".to_string(), "2".to_string());
    let old = map.insert("b".to_string(), "3".to_string());
    assert_eq!(old.as_deref(), Some("1"));
    assert_eq!(map.len(), 2);
    assert_eq!(map.key_at(0), "b");
    assert_eq!(map.value_at(0), "3");
    assert_eq!(map.key_at(1), "a");
    assert_eq!(map.get("a").map(|s| s.as_str()), Some("2"));
    assert!(map.get("c").is_none());
}
