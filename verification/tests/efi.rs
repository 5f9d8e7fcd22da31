use bluevein::efi::{
    find_mounted_efi, next_read_step, next_write_step, EfiError, MountProbe, RawRead, ReadEvent,
    ReadStep, WriteEvent, WriteStep,
};
use bluevein::shared::{
    link_key_text, read_link_key, update_common_file, Config, EfiCandidate, Platform,
};

fn probe(path: &str, is_dir: bool, has_efi: bool) -> MountProbe {
    MountProbe { path: path.to_string(), is_dir, has_efi }
}

#[test]
fn the_first_mounted_partition_is_taken() {
    let probes = vec![
        probe("/boot/efi", true, false),
        probe("/efi", false, true),
        probe("/boot", true, true),
        probe("/mnt", true, true),
    ];
    assert_eq!(find_mounted_efi(&probes).as_deref(), Some("/boot"));
    let first_two = vec![probe("/boot/efi", true, false), probe("/efi", false, true)];
    assert_eq!(find_mounted_efi(&first_two), None);
    assert_eq!(find_mounted_efi(&Vec::new()), None);
}

#[test]
fn error_messages() {
    assert_eq!(EfiError::NotFound.to_string(), "Configuration file not found on EFI partition");
    assert_eq!(EfiError::ReadError("x".to_string()).to_string(), "Failed to read from EFI: x");
    assert_eq!(EfiError::WriteError("y".to_string()).to_string(), "Failed to write to EFI: y");
    assert_eq!(EfiError::ParseError("z".to_string()).to_string(), "Failed to parse config: z");
}

#[test]
fn reading_prefers_the_mounted_view() {
    assert_eq!(
        next_read_step(ReadEvent::Start { mount: Some("/boot/efi".to_string()) }),
        ReadStep::Probe {
            mount: "/boot/efi".to_string(),
            path: "/boot/efi/bluevein.json".to_string()
        }
    );
    assert_eq!(next_read_step(ReadEvent::Start { mount: None }), ReadStep::ReadRaw);
    assert_eq!(
        next_read_step(ReadEvent::Probed { mounted_at: "/efi".to_string(), exists: true }),
        ReadStep::ReadMounted { path: "/efi/bluevein.json".to_string() }
    );
    // A document that the mounted view does not hold does not exist.
    assert_eq!(
        next_read_step(ReadEvent::Probed { mounted_at: "/efi".to_string(), exists: false }),
        ReadStep::Fail { error: EfiError::NotFound }
    );
    assert_eq!(
        next_read_step(ReadEvent::MountedRead { result: Ok("{}".to_string()) }),
        ReadStep::Parse { text: "{}".to_string() }
    );
    assert_eq!(
        next_read_step(ReadEvent::MountedRead { result: Err("denied".to_string()) }),
        ReadStep::ReadRaw
    );
}

#[test]
fn reading_the_raw_volume() {
    let fail = |outcome: RawRead| match next_read_step(ReadEvent::RawDone { outcome }) {
        ReadStep::Fail { error } => error,
        other => panic!("{:?}", other),
    };
    assert_eq!(
        fail(RawRead::OpenFailed("busy".to_string())),
        EfiError::ReadError("Failed to open ESP partition: busy".to_string())
    );
    assert_eq!(
        fail(RawRead::NoPartition),
        EfiError::ReadError("ESP partition not found".to_string())
    );
    assert_eq!(
        fail(RawRead::ReadFailed("crc".to_string())),
        EfiError::ReadError("Failed to read bluevein.json: crc".to_string())
    );
    assert_eq!(fail(RawRead::Missing), EfiError::NotFound);
    assert_eq!(
        fail(RawRead::InvalidText("byte 3".to_string())),
        EfiError::ParseError("Invalid UTF-8 in config file: byte 3".to_string())
    );
    assert_eq!(
        next_read_step(ReadEvent::RawDone { outcome: RawRead::Text("{}".to_string()) }),
        ReadStep::Parse { text: "{}".to_string() }
    );
}

#[test]
fn writing_falls_back_to_the_raw_volume() {
    assert_eq!(
        next_write_step(WriteEvent::Start { mount: Some("/boot".to_string()) }),
        WriteStep::WriteMounted { path: "/boot/bluevein.json".to_string() }
    );
    assert_eq!(next_write_step(WriteEvent::Start { mount: None }), WriteStep::OpenRaw);
    assert_eq!(next_write_step(WriteEvent::MountedWritten { result: Ok(()) }), WriteStep::Flush);
    assert_eq!(
        next_write_step(WriteEvent::MountedWritten { result: Err("ro".to_string()) }),
        WriteStep::OpenRaw
    );
    assert_eq!(next_write_step(WriteEvent::RawOpened { opened: Ok(true) }), WriteStep::ProbeRaw);
    assert_eq!(next_write_step(WriteEvent::RawProbed { exists: true }), WriteStep::WriteRaw);
    assert_eq!(next_write_step(WriteEvent::RawProbed { exists: false }), WriteStep::CreateRaw);
    assert_eq!(next_write_step(WriteEvent::RawCreated { result: Ok(()) }), WriteStep::WriteRaw);
    assert_eq!(next_write_step(WriteEvent::RawWritten { result: Ok(()) }), WriteStep::Flush);
}

#[test]
fn writing_fails_only_on_the_raw_volume() {
    let fail = |event: WriteEvent| match next_write_step(event) {
        WriteStep::Fail { error } => error,
        other => panic!("{:?}", other),
    };
    assert_eq!(
        fail(WriteEvent::SerializeFailed { reason: "nan".to_string() }),
        EfiError::WriteError("Failed to serialize config: nan".to_string())
    );
    assert_eq!(
        fail(WriteEvent::RawOpened { opened: Ok(false) }),
        EfiError::WriteError("ESP partition not found".to_string())
    );
    assert_eq!(
        fail(WriteEvent::RawOpened { opened: Err("busy".to_string()) }),
        EfiError::WriteError("Failed to open ESP partition: busy".to_string())
    );
    assert_eq!(
        fail(WriteEvent::RawCreated { result: Err("full".to_string()) }),
        EfiError::WriteError("Failed to create bluevein.json: full".to_string())
    );
    assert_eq!(
        fail(WriteEvent::RawWritten { result: Err("io".to_string()) }),
        EfiError::WriteError("Failed to write bluevein.json: io".to_string())
    );
}

fn candidate(probe: &str, root: &str, exists: bool) -> EfiCandidate {
    EfiCandidate { probe: probe.to_string(), root: root.to_string(), exists }
}

#[test]
fn settings_find_the_partition() {
    let candidates = vec![
        candidate("A:\\EFI", "A:", false),
        candidate("B:\\EFI", "B:", true),
        candidate("C:\\EFI", "C:", true),
    ];
    assert_eq!(Config::find_efi(&candidates).as_deref(), Some("B:"));
    assert_eq!(Config::find_efi(&vec![candidate("A:\\EFI", "A:", false)]), None);
    let config = Config::default(Platform::Linux, Config::find_efi(&candidates));
    assert_eq!(config, Config { efi_path: "B:".to_string(), adapter_mac: None });
    assert_eq!(config.keys_path(), "B:/bt_keys.json");
    assert_eq!(config.clone(), config);
    assert_eq!(Config::default(Platform::Linux, None).efi_path, "/boot/efi");
    assert_eq!(Config::default(Platform::Windows, None).efi_path, "C:\\EFI");
}

#[test]
fn link_key_is_the_first_key_line() {
    assert_eq!(read_link_key("[LinkKey]\nKey=ABC\nKey=DEF\n").as_deref(), Some("ABC"));
    assert_eq!(read_link_key("Key=\n").as_deref(), Some(""));
    assert_eq!(read_link_key("[LinkKey]\r\nKey=ABC\r\n").as_deref(), Some("ABC"));
    assert_eq!(read_link_key("Key=ABC\r").as_deref(), Some("ABC\r"));
    assert_eq!(read_link_key("Key=A \n").as_deref(), Some("A "));
    assert_eq!(read_link_key(" Key=ABC\nkey=abc\nKe\n"), None);
    assert_eq!(read_link_key(""), None);
    for text in ["Key=ABC\r\nx", "a\nKey=1\r", "Key=\r\n", "\r\nKey=x\r\r\n"] {
        let expected =
            text.lines().find(|l| l.starts_with("Key=")).map(|l| l[4..].to_string());
        assert_eq!(read_link_key(text), expected);
    }
}

#[test]
fn key_file_gains_the_device_in_capitals() {
    let first = update_common_file(None, "AA:BB", "11:22:aa:bb", "k1");
    assert_eq!(first.adapter_mac, "AA:BB");
    assert_eq!(first.devices.len(), 1);
    assert_eq!(first.devices.get("11:22:AA:BB").map(|s| s.as_str()), Some("k1"));
    let second = update_common_file(Some(first), "CC:DD", "33:44", "k2");
    assert_eq!(second.adapter_mac, "CC:DD");
    assert_eq!(second.devices.len(), 2);
    let third = update_common_file(Some(second), "CC:DD", "11:22:AA:bb", "k3");
    assert_eq!(third.devices.len(), 2);
    assert_eq!(third.devices.get("11:22:AA:BB").map(|s| s.as_str()), Some("k3"));
    assert_eq!(third.devices.get("33:44").map(|s| s.as_str()), Some("k2"));
}

#[test]
fn link_key_text_is_lower_case_hex_of_sixteen_bytes() {
    let bytes: Vec<u8> = (0u8..16).map(|i| i * 17).collect();
    assert_eq!(link_key_text(&bytes).as_deref(), Some("00112233445566778899aabbccddeeff"));
    assert_eq!(link_key_text(&bytes[..15].to_vec()), None);
    assert_eq!(link_key_text(&Vec::new()), None);
}
