use sound_link::devices::audio::{
    device_info_from_lowercase, extract_hardware_name, extract_hardware_name_english,
    parse_device_info, try_parse_device_info,
};
use sound_link::devices::{AudioDeviceManager, Device, DeviceCategory};

fn info(id: &str, raw: &str) -> (String, String) {
    parse_device_info(id, raw)
}

#[test]
fn chinese_headphones_take_name_in_parentheses() {
    assert_eq!(
        info("{0.0.0}", "耳机 (Realtek(R) Audio)"),
        ("headphones".to_string(), "Realtek(R) Audio".to_string())
    );
}

#[test]
fn chinese_speakers_without_parentheses_drop_the_word() {
    assert_eq!(info("x", "扬声器 Realtek "), ("speakers".to_string(), "Realtek".to_string()));
    assert_eq!(extract_hardware_name("扬声器A扬声器B", "扬声器"), "AB");
}

#[test]
fn english_kind_is_found_whatever_the_case() {
    assert_eq!(
        info("x", "Headphones (USB Audio)"),
        ("headphones".to_string(), "USB Audio".to_string())
    );
    assert_eq!(
        info("x", "REALTEK HEADPHONE OUT"),
        ("headphones".to_string(), "REALTEK HEADPHONE OUT".to_string())
    );
    assert_eq!(info("x", "Speakers"), ("speakers".to_string(), "Speakers".to_string()));
    assert_eq!(extract_hardware_name_english("Speakers (Pro)", "speaker"), "Pro");
}

#[test]
fn hdmi_from_name_or_id() {
    assert_eq!(info("x", "HDMI Output"), ("hdmi".to_string(), "HDMI Output".to_string()));
    assert_eq!(info("{HDMI-1}", "LG TV"), ("hdmi".to_string(), "LG TV".to_string()));
}

#[test]
fn bluetooth_in_either_language() {
    assert_eq!(
        info("x", "Bluetooth Earbuds"),
        ("bluetooth".to_string(), "Bluetooth Earbuds".to_string())
    );
    assert_eq!(info("x", "蓝牙音箱"), ("bluetooth".to_string(), "蓝牙音箱".to_string()));
}

#[test]
fn other_devices_are_speakers_with_their_name() {
    assert_eq!(info("x", "Digital Output"), ("speakers".to_string(), "Digital Output".to_string()));
}

#[test]
fn parentheses_out_of_order_are_refused() {
    assert_eq!(try_parse_device_info("x", "Speaker )x("), None);
    // Without a kind word the name is kept whatever its parentheses.
    assert_eq!(
        try_parse_device_info("x", "Digital )x("),
        Some(("speakers".to_string(), "Digital )x(".to_string()))
    );
}

fn summary(d: &Device) -> (String, String, String) {
    assert!(d.category == DeviceCategory::Audio);
    (d.id.clone(), d.name.clone(), d.device_type.clone())
}

#[test]
fn listing_skips_banner_blank_and_malformed_lines() {
    let manager = AudioDeviceManager::new();
    let listing =
        "Active code page: 65001\r\n{a}|耳机 (Realtek Audio)\r\n\r\n  \r\nno bar here\r\n{b}|Digital Output|x\r\n";
    let devices = manager.devices_from_listing(listing).unwrap();
    let got: Vec<_> = devices.iter().map(summary).collect();
    assert_eq!(
        got,
        vec![
            ("{a}".to_string(), "Realtek Audio".to_string(), "headphones".to_string()),
            ("{b}".to_string(), "Digital Output|x".to_string(), "speakers".to_string()),
        ]
    );
}

#[test]
fn empty_listing_has_no_devices() {
    let manager = AudioDeviceManager::new();
    assert_eq!(manager.devices_from_listing("").unwrap().len(), 0);
    assert_eq!(manager.devices_from_listing("\n\n").unwrap().len(), 0);
}

#[test]
fn listing_with_a_refused_name_is_refused() {
    let manager = AudioDeviceManager::new();
    assert!(manager.devices_from_listing("{a}|Headphone )x(\n").is_none());
}

#[test]
fn module_listing_check() {
    assert!(AudioDeviceManager::is_module_installed(
        "\r\nModuleType Version Name\r\nScript 3.1.0.2 AudioDeviceCmdlets\r\n"
    ));
    assert!(!AudioDeviceManager::is_module_installed(""));
    assert!(!AudioDeviceManager::is_module_installed("audiodevicecmdlets"));
}

#[test]
fn naming_from_given_lowercase_forms() {
    // The kind is read from the lowercase forms handed in.
    assert_eq!(
        device_info_from_lowercase("Out (Front)", "speaker out (front)", "x"),
        Some(("speakers".to_string(), "Front".to_string()))
    );
    assert_eq!(
        device_info_from_lowercase("TV", "tv", "{hdmi-2}"),
        Some(("hdmi".to_string(), "TV".to_string()))
    );
    assert_eq!(
        device_info_from_lowercase("Digital", "digital", "x"),
        Some(("speakers".to_string(), "Digital".to_string()))
    );
    assert_eq!(device_info_from_lowercase("Head )x(", "headphone )x(", "x"), None);
    assert_eq!(
        device_info_from_lowercase("耳机 Realtek", "耳机 realtek", "x"),
        Some(("headphones".to_string(), "Realtek".to_string()))
    );
}
