use sound_link::router::delay_buffer::DelayBuffer;
use sound_link::router::device_table::DeviceTable;
use sound_link::router::router::{parse_cmdlet_value, routes_to};
use sound_link::router::{AudioRouter, RouterConfig, RouterDevice};

fn device(id: &str, volume: f32, delay_ms: u32, enabled: bool) -> RouterDevice {
    RouterDevice {
        id: id.to_string(),
        name: format!("{} name", id),
        volume: volume.to_bits(),
        delay_ms,
        enabled,
    }
}

fn configured_router() -> AudioRouter {
    let mut router = AudioRouter::new(Some("cable".to_string()));
    router.update_config(RouterConfig {
        devices: vec![
            device("d1", 0.5, 100, true),
            device("d2", 0.9, 20, false),
            device("d3", 1.0, 0, true),
            device("cable", 1.0, 0, true),
        ],
    });
    router
}

#[test]
fn start_needs_the_cable() {
    let router = AudioRouter::new(None);
    assert_eq!(
        router.start_check(),
        Err("未检测到 VB-Cable 虚拟设备，请先安装 VB-Cable".to_string())
    );
    let status = router.get_virtual_device_status(Some("ignored".to_string()));
    assert!(!status.is_installed);
    assert_eq!(status.device_id, None);
    assert_eq!(status.device_name, None);
}

#[test]
fn virtual_device_status_names_the_cable() {
    let router = AudioRouter::new(Some("cable".to_string()));
    let status = router.get_virtual_device_status(Some("CABLE Input".to_string()));
    assert!(status.is_installed);
    assert_eq!(status.device_id, Some("cable".to_string()));
    assert_eq!(status.device_name, Some("CABLE Input".to_string()));
    assert_eq!(router.vb_cable_id(), Some("cable".to_string()));
}

#[test]
fn start_routes_to_enabled_targets_without_the_cable() {
    let mut router = configured_router();
    assert_eq!(router.start_check(), Ok("cable".to_string()));
    assert!(router.record_original_default("speakers".to_string()));
    assert!(router.start_delays_fit(&vec!["d1".to_string()]));
    let targets = vec!["cable".to_string(), "d1".to_string(), "d2".to_string()];
    let valid = router.finish_start(targets, Some("CABLE Input".to_string())).unwrap();
    assert_eq!(valid, vec!["d1".to_string(), "d2".to_string()]);
    assert!(router.is_running());
    // d2 is disabled, d3 is not a target, the cable is never routed.
    assert!(router.shared_volumes().contains_key("d1"));
    assert!(!router.shared_volumes().contains_key("d2"));
    assert!(!router.shared_volumes().contains_key("d3"));
    assert!(!router.shared_volumes().contains_key("cable"));
    assert_eq!(router.shared_volumes().get("d1"), Some(&0.5f32.to_bits()));
    assert_eq!(router.shared_delays().get("d1"), Some(&100));
    let status = router.get_status();
    assert!(status.is_running);
    assert_eq!(status.source_device_id, Some("cable".to_string()));
    assert_eq!(status.source_device_name, Some("CABLE Input".to_string()));
    assert_eq!(status.original_default_device_id, Some("speakers".to_string()));
    assert_eq!(status.target_devices.len(), 4);
    assert_eq!(router.start_check(), Err("Router already running".to_string()));
}

#[test]
fn stop_hands_back_the_default_device() {
    let mut router = configured_router();
    router.record_original_default("speakers".to_string());
    router.finish_start(vec!["d1".to_string()], None).unwrap();
    assert_eq!(router.stop(), Some("speakers".to_string()));
    assert!(!router.is_running());
    assert_eq!(router.get_status().original_default_device_id, None);
    assert_eq!(router.stop(), None);
}

#[test]
fn no_switch_when_the_cable_is_already_default() {
    let mut router = configured_router();
    assert!(!router.record_original_default("cable".to_string()));
}

#[test]
fn only_the_cable_as_target_fails_and_restores() {
    let mut router = configured_router();
    router.record_original_default("speakers".to_string());
    let outcome = router.finish_start(vec!["cable".to_string()], None);
    assert_eq!(
        outcome,
        Err((Some("speakers".to_string()), "没有有效的目标设备".to_string()))
    );
    assert!(!router.is_running());
    assert_eq!(router.get_status().source_device_id, Some("cable".to_string()));
}

#[test]
fn validation_marks_targets_equal_to_the_default() {
    let router = AudioRouter::new(None);
    let ids = vec!["a".to_string(), "b".to_string(), "a".to_string()];
    let result = router.validate_targets(&ids, Some("a".to_string()));
    assert!(result.has_conflicts);
    assert_eq!(result.conflict_devices, vec!["a".to_string(), "a".to_string()]);
    assert_eq!(result.warning, "源设备将被自动排除以避免回音");
    let result = router.validate_targets(&ids, None);
    assert!(!result.has_conflicts);
    assert!(result.conflict_devices.is_empty());
    assert_eq!(result.warning, "");
}

#[test]
fn volume_and_delay_settings_reach_config_and_loop() {
    let mut router = configured_router();
    router.set_device_volume("d1", 0.25f32.to_bits());
    router.set_device_delay("d3", 40);
    router.set_device_volume("unknown", 0.1f32.to_bits());
    let config = router.get_config();
    assert_eq!(config.devices[0].volume, 0.25f32.to_bits());
    assert_eq!(config.devices[2].delay_ms, 40);
    assert_eq!(router.shared_volumes().get("d1"), Some(&0.25f32.to_bits()));
    assert_eq!(router.shared_volumes().get("unknown"), Some(&0.1f32.to_bits()));
    assert_eq!(router.shared_delays().get("d3"), Some(&40));
}

#[test]
fn cmdlet_output_parsing() {
    assert_eq!(parse_cmdlet_value("  {0.0.0.1}\r\n"), Some("{0.0.0.1}".to_string()));
    assert_eq!(parse_cmdlet_value("\r\n"), None);
    assert_eq!(parse_cmdlet_value("Active code page: 65001\r\n"), None);
}

#[test]
fn default_config_is_empty() {
    assert_eq!(RouterConfig::default().devices.len(), 0);
    let d = device("x", 0.3, 5, true);
    let copy = d.duplicate();
    assert_eq!(copy.id, "x");
    assert_eq!(copy.volume, 0.3f32.to_bits());
}

#[test]
fn start_delay_check_looks_only_at_routed_devices() {
    let mut router = AudioRouter::new(Some("cable".to_string()));
    router.update_config(RouterConfig {
        devices: vec![device("d1", 1.0, 10, true), device("big", 1.0, u32::MAX, true)],
    });
    assert!(router.start_delays_fit(&vec!["d1".to_string()]));
    let big_fits = u32::MAX as u128 * 48000 / 1000 * 2 <= usize::MAX as u128;
    assert_eq!(router.start_delays_fit(&vec!["big".to_string()]), big_fits);
}

#[test]
fn delay_change_check_needs_a_delay_line() {
    let mut router = configured_router();
    // No delay line yet: any delay can be set.
    assert!(router.delay_change_fits("d1", u32::MAX));
    router.set_device_delay("d1", u32::MAX);
    assert_eq!(router.get_config().devices[0].delay_ms, u32::MAX);
    router.set_device_delay("d1", 100);
    router.record_original_default("speakers".to_string());
    router.finish_start(vec!["d1".to_string()], None).unwrap();
    assert!(router.delay_change_fits("d1", 50));
}

#[test]
fn routes_to_needs_enabled_and_targeted() {
    let targets = vec!["d1".to_string()];
    assert!(routes_to(&device("d1", 1.0, 0, true), &targets));
    assert!(!routes_to(&device("d1", 1.0, 0, false), &targets));
    assert!(!routes_to(&device("d2", 1.0, 0, true), &targets));
}

#[test]
fn delay_lines_push_apply_and_pop() {
    let mut lines: DeviceTable<DelayBuffer> = DeviceTable::new();
    lines.insert("a".to_string(), DelayBuffer::new(1, 1000, 2));
    lines.insert("b".to_string(), DelayBuffer::new(2, 1000, 2));
    assert!(lines.push_fits(6));
    lines.push_to_all(&[1, 2, 3, 4, 5, 6]);
    assert_eq!(lines.get("a").unwrap().len(), 6);
    assert_eq!(lines.get("b").unwrap().len(), 6);

    let mut delays: DeviceTable<u32> = DeviceTable::new();
    delays.insert("b".to_string(), 0);
    delays.insert("zzz".to_string(), 7);
    assert!(lines.delays_fit_lines(&delays, 1000));
    lines.apply_delays(&delays, 1000);
    assert_eq!(lines.get("a").unwrap().delay_samples(), 2);
    assert_eq!(lines.get("b").unwrap().delay_samples(), 2);

    assert_eq!(lines.pop_frames_of("a", 3), Some(vec![1, 2, 3, 4, 0, 0]));
    assert_eq!(lines.pop_frames_of("missing", 1), None);
    lines.set_delay_of("a", 0, 1000);
    assert_eq!(lines.get("a").unwrap().delay_samples(), 2);
    assert_eq!(lines.get("b").unwrap().len(), 6);
}

#[test]
fn delay_lines_refuse_too_long_a_delay() {
    let mut lines: DeviceTable<DelayBuffer> = DeviceTable::new();
    lines.insert("a".to_string(), DelayBuffer::new(1, 1000, usize::MAX / 2));
    let mut delays: DeviceTable<u32> = DeviceTable::new();
    delays.insert("a".to_string(), 3);
    assert!(!lines.delays_fit_lines(&delays, 1000));
}
