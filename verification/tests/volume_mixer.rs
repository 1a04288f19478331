use sound_link::router::volume_mixer::{clamp_unit_bits, VolumeMixer, UNITY};

fn vol(v: f32) -> u32 {
    v.to_bits()
}

fn as_f32(b: u32) -> f32 {
    f32::from_bits(b)
}

fn scale(sample: u32, volume: u32) -> u32 {
    (f32::from_bits(sample) * f32::from_bits(volume)).to_bits()
}

#[test]
fn test_volume_mixer() {
    let mut mixer = VolumeMixer::new();

    mixer.add_device("device1", vol(0.8));
    mixer.add_device("device2", vol(0.6));

    assert_eq!(as_f32(mixer.get_volume("device1")), 0.8);
    assert_eq!(as_f32(mixer.get_volume("device2")), 0.6);

    let mut samples: Vec<u32> = vec![vol(1.0), vol(1.0), vol(1.0)];
    mixer.apply_volume("device1", &mut samples, scale);
    let samples: Vec<f32> = samples.into_iter().map(as_f32).collect();
    assert_eq!(samples, vec![0.8, 0.8, 0.8]);
}

#[test]
fn test_sync_mode() {
    let mut mixer = VolumeMixer::new();
    mixer.set_sync_mode(true);
    mixer.set_master_device(Some("device1".to_string()));

    mixer.add_device("device1", vol(0.8));
    mixer.add_device("device2", vol(0.6));

    mixer.set_volume("device1", vol(0.5));

    assert_eq!(as_f32(mixer.get_volume("device1")), 0.5);
    assert_eq!(as_f32(mixer.get_volume("device2")), 0.5);
}

#[test]
fn unknown_device_reads_unity_and_is_left_alone() {
    let mixer = VolumeMixer::default();
    assert_eq!(mixer.get_volume("nothing"), UNITY);
    assert_eq!(as_f32(UNITY), 1.0);
    let mut samples = vec![vol(0.3), vol(-0.7)];
    mixer.apply_volume("nothing", &mut samples, scale);
    assert_eq!(samples, vec![vol(0.3), vol(-0.7)]);
}

#[test]
fn set_volume_clamps_to_unit_range() {
    let mut mixer = VolumeMixer::new();
    mixer.set_volume("a", vol(1.5));
    assert_eq!(as_f32(mixer.get_volume("a")), 1.0);
    mixer.set_volume("a", vol(-0.5));
    assert_eq!(mixer.get_volume("a"), vol(0.0));
    mixer.set_volume("a", vol(0.25));
    assert_eq!(as_f32(mixer.get_volume("a")), 0.25);
    mixer.set_volume("a", vol(f32::INFINITY));
    assert_eq!(as_f32(mixer.get_volume("a")), 1.0);
    mixer.set_volume("a", vol(f32::NEG_INFINITY));
    assert_eq!(mixer.get_volume("a"), vol(0.0));
    mixer.set_volume("a", vol(-0.0));
    assert_eq!(mixer.get_volume("a"), vol(-0.0));
    mixer.set_volume("a", vol(f32::NAN));
    assert!(as_f32(mixer.get_volume("a")).is_nan());
}

#[test]
fn clamp_matches_f32_clamp() {
    let values = [
        -2.0f32, -1.0, -0.5, -0.0, 0.0, 1e-30, 0.5, 0.999, 1.0, 1.0001, 3.0, f32::MAX, f32::MIN,
        f32::INFINITY, f32::NEG_INFINITY,
    ];
    for v in values {
        assert_eq!(clamp_unit_bits(v.to_bits()), v.clamp(0.0, 1.0).to_bits(), "{}", v);
    }
    assert!(f32::from_bits(clamp_unit_bits(f32::NAN.to_bits())).is_nan());
}

#[test]
fn add_device_does_not_clamp() {
    let mut mixer = VolumeMixer::new();
    mixer.add_device("a", vol(2.0));
    assert_eq!(as_f32(mixer.get_volume("a")), 2.0);
}

#[test]
fn setting_another_device_in_sync_mode_leaves_the_rest() {
    let mut mixer = VolumeMixer::new();
    mixer.set_sync_mode(true);
    mixer.set_master_device(Some("m".to_string()));
    mixer.add_device("m", vol(0.9));
    mixer.add_device("o", vol(0.4));
    mixer.set_volume("o", vol(0.1));
    assert_eq!(as_f32(mixer.get_volume("m")), 0.9);
    assert_eq!(as_f32(mixer.get_volume("o")), 0.1);
    assert!(mixer.is_sync_mode());
    assert_eq!(mixer.master_device(), Some("m"));
}

#[test]
fn master_setting_outside_sync_mode_does_not_spread() {
    let mut mixer = VolumeMixer::new();
    mixer.set_master_device(Some("m".to_string()));
    mixer.add_device("m", vol(0.9));
    mixer.add_device("o", vol(0.4));
    mixer.set_volume("m", vol(0.2));
    assert_eq!(as_f32(mixer.get_volume("o")), 0.4);
}

#[test]
fn sync_from_master_copies_master_volume() {
    let mut mixer = VolumeMixer::new();
    mixer.add_device("m", vol(0.7));
    mixer.add_device("o", vol(0.4));
    mixer.add_device("p", vol(0.3));
    mixer.sync_from_master();
    assert_eq!(as_f32(mixer.get_volume("o")), 0.4);
    mixer.set_master_device(Some("m".to_string()));
    mixer.sync_from_master();
    assert_eq!(as_f32(mixer.get_volume("o")), 0.7);
    assert_eq!(as_f32(mixer.get_volume("p")), 0.7);
    assert_eq!(mixer.all_volumes().len(), 3);
}

#[test]
fn removing_the_master_picks_a_remaining_device() {
    let mut mixer = VolumeMixer::new();
    mixer.add_device("m", vol(0.7));
    mixer.add_device("o", vol(0.4));
    mixer.set_master_device(Some("m".to_string()));
    mixer.remove_device("m");
    assert_eq!(mixer.master_device(), Some("o"));
    assert!(!mixer.all_volumes().contains_key("m"));
    mixer.remove_device("o");
    assert_eq!(mixer.master_device(), None);
    assert_eq!(mixer.all_volumes().len(), 0);
}

#[test]
fn removing_another_device_keeps_the_master() {
    let mut mixer = VolumeMixer::new();
    mixer.add_device("m", vol(0.7));
    mixer.add_device("o", vol(0.4));
    mixer.set_master_device(Some("m".to_string()));
    mixer.remove_device("o");
    assert_eq!(mixer.master_device(), Some("m"));
}

#[test]
fn clear_removes_devices_and_master() {
    let mut mixer = VolumeMixer::new();
    mixer.add_device("m", vol(0.7));
    mixer.set_master_device(Some("m".to_string()));
    mixer.set_sync_mode(true);
    mixer.clear();
    assert_eq!(mixer.master_device(), None);
    assert_eq!(mixer.all_volumes().len(), 0);
    assert!(mixer.is_sync_mode());
}
